use sharkmanager::bookmarks::{
    add_bookmark, parse_bookmarks, remove_bookmark, rename_bookmark, serialize_bookmarks, Bookmark,
};
use sharkmanager::names::{candidate_name, first_free, unique_name};
use sharkmanager::uri::{parse_uri_list, percent_decode, percent_encode, uri_to_path};
use sharkmanager::xdg::{place_label, xdg_dir_key, xdg_user_dir_candidates};

fn bm(name: &str, path: &str) -> Bookmark {
    Bookmark { name: name.to_string(), path: path.to_string() }
}

fn pairs(v: &[Bookmark]) -> Vec<(String, String)> {
    v.iter().map(|b| (b.name.clone(), b.path.clone())).collect()
}

fn pair(a: &str, b: &str) -> (String, String) {
    (a.to_string(), b.to_string())
}

#[test]
fn numbered_candidates() {
    assert_eq!(candidate_name("report.pdf", 0), "report.pdf");
    assert_eq!(candidate_name("report.pdf", 2), "report (2).pdf");
    assert_eq!(candidate_name("archive.tar.gz", 1), "archive.tar (1).gz");
    assert_eq!(candidate_name(".bashrc", 1), ".bashrc (1)");
    assert_eq!(candidate_name("Untitled Folder", 3), "Untitled Folder (3)");
}

#[test]
fn unique_name_skips_taken_names() {
    // `/tmp` exists, so the first free name is numbered
    assert_eq!(unique_name("/", "tmp"), "tmp (1)");
    // nothing exists under a missing folder
    assert_eq!(unique_name("/no-such-folder-for-sharkmanager", "a.txt"), "a.txt");
}

#[test]
fn percent_encoding_round_trip() {
    assert_eq!(percent_encode("/home/me/My Docs"), "/home/me/My%20Docs");
    assert_eq!(percent_encode("/ü#"), "/%C3%BC%23");
    assert_eq!(percent_encode("a-b_c.d!~*'()"), "a-b_c.d!~*'()");
    for s in ["/home/me/My Docs", "/ü#%", "plain", "", "100% sure?"] {
        assert_eq!(percent_decode(&percent_encode(s)), s);
    }
}

#[test]
fn percent_decoding() {
    assert_eq!(percent_decode("a%20b"), "a b");
    assert_eq!(percent_decode("%41"), "A");
    assert_eq!(percent_decode("%4"), "%4");
    assert_eq!(percent_decode("%zz"), "%zz");
    assert_eq!(percent_decode("%c3%bc"), "ü");
    // invalid UTF-8 is replaced
    assert_eq!(percent_decode("%ff"), "\u{fffd}");
}

#[test]
fn uris_to_paths() {
    assert_eq!(uri_to_path("file:///home/me/a%20b/"), Some("/home/me/a b".to_string()));
    assert_eq!(uri_to_path("  file:///tmp/x  "), Some("/tmp/x".to_string()));
    assert_eq!(uri_to_path("http://example.com/x"), None);
    assert_eq!(uri_to_path("/plain/path"), Some("/plain/path".to_string()));
    assert_eq!(
        parse_uri_list("# comment\r\nfile:///tmp/a\r\n\r\n/tmp/b\nsmb://host/share\n"),
        vec!["/tmp/a".to_string(), "/tmp/b".to_string()]
    );
}

#[test]
fn bookmarks_file_format() {
    let text = "file:///home/me/Music Tunes\nfile:///home/me/My%20Docs\n\nhttp://x y\nfile:///home/me/Music Again\n  file:///srv   \n";
    let items = parse_bookmarks(text);
    assert_eq!(
        pairs(&items),
        vec![
            pair("Tunes", "/home/me/Music"),
            pair("My Docs", "/home/me/My Docs"),
            pair("srv", "/srv"),
        ]
    );
    let saved = serialize_bookmarks(&items);
    assert_eq!(
        saved,
        "file:///home/me/Music Tunes\nfile:///home/me/My%20Docs My Docs\nfile:///srv srv\n"
    );
    assert_eq!(pairs(&parse_bookmarks(&saved)), pairs(&items));
}

#[test]
fn bookmark_edits() {
    let mut items = vec![bm("Music", "/home/me/Music")];
    add_bookmark(&mut items, "/home/me/Music");
    assert_eq!(items.len(), 1);
    add_bookmark(&mut items, "/srv/data");
    assert_eq!(pairs(&items), vec![pair("Music", "/home/me/Music"), pair("data", "/srv/data")]);
    assert!(rename_bookmark(&mut items, "/srv/data", "data", "  Data Store "));
    assert_eq!(items[1].name, "Data Store");
    assert!(!rename_bookmark(&mut items, "/srv/data", "Data Store", "Data Store"));
    assert!(!rename_bookmark(&mut items, "/srv/data", "Data Store", "   "));
    remove_bookmark(&mut items, "/home/me/Music");
    assert_eq!(pairs(&items), vec![pair("Data Store", "/srv/data")]);
}

#[test]
fn xdg_user_dirs() {
    assert_eq!(xdg_dir_key("documents"), "XDG_DOCUMENTS_DIR");
    let user = "# comment\nXDG_DOCUMENTS_DIR=\"$HOME/Docs\"\nXDG_MUSIC_DIR=\"$HOME/Music\"\n";
    let system = "XDG_DOCUMENTS_DIR=\"/srv/shared docs\"\n";
    assert_eq!(
        xdg_user_dir_candidates(user, system, "DOCUMENTS", "/home/me"),
        vec![
            "/home/me/Docs".to_string(),
            "/srv/shared docs".to_string(),
            "/home/me/documents".to_string(),
        ]
    );
    assert_eq!(
        xdg_user_dir_candidates("", "", "DOWNLOAD", "/home/me"),
        vec!["/home/me/download".to_string()]
    );
    assert_eq!(place_label("/home/me/Docs", "DOCUMENTS"), "Docs");
    assert_eq!(place_label("/", "DOCUMENTS"), "documents");
}

#[test]
fn bookmarks_compare_folders_by_place() {
    let items = parse_bookmarks("file:///srv/data Data\nfile:///srv/data/ Again\n");
    assert_eq!(pairs(&items), vec![pair("Data", "/srv/data")]);
    let mut items = items;
    add_bookmark(&mut items, "/srv//data");
    assert_eq!(items.len(), 1);
    assert!(rename_bookmark(&mut items, "/srv/data/", "Data", "Store"));
    assert_eq!(pairs(&items), vec![pair("Store", "/srv/data")]);
    remove_bookmark(&mut items, "/srv/./data");
    assert!(items.is_empty());
}

#[test]
fn adding_then_removing_a_bookmark() {
    let start = vec![bm("Music", "/home/me/Music")];
    let mut a = vec![bm("Music", "/home/me/Music")];
    add_bookmark(&mut a, "/srv/data");
    add_bookmark(&mut a, "/srv/data");
    assert_eq!(a.len(), 2);
    remove_bookmark(&mut a, "/srv/data");
    let mut b = vec![bm("Music", "/home/me/Music")];
    remove_bookmark(&mut b, "/srv/data");
    assert_eq!(pairs(&a), pairs(&b));
    assert_eq!(pairs(&a), pairs(&start));
}

#[test]
fn file_uris_of_encoded_paths_read_back() {
    for p in ["/home/me/My Docs", "/tmp/ü x#1", "relative/a b", "/"] {
        let uri = format!("file://{}", percent_encode(p));
        let expected = if p.ends_with('/') { p.trim_end_matches('/').to_string() } else { p.to_string() };
        assert_eq!(uri_to_path(&uri), Some(expected));
    }
}

#[test]
fn first_free_picks_the_first_answer_that_says_free() {
    assert_eq!(first_free("report.tar.gz", &vec![false]), Some("report.tar.gz".to_string()));
    assert_eq!(first_free("report.tar.gz", &vec![true, false]), Some("report.tar (1).gz".to_string()));
    assert_eq!(first_free("notes", &vec![true, true, false, false]), Some("notes (2)".to_string()));
    assert_eq!(first_free("notes", &vec![true, true]), None);
    assert_eq!(first_free("notes", &vec![]), None);
}
