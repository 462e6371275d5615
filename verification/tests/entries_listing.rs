use sharkmanager::entry::{guess_icon_and_mime, thumb_cache_key, FileEntry};
use sharkmanager::listing::{
    arrange_listing, filter_listing, sort_col_from_name, sort_col_name, sort_entries, SortCol,
    SortState,
};

fn file(path: &str, len: u64, secs: i64) -> FileEntry {
    FileEntry::from_metadata(path, false, false, None, len, Some((secs, 0)), true)
}

fn folder(path: &str) -> FileEntry {
    FileEntry::from_metadata(path, true, false, None, 4096, Some((0, 0)), true)
}

fn names(v: &[FileEntry]) -> Vec<String> {
    v.iter().map(|e| e.name.clone()).collect()
}

fn pair(a: &str, b: &str) -> (String, String) {
    (a.to_string(), b.to_string())
}

#[test]
fn icon_and_type_by_extension() {
    assert_eq!(guess_icon_and_mime("/x/main.rs", false, false, true), pair("text-x-rust", "text/x-rust"));
    assert_eq!(guess_icon_and_mime("/x/a.png", false, false, true), pair("image-x-generic", "image/png"));
    assert_eq!(guess_icon_and_mime("/x/PHOTO.JPG", false, false, true), pair("image-x-generic", "image/jpeg"));
    assert_eq!(guess_icon_and_mime("/x/notes.md", false, false, true), pair("text-x-generic", "text/markdown"));
    assert_eq!(guess_icon_and_mime("/x/tool.py", false, false, true), pair("text-x-python", "text/plain"));
    assert_eq!(guess_icon_and_mime("/x/clip.mp4", false, false, true), pair("video-x-generic", "video/mp4"));
    assert_eq!(guess_icon_and_mime("/x/data.json", false, false, true), pair("text-json", "application/json"));
}

#[test]
fn icon_without_extension_or_for_folders_and_broken_links() {
    assert_eq!(
        guess_icon_and_mime("/x/Makefile", false, false, true),
        pair("text-x-generic", "application/octet-stream")
    );
    assert_eq!(guess_icon_and_mime("/x/docs", true, false, true), pair("folder", "inode/directory"));
    assert_eq!(
        guess_icon_and_mime("/x/dangling", false, true, false),
        pair("text-x-generic", "inode/symlink (broken)")
    );
    // a link whose target exists is judged like its target
    assert_eq!(guess_icon_and_mime("/x/link", true, true, true), pair("folder", "inode/directory"));
}

#[test]
fn entry_from_metadata() {
    let e = file("/home/me/.bashrc", 120, 10);
    assert_eq!(e.name, ".bashrc");
    assert!(e.is_hidden);
    assert!(!e.is_dir);
    assert_eq!(e.size, 120);
    let d = folder("/home/me/Music");
    assert!(d.is_dir);
    assert_eq!(d.size, 0);
    assert!(!d.is_hidden);
    // a link to a folder counts as a folder
    let l = FileEntry::from_metadata("/home/me/ln", false, true, Some(true), 7, None, true);
    assert!(l.is_dir && l.is_symlink);
    assert_eq!(l.size, 0);
    assert_eq!((l.modified_secs, l.modified_nanos), (0, 0));
    // the root has no file name: the whole path is the name
    let r = folder("/");
    assert_eq!(r.name, "/");
}

#[test]
fn listing_puts_folders_first_and_sorts_by_lowercase_name() {
    let v = vec![
        file("/d/beta.txt", 1, 0),
        folder("/d/Zeta"),
        file("/d/Alpha.txt", 1, 0),
        folder("/d/apps"),
        file("/d/.hidden", 1, 0),
    ];
    let out = arrange_listing(&v, false, "");
    assert_eq!(names(&out), vec!["apps", "Zeta", "Alpha.txt", "beta.txt"]);
    let all = arrange_listing(&v, true, "");
    assert_eq!(names(&all), vec!["apps", "Zeta", ".hidden", "Alpha.txt", "beta.txt"]);
}

#[test]
fn search_is_a_case_insensitive_substring() {
    let v = vec![file("/d/README.md", 1, 0), file("/d/notes.txt", 1, 0), folder("/d/Reports")];
    let out = filter_listing(&v, false, "RE");
    assert_eq!(names(&out), vec!["README.md", "Reports"]);
    let none = filter_listing(&v, false, "zzz");
    assert!(none.is_empty());
}

#[test]
fn column_sort_keeps_folders_first_both_ways() {
    let mut v = vec![
        file("/d/big", 300, 3),
        folder("/d/b-dir"),
        file("/d/small", 10, 1),
        folder("/d/a-dir"),
        file("/d/mid", 100, 2),
    ];
    sort_entries(&mut v, SortCol::Size, true);
    assert_eq!(names(&v), vec!["b-dir", "a-dir", "small", "mid", "big"]);
    sort_entries(&mut v, SortCol::Size, false);
    assert_eq!(names(&v), vec!["b-dir", "a-dir", "big", "mid", "small"]);
    sort_entries(&mut v, SortCol::Name, true);
    assert_eq!(names(&v), vec!["a-dir", "b-dir", "big", "mid", "small"]);
    sort_entries(&mut v, SortCol::Modified, false);
    assert_eq!(names(&v), vec!["a-dir", "b-dir", "big", "mid", "small"]);
    sort_entries(&mut v, SortCol::Modified, true);
    assert_eq!(names(&v), vec!["a-dir", "b-dir", "small", "mid", "big"]);
}

#[test]
fn type_sort_then_name() {
    let mut v = vec![file("/d/b.png", 1, 0), file("/d/a.txt", 1, 0), file("/d/a.png", 1, 0)];
    sort_entries(&mut v, SortCol::Type, true);
    assert_eq!(names(&v), vec!["a.png", "b.png", "a.txt"]);
}

#[test]
fn header_clicks_and_menu() {
    let mut s = SortState::new();
    assert_eq!(s, SortState { col: SortCol::Name, asc: true });
    assert_eq!(s.arrow_for(SortCol::Name), "▴");
    assert_eq!(s.arrow_for(SortCol::Size), "");
    s.set_sort(SortCol::Name);
    assert_eq!(s, SortState { col: SortCol::Name, asc: false });
    assert_eq!(s.arrow_for(SortCol::Name), "▾");
    s.set_sort(SortCol::Name);
    assert_eq!(s, SortState { col: SortCol::Name, asc: true });
    s.set_sort(SortCol::Size);
    assert_eq!(s, SortState { col: SortCol::Size, asc: true });
    s.flip_direction();
    s.choose_column(SortCol::Type);
    assert_eq!(s, SortState { col: SortCol::Type, asc: false });
    for col in [SortCol::Name, SortCol::Size, SortCol::Modified, SortCol::Type] {
        assert_eq!(sort_col_from_name(sort_col_name(col)), col);
    }
    assert_eq!(sort_col_from_name("bogus"), SortCol::Name);
}

#[test]
fn thumbnail_cache_key() {
    let e = file("/p/a.png", 10, 5);
    assert_eq!(thumb_cache_key(&e, 80, false), "/p/a.png|10|5|80|0");
    assert_eq!(thumb_cache_key(&e, -1, true), "/p/a.png|10|5|-1|1");
    let old = file("/p/b.png", 3, -20);
    assert_eq!(thumb_cache_key(&old, 80, true), "/p/b.png|3|0|80|1");
}

#[test]
fn the_icon_ignores_the_case_of_the_extension() {
    for (a, b) in [("/x/main.rs", "/x/main.RS"), ("/x/Song.Mp3", "/x/Song.mp3"), ("/x/a.TAR.GZ", "/x/a.tar.gz")] {
        assert_eq!(guess_icon_and_mime(a, false, false, true).0, guess_icon_and_mime(b, false, false, true).0);
    }
    assert_eq!(guess_icon_and_mime("/x/main.RS", false, false, true).0, "text-x-rust");
    assert_eq!(guess_icon_and_mime("/x/clip.MKV", false, false, true).0, "video-x-generic");
}
