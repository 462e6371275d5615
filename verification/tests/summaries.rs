use sharkmanager::entry::{format_at_offset, signed_epoch};
use sharkmanager::entry::FileEntry;
use sharkmanager::summary::{
    delete_question, describe_paths, files_total, folder_status, permissions, properties_multi,
    properties_title, selection_status, size_column, tab_title, label_dimmed, tile_look,
    total_size, trash_question, type_of, window_title, TileLook,
};

fn file(path: &str, len: u64) -> FileEntry {
    FileEntry::from_metadata(path, false, false, None, len, Some((0, 0)), true)
}

fn folder(path: &str) -> FileEntry {
    FileEntry::from_metadata(path, true, false, None, 0, Some((0, 0)), true)
}

fn paths(v: &[&str]) -> Vec<String> {
    v.iter().map(|p| p.to_string()).collect()
}

fn row(a: &str, b: &str) -> (String, String) {
    (a.to_string(), b.to_string())
}

#[test]
fn folder_counts() {
    assert_eq!(folder_status(&Vec::new()), "0 items");
    let v = vec![folder("/d/x"), file("/d/a", 1), file("/d/b", 2)];
    assert_eq!(folder_status(&v), "3 items · 1 folders, 2 files");
}

#[test]
fn selection_counts() {
    assert_eq!(selection_status(0, 0, 0), "");
    assert_eq!(selection_status(3, 0, 0), "3 selected");
    assert_eq!(selection_status(2, 1, 1536), "2 selected · 1 1.5 KB");
    assert_eq!(total_size(&vec![1, 2, 3]), Some(6));
    assert_eq!(total_size(&vec![u64::MAX, 1]), None);
    assert_eq!(total_size(&Vec::new()), Some(0));
}

#[test]
fn naming_items_in_questions() {
    assert_eq!(describe_paths(&paths(&["/home/me/a.txt"])), "a.txt");
    assert_eq!(describe_paths(&paths(&["/"])), "");
    assert_eq!(describe_paths(&paths(&["/d/x", "/d/y"])), "x, y");
    assert_eq!(describe_paths(&paths(&["/d/x", "/", "/d/y"])), "x, y");
    assert_eq!(
        describe_paths(&paths(&["/d/a", "/d/b", "/d/c", "/d/e", "/d/f"])),
        "a, b, c, … (5 items)"
    );
    assert_eq!(trash_question(&paths(&["/d/a", "/d/b"])), "Move a, b to Trash?");
    assert_eq!(delete_question(&paths(&["/d/a"])), "Permanently delete \"a\"?");
}

#[test]
fn titles_and_columns() {
    assert_eq!(tab_title("/home/me"), "me");
    assert_eq!(tab_title("/"), "/");
    assert_eq!(window_title("/home/me"), "/home/me — SharkManager 🦈");
    assert_eq!(size_column(&folder("/d/x")), "—");
    assert_eq!(size_column(&file("/d/a", 2048)), "2.0 KB");
    assert_eq!(properties_title("/d/a.png"), "Properties — a.png");
    assert_eq!(properties_title("/"), "Properties — ");
}

#[test]
fn permissions_and_type() {
    assert_eq!(permissions(0o100755), "755");
    assert_eq!(permissions(0o600), "600");
    assert_eq!(permissions(0o4750), "750");
    assert_eq!(permissions(0o7), "7");
    assert_eq!(permissions(0), "0");
    assert_eq!(type_of("/d/a.png"), "image/png");
    assert_eq!(type_of("/d/README"), "-");
}

#[test]
fn properties_of_several_items() {
    let items = vec![
        ("/a/d".to_string(), Some((true, 0))),
        ("/a/f1".to_string(), Some((false, 1024))),
        ("/a/f2".to_string(), Some((false, 512))),
        ("/a/gone".to_string(), None),
    ];
    assert_eq!(files_total(&items), Some(1536));
    let (title, rows) = properties_multi(&items);
    assert_eq!(title, "Properties — 4 items");
    assert_eq!(
        rows,
        vec![
            row("Items:", "4 (1 folders, 2 files)"),
            row("Total size:", "1.5 KB"),
            row("#1", "d"),
            row("#2", "f1"),
            row("#3", "f2"),
            row("#4", "gone"),
            row("Unavailable:", "1"),
        ]
    );
}

#[test]
fn properties_list_at_most_eight_names() {
    let items: Vec<(String, Option<(bool, u64)>)> =
        (1..=10).map(|i| (format!("/a/n{i}"), Some((false, 1)))).collect();
    let (_, rows) = properties_multi(&items);
    assert_eq!(rows.len(), 2 + 8 + 1);
    assert_eq!(rows[0], row("Items:", "10 (0 folders, 10 files)"));
    assert_eq!(rows[1], row("Total size:", "10 B"));
    assert_eq!(rows[9], row("#8", "n8"));
    assert_eq!(rows[10], row("…", "and 2 more"));
    let huge = vec![("/a".to_string(), Some((false, u64::MAX))), ("/b".to_string(), Some((false, 1)))];
    assert_eq!(files_total(&huge), None);
}

#[test]
fn tiles() {
    assert_eq!(tile_look(&folder("/d/x")), TileLook::Folder);
    let link = FileEntry::from_metadata("/d/l", false, true, Some(true), 0, None, true);
    assert_eq!(tile_look(&link), TileLook::LinkedFolder);
    assert!(label_dimmed(&link));
    assert_eq!(tile_look(&file("/d/a.mp4", 1)), TileLook::VideoPreview);
    assert_eq!(tile_look(&file("/d/a.png", 1)), TileLook::ImagePreview);
    assert_eq!(tile_look(&file("/d/a.txt", 1)), TileLook::Icon);
    assert!(label_dimmed(&file("/d/.h", 1)));
    assert!(!label_dimmed(&file("/d/v", 1)));
}

#[test]
fn modification_times_have_the_date_and_minute_shape() {
    let e = FileEntry::from_metadata("/d/a", false, false, None, 1, Some((86_400 * 365, 0)), true);
    let shown = sharkmanager::summary::modified_column(&e);
    let chars: Vec<char> = shown.chars().collect();
    assert_eq!(chars.len(), 16);
    assert_eq!((chars[4], chars[7], chars[10], chars[13]), ('-', '-', ' ', ':'));
    assert!(shown.starts_with("1970-12-3") || shown.starts_with("1971-01-01"));
    for (i, c) in chars.iter().enumerate() {
        if ![4, 7, 10, 13].contains(&i) {
            assert!(c.is_ascii_digit());
        }
    }
}

#[test]
fn the_last_four_digit_year_keeps_the_minute_shape() {
    let e = FileEntry::from_metadata("/d/a", false, false, None, 1, Some((253_402_214_400, 999_999_999)), true);
    let shown = sharkmanager::summary::modified_column(&e);
    let chars: Vec<char> = shown.chars().collect();
    assert_eq!(chars.len(), 16);
    assert!(shown.starts_with("9999-12-3"));
    let month: u32 = shown[5..7].parse().unwrap();
    let hour: u32 = shown[11..13].parse().unwrap();
    let minute: u32 = shown[14..16].parse().unwrap();
    assert_eq!(month, 12);
    assert!(hour <= 23 && minute <= 59);
}

#[test]
fn times_chrono_cannot_represent_show_as_nothing() {
    assert_eq!(sharkmanager::entry::format_time(i64::MAX, 0), "");
    assert_eq!(sharkmanager::entry::format_time(i64::MIN, 0), "");
    assert_eq!(sharkmanager::entry::format_time(0, 2_000_000_000), "");
    assert_eq!(sharkmanager::entry::format_time(0, 0).chars().count(), 16);
}

#[test]
fn a_time_moves_by_the_offset_given() {
    assert_eq!(format_at_offset(0, 0, 0), "1970-01-01 00:00");
    assert_eq!(format_at_offset(0, 0, 3_600), "1970-01-01 01:00");
    assert_eq!(format_at_offset(0, 0, -60), "1969-12-31 23:59");
    assert_eq!(format_at_offset(1_431_648_000, 0, 19_800), "2015-05-15 05:30");
    assert_eq!(format_at_offset(i64::MAX - 10, 0, 0), "");
}

#[test]
fn times_before_the_epoch_borrow_a_second() {
    assert_eq!(signed_epoch(true, 5, 250), (5, 250));
    assert_eq!(signed_epoch(false, 5, 0), (-5, 0));
    assert_eq!(signed_epoch(false, 5, 250), (-6, 999_999_750));
    assert_eq!(signed_epoch(false, 0, 1), (-1, 999_999_999));
}
