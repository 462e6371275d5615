use sharkmanager::actions::{
    after_paste, created_name, folder_of, inline_rename_target, key_action, monitor_reaction,
    needs_monitor, parent_folder, MonitorReaction,
    paste_plan, paste_target, removal_for, rename_target, stem_chars, Key, KeyAction, Removal,
};

fn s(x: &str) -> String {
    x.to_string()
}

#[test]
fn shortcut_table() {
    assert_eq!(key_action(Key::L, true, false, false, 0), KeyAction::EditLocation);
    assert_eq!(key_action(Key::L, false, false, false, 0), KeyAction::Pass);
    assert_eq!(key_action(Key::F, true, false, false, 0), KeyAction::Search);
    assert_eq!(key_action(Key::F5, false, false, false, 0), KeyAction::Refresh);
    assert_eq!(key_action(Key::F9, false, false, false, 0), KeyAction::ToggleSidebar);
    assert_eq!(key_action(Key::H, true, false, false, 0), KeyAction::ToggleHidden);
    assert_eq!(key_action(Key::Delete, false, false, false, 2), KeyAction::Trash);
    assert_eq!(key_action(Key::Delete, false, true, false, 2), KeyAction::DeletePermanently);
    assert_eq!(key_action(Key::Delete, false, true, false, 0), KeyAction::Nothing);
    assert_eq!(key_action(Key::F2, false, false, false, 1), KeyAction::Rename);
    assert_eq!(key_action(Key::F2, false, false, false, 2), KeyAction::Nothing);
    assert_eq!(key_action(Key::C, true, false, false, 1), KeyAction::Copy);
    assert_eq!(key_action(Key::C, true, false, false, 0), KeyAction::Nothing);
    assert_eq!(key_action(Key::X, true, false, false, 3), KeyAction::Cut);
    assert_eq!(key_action(Key::V, true, false, false, 0), KeyAction::Paste);
    assert_eq!(key_action(Key::A, true, false, false, 0), KeyAction::SelectAll);
    assert_eq!(key_action(Key::N, true, false, false, 0), KeyAction::NewFile);
    assert_eq!(key_action(Key::N, true, true, false, 0), KeyAction::NewFolder);
    assert_eq!(key_action(Key::T, true, false, false, 0), KeyAction::NewTab);
    assert_eq!(key_action(Key::W, true, false, false, 0), KeyAction::CloseTab);
    assert_eq!(key_action(Key::BackSpace, false, false, false, 0), KeyAction::Up);
    assert_eq!(key_action(Key::Other, true, true, false, 5), KeyAction::Pass);
    assert_eq!(key_action(Key::C, false, false, false, 5), KeyAction::Pass);
}

#[test]
fn history_and_open_keys() {
    assert_eq!(key_action(Key::Left, false, false, true, 0), KeyAction::Back);
    assert_eq!(key_action(Key::Right, false, false, true, 0), KeyAction::Forward);
    assert_eq!(key_action(Key::Up, false, false, true, 0), KeyAction::Up);
    assert_eq!(key_action(Key::Left, false, false, false, 0), KeyAction::Pass);
    assert_eq!(key_action(Key::Return, false, false, false, 1), KeyAction::Open);
    assert_eq!(key_action(Key::Return, false, false, false, 2), KeyAction::Pass);
    assert_eq!(key_action(Key::Return, false, false, false, 0), KeyAction::Pass);
}

#[test]
fn paste_prefers_system_clipboard() {
    let internal = Some((vec![s("/a/x"), s("/a/y")], true));
    // the same files the program cut: move them
    assert_eq!(
        paste_plan(vec![s("/a/x"), s("/a/y/")], &internal),
        Some((vec![s("/a/x"), s("/a/y/")], true))
    );
    // other files from another program: copy them
    assert_eq!(paste_plan(vec![s("/b/z")], &internal), Some((vec![s("/b/z")], false)));
    // nothing on the system clipboard: the program's own
    assert_eq!(paste_plan(Vec::new(), &internal), internal.clone());
    assert_eq!(paste_plan(Vec::new(), &None), None);
    let copied = Some((vec![s("/a/x")], false));
    assert_eq!(paste_plan(vec![s("/a/x")], &copied), Some((vec![s("/a/x")], false)));
}

#[test]
fn clipboard_after_paste() {
    let mut clip = Some((vec![s("/a/x")], true));
    after_paste(&mut clip, true);
    assert_eq!(clip, None);
    let mut kept = Some((vec![s("/a/x")], false));
    after_paste(&mut kept, false);
    assert_eq!(kept, Some((vec![s("/a/x")], false)));
}

#[test]
fn paste_destination() {
    assert_eq!(paste_target("/no-such-folder-for-sharkmanager", "/home/me/a.txt"), "/no-such-folder-for-sharkmanager/a.txt");
    assert_eq!(paste_target("/", "/var/tmp"), "/tmp (1)");
}

#[test]
fn permanent_removal_kind() {
    assert_eq!(removal_for(true, false), Removal::Tree);
    assert_eq!(removal_for(true, true), Removal::Single);
    assert_eq!(removal_for(false, false), Removal::Single);
}

#[test]
fn typed_names() {
    assert_eq!(created_name("  New Folder  "), Some(s("New Folder")));
    assert_eq!(created_name("   "), None);
    assert_eq!(created_name(""), None);
    assert_eq!(rename_target("/home/me/a.txt", "b.txt"), Some(s("/home/me/b.txt")));
    assert_eq!(rename_target("/home/me/a.txt", "a.txt"), None);
    assert_eq!(rename_target("/home/me/a.txt", "  "), None);
    // the dialog compares the untrimmed text with the name
    assert_eq!(rename_target("/home/me/a.txt", " a.txt"), Some(s("/home/me/a.txt")));
    assert_eq!(inline_rename_target("/home/me/a.txt", " a.txt "), None);
    assert_eq!(inline_rename_target("/home/me/a.txt", " c.txt "), Some(s("/home/me/c.txt")));
}

#[test]
fn rename_selects_the_stem() {
    assert_eq!(stem_chars("photo.jpg"), 5);
    assert_eq!(stem_chars(".bashrc"), 7);
    assert_eq!(stem_chars("noext"), 5);
    assert_eq!(stem_chars("a.b.c"), 3);
    assert_eq!(stem_chars("été.txt"), 3);
    assert_eq!(stem_chars(""), 0);
}

#[test]
fn folders_for_paths() {
    assert_eq!(folder_of("/home/me/a.txt", true), "/home/me");
    assert_eq!(folder_of("/home/me", false), "/home/me");
    assert_eq!(folder_of("/", true), "/");
    assert_eq!(parent_folder("/home"), "/");
}

#[test]
fn watching_folders() {
    assert!(needs_monitor(&None, "/home"));
    assert!(!needs_monitor(&Some(s("/home/")), "/home"));
    assert!(needs_monitor(&Some(s("/home")), "/srv"));
    assert_eq!(monitor_reaction(true, true, false), MonitorReaction::ShowParent);
    assert_eq!(monitor_reaction(true, true, true), MonitorReaction::ShowParent);
    assert_eq!(monitor_reaction(true, false, false), MonitorReaction::ScheduleRefresh);
    assert_eq!(monitor_reaction(false, true, false), MonitorReaction::ScheduleRefresh);
    assert_eq!(monitor_reaction(false, true, true), MonitorReaction::AlreadyScheduled);
}
