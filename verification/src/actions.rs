use vstd::prelude::*;
use crate::names::{candidate, unique_name};
use crate::paths::{
    file_name_of, joined, last_dot, parent_of, path_file_name, path_join, path_parent, same_place,
    same_path,
};
use crate::selection::paths_view;
use crate::text::{chars_of, str_eq, string_of, trim, trim_str};

verus! {

/// A key the file views react to: letters, function keys, arrows and editing keys.
#[derive(Clone, Copy, PartialEq, Eq, Structural, Debug)]
pub enum Key {
    L,
    F,
    H,
    C,
    X,
    V,
    A,
    N,
    T,
    W,
    F2,
    F5,
    F9,
    Delete,
    BackSpace,
    Return,
    Left,
    Right,
    Up,
    Other,
}

/// What a key press asks for.
#[derive(Clone, Copy, PartialEq, Eq, Structural, Debug)]
pub enum KeyAction {
    EditLocation,
    Search,
    Refresh,
    ToggleSidebar,
    ToggleHidden,
    Trash,
    DeletePermanently,
    Rename,
    Copy,
    Cut,
    Paste,
    SelectAll,
    NewFolder,
    NewFile,
    NewTab,
    CloseTab,
    Back,
    Forward,
    Up,
    Open,
    /// The key is taken, but there is nothing to do.
    Nothing,
    /// The key is left to the focused widget.
    Pass,
}

/// The shortcut table: what `key` asks for with Ctrl, Shift and Alt as given, while
/// `selected` items are selected. Delete trashes (Shift: deletes for good), F2
/// renames and Enter opens a single item; Ctrl+C and Ctrl+X need a selection;
/// Alt+Left, Alt+Right and Alt+Up go back, forward and up.
pub open spec fn key_outcome(key: Key, ctrl: bool, shift: bool, alt: bool, selected: nat) -> KeyAction {
    if ctrl && key == Key::L {
        KeyAction::EditLocation
    } else if ctrl && key == Key::F {
        KeyAction::Search
    } else if key == Key::F5 {
        KeyAction::Refresh
    } else if key == Key::F9 {
        KeyAction::ToggleSidebar
    } else if ctrl && key == Key::H {
        KeyAction::ToggleHidden
    } else if key == Key::Delete {
        if selected == 0 {
            KeyAction::Nothing
        } else if shift {
            KeyAction::DeletePermanently
        } else {
            KeyAction::Trash
        }
    } else if key == Key::F2 {
        if selected == 1 {
            KeyAction::Rename
        } else {
            KeyAction::Nothing
        }
    } else if ctrl && key == Key::C {
        if selected == 0 {
            KeyAction::Nothing
        } else {
            KeyAction::Copy
        }
    } else if ctrl && key == Key::X {
        if selected == 0 {
            KeyAction::Nothing
        } else {
            KeyAction::Cut
        }
    } else if ctrl && key == Key::V {
        KeyAction::Paste
    } else if ctrl && key == Key::A {
        KeyAction::SelectAll
    } else if ctrl && key == Key::N {
        if shift {
            KeyAction::NewFolder
        } else {
            KeyAction::NewFile
        }
    } else if ctrl && key == Key::T {
        KeyAction::NewTab
    } else if ctrl && key == Key::W {
        KeyAction::CloseTab
    } else if key == Key::BackSpace {
        KeyAction::Up
    } else if alt && key == Key::Left {
        KeyAction::Back
    } else if alt && key == Key::Right {
        KeyAction::Forward
    } else if alt && key == Key::Up {
        KeyAction::Up
    } else if key == Key::Return && selected == 1 {
        KeyAction::Open
    } else {
        KeyAction::Pass
    }
}

/// What `key` asks for with Ctrl, Shift and Alt as given, while `selected` items are
/// selected.
pub fn key_action(key: Key, ctrl: bool, shift: bool, alt: bool, selected: usize) -> (r: KeyAction)
    ensures
        r == key_outcome(key, ctrl, shift, alt, selected as nat),
{
    if ctrl && key == Key::L {
        KeyAction::EditLocation
    } else if ctrl && key == Key::F {
        KeyAction::Search
    } else if key == Key::F5 {
        KeyAction::Refresh
    } else if key == Key::F9 {
        KeyAction::ToggleSidebar
    } else if ctrl && key == Key::H {
        KeyAction::ToggleHidden
    } else if key == Key::Delete {
        if selected == 0 {
            KeyAction::Nothing
        } else if shift {
            KeyAction::DeletePermanently
        } else {
            KeyAction::Trash
        }
    } else if key == Key::F2 {
        if selected == 1 {
            KeyAction::Rename
        } else {
            KeyAction::Nothing
        }
    } else if ctrl && key == Key::C {
        if selected == 0 {
            KeyAction::Nothing
        } else {
            KeyAction::Copy
        }
    } else if ctrl && key == Key::X {
        if selected == 0 {
            KeyAction::Nothing
        } else {
            KeyAction::Cut
        }
    } else if ctrl && key == Key::V {
        KeyAction::Paste
    } else if ctrl && key == Key::A {
        KeyAction::SelectAll
    } else if ctrl && key == Key::N {
        if shift {
            KeyAction::NewFolder
        } else {
            KeyAction::NewFile
        }
    } else if ctrl && key == Key::T {
        KeyAction::NewTab
    } else if ctrl && key == Key::W {
        KeyAction::CloseTab
    } else if key == Key::BackSpace {
        KeyAction::Up
    } else if alt && key == Key::Left {
        KeyAction::Back
    } else if alt && key == Key::Right {
        KeyAction::Forward
    } else if alt && key == Key::Up {
        KeyAction::Up
    } else if key == Key::Return && selected == 1 {
        KeyAction::Open
    } else {
        KeyAction::Pass
    }
}

/// Nothing is ever deleted for good without Shift, nothing is trashed, copied, cut,
/// renamed or opened without a selection, only a single item is renamed or opened,
/// and plain keys other than the few the views use are left to the focused widget.
pub proof fn law_keys_guard_files(key: Key, ctrl: bool, shift: bool, alt: bool, selected: nat)
    ensures
        key_outcome(key, ctrl, shift, alt, selected) == KeyAction::DeletePermanently ==> shift
            && key == Key::Delete,
        selected == 0 ==> key_outcome(key, ctrl, shift, alt, selected) != KeyAction::Trash
            && key_outcome(key, ctrl, shift, alt, selected) != KeyAction::DeletePermanently
            && key_outcome(key, ctrl, shift, alt, selected) != KeyAction::Copy
            && key_outcome(key, ctrl, shift, alt, selected) != KeyAction::Cut
            && key_outcome(key, ctrl, shift, alt, selected) != KeyAction::Rename
            && key_outcome(key, ctrl, shift, alt, selected) != KeyAction::Open,
        key_outcome(key, ctrl, shift, alt, selected) == KeyAction::Rename ==> selected == 1,
        key_outcome(key, ctrl, shift, alt, selected) == KeyAction::Open ==> selected == 1,
        !ctrl && !alt && key != Key::F5 && key != Key::F9 && key != Key::Delete && key != Key::F2
            && key != Key::BackSpace && key != Key::Return ==> key_outcome(
            key,
            ctrl,
            shift,
            alt,
            selected,
        ) == KeyAction::Pass,
{
}

/// The view of a clipboard: the paths and whether they were cut.
pub open spec fn clip_view(c: Option<(Vec<String>, bool)>) -> Option<(Seq<Seq<char>>, bool)> {
    match c {
        Some((ps, cut)) => Some((paths_view(ps@), cut)),
        None => None,
    }
}

/// Two path lists name the same places in the same order.
pub open spec fn same_places(a: Seq<Seq<char>>, b: Seq<Seq<char>>) -> bool {
    a.len() == b.len() && forall|i: int| 0 <= i < a.len() ==> same_place(a[i], b[i])
}

/// What a paste takes: the files on the system clipboard when there are any, moved
/// when they are exactly what this program last cut; else the program's own
/// clipboard; else nothing.
pub open spec fn paste_source(external: Seq<Seq<char>>, internal: Option<(Seq<Seq<char>>, bool)>) -> Option<(Seq<Seq<char>>, bool)> {
    if external.len() > 0 {
        Some(
            (
                external,
                match internal {
                    Some((ps, cut)) => cut && same_places(ps, external),
                    None => false,
                },
            ),
        )
    } else {
        internal
    }
}

fn same_path_lists(a: &Vec<String>, b: &Vec<String>) -> (r: bool)
    ensures
        r == same_places(paths_view(a@), paths_view(b@)),
{
    if a.len() != b.len() {
        return false;
    }
    let mut i: usize = 0;
    while i < a.len()
        invariant
            a.len() == b.len(),
            i <= a.len(),
            forall|k: int| 0 <= k < i ==> same_place(a@[k]@, b@[k]@),
        decreases a.len() - i,
    {
        if !same_path(a[i].as_str(), b[i].as_str()) {
            proof {
                assert(paths_view(a@)[i as int] == a@[i as int]@);
                assert(paths_view(b@)[i as int] == b@[i as int]@);
            }
            return false;
        }
        i = i + 1;
    }
    proof {
        assert forall|k: int| 0 <= k < a.len() implies same_place(paths_view(a@)[k], paths_view(b@)[k]) by {
            assert(paths_view(a@)[k] == a@[k]@);
            assert(paths_view(b@)[k] == b@[k]@);
        }
    }
    true
}

fn copy_paths(v: &Vec<String>) -> (r: Vec<String>)
    ensures
        paths_view(r@) == paths_view(v@),
{
    let mut out: Vec<String> = Vec::new();
    let mut i: usize = 0;
    while i < v.len()
        invariant
            i <= v.len(),
            paths_view(out@) == paths_view(v@).take(i as int),
        decreases v.len() - i,
    {
        let ghost prev = paths_view(out@);
        out.push(v[i].clone());
        proof {
            assert(paths_view(out@) =~= prev.push(v@[i as int]@));
            assert(paths_view(v@).take(i + 1) =~= paths_view(v@).take(i as int).push(v@[i as int]@));
        }
        i = i + 1;
    }
    proof {
        assert(paths_view(v@).take(v.len() as int) =~= paths_view(v@));
    }
    out
}

/// What a paste takes, given the files on the system clipboard and the program's own
/// clipboard: the paths and whether to move them.
pub fn paste_plan(external: Vec<String>, internal: &Option<(Vec<String>, bool)>) -> (r: Option<(Vec<String>, bool)>)
    ensures
        clip_view(r) == paste_source(paths_view(external@), clip_view(*internal)),
{
    if external.len() > 0 {
        let cut = match internal {
            Some((ps, c)) => *c && same_path_lists(ps, &external),
            None => false,
        };
        return Some((external, cut));
    }
    proof {
        assert(paths_view(external@).len() == 0);
    }
    match internal {
        Some((ps, c)) => Some((copy_paths(ps), *c)),
        None => None,
    }
}

/// After pasting, what was cut is gone from the program's clipboard; what was copied
/// stays.
pub fn after_paste(clipboard: &mut Option<(Vec<String>, bool)>, was_cut: bool)
    ensures
        clip_view(*final(clipboard)) == (if was_cut {
            None
        } else {
            clip_view(*old(clipboard))
        }),
{
    if was_cut {
        *clipboard = None;
    }
}

/// Where a pasted or dropped item goes in `dest`: under its own file name, numbered
/// when that name is taken. Whatever the disk answers, the result is `dest` joined
/// with one of the names `unique_name` tries.
pub fn paste_target(dest: &str, src: &str) -> (r: String)
    ensures
        exists|n: nat| r@ == joined(dest@, #[trigger] candidate(name_or_empty(src@), n)),
{
    let name = match path_file_name(src) {
        Some(f) => f,
        None => String::new(),
    };
    let unique = unique_name(dest, name.as_str());
    let r = path_join(dest, unique.as_str());
    proof {
        assert(name@ == name_or_empty(src@));
        let n = choose|n: nat| unique@ == candidate(name@, n);
        assert(r@ == joined(dest@, candidate(name_or_empty(src@), n)));
    }
    r
}

/// How an item is removed for good: a real folder with everything in it, anything
/// else (a file, or a link even to a folder) on its own.
#[derive(Clone, Copy, PartialEq, Eq, Structural, Debug)]
pub enum Removal {
    Tree,
    Single,
}

/// How an item with the given kind is removed for good.
pub fn removal_for(is_dir: bool, is_symlink: bool) -> (r: Removal)
    ensures
        r == (if is_dir && !is_symlink {
            Removal::Tree
        } else {
            Removal::Single
        }),
{
    if is_dir && !is_symlink {
        Removal::Tree
    } else {
        Removal::Single
    }
}

/// The name a new folder or file gets from what was typed: the text trimmed, or none
/// when that is empty.
pub fn created_name(input: &str) -> (r: Option<String>)
    ensures
        r.deep_view() == (if trim(input@).len() > 0 {
            Some(trim(input@))
        } else {
            None
        }),
{
    let t = trim_str(input);
    if t.len() > 0 {
        Some(string_of(&t))
    } else {
        None
    }
}

/// The folder an item is in: its parent, or `/` without one.
pub open spec fn parent_or_root(path: Seq<char>) -> Seq<char> {
    match parent_of(path) {
        Some(p) => p,
        None => "/"@,
    }
}

/// The file name of a path, empty without one.
pub open spec fn name_or_empty(path: Seq<char>) -> Seq<char> {
    match file_name_of(path) {
        Some(n) => n,
        None => Seq::empty(),
    }
}

/// The folder `path` is in, or `/`.
pub fn parent_folder(path: &str) -> (r: String)
    ensures
        r@ == parent_or_root(path@),
{
    match path_parent(path) {
        Some(p) => p,
        None => "/".to_owned(),
    }
}

/// Where the rename dialog moves `path` to: beside it under the trimmed new name,
/// unless that is empty or the typed text is the current name unchanged.
pub open spec fn rename_dest(path: Seq<char>, input: Seq<char>) -> Option<Seq<char>> {
    if trim(input).len() > 0 && input != name_or_empty(path) {
        Some(joined(parent_or_root(path), trim(input)))
    } else {
        None
    }
}

/// Where the rename dialog moves `path` to, given the typed text.
pub fn rename_target(path: &str, input: &str) -> (r: Option<String>)
    ensures
        r.deep_view() == rename_dest(path@, input@),
{
    let name = match path_file_name(path) {
        Some(n) => n,
        None => String::new(),
    };
    let t = trim_str(input);
    if t.len() > 0 && !str_eq(input, name.as_str()) {
        let parent = parent_folder(path);
        let typed = string_of(&t);
        Some(path_join(parent.as_str(), typed.as_str()))
    } else {
        None
    }
}

/// Where renaming in place moves `path` to: beside it under the trimmed new name,
/// unless that is empty or the current name.
pub open spec fn inline_rename_dest(path: Seq<char>, input: Seq<char>) -> Option<Seq<char>> {
    if trim(input).len() > 0 && trim(input) != name_or_empty(path) {
        Some(joined(parent_or_root(path), trim(input)))
    } else {
        None
    }
}

/// Where renaming in place moves `path` to, given the typed text.
pub fn inline_rename_target(path: &str, input: &str) -> (r: Option<String>)
    ensures
        r.deep_view() == inline_rename_dest(path@, input@),
{
    let name = match path_file_name(path) {
        Some(n) => n,
        None => String::new(),
    };
    let t = trim_str(input);
    let typed = string_of(&t);
    if t.len() > 0 && !str_eq(typed.as_str(), name.as_str()) {
        let parent = parent_folder(path);
        Some(path_join(parent.as_str(), typed.as_str()))
    } else {
        None
    }
}

/// How many characters of a name renaming in place selects: those before the last
/// `.`, or all of them when there is no `.` or only a leading one.
pub open spec fn stem_chars_spec(name: Seq<char>) -> nat {
    match last_dot(name) {
        Some(i) => if i > 0 {
            i as nat
        } else {
            name.len()
        },
        None => name.len(),
    }
}

/// How many characters of `name` renaming in place selects at first.
pub fn stem_chars(name: &str) -> (r: usize)
    ensures
        r == stem_chars_spec(name@),
{
    let v = chars_of(name);
    let mut k = v.len();
    proof {
        assert(v@.take(k as int) =~= v@);
    }
    while k > 0 && v[k - 1] != '.'
        invariant
            k <= v.len(),
            last_dot(v@) == last_dot(v@.take(k as int)),
        decreases k,
    {
        proof {
            assert(v@.take(k as int).drop_last() =~= v@.take(k - 1));
        }
        k = k - 1;
    }
    if k > 1 {
        k - 1
    } else {
        proof {
            if k == 1 {
                assert(last_dot(v@.take(1)) == Some(0int));
            }
        }
        v.len()
    }
}

/// The folder to show for `path`: its parent when it is a file, else itself.
pub open spec fn folder_for(path: Seq<char>, is_file: bool) -> Seq<char> {
    if is_file {
        parent_or_root(path)
    } else {
        path
    }
}

/// The folder to show for `path`, which is a file when `is_file`.
pub fn folder_of(path: &str, is_file: bool) -> (r: String)
    ensures
        r@ == folder_for(path@, is_file),
{
    if is_file {
        parent_folder(path)
    } else {
        path.to_owned()
    }
}

/// Whether a tab watching `monitored` must start watching `current` instead: when it
/// watches nothing, or another place.
pub fn needs_monitor(monitored: &Option<String>, current: &str) -> (r: bool)
    ensures
        r == match monitored {
            Some(m) => !same_place(m@, current@),
            None => true,
        },
{
    match monitored {
        Some(m) => !same_path(m.as_str(), current),
        None => true,
    }
}

/// What a tab does when the folder it watches reports a change.
#[derive(Clone, Copy, PartialEq, Eq, Structural, Debug)]
pub enum MonitorReaction {
    /// The folder itself was deleted: show its parent now.
    ShowParent,
    /// Refresh shortly, once for a burst of changes.
    ScheduleRefresh,
    /// A refresh is already on its way.
    AlreadyScheduled,
}

/// The reaction to a change: a deleted folder that has a parent sends the tab there;
/// otherwise one refresh is scheduled unless one is pending.
pub open spec fn monitor_outcome(deleted: bool, has_parent: bool, refresh_pending: bool) -> MonitorReaction {
    if deleted && has_parent {
        MonitorReaction::ShowParent
    } else if refresh_pending {
        MonitorReaction::AlreadyScheduled
    } else {
        MonitorReaction::ScheduleRefresh
    }
}

/// How a tab reacts to a change in its folder: `deleted` when the folder itself went
/// away, `has_parent` whether its path has a parent, `refresh_pending` whether a
/// refresh is scheduled already.
pub fn monitor_reaction(deleted: bool, has_parent: bool, refresh_pending: bool) -> (r: MonitorReaction)
    ensures
        r == monitor_outcome(deleted, has_parent, refresh_pending),
{
    if deleted && has_parent {
        MonitorReaction::ShowParent
    } else if refresh_pending {
        MonitorReaction::AlreadyScheduled
    } else {
        MonitorReaction::ScheduleRefresh
    }
}

} // verus!
