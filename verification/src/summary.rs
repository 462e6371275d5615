use vstd::prelude::*;
use crate::entry::{format_time, in_four_digit_years, is_minute_stamp, shown_in_local_time, listed_name, mime_first_raw, mime_guess_of, FileEntry};
use crate::paths::{file_name_of, path_file_name};
use crate::selection::paths_view;
use crate::size::{human_size, human_size_text};
use crate::text::{chars_of, dec, push_decimal, push_str, starts_with, string_of};

verus! {

/// How many entries of `s` are folders.
pub open spec fn count_dirs(s: Seq<FileEntry>) -> nat
    decreases s.len(),
{
    if s.len() == 0 {
        0
    } else {
        count_dirs(s.drop_last()) + if s.last().is_dir {
            1nat
        } else {
            0nat
        }
    }
}

proof fn lemma_count_dirs_bound(s: Seq<FileEntry>)
    ensures
        count_dirs(s) <= s.len(),
    decreases s.len(),
{
    if s.len() > 0 {
        lemma_count_dirs_bound(s.drop_last());
    }
}

/// The count shown under a listing: `0 items` when empty, else the number of items and
/// how many of them are folders and files.
pub open spec fn folder_status_text(s: Seq<FileEntry>) -> Seq<char> {
    if s.len() == 0 {
        "0 items"@
    } else {
        dec(s.len()) + " items · "@ + dec(count_dirs(s)) + " folders, "@ + dec(
            (s.len() - count_dirs(s)) as nat,
        ) + " files"@
    }
}

/// The count shown under a listing of `entries`.
pub fn folder_status(entries: &Vec<FileEntry>) -> (r: String)
    ensures
        r@ == folder_status_text(entries@),
{
    if entries.len() == 0 {
        return "0 items".to_owned();
    }
    let mut dirs: usize = 0;
    let mut i: usize = 0;
    while i < entries.len()
        invariant
            i <= entries.len(),
            dirs == count_dirs(entries@.take(i as int)),
            dirs <= i,
        decreases entries.len() - i,
    {
        proof {
            assert(entries@.take(i + 1).drop_last() =~= entries@.take(i as int));
        }
        if entries[i].is_dir {
            dirs = dirs + 1;
        }
        i = i + 1;
    }
    proof {
        assert(entries@.take(entries.len() as int) =~= entries@);
    }
    let mut v: Vec<char> = Vec::new();
    push_decimal(&mut v, entries.len() as u64);
    push_str(&mut v, " items · ");
    push_decimal(&mut v, dirs as u64);
    push_str(&mut v, " folders, ");
    push_decimal(&mut v, (entries.len() - dirs) as u64);
    push_str(&mut v, " files");
    proof {
        assert(Seq::<char>::empty() + dec(entries.len() as nat) =~= dec(entries.len() as nat));
    }
    string_of(&v)
}

/// The selection summary: nothing for an empty selection, else how many are
/// selected and, when some of them are files, how many and their total size.
pub open spec fn selection_status_text(count: nat, files: nat, bytes: nat) -> Seq<char> {
    if count == 0 {
        Seq::empty()
    } else if files > 0 {
        dec(count) + " selected"@ + " · "@ + dec(files) + " "@ + human_size_text(bytes)
    } else {
        dec(count) + " selected"@
    }
}

/// The selection summary for `count` selected items, `files` of them files of
/// `bytes` bytes in all.
pub fn selection_status(count: usize, files: usize, bytes: u64) -> (r: String)
    ensures
        r@ == selection_status_text(count as nat, files as nat, bytes as nat),
{
    if count == 0 {
        return String::new();
    }
    let mut v: Vec<char> = Vec::new();
    push_decimal(&mut v, count as u64);
    push_str(&mut v, " selected");
    proof {
        assert(Seq::<char>::empty() + dec(count as nat) =~= dec(count as nat));
    }
    if files > 0 {
        push_str(&mut v, " · ");
        push_decimal(&mut v, files as u64);
        push_str(&mut v, " ");
        let size = human_size(bytes);
        push_str(&mut v, size.as_str());
    }
    string_of(&v)
}

/// The sum of a list of sizes.
pub open spec fn size_sum(s: Seq<u64>) -> nat
    decreases s.len(),
{
    if s.len() == 0 {
        0
    } else {
        size_sum(s.drop_last()) + s.last() as nat
    }
}

proof fn lemma_size_sum_grows(s: Seq<u64>, i: int)
    requires
        0 <= i <= s.len(),
    ensures
        size_sum(s.take(i)) <= size_sum(s),
    decreases s.len() - i,
{
    if i < s.len() {
        lemma_size_sum_grows(s, i + 1);
        assert(s.take(i + 1).drop_last() =~= s.take(i));
    } else {
        assert(s.take(i) =~= s);
    }
}

/// The total of `sizes`, or `None` when it does not fit in a `u64`.
pub fn total_size(sizes: &Vec<u64>) -> (r: Option<u64>)
    ensures
        r == (if size_sum(sizes@) <= u64::MAX {
            Some(size_sum(sizes@) as u64)
        } else {
            None
        }),
{
    let mut total: u64 = 0;
    let mut i: usize = 0;
    while i < sizes.len()
        invariant
            i <= sizes.len(),
            total == size_sum(sizes@.take(i as int)),
        decreases sizes.len() - i,
    {
        proof {
            assert(sizes@.take(i + 1).drop_last() =~= sizes@.take(i as int));
        }
        match total.checked_add(sizes[i]) {
            Some(t) => total = t,
            None => {
                proof {
                    lemma_size_sum_grows(sizes@, i + 1);
                }
                return None;
            },
        }
        i = i + 1;
    }
    proof {
        assert(sizes@.take(sizes.len() as int) =~= sizes@);
    }
    Some(total)
}

/// The file names of those paths that have one, in order.
pub open spec fn names_of(ps: Seq<Seq<char>>) -> Seq<Seq<char>>
    decreases ps.len(),
{
    if ps.len() == 0 {
        Seq::empty()
    } else {
        let r = names_of(ps.drop_last());
        match file_name_of(ps.last()) {
            Some(n) => r.push(n),
            None => r,
        }
    }
}

/// Names joined with `, `.
pub open spec fn join_names(ns: Seq<Seq<char>>) -> Seq<char>
    decreases ns.len(),
{
    if ns.len() == 0 {
        Seq::empty()
    } else if ns.len() == 1 {
        ns[0]
    } else {
        join_names(ns.drop_last()) + ", "@ + ns.last()
    }
}

/// How a confirmation names the items it is about: one item by its file name;
/// otherwise up to three names, or the first three and the count.
pub open spec fn described(ps: Seq<Seq<char>>) -> Seq<char> {
    if ps.len() == 1 {
        match file_name_of(ps[0]) {
            Some(n) => n,
            None => Seq::empty(),
        }
    } else {
        let ns = names_of(ps);
        if ns.len() <= 3 {
            join_names(ns)
        } else {
            join_names(ns.take(3)) + ", … ("@ + dec(ns.len()) + " items)"@
        }
    }
}

/// The file names of `paths` that have one.
pub fn file_names(paths: &Vec<String>) -> (r: Vec<String>)
    ensures
        paths_view(r@) == names_of(paths_view(paths@)),
{
    let mut out: Vec<String> = Vec::new();
    let mut i: usize = 0;
    while i < paths.len()
        invariant
            i <= paths.len(),
            paths_view(out@) == names_of(paths_view(paths@.take(i as int))),
        decreases paths.len() - i,
    {
        proof {
            assert(paths_view(paths@.take(i + 1)).drop_last() =~= paths_view(paths@.take(i as int)));
            assert(paths_view(paths@.take(i + 1)).last() == paths@[i as int]@);
        }
        match path_file_name(paths[i].as_str()) {
            Some(n) => {
                let ghost prev = paths_view(out@);
                out.push(n);
                proof {
                    assert(paths_view(out@) =~= prev.push(out@[out.len() - 1]@));
                }
            },
            None => {},
        }
        i = i + 1;
    }
    proof {
        assert(paths@.take(paths.len() as int) =~= paths@);
    }
    out
}

/// `names[..k]` joined with `, `.
fn join_first(names: &Vec<String>, k: usize) -> (r: Vec<char>)
    requires
        k <= names.len(),
    ensures
        r@ == join_names(paths_view(names@).take(k as int)),
{
    let mut v: Vec<char> = Vec::new();
    let mut i: usize = 0;
    proof {
        assert(paths_view(names@).take(0) =~= Seq::<Seq<char>>::empty());
    }
    while i < k
        invariant
            i <= k <= names.len(),
            v@ == join_names(paths_view(names@).take(i as int)),
        decreases k - i,
    {
        let ghost t = paths_view(names@).take(i + 1);
        proof {
            assert(t.drop_last() =~= paths_view(names@).take(i as int));
            assert(t.last() == names@[i as int]@);
        }
        if i > 0 {
            push_str(&mut v, ", ");
        } else {
            proof {
                assert(v@ =~= Seq::<char>::empty());
            }
        }
        push_str(&mut v, names[i].as_str());
        proof {
            if i == 0 {
                assert(v@ =~= t[0]);
            }
        }
        i = i + 1;
    }
    v
}

/// How a confirmation names `paths`: a single item by its file name (empty without
/// one); otherwise the file names joined with `, `, and past three names the first
/// three followed by the number of names.
pub fn describe_paths(paths: &Vec<String>) -> (r: String)
    ensures
        r@ == described(paths_view(paths@)),
{
    if paths.len() == 1 {
        return match path_file_name(paths[0].as_str()) {
            Some(n) => n,
            None => String::new(),
        };
    }
    let names = file_names(paths);
    if names.len() <= 3 {
        let v = join_first(&names, names.len());
        proof {
            assert(paths_view(names@).take(names.len() as int) =~= paths_view(names@));
        }
        string_of(&v)
    } else {
        let mut v = join_first(&names, 3);
        push_str(&mut v, ", … (");
        push_decimal(&mut v, names.len() as u64);
        push_str(&mut v, " items)");
        string_of(&v)
    }
}

/// The question before moving items to the trash.
pub open spec fn trash_question_text(ps: Seq<Seq<char>>) -> Seq<char> {
    "Move "@ + described(ps) + " to Trash?"@
}

/// The question before moving `paths` to the trash.
pub fn trash_question(paths: &Vec<String>) -> (r: String)
    ensures
        r@ == trash_question_text(paths_view(paths@)),
{
    let what = describe_paths(paths);
    let mut v: Vec<char> = Vec::new();
    push_str(&mut v, "Move ");
    push_str(&mut v, what.as_str());
    push_str(&mut v, " to Trash?");
    proof {
        assert(Seq::<char>::empty() + "Move "@ =~= "Move "@);
    }
    string_of(&v)
}

/// The question before deleting items for good.
pub open spec fn delete_question_text(ps: Seq<Seq<char>>) -> Seq<char> {
    "Permanently delete \""@ + described(ps) + "\"?"@
}

/// The question before deleting `paths` for good.
pub fn delete_question(paths: &Vec<String>) -> (r: String)
    ensures
        r@ == delete_question_text(paths_view(paths@)),
{
    let what = describe_paths(paths);
    let mut v: Vec<char> = Vec::new();
    push_str(&mut v, "Permanently delete \"");
    push_str(&mut v, what.as_str());
    push_str(&mut v, "\"?");
    proof {
        assert(Seq::<char>::empty() + "Permanently delete \""@ =~= "Permanently delete \""@);
    }
    string_of(&v)
}

/// The title of a tab: the folder's name, else its whole path.
pub fn tab_title(path: &str) -> (r: String)
    ensures
        r@ == listed_name(path@),
{
    match path_file_name(path) {
        Some(n) => n,
        None => path.to_owned(),
    }
}

/// The window title while `path` is shown.
pub open spec fn window_title_text(path: Seq<char>) -> Seq<char> {
    path + " — SharkManager 🦈"@
}

/// The window title while `path` is shown.
pub fn window_title(path: &str) -> (r: String)
    ensures
        r@ == window_title_text(path@),
{
    let mut v: Vec<char> = Vec::new();
    push_str(&mut v, path);
    push_str(&mut v, " — SharkManager 🦈");
    proof {
        assert(Seq::<char>::empty() + path@ =~= path@);
    }
    string_of(&v)
}

/// The size column of the list view: a dash for a folder, else the readable size.
pub open spec fn size_column_text(e: FileEntry) -> Seq<char> {
    if e.is_dir {
        "—"@
    } else {
        human_size_text(e.size as nat)
    }
}

/// The size column of the list view for `entry`.
pub fn size_column(entry: &FileEntry) -> (r: String)
    ensures
        r@ == size_column_text(*entry),
{
    if entry.is_dir {
        "—".to_owned()
    } else {
        human_size(entry.size)
    }
}

/// The modification column of the list view for `entry`: its modification time in
/// local time, as `YYYY-MM-DD HH:MM` for any time whose local year has four digits.
/// Which offset from UTC applies depends on the machine's time zone.
pub fn modified_column(entry: &FileEntry) -> (r: String)
    ensures
        shown_in_local_time(entry.modified_secs as int, entry.modified_nanos, r@),
        in_four_digit_years(entry.modified_secs, entry.modified_nanos) ==> is_minute_stamp(r@),
{
    format_time(entry.modified_secs, entry.modified_nanos)
}

/// Octal notation of a natural number, no padding.
pub open spec fn octal(n: nat) -> Seq<char>
    decreases n,
{
    if n < 8 {
        seq![(48 + n) as char]
    } else {
        octal(n / 8).push((48 + n % 8) as char)
    }
}

fn push_octal(out: &mut Vec<char>, n: u32)
    ensures
        final(out)@ == old(out)@ + octal(n as nat),
    decreases n,
{
    if n >= 8 {
        push_octal(out, n / 8);
    }
    let d: u8 = (n % 8) as u8;
    out.push((48u8 + d) as char);
    proof {
        assert(((48u8 + d) as char) == ((48 + (n as nat) % 8) as char));
    }
}

/// The permission bits of a mode in octal, as the properties show them.
pub open spec fn permissions_text(mode: u32) -> Seq<char> {
    octal((mode % 512) as nat)
}

/// The permission bits (`mode & 0o777`) of `mode` in octal.
pub fn permissions(mode: u32) -> (r: String)
    ensures
        r@ == permissions_text(mode),
{
    let bits = mode & 0o777;
    assert(bits == mode % 512) by (bit_vector)
        requires
            bits == mode & 0o777,
    ;
    let mut v: Vec<char> = Vec::new();
    push_octal(&mut v, bits);
    proof {
        assert(Seq::<char>::empty() + octal(bits as nat) =~= octal(bits as nat));
    }
    string_of(&v)
}

/// The type shown in the properties: the guessed MIME type, else `-`.
pub open spec fn type_text(path: Seq<char>) -> Seq<char> {
    match mime_guess_of(path) {
        Some(m) => m,
        None => "-"@,
    }
}

/// The type shown in the properties of `path`.
pub fn type_of(path: &str) -> (r: String)
    ensures
        r@ == type_text(path@),
{
    match mime_first_raw(path) {
        Some(m) => m,
        None => "-".to_owned(),
    }
}

/// The file name shown in the properties: the file name, else nothing.
pub open spec fn shown_name(path: Seq<char>) -> Seq<char> {
    match file_name_of(path) {
        Some(n) => n,
        None => Seq::empty(),
    }
}

/// The title of the properties window of one item.
pub fn properties_title(path: &str) -> (r: String)
    ensures
        r@ == "Properties — "@ + shown_name(path@),
{
    let name = match path_file_name(path) {
        Some(n) => n,
        None => String::new(),
    };
    let mut v: Vec<char> = Vec::new();
    push_str(&mut v, "Properties — ");
    push_str(&mut v, name.as_str());
    proof {
        assert(Seq::<char>::empty() + "Properties — "@ =~= "Properties — "@);
    }
    string_of(&v)
}

/// What is known of each of several items: its path, and whether it is a folder and
/// its length when its metadata could be read.
pub open spec fn items_view(v: Seq<(String, Option<(bool, u64)>)>) -> Seq<(Seq<char>, Option<(bool, u64)>)> {
    v.map_values(|it: (String, Option<(bool, u64)>)| (it.0@, it.1))
}

/// Folders, files, total bytes of the files, and items that could not be read.
pub open spec fn tally(items: Seq<(Seq<char>, Option<(bool, u64)>)>) -> (nat, nat, nat, nat)
    decreases items.len(),
{
    if items.len() == 0 {
        (0, 0, 0, 0)
    } else {
        let t = tally(items.drop_last());
        match items.last().1 {
            Some(m) => if m.0 {
                (t.0 + 1, t.1, t.2, t.3)
            } else {
                (t.0, t.1 + 1, t.2 + m.1 as nat, t.3)
            },
            None => (t.0, t.1, t.2, t.3 + 1),
        }
    }
}

proof fn lemma_tally_grows(items: Seq<(Seq<char>, Option<(bool, u64)>)>, i: int)
    requires
        0 <= i <= items.len(),
    ensures
        tally(items.take(i)).2 <= tally(items).2,
    decreases items.len() - i,
{
    if i < items.len() {
        lemma_tally_grows(items, i + 1);
        assert(items.take(i + 1).drop_last() =~= items.take(i));
    } else {
        assert(items.take(i) =~= items);
    }
}

proof fn lemma_tally_count(items: Seq<(Seq<char>, Option<(bool, u64)>)>)
    ensures
        tally(items).0 + tally(items).1 + tally(items).3 == items.len(),
    decreases items.len(),
{
    if items.len() > 0 {
        lemma_tally_count(items.drop_last());
    }
}

/// The rows naming the first eight items: `#1`, `#2`, ... and the name.
pub open spec fn name_rows(ns: Seq<Seq<char>>) -> Seq<(Seq<char>, Seq<char>)> {
    Seq::new(
        if ns.len() < 8 {
            ns.len()
        } else {
            8
        },
        |i: int| ("#"@ + dec((i + 1) as nat), ns[i]),
    )
}

/// The rows of the properties of several items: how many and of which kind, their
/// total size, up to eight names and how many more there are, and how many could not
/// be read.
pub open spec fn multi_rows(items: Seq<(Seq<char>, Option<(bool, u64)>)>) -> Seq<(Seq<char>, Seq<char>)> {
    let t = tally(items);
    let ns = names_of(items.map_values(|it: (Seq<char>, Option<(bool, u64)>)| it.0));
    seq![
        ("Items:"@, dec(items.len()) + " ("@ + dec(t.0) + " folders, "@ + dec(t.1) + " files)"@),
        ("Total size:"@, human_size_text(t.2)),
    ] + name_rows(ns) + (if ns.len() > 8 {
        seq![("…"@, "and "@ + dec((ns.len() - 8) as nat) + " more"@)]
    } else {
        Seq::empty()
    }) + (if t.3 > 0 {
        seq![("Unavailable:"@, dec(t.3))]
    } else {
        Seq::empty()
    })
}

/// The view of a list of (title, value) rows.
pub open spec fn rows_view(v: Seq<(String, String)>) -> Seq<(Seq<char>, Seq<char>)> {
    v.map_values(|r: (String, String)| (r.0@, r.1@))
}

/// The total size of the files among `items`, or `None` when it does not fit in a
/// `u64`.
pub fn files_total(items: &Vec<(String, Option<(bool, u64)>)>) -> (r: Option<u64>)
    ensures
        r == (if tally(items_view(items@)).2 <= u64::MAX {
            Some(tally(items_view(items@)).2 as u64)
        } else {
            None
        }),
{
    let ghost iv = items_view(items@);
    let mut total: u64 = 0;
    let mut i: usize = 0;
    while i < items.len()
        invariant
            i <= items.len(),
            iv == items_view(items@),
            total == tally(iv.take(i as int)).2,
        decreases items.len() - i,
    {
        proof {
            assert(iv.take(i + 1).drop_last() =~= iv.take(i as int));
            assert(iv.take(i + 1).last() == iv[i as int]);
        }
        match items[i].1 {
            Some((is_dir, len)) => {
                if !is_dir {
                    match total.checked_add(len) {
                        Some(t) => total = t,
                        None => {
                            proof {
                                lemma_tally_grows(iv, i + 1);
                            }
                            return None;
                        },
                    }
                }
            },
            None => {},
        }
        i = i + 1;
    }
    proof {
        assert(iv.take(items.len() as int) =~= iv);
    }
    Some(total)
}

fn row(title: &str, value: Vec<char>) -> (r: (String, String))
    ensures
        r.0@ == title@,
        r.1@ == value@,
{
    (title.to_owned(), string_of(&value))
}

/// The title and rows of the properties of several items.
pub fn properties_multi(items: &Vec<(String, Option<(bool, u64)>)>) -> (r: (String, Vec<(String, String)>))
    requires
        tally(items_view(items@)).2 <= u64::MAX,
    ensures
        r.0@ == "Properties — "@ + dec(items.len() as nat) + " items"@,
        rows_view(r.1@) == multi_rows(items_view(items@)),
{
    let ghost iv = items_view(items@);
    let mut dirs: usize = 0;
    let mut files: usize = 0;
    let mut failed: usize = 0;
    let mut total: u64 = 0;
    let mut paths: Vec<String> = Vec::new();
    let mut i: usize = 0;
    while i < items.len()
        invariant
            i <= items.len(),
            iv == items_view(items@),
            tally(iv).2 <= u64::MAX,
            (dirs as nat, files as nat, total as nat, failed as nat) == tally(iv.take(i as int)),
            paths_view(paths@) == iv.take(i as int).map_values(
                |it: (Seq<char>, Option<(bool, u64)>)| it.0,
            ),
        decreases items.len() - i,
    {
        proof {
            assert(iv.take(i + 1).drop_last() =~= iv.take(i as int));
            assert(iv.take(i + 1).last() == iv[i as int]);
            lemma_tally_grows(iv, i as int);
            lemma_tally_grows(iv, i + 1);
            lemma_tally_count(iv.take(i as int));
        }
        match items[i].1 {
            Some((is_dir, len)) => {
                if is_dir {
                    dirs = dirs + 1;
                } else {
                    files = files + 1;
                    total = total + len;
                }
            },
            None => {
                failed = failed + 1;
            },
        }
        let ghost prev = paths_view(paths@);
        paths.push(items[i].0.clone());
        proof {
            assert(paths_view(paths@) =~= prev.push(iv[i as int].0));
            assert(iv.take(i + 1).map_values(|it: (Seq<char>, Option<(bool, u64)>)| it.0)
                =~= iv.take(i as int).map_values(|it: (Seq<char>, Option<(bool, u64)>)| it.0).push(
                iv[i as int].0,
            ));
        }
        i = i + 1;
    }
    proof {
        assert(iv.take(items.len() as int) =~= iv);
    }
    let names = file_names(&paths);
    let ghost ns = paths_view(names@);
    let mut title: Vec<char> = Vec::new();
    push_str(&mut title, "Properties — ");
    push_decimal(&mut title, items.len() as u64);
    push_str(&mut title, " items");
    proof {
        assert(Seq::<char>::empty() + "Properties — "@ =~= "Properties — "@);
    }
    let mut rows: Vec<(String, String)> = Vec::new();
    let mut v: Vec<char> = Vec::new();
    push_decimal(&mut v, items.len() as u64);
    push_str(&mut v, " (");
    push_decimal(&mut v, dirs as u64);
    push_str(&mut v, " folders, ");
    push_decimal(&mut v, files as u64);
    push_str(&mut v, " files)");
    proof {
        assert(Seq::<char>::empty() + dec(items.len() as nat) =~= dec(items.len() as nat));
    }
    rows.push(row("Items:", v));
    let size = human_size(total);
    rows.push(("Total size:".to_owned(), size));
    let ghost head = rows_view(rows@);
    let shown: usize = if names.len() < 8 {
        names.len()
    } else {
        8
    };
    let mut k: usize = 0;
    while k < shown
        invariant
            k <= shown <= names.len(),
            shown == (if names.len() < 8 {
                names.len()
            } else {
                8
            }),
            ns == paths_view(names@),
            rows_view(rows@) == head + name_rows(ns).take(k as int),
        decreases shown - k,
    {
        let mut t: Vec<char> = Vec::new();
        push_str(&mut t, "#");
        push_decimal(&mut t, (k + 1) as u64);
        let ghost before = rows_view(rows@);
        rows.push((string_of(&t), names[k].clone()));
        proof {
            assert(Seq::<char>::empty() + "#"@ =~= "#"@);
            assert(rows_view(rows@) =~= before.push(("#"@ + dec((k + 1) as nat), ns[k as int])));
            assert(name_rows(ns).take(k + 1) =~= name_rows(ns).take(k as int).push(name_rows(ns)[k as int]));
            assert(head + name_rows(ns).take(k + 1) =~= (head + name_rows(ns).take(k as int)).push(
                name_rows(ns)[k as int],
            ));
        }
        k = k + 1;
    }
    proof {
        assert(name_rows(ns).take(shown as int) =~= name_rows(ns));
    }
    let ghost mid = rows_view(rows@);
    if names.len() > 8 {
        let mut t: Vec<char> = Vec::new();
        push_str(&mut t, "and ");
        push_decimal(&mut t, (names.len() - 8) as u64);
        push_str(&mut t, " more");
        proof {
            assert(Seq::<char>::empty() + "and "@ =~= "and "@);
        }
        rows.push(("…".to_owned(), string_of(&t)));
        proof {
            assert(rows_view(rows@) =~= mid + seq![("…"@, "and "@ + dec((ns.len() - 8) as nat) + " more"@)]);
        }
    } else {
        proof {
            assert(rows_view(rows@) =~= mid + Seq::<(Seq<char>, Seq<char>)>::empty());
        }
    }
    let ghost late = rows_view(rows@);
    if failed > 0 {
        let mut t: Vec<char> = Vec::new();
        push_decimal(&mut t, failed as u64);
        proof {
            assert(Seq::<char>::empty() + dec(failed as nat) =~= dec(failed as nat));
        }
        rows.push(row("Unavailable:", t));
        proof {
            assert(rows_view(rows@) =~= late + seq![("Unavailable:"@, dec(failed as nat))]);
        }
    } else {
        proof {
            assert(rows_view(rows@) =~= late + Seq::<(Seq<char>, Seq<char>)>::empty());
        }
    }
    proof {
        assert(head =~= seq![
            ("Items:"@, dec(items.len() as nat) + " ("@ + dec(dirs as nat) + " folders, "@ + dec(files as nat) + " files)"@),
            ("Total size:"@, human_size_text(total as nat)),
        ]);
    }
    (string_of(&title), rows)
}

/// How a tile of the icon view shows an entry: a folder icon (a symbolic one for a
/// linked folder), a preview for videos and images, else the entry's own icon.
#[derive(Clone, Copy, PartialEq, Eq, Structural, Debug)]
pub enum TileLook {
    Folder,
    LinkedFolder,
    VideoPreview,
    ImagePreview,
    Icon,
}

/// How the icon view shows `e`.
pub open spec fn tile_look_of(e: FileEntry) -> TileLook {
    if e.is_dir {
        if e.is_symlink {
            TileLook::LinkedFolder
        } else {
            TileLook::Folder
        }
    } else if "video/"@.is_prefix_of(e.mime_approx@) {
        TileLook::VideoPreview
    } else if "image/"@.is_prefix_of(e.mime_approx@) {
        TileLook::ImagePreview
    } else {
        TileLook::Icon
    }
}

/// How the icon view shows `entry`.
pub fn tile_look(entry: &FileEntry) -> (r: TileLook)
    ensures
        r == tile_look_of(*entry),
{
    if entry.is_dir {
        if entry.is_symlink {
            TileLook::LinkedFolder
        } else {
            TileLook::Folder
        }
    } else {
        let mime = chars_of(entry.mime_approx.as_str());
        if starts_with(&mime, "video/") {
            TileLook::VideoPreview
        } else if starts_with(&mime, "image/") {
            TileLook::ImagePreview
        } else {
            TileLook::Icon
        }
    }
}

/// Whether an entry's name is shown dimmed: for hidden entries and links.
pub fn label_dimmed(entry: &FileEntry) -> (r: bool)
    ensures
        r == (entry.is_hidden || entry.is_symlink),
{
    entry.is_hidden || entry.is_symlink
}

} // verus!
