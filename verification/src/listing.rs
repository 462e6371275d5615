use vstd::prelude::*;
use crate::entry::{lowercase_of, FileEntry};
use crate::order::{
    compare_i128, compare_text, flip, lemma_order_chars, order_atom, order_chars, order_int, order_keys,
    then, Atom, Ord3,
};
use crate::sorting::{sort_by_keys, stable_sort_of};
use crate::text::{chars_of, contains_chars, contains_seq, str_eq};

verus! {

/// The column a listing is sorted by.
#[derive(Clone, Copy, PartialEq, Eq, Structural, Debug)]
pub enum SortCol {
    Name,
    Size,
    Modified,
    Type,
}

/// How entries are ordered: folders first either way; then by lower-cased name for a
/// fresh listing, or by a column in either direction.
#[derive(Clone, Copy, PartialEq, Eq, Structural, Debug)]
pub enum SortRule {
    Listing,
    Column(SortCol, bool),
}

/// 0 for folders, 1 for everything else.
pub open spec fn dir_rank(e: FileEntry) -> int {
    if e.is_dir {
        0
    } else {
        1
    }
}

/// A text part of a key, forwards or backwards.
pub open spec fn text_part(s: Seq<char>, asc: bool) -> Atom {
    if asc {
        Atom::Text(s)
    } else {
        Atom::RevText(s)
    }
}

/// A numeric part of a key, forwards or backwards.
pub open spec fn num_part(n: int, asc: bool) -> Atom {
    if asc {
        Atom::Num(n)
    } else {
        Atom::RevNum(n)
    }
}

/// The sort key of an entry: folders first, then the rule's fields. Names and types
/// compare lower-cased, names break ties in their own case; modification times
/// compare by seconds, then nanoseconds.
pub open spec fn sort_key(e: FileEntry, rule: SortRule) -> Seq<Atom> {
    match rule {
        SortRule::Listing => seq![Atom::Num(dir_rank(e)), Atom::Text(lowercase_of(e.name@))],
        SortRule::Column(col, asc) => match col {
            SortCol::Name => seq![
                Atom::Num(dir_rank(e)),
                text_part(lowercase_of(e.name@), asc),
                text_part(e.name@, asc),
            ],
            SortCol::Size => seq![Atom::Num(dir_rank(e)), num_part(e.size as int, asc)],
            SortCol::Modified => seq![
                Atom::Num(dir_rank(e)),
                num_part(e.modified_secs as int, asc),
                num_part(e.modified_nanos as int, asc),
            ],
            SortCol::Type => seq![
                Atom::Num(dir_rank(e)),
                text_part(lowercase_of(e.mime_approx@), asc),
                text_part(lowercase_of(e.name@), asc),
            ],
        },
    }
}

/// How two entries compare under a rule.
pub open spec fn entry_order(a: FileEntry, b: FileEntry, rule: SortRule) -> Ord3 {
    order_keys(sort_key(a, rule), sort_key(b, rule))
}

proof fn lemma_keys2(a0: Atom, a1: Atom, b0: Atom, b1: Atom)
    ensures
        order_keys(seq![a0, a1], seq![b0, b1]) == then(order_atom(a0, b0), order_atom(a1, b1)),
{
    reveal_with_fuel(order_keys, 3);
    assert(seq![a0, a1].drop_first() =~= seq![a1]);
    assert(seq![b0, b1].drop_first() =~= seq![b1]);
    assert(seq![a1].drop_first() =~= Seq::<Atom>::empty());
    assert(seq![b1].drop_first() =~= Seq::<Atom>::empty());
}

proof fn lemma_keys3(a0: Atom, a1: Atom, a2: Atom, b0: Atom, b1: Atom, b2: Atom)
    ensures
        order_keys(seq![a0, a1, a2], seq![b0, b1, b2]) == then(
            order_atom(a0, b0),
            then(order_atom(a1, b1), order_atom(a2, b2)),
        ),
{
    reveal_with_fuel(order_keys, 4);
    assert(seq![a0, a1, a2].drop_first() =~= seq![a1, a2]);
    assert(seq![b0, b1, b2].drop_first() =~= seq![b1, b2]);
    lemma_keys2(a1, a2, b1, b2);
}

fn lower_chars(s: &String) -> (r: Vec<char>)
    ensures
        r@ == lowercase_of(s@),
{
    let l = s.as_str().to_lowercase();
    chars_of(l.as_str())
}

fn compare_part_text(a: &Vec<char>, b: &Vec<char>, asc: bool) -> (r: Ord3)
    ensures
        r == order_atom(text_part(a@, asc), text_part(b@, asc)),
{
    if asc {
        compare_text(a, b)
    } else {
        compare_text(b, a)
    }
}

fn compare_part_num(a: i128, b: i128, asc: bool) -> (r: Ord3)
    ensures
        r == order_atom(num_part(a as int, asc), num_part(b as int, asc)),
{
    if asc {
        compare_i128(a, b)
    } else {
        compare_i128(b, a)
    }
}

fn then_exec(first: Ord3, second: Ord3) -> (r: Ord3)
    ensures
        r == then(first, second),
{
    if first == Ord3::Equal {
        second
    } else {
        first
    }
}

/// How two entries compare under `rule`.
pub fn compare_entries(a: &FileEntry, b: &FileEntry, rule: SortRule) -> (r: Ord3)
    ensures
        r == entry_order(*a, *b, rule),
{
    let ra: i128 = if a.is_dir {
        0
    } else {
        1
    };
    let rb: i128 = if b.is_dir {
        0
    } else {
        1
    };
    let d = compare_i128(ra, rb);
    match rule {
        SortRule::Listing => {
            let la = lower_chars(&a.name);
            let lb = lower_chars(&b.name);
            let c = compare_text(&la, &lb);
            proof {
                lemma_keys2(
                    Atom::Num(dir_rank(*a)),
                    Atom::Text(la@),
                    Atom::Num(dir_rank(*b)),
                    Atom::Text(lb@),
                );
            }
            then_exec(d, c)
        },
        SortRule::Column(col, asc) => match col {
            SortCol::Name => {
                let la = lower_chars(&a.name);
                let lb = lower_chars(&b.name);
                let na = chars_of(a.name.as_str());
                let nb = chars_of(b.name.as_str());
                let c1 = compare_part_text(&la, &lb, asc);
                let c2 = compare_part_text(&na, &nb, asc);
                proof {
                    lemma_keys3(
                        Atom::Num(dir_rank(*a)),
                        text_part(la@, asc),
                        text_part(na@, asc),
                        Atom::Num(dir_rank(*b)),
                        text_part(lb@, asc),
                        text_part(nb@, asc),
                    );
                }
                then_exec(d, then_exec(c1, c2))
            },
            SortCol::Size => {
                let c = compare_part_num(a.size as i128, b.size as i128, asc);
                proof {
                    lemma_keys2(
                        Atom::Num(dir_rank(*a)),
                        num_part(a.size as int, asc),
                        Atom::Num(dir_rank(*b)),
                        num_part(b.size as int, asc),
                    );
                }
                then_exec(d, c)
            },
            SortCol::Modified => {
                let c1 = compare_part_num(a.modified_secs as i128, b.modified_secs as i128, asc);
                let c2 = compare_part_num(a.modified_nanos as i128, b.modified_nanos as i128, asc);
                proof {
                    lemma_keys3(
                        Atom::Num(dir_rank(*a)),
                        num_part(a.modified_secs as int, asc),
                        num_part(a.modified_nanos as int, asc),
                        Atom::Num(dir_rank(*b)),
                        num_part(b.modified_secs as int, asc),
                        num_part(b.modified_nanos as int, asc),
                    );
                }
                then_exec(d, then_exec(c1, c2))
            },
            SortCol::Type => {
                let ma = lower_chars(&a.mime_approx);
                let mb = lower_chars(&b.mime_approx);
                let la = lower_chars(&a.name);
                let lb = lower_chars(&b.name);
                let c1 = compare_part_text(&ma, &mb, asc);
                let c2 = compare_part_text(&la, &lb, asc);
                proof {
                    lemma_keys3(
                        Atom::Num(dir_rank(*a)),
                        text_part(ma@, asc),
                        text_part(la@, asc),
                        Atom::Num(dir_rank(*b)),
                        text_part(mb@, asc),
                        text_part(lb@, asc),
                    );
                }
                then_exec(d, then_exec(c1, c2))
            },
        },
    }
}

/// The sort key of an entry under a rule, as a function.
pub open spec fn key_of(rule: SortRule) -> spec_fn(FileEntry) -> Seq<Atom> {
    |e: FileEntry| sort_key(e, rule)
}

/// `out` is `inp` sorted stably by `rule`.
pub open spec fn sorted_listing(out: Seq<FileEntry>, inp: Seq<FileEntry>, rule: SortRule) -> bool {
    stable_sort_of(out, inp, key_of(rule))
}

/// Sorts entries stably by `rule`.
pub fn sort_by_rule(entries: &mut Vec<FileEntry>, rule: SortRule)
    ensures
        sorted_listing(final(entries)@, old(entries)@, rule),
{
    let compare = |a: &FileEntry, b: &FileEntry| -> (r: Ord3)
        ensures
            r == order_keys(sort_key(*a, rule), sort_key(*b, rule)),
        { compare_entries(a, b, rule) };
    sort_by_keys(entries, Ghost(key_of(rule)), compare);
}

/// Sorts entries by a column, folders first, stably; `asc == false` reverses the column
/// order but keeps folders first.
pub fn sort_entries(entries: &mut Vec<FileEntry>, col: SortCol, asc: bool)
    ensures
        sorted_listing(final(entries)@, old(entries)@, SortRule::Column(col, asc)),
{
    sort_by_rule(entries, SortRule::Column(col, asc));
}

/// A fresh listing shows an entry unless it is hidden (its name starts with `.`) while
/// hidden entries are off, or a search is given and the lower-cased name lacks it.
pub open spec fn listed(name: Seq<char>, show_hidden: bool, search_lower: Seq<char>) -> bool {
    &&& !(!show_hidden && name.len() > 0 && name[0] == '.')
    &&& (search_lower.len() == 0 || contains_seq(lowercase_of(name), search_lower))
}

/// The entries a fresh listing keeps, as a predicate.
pub open spec fn listing_filter(show_hidden: bool, search_lower: Seq<char>) -> spec_fn(FileEntry) -> bool {
    |e: FileEntry| listed(e.name@, show_hidden, search_lower)
}

/// Whether a fresh listing shows an entry named `name`; `search_lower` is the
/// lower-cased search text.
pub fn keep_entry(name: &str, show_hidden: bool, search_lower: &Vec<char>) -> (r: bool)
    ensures
        r == listed(name@, show_hidden, search_lower@),
{
    let nv = chars_of(name);
    if !show_hidden && nv.len() > 0 && nv[0] == '.' {
        return false;
    }
    if search_lower.len() == 0 {
        return true;
    }
    let lower = name.to_lowercase();
    let lv = chars_of(lower.as_str());
    contains_chars(&lv, search_lower)
}

/// A copy of an entry.
pub fn copy_entry(e: &FileEntry) -> (r: FileEntry)
    ensures
        r == *e,
{
    FileEntry {
        name: e.name.clone(),
        path: e.path.clone(),
        is_dir: e.is_dir,
        is_symlink: e.is_symlink,
        is_hidden: e.is_hidden,
        size: e.size,
        modified_secs: e.modified_secs,
        modified_nanos: e.modified_nanos,
        icon_name: e.icon_name.clone(),
        mime_approx: e.mime_approx.clone(),
    }
}

/// The entries a fresh listing shows, in their original order.
pub fn filter_listing(entries: &Vec<FileEntry>, show_hidden: bool, search: &str) -> (r: Vec<FileEntry>)
    ensures
        r@ == entries@.filter(listing_filter(show_hidden, lowercase_of(search@))),
{
    let ghost pred = listing_filter(show_hidden, lowercase_of(search@));
    let search_lower_s = search.to_lowercase();
    let search_lower = chars_of(search_lower_s.as_str());
    let mut out: Vec<FileEntry> = Vec::new();
    let mut i: usize = 0;
    while i < entries.len()
        invariant
            i <= entries.len(),
            search_lower@ == lowercase_of(search@),
            pred == listing_filter(show_hidden, lowercase_of(search@)),
            out@ == entries@.take(i as int).filter(pred),
        decreases entries.len() - i,
    {
        proof {
            reveal_with_fuel(Seq::<_>::filter, 1);
            assert(entries@.take(i + 1).drop_last() =~= entries@.take(i as int));
        }
        let e = &entries[i];
        let keep = keep_entry(e.name.as_str(), show_hidden, &search_lower);
        proof {
            assert(keep == listed(entries@[i as int].name@, show_hidden, lowercase_of(search@)));
            assert(entries@.take(i + 1).last() == entries@[i as int]);
            assert(keep == pred(entries@[i as int]));
        }
        if keep {
            out.push(copy_entry(&entries[i]));
        }
        i = i + 1;
    }
    proof {
        assert(entries@.take(entries.len() as int) =~= entries@);
    }
    out
}

/// What a fresh listing shows: the shown entries, folders first, then by lower-cased name.
pub fn arrange_listing(entries: &Vec<FileEntry>, show_hidden: bool, search: &str) -> (r: Vec<FileEntry>)
    ensures
        sorted_listing(
            r@,
            entries@.filter(listing_filter(show_hidden, lowercase_of(search@))),
            SortRule::Listing,
        ),
{
    let mut kept = filter_listing(entries, show_hidden, search);
    sort_by_rule(&mut kept, SortRule::Listing);
    kept
}

/// The column and direction a tab sorts by.
#[derive(Clone, Copy, PartialEq, Eq, Structural, Debug)]
pub struct SortState {
    pub col: SortCol,
    pub asc: bool,
}

/// Clicking a column header: the sorted column flips direction, another column becomes
/// the sorted one, ascending.
pub open spec fn after_header_click(s: SortState, col: SortCol) -> SortState {
    if s.col == col {
        SortState { col, asc: !s.asc }
    } else {
        SortState { col, asc: true }
    }
}

impl SortState {
    /// A new tab sorts by name, ascending.
    pub fn new() -> (r: SortState)
        ensures
            r == (SortState { col: SortCol::Name, asc: true }),
    {
        SortState { col: SortCol::Name, asc: true }
    }

    /// A click on the header of `col`.
    pub fn set_sort(&mut self, col: SortCol)
        ensures
            *final(self) == after_header_click(*old(self), col),
    {
        if self.col == col {
            self.asc = !self.asc;
        } else {
            self.col = col;
            self.asc = true;
        }
    }

    /// Picking `col` in the sort menu: the direction stays.
    pub fn choose_column(&mut self, col: SortCol)
        ensures
            *final(self) == (SortState { col, asc: old(self).asc }),
    {
        self.col = col;
    }

    /// Ticking or unticking "Descending Order" in the sort menu.
    pub fn flip_direction(&mut self)
        ensures
            *final(self) == (SortState { col: old(self).col, asc: !old(self).asc }),
    {
        self.asc = !self.asc;
    }

    /// The arrow shown beside the header of `col`: up when sorted ascending by it, down
    /// when descending, nothing for other columns.
    pub fn arrow_for(&self, col: SortCol) -> (r: &'static str)
        ensures
            r@ == (if self.col != col {
                ""@
            } else if self.asc {
                "\u{25b4}"@
            } else {
                "\u{25be}"@
            }),
    {
        if self.col != col {
            ""
        } else if self.asc {
            "\u{25b4}"
        } else {
            "\u{25be}"
        }
    }
}

/// The name a column has in the sort menu.
pub open spec fn col_name(col: SortCol) -> Seq<char> {
    match col {
        SortCol::Name => "name"@,
        SortCol::Size => "size"@,
        SortCol::Modified => "modified"@,
        SortCol::Type => "type"@,
    }
}

/// The column a sort-menu name stands for; an unknown name means by name.
pub open spec fn col_from_name(s: Seq<char>) -> SortCol {
    if s == "size"@ {
        SortCol::Size
    } else if s == "modified"@ {
        SortCol::Modified
    } else if s == "type"@ {
        SortCol::Type
    } else {
        SortCol::Name
    }
}

/// The sort-menu name of a column.
pub fn sort_col_name(col: SortCol) -> (r: &'static str)
    ensures
        r@ == col_name(col),
{
    match col {
        SortCol::Name => "name",
        SortCol::Size => "size",
        SortCol::Modified => "modified",
        SortCol::Type => "type",
    }
}

/// The column a sort-menu name stands for.
pub fn sort_col_from_name(s: &str) -> (r: SortCol)
    ensures
        r == col_from_name(s@),
{
    if str_eq(s, "size") {
        SortCol::Size
    } else if str_eq(s, "modified") {
        SortCol::Modified
    } else if str_eq(s, "type") {
        SortCol::Type
    } else {
        SortCol::Name
    }
}

/// Reading back a column's menu name gives the column.
pub proof fn law_col_name_round_trip(col: SortCol)
    ensures
        col_from_name(col_name(col)) == col,
{
    reveal_strlit("name");
    reveal_strlit("size");
    reveal_strlit("modified");
    reveal_strlit("type");
    assert("name"@[0] != "size"@[0]);
    assert("name"@[0] != "modified"@[0]);
    assert("name"@[0] != "type"@[0]);
    assert("size"@.len() != "modified"@.len());
    assert("size"@[0] != "type"@[0]);
    assert("modified"@.len() != "type"@.len());
}

/// Clicking the sorted column's header twice restores the sort; clicking another
/// column sorts by it ascending.
pub proof fn law_header_click_twice(s: SortState, col: SortCol)
    ensures
        s.col == col ==> after_header_click(after_header_click(s, col), col) == s,
        s.col != col ==> after_header_click(s, col) == (SortState { col, asc: true }),
{
}

/// Whatever the rule, a sorted listing shows every folder before every file.
pub proof fn law_folders_first(out: Seq<FileEntry>, inp: Seq<FileEntry>, rule: SortRule)
    requires
        sorted_listing(out, inp, rule),
    ensures
        forall|i: int, j: int|
            0 <= i < j < out.len() && #[trigger] out[j].is_dir ==> #[trigger] out[i].is_dir,
{
    let p = choose|p: Seq<int>| crate::sorting::sorts_with(out, inp, key_of(rule), p);
    assert forall|i: int, j: int| 0 <= i < j < out.len() && #[trigger] out[j].is_dir implies #[trigger] out[i].is_dir by {
        assert(crate::sorting::korder(out[i], out[j], key_of(rule)) != Ord3::Greater);
        let a = sort_key(out[i], rule);
        let b = sort_key(out[j], rule);
        assert(a.len() > 0 && b.len() > 0);
        assert(a[0] == Atom::Num(dir_rank(out[i])));
        assert(b[0] == Atom::Num(dir_rank(out[j])));
        if !out[i].is_dir {
            assert(order_atom(a[0], b[0]) == Ord3::Greater);
            assert(order_keys(a, b) == Ord3::Greater);
        }
    }
}

/// A listing without hidden files shows no entry whose name starts with `.`, and
/// with a search shows only entries whose lower-cased name contains it.
pub proof fn law_listing_filters(entries: Seq<FileEntry>, show_hidden: bool, search: Seq<char>)
    ensures
        forall|i: int|
            0 <= i < entries.filter(listing_filter(show_hidden, lowercase_of(search))).len() ==> {
                let e = #[trigger] entries.filter(listing_filter(show_hidden, lowercase_of(search)))[i];
                &&& !show_hidden ==> !(e.name@.len() > 0 && e.name@[0] == '.')
                &&& lowercase_of(search).len() > 0 ==> contains_seq(
                    lowercase_of(e.name@),
                    lowercase_of(search),
                )
            },
{
    broadcast use vstd::seq_lib::group_filter_ensures;

    let f = listing_filter(show_hidden, lowercase_of(search));
    let kept = entries.filter(f);
    assert forall|i: int| 0 <= i < kept.len() implies f(#[trigger] kept[i]) by {}
}

proof fn lemma_flip_then(c1: Ord3, c2: Ord3)
    ensures
        then(flip(c1), flip(c2)) == flip(then(c1, c2)),
{
}

/// Between two folders, or two files, sorting a column descending gives exactly the
/// opposite order of sorting it ascending.
pub proof fn law_descending_reverses(a: FileEntry, b: FileEntry, col: SortCol)
    requires
        a.is_dir == b.is_dir,
    ensures
        entry_order(a, b, SortRule::Column(col, false)) == flip(
            entry_order(a, b, SortRule::Column(col, true)),
        ),
{
    let la = lowercase_of(a.name@);
    let lb = lowercase_of(b.name@);
    lemma_order_chars(la, lb, la);
    lemma_order_chars(a.name@, b.name@, a.name@);
    let ma = lowercase_of(a.mime_approx@);
    let mb = lowercase_of(b.mime_approx@);
    lemma_order_chars(ma, mb, ma);
    let d = order_atom(Atom::Num(dir_rank(a)), Atom::Num(dir_rank(b)));
    assert(d == Ord3::Equal);
    match col {
        SortCol::Name => {
            lemma_keys3(Atom::Num(dir_rank(a)), text_part(la, false), text_part(a.name@, false),
                Atom::Num(dir_rank(b)), text_part(lb, false), text_part(b.name@, false));
            lemma_keys3(Atom::Num(dir_rank(a)), text_part(la, true), text_part(a.name@, true),
                Atom::Num(dir_rank(b)), text_part(lb, true), text_part(b.name@, true));
            lemma_flip_then(order_chars(la, lb), order_chars(a.name@, b.name@));
        },
        SortCol::Size => {
            lemma_keys2(Atom::Num(dir_rank(a)), num_part(a.size as int, false),
                Atom::Num(dir_rank(b)), num_part(b.size as int, false));
            lemma_keys2(Atom::Num(dir_rank(a)), num_part(a.size as int, true),
                Atom::Num(dir_rank(b)), num_part(b.size as int, true));
        },
        SortCol::Modified => {
            lemma_keys3(Atom::Num(dir_rank(a)), num_part(a.modified_secs as int, false),
                num_part(a.modified_nanos as int, false), Atom::Num(dir_rank(b)),
                num_part(b.modified_secs as int, false), num_part(b.modified_nanos as int, false));
            lemma_keys3(Atom::Num(dir_rank(a)), num_part(a.modified_secs as int, true),
                num_part(a.modified_nanos as int, true), Atom::Num(dir_rank(b)),
                num_part(b.modified_secs as int, true), num_part(b.modified_nanos as int, true));
            lemma_flip_then(
                order_int(a.modified_secs as int, b.modified_secs as int),
                order_int(a.modified_nanos as int, b.modified_nanos as int),
            );
        },
        SortCol::Type => {
            lemma_keys3(Atom::Num(dir_rank(a)), text_part(ma, false), text_part(la, false),
                Atom::Num(dir_rank(b)), text_part(mb, false), text_part(lb, false));
            lemma_keys3(Atom::Num(dir_rank(a)), text_part(ma, true), text_part(la, true),
                Atom::Num(dir_rank(b)), text_part(mb, true), text_part(lb, true));
            lemma_flip_then(order_chars(ma, mb), order_chars(la, lb));
        },
    }
}

/// In a listing sorted by name descending, each folder comes before every folder whose
/// lower-cased name is greater, and likewise for files.
pub proof fn law_name_descending_order(out: Seq<FileEntry>, inp: Seq<FileEntry>)
    requires
        sorted_listing(out, inp, SortRule::Column(SortCol::Name, false)),
    ensures
        forall|i: int, j: int|
            0 <= i < j < out.len() && out[i].is_dir == out[j].is_dir ==> order_chars(
                lowercase_of((#[trigger] out[i]).name@),
                lowercase_of((#[trigger] out[j]).name@),
            ) != Ord3::Less,
{
    let rule = SortRule::Column(SortCol::Name, false);
    let p = choose|p: Seq<int>| crate::sorting::sorts_with(out, inp, key_of(rule), p);
    assert forall|i: int, j: int|
        0 <= i < j < out.len() && out[i].is_dir == out[j].is_dir implies order_chars(
            lowercase_of((#[trigger] out[i]).name@),
            lowercase_of((#[trigger] out[j]).name@),
        ) != Ord3::Less by {
        assert(crate::sorting::korder(out[i], out[j], key_of(rule)) != Ord3::Greater);
        let (a, b) = (out[i], out[j]);
        let la = lowercase_of(a.name@);
        let lb = lowercase_of(b.name@);
        lemma_keys3(Atom::Num(dir_rank(a)), text_part(la, false), text_part(a.name@, false),
            Atom::Num(dir_rank(b)), text_part(lb, false), text_part(b.name@, false));
        lemma_order_chars(la, lb, la);
    }
}

/// In a fresh listing, folders and files each appear in the order of their lower-cased
/// names.
pub proof fn law_listing_by_lowercase_name(out: Seq<FileEntry>, inp: Seq<FileEntry>)
    requires
        sorted_listing(out, inp, SortRule::Listing),
    ensures
        forall|i: int, j: int|
            0 <= i < j < out.len() && out[i].is_dir == out[j].is_dir ==> order_chars(
                lowercase_of((#[trigger] out[i]).name@),
                lowercase_of((#[trigger] out[j]).name@),
            ) != Ord3::Greater,
{
    let rule = SortRule::Listing;
    let p = choose|p: Seq<int>| crate::sorting::sorts_with(out, inp, key_of(rule), p);
    assert forall|i: int, j: int|
        0 <= i < j < out.len() && out[i].is_dir == out[j].is_dir implies order_chars(
            lowercase_of((#[trigger] out[i]).name@),
            lowercase_of((#[trigger] out[j]).name@),
        ) != Ord3::Greater by {
        assert(crate::sorting::korder(out[i], out[j], key_of(rule)) != Ord3::Greater);
        let (a, b) = (out[i], out[j]);
        lemma_keys2(Atom::Num(dir_rank(a)), Atom::Text(lowercase_of(a.name@)),
            Atom::Num(dir_rank(b)), Atom::Text(lowercase_of(b.name@)));
    }
}

/// The search finds text anywhere in a name: an entry that is not a hidden one while
/// hidden entries are off, and whose lower-cased name holds the lower-cased search text
/// at some position, is listed.
pub proof fn law_search_finds_any_position(name: Seq<char>, show_hidden: bool, search_lower: Seq<char>, at: int)
    requires
        !(!show_hidden && name.len() > 0 && name[0] == '.'),
        0 <= at,
        at + search_lower.len() <= lowercase_of(name).len(),
        lowercase_of(name).subrange(at, at + search_lower.len()) == search_lower,
    ensures
        listed(name, show_hidden, search_lower),
{
    assert(crate::text::occurs_at(lowercase_of(name), search_lower, at));
}

/// Filtering a listing keeps every entry whose lower-cased name holds the lower-cased
/// search text at some position, unless it is hidden while hidden entries are off.
pub proof fn law_filter_keeps_matches(entries: Seq<FileEntry>, show_hidden: bool, search: Seq<char>, k: int, at: int)
    requires
        0 <= k < entries.len(),
        !(!show_hidden && entries[k].name@.len() > 0 && entries[k].name@[0] == '.'),
        0 <= at,
        at + lowercase_of(search).len() <= lowercase_of(entries[k].name@).len(),
        lowercase_of(entries[k].name@).subrange(at, at + lowercase_of(search).len()) == lowercase_of(search),
    ensures
        entries.filter(listing_filter(show_hidden, lowercase_of(search))).contains(entries[k]),
{
    broadcast use vstd::seq_lib::group_filter_ensures;

    law_search_finds_any_position(entries[k].name@, show_hidden, lowercase_of(search), at);
    let f = listing_filter(show_hidden, lowercase_of(search));
    assert(f(entries[k]));
}

} // verus!
