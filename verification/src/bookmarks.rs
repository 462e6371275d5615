use vstd::prelude::*;
use crate::paths::{file_name_of, path_file_name, same_path, same_place};
use crate::text::{
    chars_eq, chars_of, first_index, lines, lines_of, push_str, starts_with, string_of,
    sub_chars, trim, trim_chars, trim_str,
};
use crate::uri::{percent_decode, percent_decoded_bytes, percent_encode, percent_encoded, utf8_text};

verus! {

/// A saved sidebar place: the name shown and the folder it opens.
#[derive(Debug)]
pub struct Bookmark {
    pub name: String,
    pub path: String,
}

/// A bookmark as (name, path).
pub open spec fn bm(b: Bookmark) -> (Seq<char>, Seq<char>) {
    (b.name@, b.path@)
}

/// A list of bookmarks as (name, path) pairs.
pub open spec fn bms(v: Seq<Bookmark>) -> Seq<(Seq<char>, Seq<char>)> {
    Seq::new(v.len(), |i: int| bm(v[i]))
}

/// `s` with every leading copy of `p` removed (`str::trim_start_matches`).
pub open spec fn strip_all_prefix(s: Seq<char>, p: Seq<char>) -> Seq<char>
    decreases s.len(),
{
    if p.len() > 0 && p.is_prefix_of(s) {
        strip_all_prefix(s.skip(p.len() as int), p)
    } else {
        s
    }
}

/// The name a folder gets by default: its file name, else the whole path.
pub open spec fn default_name(path: Seq<char>) -> Seq<char> {
    match file_name_of(path) {
        Some(n) => n,
        None => path,
    }
}

/// The bookmark a saved line holds: `file://` URI, then optionally a space and a label.
/// Blank lines and other URIs hold none; an empty label means the folder's name.
pub open spec fn line_bookmark(line: Seq<char>) -> Option<(Seq<char>, Seq<char>)> {
    let t = trim(line);
    if t.len() == 0 {
        None
    } else {
        let uri = match first_index(t, ' ') {
            Some(i) => t.take(i),
            None => t,
        };
        let label = match first_index(t, ' ') {
            Some(i) => trim(t.skip(i + 1)),
            None => Seq::empty(),
        };
        if !"file://"@.is_prefix_of(uri) {
            None
        } else {
            let path = utf8_text(percent_decoded_bytes(strip_all_prefix(uri, "file://"@)));
            let name = if label.len() == 0 {
                default_name(path)
            } else {
                label
            };
            Some((name, path))
        }
    }
}

/// Some bookmark in `acc` opens `path` (a path with the same components).
pub open spec fn has_path(acc: Seq<(Seq<char>, Seq<char>)>, path: Seq<char>) -> bool {
    exists|i: int| 0 <= i < acc.len() && same_place(acc[i].1, path)
}

/// The bookmarks of saved lines, appended to `acc`; a later line for a folder already
/// listed is skipped.
pub open spec fn collect_bookmarks(ls: Seq<Seq<char>>, acc: Seq<(Seq<char>, Seq<char>)>) -> Seq<(Seq<char>, Seq<char>)>
    decreases ls.len(),
{
    if ls.len() == 0 {
        acc
    } else {
        let next = match line_bookmark(ls[0]) {
            Some(b) => if has_path(acc, b.1) {
                acc
            } else {
                acc.push(b)
            },
            None => acc,
        };
        collect_bookmarks(ls.drop_first(), next)
    }
}

/// The bookmarks a saved bookmarks file holds.
pub open spec fn parsed_bookmarks(text: Seq<char>) -> Seq<(Seq<char>, Seq<char>)> {
    collect_bookmarks(lines(text), Seq::empty())
}

fn strip_all_file_scheme(v: &Vec<char>) -> (r: Vec<char>)
    ensures
        r@ == strip_all_prefix(v@, "file://"@),
{
    let p = chars_of("file://");
    let mut start: usize = 0;
    proof {
        assert(v@.skip(0) =~= v@);
    }
    loop
        invariant
            start <= v.len(),
            p@ == "file://"@,
            strip_all_prefix(v@, "file://"@) == strip_all_prefix(v@.skip(start as int), "file://"@),
        decreases v.len() - start,
    {
        let rest = sub_chars(v, start, v.len());
        proof {
            assert(rest@ =~= v@.skip(start as int));
        }
        if p.len() > 0 && starts_with(&rest, "file://") {
            proof {
                assert(rest@.skip(p@.len() as int) =~= v@.skip(start + p@.len()));
            }
            start = start + p.len();
        } else {
            return rest;
        }
    }
}

/// The bookmark one saved line holds, if any.
fn parse_line(line: &Vec<char>) -> (r: Option<Bookmark>)
    ensures
        match r {
            Some(b) => line_bookmark(line@) == Some(bm(b)),
            None => line_bookmark(line@) is None,
        },
{
    let t = trim_chars(line);
    if t.len() == 0 {
        return None;
    }
    let mut i: usize = 0;
    while i < t.len() && t[i] != ' '
        invariant
            i <= t.len(),
            forall|k: int| 0 <= k < i ==> t@[k] != ' ',
        decreases t.len() - i,
    {
        i = i + 1;
    }
    let uri = sub_chars(&t, 0, i);
    let label = if i < t.len() {
        let after = sub_chars(&t, i + 1, t.len());
        trim_chars(&after)
    } else {
        Vec::new()
    };
    proof {
        if i < t.len() {
            crate::text::lemma_first_index_at(t@, ' ', i as int);
            assert(t@.take(i as int) =~= uri@);
            assert(t@.skip(i + 1) =~= t@.subrange(i + 1, t@.len() as int));
        } else {
            crate::text::lemma_first_index_none(t@, ' ');
            assert(t@ =~= uri@);
        }
    }
    if !starts_with(&uri, "file://") {
        return None;
    }
    let stripped = strip_all_file_scheme(&uri);
    let stripped_s = string_of(&stripped);
    let path = percent_decode(stripped_s.as_str());
    let name = if label.len() == 0 {
        match path_file_name(path.as_str()) {
            Some(n) => n,
            None => path.clone(),
        }
    } else {
        string_of(&label)
    };
    Some(Bookmark { name, path })
}

fn has_path_exec(acc: &Vec<Bookmark>, path: &String) -> (r: bool)
    ensures
        r == has_path(bms(acc@), path@),
{
    let mut i: usize = 0;
    while i < acc.len()
        invariant
            i <= acc.len(),
            forall|k: int| 0 <= k < i ==> !same_place(acc@[k].path@, path@),
        decreases acc.len() - i,
    {
        if same_path(acc[i].path.as_str(), path.as_str()) {
            proof {
                assert(bms(acc@)[i as int].1 == acc@[i as int].path@);
            }
            return true;
        }
        i = i + 1;
    }
    proof {
        assert forall|k: int| 0 <= k < bms(acc@).len() implies !same_place(bms(acc@)[k].1, path@) by {
            assert(bms(acc@)[k] == bm(acc@[k]));
        }
    }
    false
}

/// The bookmarks a saved bookmarks file holds, in order, each folder once.
pub fn parse_bookmarks(text: &str) -> (r: Vec<Bookmark>)
    ensures
        bms(r@) == parsed_bookmarks(text@),
{
    let v = chars_of(text);
    let ls = lines_of(&v);
    let ghost all = lines(text@);
    let mut out: Vec<Bookmark> = Vec::new();
    let mut i: usize = 0;
    proof {
        assert(all.skip(0) =~= all);
        assert(bms(out@) =~= Seq::<(Seq<char>, Seq<char>)>::empty());
    }
    while i < ls.len()
        invariant
            ls.deep_view() == all,
            all == lines(text@),
            i <= ls.len(),
            parsed_bookmarks(text@) == collect_bookmarks(all.skip(i as int), bms(out@)),
        decreases ls.len() - i,
    {
        proof {
            assert(all.skip(i as int)[0] == ls@[i as int]@);
            assert(all.skip(i as int).drop_first() =~= all.skip(i + 1));
        }
        match parse_line(&ls[i]) {
            Some(b) => {
                if !has_path_exec(&out, &b.path) {
                    let ghost before = bms(out@);
                    out.push(b);
                    proof {
                        assert(bms(out@) =~= before.push(bm(b)));
                    }
                }
            },
            None => {},
        }
        i = i + 1;
    }
    out
}

/// The saved line of a bookmark: its `file://` URI, then a space and the trimmed name
/// unless that is empty, then a line break.
pub open spec fn bookmark_line(b: (Seq<char>, Seq<char>)) -> Seq<char> {
    let uri = "file://"@ + percent_encoded(b.1);
    let n = trim(b.0);
    if n.len() == 0 {
        uri + "\n"@
    } else {
        uri + " "@ + n + "\n"@
    }
}

/// The saved form of a list of bookmarks: their lines in order.
pub open spec fn serialized_bookmarks(items: Seq<(Seq<char>, Seq<char>)>) -> Seq<char>
    decreases items.len(),
{
    if items.len() == 0 {
        Seq::empty()
    } else {
        bookmark_line(items[0]) + serialized_bookmarks(items.drop_first())
    }
}

/// The text a bookmarks file is written with.
pub fn serialize_bookmarks(items: &Vec<Bookmark>) -> (r: String)
    ensures
        r@ == serialized_bookmarks(bms(items@)),
{
    let mut out: Vec<char> = Vec::new();
    let mut i: usize = 0;
    let ghost all = bms(items@);
    proof {
        assert(all.skip(0) =~= all);
    }
    while i < items.len()
        invariant
            all == bms(items@),
            i <= items.len(),
            out@ + serialized_bookmarks(all.skip(i as int)) == serialized_bookmarks(all),
        decreases items.len() - i,
    {
        let ghost before = out@;
        let b = &items[i];
        push_str(&mut out, "file://");
        let enc = percent_encode(b.path.as_str());
        push_str(&mut out, enc.as_str());
        let n = trim_str(b.name.as_str());
        if n.len() > 0 {
            push_str(&mut out, " ");
            let ns = string_of(&n);
            push_str(&mut out, ns.as_str());
        }
        push_str(&mut out, "\n");
        proof {
            assert(all.skip(i as int)[0] == bm(items@[i as int]));
            assert(all.skip(i as int).drop_first() =~= all.skip(i + 1));
            assert(out@ =~= before + bookmark_line(bm(items@[i as int])));
            assert(before + (bookmark_line(bm(items@[i as int])) + serialized_bookmarks(all.skip(i + 1)))
                =~= out@ + serialized_bookmarks(all.skip(i + 1)));
        }
        i = i + 1;
    }
    proof {
        assert(all.skip(i as int).len() == 0);
        assert(out@ =~= serialized_bookmarks(all));
    }
    string_of(&out)
}

/// Adding a folder: the list is unchanged when it is there already, else it gains the
/// folder under its default name.
pub open spec fn with_bookmark(items: Seq<(Seq<char>, Seq<char>)>, path: Seq<char>) -> Seq<(Seq<char>, Seq<char>)> {
    if has_path(items, path) {
        items
    } else {
        items.push((default_name(path), path))
    }
}

/// Adds the folder `path` to the bookmarks unless it is there.
pub fn add_bookmark(items: &mut Vec<Bookmark>, path: &str)
    ensures
        bms(final(items)@) == with_bookmark(bms(old(items)@), path@),
{
    let p = path.to_owned();
    if has_path_exec(items, &p) {
        return;
    }
    let name = match path_file_name(path) {
        Some(n) => n,
        None => path.to_owned(),
    };
    let ghost before = bms(items@);
    items.push(Bookmark { name, path: p });
    proof {
        assert(bms(items@) =~= before.push((default_name(path@), path@)));
    }
}

/// Removing a folder drops every bookmark that opens it.
pub open spec fn without_bookmark(items: Seq<(Seq<char>, Seq<char>)>, path: Seq<char>) -> Seq<(Seq<char>, Seq<char>)> {
    items.filter(|b: (Seq<char>, Seq<char>)| !same_place(b.1, path))
}

/// Removes the bookmarks of the folder `path`.
pub fn remove_bookmark(items: &mut Vec<Bookmark>, path: &str)
    ensures
        bms(final(items)@) == without_bookmark(bms(old(items)@), path@),
{
    let ghost all = bms(items@);
    let ghost keep = |b: (Seq<char>, Seq<char>)| !same_place(b.1, path@);
    let mut kept: Vec<Bookmark> = Vec::new();
    let mut rest: Vec<Bookmark> = Vec::new();
    std::mem::swap(&mut rest, items);
    let mut i: usize = 0;
    let n = rest.len();
    proof {
        assert(bms(kept@) =~= all.take(0).filter(keep));
    }
    while i < n
        invariant
            rest.len() == n,
            all == bms(rest@),
            keep == (|b: (Seq<char>, Seq<char>)| !same_place(b.1, path@)),
            i <= n,
            bms(kept@) == all.take(i as int).filter(keep),
        decreases n - i,
    {
        proof {
            reveal_with_fuel(Seq::<_>::filter, 1);
            assert(all.take(i + 1).drop_last() =~= all.take(i as int));
            assert(all.take(i + 1).last() == bm(rest@[i as int]));
        }
        let b = &rest[i];
        if !same_path(b.path.as_str(), path) {
            let ghost before = bms(kept@);
            kept.push(Bookmark { name: b.name.clone(), path: b.path.clone() });
            proof {
                assert(bms(kept@) =~= before.push(bm(rest@[i as int])));
            }
        }
        i = i + 1;
    }
    proof {
        assert(all.take(n as int) =~= all);
    }
    *items = kept;
}

/// Renaming: the new name is the trimmed input; an empty one or one equal to the name
/// the menu showed changes nothing; else the first bookmark of the folder is renamed.
pub open spec fn renamed_bookmark(
    items: Seq<(Seq<char>, Seq<char>)>,
    path: Seq<char>,
    shown: Seq<char>,
    input: Seq<char>,
) -> Seq<(Seq<char>, Seq<char>)> {
    let name = trim(input);
    if name.len() == 0 || name == shown {
        items
    } else {
        match first_with_path(items, path) {
            Some(i) => items.update(i, (name, items[i].1)),
            None => items,
        }
    }
}

/// Index of the first bookmark of `path`.
pub open spec fn first_with_path(items: Seq<(Seq<char>, Seq<char>)>, path: Seq<char>) -> Option<int>
    decreases items.len(),
{
    if items.len() == 0 {
        None
    } else if same_place(items[0].1, path) {
        Some(0)
    } else {
        match first_with_path(items.drop_first(), path) {
            Some(i) => Some(i + 1),
            None => None,
        }
    }
}

proof fn lemma_first_with_path(items: Seq<(Seq<char>, Seq<char>)>, path: Seq<char>, j: int)
    requires
        0 <= j <= items.len(),
        forall|k: int| 0 <= k < j ==> !same_place(items[k].1, path),
    ensures
        j < items.len() && same_place(items[j].1, path) ==> first_with_path(items, path) == Some(j),
        j == items.len() ==> first_with_path(items, path) is None,
    decreases j,
{
    if j > 0 {
        lemma_first_with_path(items.drop_first(), path, j - 1);
    }
}

/// Renames the first bookmark of `path` to the trimmed `input`, unless that is empty or
/// equal to `shown`, the name the menu showed; says whether anything changed.
pub fn rename_bookmark(items: &mut Vec<Bookmark>, path: &str, shown: &str, input: &str) -> (changed: bool)
    ensures
        bms(final(items)@) == renamed_bookmark(bms(old(items)@), path@, shown@, input@),
        changed == (trim(input@).len() > 0 && trim(input@) != shown@ && first_with_path(bms(old(items)@), path@) is Some),
{
    let name = trim_str(input);
    let shown_v = chars_of(shown);
    if name.len() == 0 || chars_eq(&name, &shown_v) {
        return false;
    }
    proof {
        assert(name@ != shown@);
    }
    let ghost all = bms(items@);
    let mut i: usize = 0;
    while i < items.len()
        invariant
            all == bms(items@),
            all == bms(old(items)@),
            name@ == trim(input@),
            name@.len() > 0,
            name@ != shown@,
            i <= items.len(),
            forall|k: int| 0 <= k < i ==> !same_place(all[k].1, path@),
        decreases items.len() - i,
    {
        if same_path(items[i].path.as_str(), path) {
            proof {
                lemma_first_with_path(all, path@, i as int);
            }
            let p = items[i].path.clone();
            let nm = string_of(&name);
            items.set(i, Bookmark { name: nm, path: p });
            proof {
                assert(bms(items@) =~= all.update(i as int, (name@, all[i as int].1)));
            }
            return true;
        }
        proof {
            assert(all[i as int] == bm(items@[i as int]));
        }
        i = i + 1;
    }
    proof {
        lemma_first_with_path(all, path@, i as int);
    }
    false
}

/// A bookmark survives saving and loading: its name is already trimmed, not empty and
/// on one line, and its encoded path does not itself start with `file://`.
pub open spec fn saveable(b: (Seq<char>, Seq<char>)) -> bool {
    &&& b.0 == trim(b.0)
    &&& b.0.len() > 0
    &&& forall|i: int| 0 <= i < b.0.len() ==> b.0[i] != '\n'
    &&& !"file://"@.is_prefix_of(percent_encoded(b.1))
}

/// No two bookmarks open the same folder (paths with the same components).
pub open spec fn distinct_paths(items: Seq<(Seq<char>, Seq<char>)>) -> bool {
    forall|i: int, j: int| 0 <= i < j < items.len() ==> !same_place(items[i].1, items[j].1)
}

/// The saved line of a bookmark without its line break.
pub open spec fn line_body(b: (Seq<char>, Seq<char>)) -> Seq<char> {
    "file://"@ + percent_encoded(b.1) + " "@ + b.0
}

proof fn lemma_body_facts(b: (Seq<char>, Seq<char>))
    requires
        saveable(b),
    ensures
        bookmark_line(b) == line_body(b) + seq!['\n'],
        forall|i: int| 0 <= i < line_body(b).len() ==> line_body(b)[i] != '\n',
        !(line_body(b).len() > 0 && line_body(b).last() == '\r'),
        line_body(b).len() > 0,
        line_body(b)[0] == 'f',
        !crate::text::is_ws(line_body(b).last()),
{
    reveal_strlit("file://");
    reveal_strlit(" ");
    reveal_strlit("\n");
    crate::uri::lemma_encoded_printable(b.1);
    crate::text::lemma_trim_ends(b.0);
    let enc = percent_encoded(b.1);
    let body = line_body(b);
    assert forall|i: int| 0 <= i < body.len() implies body[i] != '\n' by {
        if i < 7 {
        } else if i < 7 + enc.len() {
            assert(body[i] == enc[i - 7]);
        } else if i == 7 + enc.len() {
        } else {
            assert(body[i] == b.0[i - 8 - enc.len()]);
        }
    }
    assert(body.last() == b.0.last());
}

proof fn lemma_lines_of_saved(items: Seq<(Seq<char>, Seq<char>)>)
    requires
        forall|i: int| 0 <= i < items.len() ==> saveable(#[trigger] items[i]),
    ensures
        lines(serialized_bookmarks(items)) == Seq::new(items.len(), |i: int| line_body(items[i])),
    decreases items.len(),
{
    if items.len() > 0 {
        let rest = items.drop_first();
        assert(saveable(items[0]));
        lemma_body_facts(items[0]);
        assert forall|i: int| 0 <= i < rest.len() implies saveable(#[trigger] rest[i]) by {
            assert(rest[i] == items[i + 1]);
        }
        lemma_lines_of_saved(rest);
        crate::text::lemma_lines_cons(line_body(items[0]), serialized_bookmarks(rest));
        assert(serialized_bookmarks(items) =~= line_body(items[0]) + seq!['\n'] + serialized_bookmarks(rest));
        assert(Seq::new(items.len(), |i: int| line_body(items[i])) =~= seq![line_body(items[0])]
            + Seq::new(rest.len(), |i: int| line_body(rest[i])));
    } else {
        assert(serialized_bookmarks(items).len() == 0);
    }
}

proof fn lemma_line_round_trip(b: (Seq<char>, Seq<char>))
    requires
        saveable(b),
    ensures
        line_bookmark(line_body(b)) == Some(b),
{
    reveal_strlit("file://");
    reveal_strlit(" ");
    lemma_body_facts(b);
    crate::uri::lemma_encoded_printable(b.1);
    let enc = percent_encoded(b.1);
    let body = line_body(b);
    let uri = "file://"@ + enc;
    crate::text::lemma_trim_id(body);
    assert(!crate::text::is_ws(body[0]));
    let k = uri.len() as int;
    assert forall|i: int| 0 <= i < k implies body[i] != ' ' by {
        if i >= 7 {
            assert(body[i] == enc[i - 7]);
        }
    }
    assert(body[k] == ' ');
    crate::text::lemma_first_index_at(body, ' ', k);
    assert(body.take(k) =~= uri);
    assert(body.skip(k + 1) =~= b.0);
    assert("file://"@.is_prefix_of(uri)) by {
        assert(uri.subrange(0, 7) =~= "file://"@);
    }
    assert(uri.skip(7) =~= enc);
    assert(strip_all_prefix(enc, "file://"@) == enc);
    assert(strip_all_prefix(uri, "file://"@) == enc);
    crate::uri::law_percent_round_trip(b.1);
}

proof fn lemma_collect_saved(items: Seq<(Seq<char>, Seq<char>)>, acc: Seq<(Seq<char>, Seq<char>)>)
    requires
        forall|i: int| 0 <= i < items.len() ==> saveable(#[trigger] items[i]),
        distinct_paths(items),
        forall|i: int| 0 <= i < items.len() ==> !has_path(acc, #[trigger] items[i].1),
    ensures
        collect_bookmarks(Seq::new(items.len(), |i: int| line_body(items[i])), acc) == acc + items,
    decreases items.len(),
{
    let ls = Seq::new(items.len(), |i: int| line_body(items[i]));
    if items.len() == 0 {
        assert(acc + items =~= acc);
    } else {
        let rest = items.drop_first();
        assert(saveable(items[0]));
        lemma_line_round_trip(items[0]);
        assert(ls[0] == line_body(items[0]));
        assert(!has_path(acc, items[0].1));
        let acc2 = acc.push(items[0]);
        assert forall|i: int| 0 <= i < rest.len() implies saveable(#[trigger] rest[i]) by {
            assert(rest[i] == items[i + 1]);
        }
        assert forall|i: int| 0 <= i < rest.len() implies !has_path(acc2, #[trigger] rest[i].1) by {
            assert(rest[i] == items[i + 1]);
            assert(!has_path(acc, items[i + 1].1));
            if has_path(acc2, rest[i].1) {
                let j = choose|j: int| 0 <= j < acc2.len() && same_place(acc2[j].1, rest[i].1);
                if j < acc.len() {
                    assert(acc[j] == acc2[j]);
                } else {
                    assert(!same_place(items[0].1, items[i + 1].1));
                }
            }
        }
        lemma_collect_saved(rest, acc2);
        assert(ls.drop_first() =~= Seq::new(rest.len(), |i: int| line_body(rest[i])));
        assert(acc2 + rest =~= acc + items);
    }
}

/// Loading what saving wrote gives back the same bookmarks, for bookmarks that can be
/// saved and open distinct folders.
pub proof fn law_bookmarks_round_trip(items: Seq<(Seq<char>, Seq<char>)>)
    requires
        forall|i: int| 0 <= i < items.len() ==> saveable(#[trigger] items[i]),
        distinct_paths(items),
    ensures
        parsed_bookmarks(serialized_bookmarks(items)) == items,
{
    lemma_lines_of_saved(items);
    lemma_collect_saved(items, Seq::empty());
    assert(Seq::<(Seq<char>, Seq<char>)>::empty() + items =~= items);
}

/// Adding a folder twice is adding it once, and removing a folder after adding it
/// leaves what removing it alone leaves.
pub proof fn law_add_then_remove(items: Seq<(Seq<char>, Seq<char>)>, path: Seq<char>)
    ensures
        with_bookmark(with_bookmark(items, path), path) == with_bookmark(items, path),
        without_bookmark(with_bookmark(items, path), path) == without_bookmark(items, path),
        has_path(with_bookmark(items, path), path),
        !has_path(without_bookmark(items, path), path),
{
    broadcast use vstd::seq_lib::group_filter_ensures;

    let w = with_bookmark(items, path);
    if !has_path(items, path) {
        assert(same_place(w[items.len() as int].1, path));
        items.lemma_filter_push(
            (default_name(path), path),
            |b: (Seq<char>, Seq<char>)| !same_place(b.1, path),
        );
    }
    let r = without_bookmark(items, path);
    if has_path(r, path) {
        let i = choose|i: int| 0 <= i < r.len() && same_place(r[i].1, path);
        assert(!same_place(r[i].1, path));
    }
}

} // verus!
