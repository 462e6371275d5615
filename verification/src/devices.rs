use vstd::prelude::*;
use crate::order::{compare_text, order_atom, order_keys, Atom, Ord3};
use crate::paths::{components_of, file_name_of, path_components, path_file_name, same_components, same_place};
use crate::sorting::{korder, sort_by_keys, sorted_by, sorts_with, stable_sort_of};
use crate::text::{
    chars_of, is_ws, is_ws_exec, lemma_trim_start_skip, lines, lines_of, starts_with, string_of,
    sub_chars, trim_start,
};

verus! {

/// Length of the run of non-white-space characters that `s` starts with.
pub open spec fn word_len(s: Seq<char>) -> nat
    decreases s.len(),
{
    if s.len() > 0 && !is_ws(s[0]) {
        1 + word_len(s.drop_first())
    } else {
        0
    }
}

/// The first white-space separated word of `s`; empty when there is none.
pub open spec fn first_word(s: Seq<char>) -> Seq<char> {
    let t = trim_start(s);
    t.take(word_len(t) as int)
}

/// What follows the first word of `s`.
pub open spec fn after_first_word(s: Seq<char>) -> Seq<char> {
    let t = trim_start(s);
    t.skip(word_len(t) as int)
}

/// The part of `s` after its last `/`; all of `s` when it has none.
pub open spec fn after_last_slash(s: Seq<char>) -> Seq<char>
    decreases s.len(),
{
    if s.len() == 0 {
        s
    } else if s.last() == '/' {
        Seq::empty()
    } else {
        after_last_slash(s.drop_last()).push(s.last())
    }
}

/// Whether a mount point is one of the folders where removable devices are mounted,
/// `/media`, `/mnt` or `/run/media`, or lies under one of them.
pub open spec fn on_device_root(mnt: Seq<char>) -> bool {
    ||| mnt == "/media"@
    ||| "/media/"@.is_prefix_of(mnt)
    ||| mnt == "/mnt"@
    ||| "/mnt/"@.is_prefix_of(mnt)
    ||| mnt == "/run/media"@
    ||| "/run/media/"@.is_prefix_of(mnt)
}

/// A mount is listed when a `/dev/` device backs it and it is mounted under
/// `/media`, `/mnt` or `/run/media`.
pub open spec fn mount_kept(src: Seq<char>, mnt: Seq<char>) -> bool {
    &&& "/dev/"@.is_prefix_of(src)
    &&& on_device_root(mnt)
}

/// The label of a device: the mount point's file name, or else the device's own name.
pub open spec fn device_name(src: Seq<char>, mnt: Seq<char>) -> Seq<char> {
    match file_name_of(mnt) {
        Some(n) => if n.len() > 0 {
            n
        } else {
            after_last_slash(src)
        },
        None => after_last_slash(src),
    }
}

/// The device a line of a mount table describes: its first field is the source,
/// its second the mount point.
pub open spec fn device_of(line: Seq<char>) -> Option<(Seq<char>, Seq<char>)> {
    let src = first_word(line);
    let mnt = first_word(after_first_word(line));
    if mount_kept(src, mnt) {
        Some((device_name(src, mnt), mnt))
    } else {
        None
    }
}

/// The devices of a list of mount-table lines, in table order.
pub open spec fn devices_listed(ls: Seq<Seq<char>>) -> Seq<(Seq<char>, Seq<char>)>
    decreases ls.len(),
{
    if ls.len() == 0 {
        Seq::empty()
    } else {
        let rest = devices_listed(ls.drop_last());
        match device_of(ls.last()) {
            Some(d) => rest.push(d),
            None => rest,
        }
    }
}

/// A path component, kind then text, as two key parts.
pub open spec fn component_atoms(cs: Seq<(u8, Seq<char>)>) -> Seq<Atom>
    decreases cs.len(),
{
    if cs.len() == 0 {
        Seq::empty()
    } else {
        seq![Atom::Num(cs[0].0 as int), Atom::Text(cs[0].1)] + component_atoms(cs.drop_first())
    }
}

/// Devices order by label, then by mount point, component by component.
pub open spec fn device_key(d: (Seq<char>, Seq<char>)) -> Seq<Atom> {
    seq![Atom::Text(d.0)] + component_atoms(components_of(d.1))
}

/// Whether one of the devices in `r` is mounted at the same place as `mnt`.
pub open spec fn place_taken(r: Seq<(Seq<char>, Seq<char>)>, mnt: Seq<char>) -> bool {
    exists|k: int| 0 <= k < r.len() && same_place(#[trigger] r[k].1, mnt)
}

/// `s` with every device dropped whose mount point is the same place as that of a
/// device kept before it.
pub open spec fn dedup_mounts(s: Seq<(Seq<char>, Seq<char>)>) -> Seq<(Seq<char>, Seq<char>)>
    decreases s.len(),
{
    if s.len() == 0 {
        s
    } else {
        let r = dedup_mounts(s.drop_last());
        if place_taken(r, s.last().1) {
            r
        } else {
            r.push(s.last())
        }
    }
}

/// The view of a list of (label, mount point) pairs.
pub open spec fn pairs_view(v: Seq<(String, String)>) -> Seq<(Seq<char>, Seq<char>)> {
    v.map_values(|d: (String, String)| (d.0@, d.1@))
}

proof fn lemma_word_len_bound(s: Seq<char>)
    ensures
        word_len(s) <= s.len(),
    decreases s.len(),
{
    if s.len() > 0 && !is_ws(s[0]) {
        lemma_word_len_bound(s.drop_first());
    }
}

proof fn sort_view(inp: Seq<(String, String)>, out: Seq<(String, String)>)
    requires
        stable_sort_of(out, inp, |d: (String, String)| device_key((d.0@, d.1@))),
    ensures
        stable_sort_of(pairs_view(out), pairs_view(inp), |d: (Seq<char>, Seq<char>)| device_key(d)),
{
    let k1 = |d: (String, String)| device_key((d.0@, d.1@));
    let k2 = |d: (Seq<char>, Seq<char>)| device_key(d);
    let p = choose|p: Seq<int>| sorts_with(out, inp, k1, p);
    let vo = pairs_view(out);
    let vi = pairs_view(inp);
    assert forall|i: int| 0 <= i < vo.len() implies vo[i] == vi[#[trigger] p[i]] by {
        assert(out[i] == inp[p[i]]);
    }
    assert forall|i: int, j: int| 0 <= i < j < vo.len() implies #[trigger] korder(vo[i], vo[j], k2)
        != Ord3::Greater by {
        assert(korder(out[i], out[j], k1) != Ord3::Greater);
    }
    assert forall|i: int, j: int|
        0 <= i < j < vo.len() && #[trigger] korder(vo[i], vo[j], k2) == Ord3::Equal implies p[i]
        < p[j] by {
        assert(korder(out[i], out[j], k1) == Ord3::Equal);
    }
    assert(sorted_by(vo, k2));
    assert(sorts_with(vo, vi, k2, p));
}

/// Index of the first character at or after `i` that is not white space.
fn skip_space(v: &Vec<char>, i: usize) -> (j: usize)
    requires
        i <= v.len(),
    ensures
        i <= j <= v.len(),
        trim_start(v@.skip(i as int)) == v@.skip(j as int),
{
    let mut j = i;
    while j < v.len() && is_ws_exec(v[j])
        invariant
            i <= j <= v.len(),
            forall|k: int| i <= k < j ==> is_ws(v@[k]),
        decreases v.len() - j,
    {
        j = j + 1;
    }
    proof {
        let s = v@.skip(i as int);
        lemma_trim_start_skip(s, j - i);
        assert(s.skip(j - i) =~= v@.skip(j as int));
        let t = v@.skip(j as int);
        assert(!(t.len() > 0 && is_ws(t[0])));
    }
    j
}

/// End of the run of non-white-space characters that starts at `i`.
fn word_end(v: &Vec<char>, i: usize) -> (j: usize)
    requires
        i <= v.len(),
    ensures
        i <= j <= v.len(),
        word_len(v@.skip(i as int)) == j - i,
{
    let mut j = i;
    while j < v.len() && !is_ws_exec(v[j])
        invariant
            i <= j <= v.len(),
            word_len(v@.skip(i as int)) == (j - i) + word_len(v@.skip(j as int)),
        decreases v.len() - j,
    {
        proof {
            assert(v@.skip(j as int).drop_first() =~= v@.skip(j + 1));
        }
        j = j + 1;
    }
    j
}

/// The first word of `v` at or after `i`, and the index just past it.
fn word_at(v: &Vec<char>, i: usize) -> (r: (Vec<char>, usize))
    requires
        i <= v.len(),
    ensures
        r.0@ == first_word(v@.skip(i as int)),
        r.1 <= v.len(),
        after_first_word(v@.skip(i as int)) == v@.skip(r.1 as int),
{
    let a = skip_space(v, i);
    let b = word_end(v, a);
    proof {
        let t = v@.skip(a as int);
        assert(t.take(b - a) =~= v@.subrange(a as int, b as int));
        assert(t.skip(b - a) =~= v@.skip(b as int));
    }
    (sub_chars(v, a, b), b)
}

/// The part of `v` after its last `/`.
fn after_last_slash_exec(v: &Vec<char>) -> (r: Vec<char>)
    ensures
        r@ == after_last_slash(v@),
{
    let mut k = v.len();
    proof {
        assert(v@.take(k as int) =~= v@);
        assert(v@.subrange(k as int, k as int) =~= Seq::<char>::empty());
    }
    while k > 0 && v[k - 1] != '/'
        invariant
            k <= v.len(),
            after_last_slash(v@) == after_last_slash(v@.take(k as int)) + v@.subrange(
                k as int,
                v.len() as int,
            ),
        decreases k,
    {
        proof {
            let t = v@.take(k as int);
            assert(t.drop_last() =~= v@.take(k - 1));
            assert(after_last_slash(t) == after_last_slash(v@.take(k - 1)).push(v@[k - 1]));
            assert(after_last_slash(v@.take(k - 1)).push(v@[k - 1]) + v@.subrange(
                k as int,
                v.len() as int,
            ) =~= after_last_slash(v@.take(k - 1)) + v@.subrange(k - 1, v.len() as int));
        }
        k = k - 1;
    }
    proof {
        assert(after_last_slash(v@.take(k as int)) =~= Seq::<char>::empty());
        assert(Seq::<char>::empty() + v@.subrange(k as int, v.len() as int) =~= v@.subrange(
            k as int,
            v.len() as int,
        ));
    }
    sub_chars(v, k, v.len())
}

/// Whether `v` is exactly the text `p`.
fn is_exactly(v: &Vec<char>, p: &str) -> (r: bool)
    ensures
        r == (v@ == p@),
{
    let pv = chars_of(p);
    let r = v.len() == pv.len() && starts_with(v, p);
    proof {
        if r {
            assert(v@ =~= p@);
        }
    }
    r
}

/// Whether the mount point `mnt` is `/media`, `/mnt` or `/run/media`, or under one.
fn on_device_root_exec(mnt: &Vec<char>) -> (r: bool)
    ensures
        r == on_device_root(mnt@),
{
    is_exactly(mnt, "/media") || starts_with(mnt, "/media/") || is_exactly(mnt, "/mnt")
        || starts_with(mnt, "/mnt/") || is_exactly(mnt, "/run/media") || starts_with(
        mnt,
        "/run/media/",
    )
}

/// The device a mount-table line describes, if it is one to list.
pub fn device_of_line(line: &Vec<char>) -> (r: Option<(String, String)>)
    ensures
        match r {
            Some(d) => device_of(line@) == Some((d.0@, d.1@)),
            None => device_of(line@) is None,
        },
{
    proof {
        assert(line@.skip(0) =~= line@);
    }
    let (src, after) = word_at(line, 0);
    let (mnt, _) = word_at(line, after);
    let keep = starts_with(&src, "/dev/") && on_device_root_exec(&mnt);
    if !keep {
        return None;
    }
    let mount = string_of(&mnt);
    let name = match path_file_name(mount.as_str()) {
        Some(n) => if !n.as_str().is_empty() {
            n
        } else {
            string_of(&after_last_slash_exec(&src))
        },
        None => string_of(&after_last_slash_exec(&src)),
    };
    Some((name, mount))
}

proof fn lemma_atoms_step(cs: Seq<(u8, Seq<char>)>, i: int)
    requires
        0 <= i < cs.len(),
    ensures
        component_atoms(cs.skip(i)) == seq![Atom::Num(cs[i].0 as int), Atom::Text(cs[i].1)]
            + component_atoms(cs.skip(i + 1)),
{
    assert(cs.skip(i).drop_first() =~= cs.skip(i + 1));
}

proof fn lemma_keys_cons(x: Atom, xs: Seq<Atom>, y: Atom, ys: Seq<Atom>)
    ensures
        order_keys(seq![x] + xs, seq![y] + ys) == (if order_atom(x, y) == Ord3::Equal {
            order_keys(xs, ys)
        } else {
            order_atom(x, y)
        }),
{
    assert((seq![x] + xs).drop_first() =~= xs);
    assert((seq![y] + ys).drop_first() =~= ys);
}

proof fn lemma_keys_pair(x0: Atom, x1: Atom, xs: Seq<Atom>, y0: Atom, y1: Atom, ys: Seq<Atom>)
    ensures
        order_keys(seq![x0, x1] + xs, seq![y0, y1] + ys) == (if order_atom(x0, y0)
            == Ord3::Equal {
            if order_atom(x1, y1) == Ord3::Equal {
                order_keys(xs, ys)
            } else {
                order_atom(x1, y1)
            }
        } else {
            order_atom(x0, y0)
        }),
{
    assert(seq![x0, x1] + xs =~= seq![x0] + (seq![x1] + xs));
    assert(seq![y0, y1] + ys =~= seq![y0] + (seq![y1] + ys));
    lemma_keys_cons(x0, seq![x1] + xs, y0, seq![y1] + ys);
    lemma_keys_cons(x1, xs, y1, ys);
}

/// Compares two component lists, kind first, then text, shorter first on a tie.
fn compare_components(a: &Vec<(u8, String)>, b: &Vec<(u8, String)>) -> (r: Ord3)
    ensures
        r == order_keys(component_atoms(a.deep_view()), component_atoms(b.deep_view())),
{
    let ghost da = a.deep_view();
    let ghost db = b.deep_view();
    proof {
        assert(da.skip(0) =~= da);
        assert(db.skip(0) =~= db);
    }
    let mut i: usize = 0;
    while i < a.len() && i < b.len()
        invariant
            i <= a.len(),
            i <= b.len(),
            da == a.deep_view(),
            db == b.deep_view(),
            order_keys(component_atoms(da), component_atoms(db)) == order_keys(
                component_atoms(da.skip(i as int)),
                component_atoms(db.skip(i as int)),
            ),
        decreases a.len() - i,
    {
        proof {
            lemma_atoms_step(da, i as int);
            lemma_atoms_step(db, i as int);
            lemma_keys_pair(
                Atom::Num(da[i as int].0 as int),
                Atom::Text(da[i as int].1),
                component_atoms(da.skip(i + 1)),
                Atom::Num(db[i as int].0 as int),
                Atom::Text(db[i as int].1),
                component_atoms(db.skip(i + 1)),
            );
        }
        let ka = a[i].0;
        let kb = b[i].0;
        if ka < kb {
            return Ord3::Less;
        }
        if ka > kb {
            return Ord3::Greater;
        }
        let ta = chars_of(a[i].1.as_str());
        let tb = chars_of(b[i].1.as_str());
        let c = compare_text(&ta, &tb);
        if c != Ord3::Equal {
            return c;
        }
        i = i + 1;
    }
    if i < a.len() {
        proof {
            lemma_atoms_step(da, i as int);
        }
        Ord3::Greater
    } else if i < b.len() {
        proof {
            lemma_atoms_step(db, i as int);
        }
        Ord3::Less
    } else {
        Ord3::Equal
    }
}

/// Whether one of `places` has the components `comps`.
fn place_listed(places: &Vec<Vec<(u8, String)>>, comps: &Vec<(u8, String)>) -> (r: bool)
    ensures
        r == exists|k: int| 0 <= k < places.len() && (#[trigger] places@[k]).deep_view() == comps.deep_view(),
{
    let mut k: usize = 0;
    while k < places.len()
        invariant
            k <= places.len(),
            forall|i: int| 0 <= i < k ==> (#[trigger] places@[i]).deep_view() != comps.deep_view(),
        decreases places.len() - k,
    {
        if same_components(&places[k], comps) {
            return true;
        }
        k = k + 1;
    }
    false
}

/// How two devices compare: by label, then by mount point.
fn device_order(a: &(String, String), b: &(String, String)) -> (r: Ord3)
    ensures
        r == order_keys(device_key((a.0@, a.1@)), device_key((b.0@, b.1@))),
{
    let na = chars_of(a.0.as_str());
    let nb = chars_of(b.0.as_str());
    let c = compare_text(&na, &nb);
    let ca = path_components(a.1.as_str());
    let cb = path_components(b.1.as_str());
    proof {
        lemma_keys_cons(
            Atom::Text(a.0@),
            component_atoms(components_of(a.1@)),
            Atom::Text(b.0@),
            component_atoms(components_of(b.1@)),
        );
    }
    if c != Ord3::Equal {
        return c;
    }
    compare_components(&ca, &cb)
}

/// The devices a mount table lists (`/proc/mounts` format: source, then mount
/// point, separated by white space, one mount per line): sorted by label and then
/// mount point, with a device dropped when its mount point is the same place as that
/// of one listed before it.
pub fn devices_in(table: &str) -> (r: Vec<(String, String)>)
    ensures
        exists|s: Seq<(Seq<char>, Seq<char>)>|
            {
                &&& stable_sort_of(s, devices_listed(lines(table@)), |d: (Seq<char>, Seq<char>)| device_key(d))
                &&& pairs_view(r@) == dedup_mounts(s)
            },
        forall|i: int, j: int| 0 <= i < j < r.len() ==> !same_place((#[trigger] r@[i]).1@, (#[trigger] r@[j]).1@),
{
    let text = chars_of(table);
    let ls = lines_of(&text);
    let mut found: Vec<(String, String)> = Vec::new();
    let mut i: usize = 0;
    while i < ls.len()
        invariant
            i <= ls.len(),
            ls.deep_view() == lines(table@),
            pairs_view(found@) == devices_listed(ls.deep_view().take(i as int)),
        decreases ls.len() - i,
    {
        proof {
            assert(ls.deep_view().take(i + 1).drop_last() =~= ls.deep_view().take(i as int));
            assert(ls.deep_view()[i as int] == ls@[i as int]@);
        }
        match device_of_line(&ls[i]) {
            Some(d) => {
                found.push(d);
                proof {
                    assert(pairs_view(found@) =~= devices_listed(ls.deep_view().take(i as int)).push(
                        (d.0@, d.1@),
                    ));
                }
            },
            None => {},
        }
        i = i + 1;
    }
    proof {
        assert(ls.deep_view().take(ls.len() as int) =~= ls.deep_view());
    }
    let ghost listed = found@;
    let compare = |a: &(String, String), b: &(String, String)| -> (r: Ord3)
        ensures
            r == order_keys(device_key((a.0@, a.1@)), device_key((b.0@, b.1@))),
        { device_order(a, b) };
    sort_by_keys(&mut found, Ghost(|d: (String, String)| device_key((d.0@, d.1@))), compare);
    let ghost sorted = found@;
    let mut out: Vec<(String, String)> = Vec::new();
    let mut places: Vec<Vec<(u8, String)>> = Vec::new();
    let mut j: usize = 0;
    while j < found.len()
        invariant
            j <= found.len(),
            found@ == sorted,
            pairs_view(out@) == dedup_mounts(pairs_view(sorted.take(j as int))),
            places.len() == out.len(),
            forall|k: int| 0 <= k < places.len() ==> (#[trigger] places@[k]).deep_view() == components_of(out@[k].1@),
        decreases found.len() - j,
    {
        let d = &found[j];
        let comps = path_components(d.1.as_str());
        proof {
            assert(pairs_view(sorted.take(j + 1)).drop_last() =~= pairs_view(sorted.take(j as int)));
        }
        let taken = place_listed(&places, &comps);
        proof {
            let r = pairs_view(out@);
            if taken {
                let k = choose|k: int| 0 <= k < places.len() && places@[k].deep_view() == comps.deep_view();
                assert(r[k].1 == out@[k].1@);
                assert(same_place(r[k].1, d.1@));
            } else {
                assert forall|k: int| 0 <= k < r.len() implies !same_place(#[trigger] r[k].1, d.1@) by {
                    assert(r[k].1 == out@[k].1@);
                    assert(places@[k].deep_view() != comps.deep_view());
                }
            }
        }
        if !taken {
            out.push((d.0.clone(), d.1.clone()));
            places.push(comps);
            proof {
                assert(pairs_view(out@) =~= dedup_mounts(pairs_view(sorted.take(j as int))).push(
                    (d.0@, d.1@),
                ));
            }
        }
        j = j + 1;
    }
    proof {
        assert(sorted.take(sorted.len() as int) =~= sorted);
        sort_view(listed, sorted);
        let v = pairs_view(out@);
        law_devices_no_repeat(pairs_view(sorted));
        assert forall|i: int, j: int| 0 <= i < j < out.len() implies !same_place((#[trigger] out@[i]).1@, (#[trigger] out@[j]).1@) by {
            assert(v[i].1 == out@[i].1@ && v[j].1 == out@[j].1@);
        }
    }
    out
}

proof fn lemma_dedup_from(s: Seq<(Seq<char>, Seq<char>)>)
    ensures
        dedup_mounts(s).len() <= s.len(),
        forall|i: int|
            0 <= i < dedup_mounts(s).len() ==> exists|k: int|
                0 <= k < s.len() && #[trigger] dedup_mounts(s)[i] == s[k],
    decreases s.len(),
{
    if s.len() > 0 {
        let t = s.drop_last();
        lemma_dedup_from(t);
        let r = dedup_mounts(t);
        assert forall|i: int| 0 <= i < dedup_mounts(s).len() implies exists|k: int|
            0 <= k < s.len() && #[trigger] dedup_mounts(s)[i] == s[k] by {
            if i < r.len() {
                let k = choose|k: int| 0 <= k < t.len() && r[i] == t[k];
                assert(dedup_mounts(s)[i] == s[k]);
            } else {
                assert(dedup_mounts(s)[i] == s[s.len() - 1]);
            }
        }
    }
}

/// No two devices in the list are mounted at the same place.
pub proof fn law_devices_no_repeat(s: Seq<(Seq<char>, Seq<char>)>)
    ensures
        forall|i: int, j: int|
            0 <= i < j < dedup_mounts(s).len() ==> !same_place(
                #[trigger] dedup_mounts(s)[i].1,
                #[trigger] dedup_mounts(s)[j].1,
            ),
    decreases s.len(),
{
    if s.len() > 0 {
        let t = s.drop_last();
        law_devices_no_repeat(t);
        let r = dedup_mounts(t);
        let d = dedup_mounts(s);
        assert forall|i: int, j: int| 0 <= i < j < d.len() implies !same_place(#[trigger] d[i].1, #[trigger] d[j].1) by {
            if j < r.len() {
                assert(d[i] == r[i] && d[j] == r[j]);
            } else {
                assert(d.len() == r.len() + 1);
                assert(d[i] == r[i]);
                assert(!place_taken(r, s.last().1));
            }
        }
    }
}

/// Dropping repeated mount points keeps a sorted device list sorted.
pub proof fn law_devices_stay_sorted(s: Seq<(Seq<char>, Seq<char>)>)
    requires
        sorted_by(s, |d: (Seq<char>, Seq<char>)| device_key(d)),
    ensures
        sorted_by(dedup_mounts(s), |d: (Seq<char>, Seq<char>)| device_key(d)),
    decreases s.len(),
{
    let key = |d: (Seq<char>, Seq<char>)| device_key(d);
    if s.len() > 0 {
        let t = s.drop_last();
        assert(sorted_by(t, key));
        law_devices_stay_sorted(t);
        lemma_dedup_from(t);
        let r = dedup_mounts(t);
        let d = dedup_mounts(s);
        assert forall|i: int, j: int| 0 <= i < j < d.len() implies #[trigger] korder(d[i], d[j], key)
            != Ord3::Greater by {
            if j >= r.len() {
                let k = choose|k: int| 0 <= k < t.len() && r[i] == t[k];
                assert(d[j] == s[s.len() - 1]);
                assert(korder(s[k], s[s.len() - 1], key) != Ord3::Greater);
            }
        }
    }
}

/// Every listed device is mounted under `/media`, `/mnt` or `/run/media`.
pub proof fn law_devices_kept(ls: Seq<Seq<char>>)
    ensures
        forall|i: int|
            0 <= i < devices_listed(ls).len() ==> on_device_root(
                (#[trigger] devices_listed(ls)[i]).1,
            ),
    decreases ls.len(),
{
    if ls.len() > 0 {
        law_devices_kept(ls.drop_last());
        let r = devices_listed(ls.drop_last());
        let d = devices_listed(ls);
        assert forall|i: int| 0 <= i < d.len() implies on_device_root((#[trigger] d[i]).1) by {
            if i < r.len() {
                assert(d[i] == r[i]);
            }
        }
    }
}

} // verus!
