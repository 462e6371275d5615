use vstd::prelude::*;
use crate::paths::{components_of, file_name_of, joined, path_components, path_file_name, path_join, same_components};

verus! {

/// One button of the path bar: what it reads, where it leads, and whether it is the
/// folder being shown.
pub struct Crumb {
    pub label: String,
    pub target: String,
    pub active: bool,
}

/// The path made of the first `n` components.
pub open spec fn crumb_path(cs: Seq<(u8, Seq<char>)>, n: nat) -> Seq<char>
    decreases n,
{
    if n == 0 || n > cs.len() {
        Seq::empty()
    } else {
        joined(crumb_path(cs, (n - 1) as nat), cs[n - 1].1)
    }
}

/// Where the path bar's buttons lead: one path per component, each with one more
/// component than the last; just `/` for a path with no components.
pub open spec fn crumb_targets(path: Seq<char>) -> Seq<Seq<char>> {
    let cs = components_of(path);
    if cs.len() == 0 {
        seq!["/"@]
    } else {
        Seq::new(cs.len(), |i: int| crumb_path(cs, (i + 1) as nat))
    }
}

/// What a button reads: the file name of its path; for the first button `/` when the
/// path is the root, or the whole path when it has no file name; for the others
/// nothing when there is no file name.
pub open spec fn crumb_label(p: Seq<char>, first: bool) -> Seq<char> {
    if first {
        if components_of(p) == components_of("/"@) {
            "/"@
        } else {
            match file_name_of(p) {
                Some(n) => n,
                None => p,
            }
        }
    } else {
        match file_name_of(p) {
            Some(n) => n,
            None => Seq::empty(),
        }
    }
}

/// The buttons for the first `i` targets: (label, target, active), with a button left
/// out when its label is empty; the last target is the active one.
pub open spec fn crumbs_upto(ts: Seq<Seq<char>>, i: nat) -> Seq<(Seq<char>, Seq<char>, bool)>
    decreases i,
{
    if i == 0 || i > ts.len() {
        Seq::empty()
    } else {
        let r = crumbs_upto(ts, (i - 1) as nat);
        let k = i - 1;
        let label = crumb_label(ts[k], k == 0);
        if label.len() == 0 {
            r
        } else {
            r.push((label, ts[k], k == ts.len() - 1))
        }
    }
}

/// The path bar's buttons for `path`.
pub open spec fn path_bar(path: Seq<char>) -> Seq<(Seq<char>, Seq<char>, bool)> {
    crumbs_upto(crumb_targets(path), crumb_targets(path).len())
}

/// The view of a list of buttons.
pub open spec fn crumbs_view(v: Seq<Crumb>) -> Seq<(Seq<char>, Seq<char>, bool)> {
    v.map_values(|c: Crumb| (c.label@, c.target@, c.active))
}

fn crumb_targets_exec(path: &str) -> (r: Vec<String>)
    ensures
        r.len() > 0,
        r.deep_view() == crumb_targets(path@),
{
    let cs = path_components(path);
    let ghost dc = cs.deep_view();
    let mut out: Vec<String> = Vec::new();
    if cs.len() == 0 {
        out.push("/".to_owned());
        proof {
            assert(out.deep_view() =~= crumb_targets(path@));
        }
        return out;
    }
    let mut cur = String::new();
    let mut i: usize = 0;
    while i < cs.len()
        invariant
            i <= cs.len(),
            dc == cs.deep_view(),
            dc == components_of(path@),
            cur@ == crumb_path(dc, i as nat),
            out.len() == i,
            forall|k: int| 0 <= k < i ==> out.deep_view()[k] == crumb_path(dc, (k + 1) as nat),
        decreases cs.len() - i,
    {
        let ghost prev = out.deep_view();
        cur = path_join(cur.as_str(), cs[i].1.as_str());
        out.push(cur.clone());
        proof {
            assert(dc[i as int].1 == cs@[i as int].1@);
            assert(out.deep_view() =~= prev.push(cur@));
            assert(cur@ == crumb_path(dc, (i + 1) as nat));
        }
        i = i + 1;
    }
    proof {
        assert(out.deep_view() =~= crumb_targets(path@));
    }
    out
}

fn crumb_label_exec(p: &String, first: bool) -> (r: String)
    ensures
        r@ == crumb_label(p@, first),
{
    if first {
        let root = "/".to_owned();
        proof {
            reveal_strlit("/");
        }
        let a = path_components(p.as_str());
        let b = path_components(root.as_str());
        if same_components(&a, &b) {
            return root;
        }
        match path_file_name(p.as_str()) {
            Some(n) => n,
            None => p.clone(),
        }
    } else {
        match path_file_name(p.as_str()) {
            Some(n) => n,
            None => String::new(),
        }
    }
}

/// The path bar's buttons for `path`, from the root down to the folder itself, which
/// is the active one.
pub fn breadcrumbs(path: &str) -> (r: Vec<Crumb>)
    ensures
        crumbs_view(r@) == path_bar(path@),
{
    let ts = crumb_targets_exec(path);
    let ghost dt = ts.deep_view();
    let mut out: Vec<Crumb> = Vec::new();
    let mut i: usize = 0;
    while i < ts.len()
        invariant
            i <= ts.len(),
            dt == ts.deep_view(),
            dt == crumb_targets(path@),
            crumbs_view(out@) == crumbs_upto(dt, i as nat),
        decreases ts.len() - i,
    {
        let label = crumb_label_exec(&ts[i], i == 0);
        proof {
            assert(dt[i as int] == ts@[i as int]@);
        }
        if !label.as_str().is_empty() {
            out.push(Crumb { label, target: ts[i].clone(), active: i == ts.len() - 1 });
            proof {
                assert(crumbs_view(out@) =~= crumbs_upto(dt, i as nat).push(
                    (crumb_label(dt[i as int], i == 0), dt[i as int], i == dt.len() - 1),
                ));
            }
        }
        i = i + 1;
    }
    out
}

/// Only the last button of the path bar can be the active one, and no button before
/// it is.
pub proof fn law_active_is_last(ts: Seq<Seq<char>>, i: nat)
    ensures
        forall|k: int|
            0 <= k < crumbs_upto(ts, i).len() - 1 ==> !(#[trigger] crumbs_upto(ts, i)[k]).2,
    decreases i,
{
    if i > 0 && i <= ts.len() {
        law_active_is_last(ts, (i - 1) as nat);
        let r = crumbs_upto(ts, (i - 1) as nat);
        lemma_upto_inactive(ts, (i - 1) as nat);
        let c = crumbs_upto(ts, i);
        assert forall|k: int| 0 <= k < c.len() - 1 implies !(#[trigger] c[k]).2 by {
            assert(c[k] == r[k]);
        }
    }
}

proof fn lemma_upto_inactive(ts: Seq<Seq<char>>, i: nat)
    requires
        i < ts.len(),
    ensures
        forall|k: int| 0 <= k < crumbs_upto(ts, i).len() ==> !(#[trigger] crumbs_upto(ts, i)[k]).2,
    decreases i,
{
    if i > 0 {
        lemma_upto_inactive(ts, (i - 1) as nat);
        let r = crumbs_upto(ts, (i - 1) as nat);
        let c = crumbs_upto(ts, i);
        assert forall|k: int| 0 <= k < c.len() implies !(#[trigger] c[k]).2 by {
            if k < r.len() {
                assert(c[k] == r[k]);
            }
        }
    }
}

} // verus!
