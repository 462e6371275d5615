use vstd::prelude::*;
use crate::text::{push_str, str_eq, string_of};

verus! {

/// An installed application: the key it is launched by and its display name.
#[derive(Debug)]
pub struct CachedApp {
    pub key: String,
    pub name: String,
}

/// The key and name of an application, as characters.
pub open spec fn app_view(a: CachedApp) -> (Seq<char>, Seq<char>) {
    (a.key@, a.name@)
}

/// The views of a list of applications.
pub open spec fn apps_view(v: Seq<CachedApp>) -> Seq<(Seq<char>, Seq<char>)> {
    v.map_values(|a: CachedApp| app_view(a))
}

/// The keys of a list of application views.
pub open spec fn keys_of(s: Seq<(Seq<char>, Seq<char>)>) -> Seq<Seq<char>> {
    s.map_values(|a: (Seq<char>, Seq<char>)| a.0)
}

/// The key an application is known by: its desktop id, else its command line, else
/// nothing.
pub open spec fn key_spec(id: Option<Seq<char>>, commandline: Option<Seq<char>>) -> Seq<char> {
    match id {
        Some(i) => i,
        None => match commandline {
            Some(c) => c,
            None => Seq::empty(),
        },
    }
}

/// The key an application is known by: its desktop id, else its command line, else
/// the empty string.
pub fn app_key(id: Option<String>, commandline: Option<String>) -> (r: String)
    ensures
        r@ == key_spec(
            match id {
                Some(i) => Some(i@),
                None => None,
            },
            match commandline {
                Some(c) => Some(c@),
                None => None,
            },
        ),
{
    match id {
        Some(i) => i,
        None => match commandline {
            Some(c) => c,
            None => String::new(),
        },
    }
}

/// This file manager's own desktop entries, which "Open With" never offers.
pub open spec fn is_own_app(key: Seq<char>) -> bool {
    key == "sharkmanager.desktop"@ || key == "io.sharkmanager.SharkManager.desktop"@
}

/// The installed applications "Open With" may offer: all but this program itself.
pub open spec fn offerable(s: Seq<(Seq<char>, Seq<char>)>) -> Seq<(Seq<char>, Seq<char>)> {
    s.filter(|a: (Seq<char>, Seq<char>)| !is_own_app(a.0))
}

fn copy_app(a: &CachedApp) -> (r: CachedApp)
    ensures
        app_view(r) == app_view(*a),
{
    CachedApp { key: a.key.clone(), name: a.name.clone() }
}

/// Whether `key` names one of this program's own desktop entries.
pub fn own_app(key: &String) -> (r: bool)
    ensures
        r == is_own_app(key@),
{
    str_eq(key.as_str(), "sharkmanager.desktop") || str_eq(
        key.as_str(),
        "io.sharkmanager.SharkManager.desktop",
    )
}

/// The installed applications without this program itself, in the order given.
pub fn offerable_apps(all: &Vec<CachedApp>) -> (r: Vec<CachedApp>)
    ensures
        apps_view(r@) == offerable(apps_view(all@)),
{
    let mut out: Vec<CachedApp> = Vec::new();
    let mut i: usize = 0;
    while i < all.len()
        invariant
            i <= all.len(),
            apps_view(out@) == offerable(apps_view(all@.take(i as int))),
        decreases all.len() - i,
    {
        let ghost pre = apps_view(all@.take(i as int));
        proof {
            assert(apps_view(all@.take(i + 1)) =~= pre.push(app_view(all@[i as int])));
            pre.lemma_filter_push(app_view(all@[i as int]), |a: (Seq<char>, Seq<char>)| !is_own_app(a.0));
        }
        if !own_app(&all[i].key) {
            out.push(copy_app(&all[i]));
            proof {
                assert(apps_view(out@) =~= offerable(pre).push(app_view(all@[i as int])));
            }
        }
        i = i + 1;
    }
    proof {
        assert(all@.take(all.len() as int) =~= all@);
    }
    out
}

/// `s` with every application dropped whose key an earlier one already has.
pub open spec fn unique_apps(s: Seq<(Seq<char>, Seq<char>)>) -> Seq<(Seq<char>, Seq<char>)>
    decreases s.len(),
{
    if s.len() == 0 {
        s
    } else {
        let r = unique_apps(s.drop_last());
        if keys_of(r).contains(s.last().0) {
            r
        } else {
            r.push(s.last())
        }
    }
}

fn has_key(apps: &Vec<CachedApp>, key: &String) -> (r: bool)
    ensures
        r == keys_of(apps_view(apps@)).contains(key@),
{
    let mut i: usize = 0;
    while i < apps.len()
        invariant
            i <= apps.len(),
            forall|k: int| 0 <= k < i ==> apps@[k].key@ != key@,
        decreases apps.len() - i,
    {
        if str_eq(apps[i].key.as_str(), key.as_str()) {
            proof {
                assert(keys_of(apps_view(apps@))[i as int] == key@);
            }
            return true;
        }
        i = i + 1;
    }
    proof {
        if keys_of(apps_view(apps@)).contains(key@) {
            let k = choose|k: int|
                0 <= k < keys_of(apps_view(apps@)).len() && keys_of(apps_view(apps@))[k] == key@;
            assert(apps@[k].key@ == key@);
        }
    }
    false
}

/// Appends to `out` the applications of `more` whose key `out` does not hold yet.
fn add_unique(out: &mut Vec<CachedApp>, more: &Vec<CachedApp>, Ghost(before): Ghost<Seq<(Seq<char>, Seq<char>)>>)
    requires
        apps_view(old(out)@) == unique_apps(before),
    ensures
        apps_view(final(out)@) == unique_apps(before + apps_view(more@)),
{
    let mut j: usize = 0;
    proof {
        assert(before + apps_view(more@.take(0)) =~= before);
    }
    while j < more.len()
        invariant
            j <= more.len(),
            apps_view(out@) == unique_apps(before + apps_view(more@.take(j as int))),
        decreases more.len() - j,
    {
        proof {
            let s = before + apps_view(more@.take(j + 1));
            assert(s.drop_last() =~= before + apps_view(more@.take(j as int)));
            assert(s.last() == app_view(more@[j as int]));
        }
        if !has_key(out, &more[j].key) {
            out.push(copy_app(&more[j]));
            proof {
                assert(apps_view(out@) =~= unique_apps(before + apps_view(more@.take(j as int))).push(
                    app_view(more@[j as int]),
                ));
            }
        }
        j = j + 1;
    }
    proof {
        assert(more@.take(more.len() as int) =~= more@);
    }
}

/// The "Open With" choices for a file: the applications recommended for its type,
/// then every other offered application, each key once. The count says how many of
/// them are recommended ones. `None` when there is nothing to offer.
pub fn merge_apps(recommended: &Vec<CachedApp>, all: &Vec<CachedApp>) -> (r: Option<(Vec<CachedApp>, usize)>)
    ensures
        match r {
            Some((apps, n)) => {
                &&& apps_view(apps@) == unique_apps(apps_view(recommended@) + apps_view(all@))
                &&& n == unique_apps(apps_view(recommended@)).len()
                &&& apps@.len() > 0
            },
            None => unique_apps(apps_view(recommended@) + apps_view(all@)).len() == 0,
        },
{
    let mut apps: Vec<CachedApp> = Vec::new();
    proof {
        assert(apps_view(apps@) =~= unique_apps(Seq::empty()));
        assert(Seq::<(Seq<char>, Seq<char>)>::empty() + apps_view(recommended@) =~= apps_view(
            recommended@,
        ));
    }
    add_unique(&mut apps, recommended, Ghost(Seq::empty()));
    let rec_count = apps.len();
    add_unique(&mut apps, all, Ghost(apps_view(recommended@)));
    if apps.len() == 0 {
        None
    } else {
        Some((apps, rec_count))
    }
}

/// What the menu shows for an application: its name, with a check mark in front when
/// it is the default for the file's type.
pub open spec fn menu_label(a: (Seq<char>, Seq<char>), default_key: Option<Seq<char>>) -> Seq<char> {
    if default_key == Some(a.0) {
        seq!['\u{2713}', ' '] + a.1
    } else {
        a.1
    }
}

/// The (label, key) entry of an application in the menu.
pub open spec fn menu_entry(a: (Seq<char>, Seq<char>), default_key: Option<Seq<char>>) -> (Seq<char>, Seq<char>) {
    (menu_label(a, default_key), a.0)
}

/// The menu entries of a list of applications.
pub open spec fn menu_entries(s: Seq<(Seq<char>, Seq<char>)>, default_key: Option<Seq<char>>) -> Seq<(Seq<char>, Seq<char>)> {
    s.map_values(|a: (Seq<char>, Seq<char>)| menu_entry(a, default_key))
}

/// The "Open With" submenu: a section of recommended applications and one of the
/// others, each entry a (label, key) pair; an empty section is not shown.
pub struct OpenWithMenu {
    pub recommended: Vec<(String, String)>,
    pub other: Vec<(String, String)>,
}

/// The view of a list of (label, key) pairs.
pub open spec fn entries_view(v: Seq<(String, String)>) -> Seq<(Seq<char>, Seq<char>)> {
    v.map_values(|e: (String, String)| (e.0@, e.1@))
}

fn entries_of(apps: &Vec<CachedApp>, lo: usize, hi: usize, default_key: &Option<String>) -> (r: Vec<(String, String)>)
    requires
        lo <= hi <= apps.len(),
    ensures
        entries_view(r@) == menu_entries(
            apps_view(apps@).subrange(lo as int, hi as int),
            match default_key {
                Some(k) => Some(k@),
                None => None,
            },
        ),
{
    let ghost dk = match default_key {
        Some(k) => Some(k@),
        None => None,
    };
    let mut out: Vec<(String, String)> = Vec::new();
    let mut i: usize = lo;
    while i < hi
        invariant
            lo <= i <= hi <= apps.len(),
            dk == match default_key {
                Some(k) => Some(k@),
                None => None,
            },
            entries_view(out@) == menu_entries(apps_view(apps@).subrange(lo as int, i as int), dk),
        decreases hi - i,
    {
        let a = &apps[i];
        let is_default = match default_key {
            Some(k) => str_eq(k.as_str(), a.key.as_str()),
            None => false,
        };
        let label = if is_default {
            let mut v: Vec<char> = vec!['\u{2713}', ' '];
            push_str(&mut v, a.name.as_str());
            string_of(&v)
        } else {
            a.name.clone()
        };
        out.push((label, a.key.clone()));
        proof {
            assert(apps_view(apps@).subrange(lo as int, i + 1) =~= apps_view(apps@).subrange(
                lo as int,
                i as int,
            ).push(app_view(apps@[i as int])));
            assert(entries_view(out@) =~= menu_entries(
                apps_view(apps@).subrange(lo as int, i as int),
                dk,
            ).push(menu_entry(app_view(apps@[i as int]), dk)));
        }
        i = i + 1;
    }
    out
}

/// The "Open With" submenu for `apps`, of which the first `rec_count` are the
/// recommended ones; `default_key` is the key of the type's default application.
pub fn open_with_menu(apps: &Vec<CachedApp>, rec_count: usize, default_key: &Option<String>) -> (r: OpenWithMenu)
    requires
        rec_count <= apps.len(),
    ensures
        entries_view(r.recommended@) == menu_entries(
            apps_view(apps@).take(rec_count as int),
            match default_key {
                Some(k) => Some(k@),
                None => None,
            },
        ),
        entries_view(r.other@) == menu_entries(
            apps_view(apps@).skip(rec_count as int),
            match default_key {
                Some(k) => Some(k@),
                None => None,
            },
        ),
{
    let recommended = entries_of(apps, 0, rec_count, default_key);
    let other = entries_of(apps, rec_count, apps.len(), default_key);
    proof {
        assert(apps_view(apps@).subrange(0, rec_count as int) =~= apps_view(apps@).take(
            rec_count as int,
        ));
        assert(apps_view(apps@).subrange(rec_count as int, apps.len() as int) =~= apps_view(
            apps@,
        ).skip(rec_count as int));
    }
    OpenWithMenu { recommended, other }
}

proof fn lemma_unique_prefix(a: Seq<(Seq<char>, Seq<char>)>, b: Seq<(Seq<char>, Seq<char>)>)
    ensures
        unique_apps(a).is_prefix_of(unique_apps(a + b)),
    decreases b.len(),
{
    if b.len() == 0 {
        assert(a + b =~= a);
    } else {
        assert((a + b).drop_last() =~= a + b.drop_last());
        lemma_unique_prefix(a, b.drop_last());
    }
}

/// The recommended applications come first, in their own order, whatever follows.
pub proof fn law_recommended_first(recommended: Seq<(Seq<char>, Seq<char>)>, all: Seq<(Seq<char>, Seq<char>)>)
    ensures
        unique_apps(recommended).is_prefix_of(unique_apps(recommended + all)),
{
    lemma_unique_prefix(recommended, all);
}

/// Each key is offered once, and every key of the input is offered.
pub proof fn law_each_key_once(s: Seq<(Seq<char>, Seq<char>)>)
    ensures
        forall|i: int, j: int|
            0 <= i < j < unique_apps(s).len() ==> #[trigger] unique_apps(s)[i].0 != #[trigger] unique_apps(
                s,
            )[j].0,
        forall|k: int| 0 <= k < s.len() ==> keys_of(unique_apps(s)).contains(#[trigger] s[k].0),
    decreases s.len(),
{
    if s.len() > 0 {
        let t = s.drop_last();
        law_each_key_once(t);
        let r = unique_apps(t);
        let u = unique_apps(s);
        if !keys_of(r).contains(s.last().0) {
            assert forall|i: int, j: int| 0 <= i < j < u.len() implies #[trigger] u[i].0 != #[trigger] u[j].0 by {
                if j == r.len() {
                    assert(keys_of(r)[i] == u[i].0);
                }
            }
        }
        assert forall|k: int| 0 <= k < s.len() implies keys_of(u).contains(#[trigger] s[k].0) by {
            if k < t.len() {
                assert(t[k] == s[k]);
                let m = choose|m: int| 0 <= m < keys_of(r).len() && keys_of(r)[m] == t[k].0;
                assert(keys_of(u)[m] == s[k].0);
            } else if !keys_of(r).contains(s.last().0) {
                assert(keys_of(u)[r.len() as int] == s[k].0);
            } else {
                assert(u == r);
            }
        }
    }
}

/// "Open With" never offers this program itself.
pub proof fn law_never_offers_itself(s: Seq<(Seq<char>, Seq<char>)>)
    ensures
        forall|i: int| 0 <= i < offerable(s).len() ==> !is_own_app(#[trigger] offerable(s)[i].0),
{
    broadcast use vstd::seq_lib::group_filter_ensures;

    let f = |a: (Seq<char>, Seq<char>)| !is_own_app(a.0);
    assert forall|i: int| 0 <= i < offerable(s).len() implies !is_own_app(#[trigger] offerable(s)[i].0) by {
        assert(f(s.filter(f)[i]));
    }
}

} // verus!
