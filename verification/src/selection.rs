use vstd::prelude::*;
use crate::geometry::{edges_fit, overlaps, rect_fits, rect_overlaps, Rect};
use crate::paths::{components_of, same_path};

verus! {

/// The selected items of a view, each place once: two paths with the same components
/// are one item.
pub struct Selection {
    items: Vec<String>,
}

/// The characters of each path in a list.
pub open spec fn paths_view(v: Seq<String>) -> Seq<Seq<char>> {
    v.map_values(|s: String| s@)
}

/// The places (component lists) of each path in a list.
pub open spec fn places_view(v: Seq<String>) -> Seq<Seq<(u8, Seq<char>)>> {
    v.map_values(|s: String| components_of(s@))
}

impl View for Selection {
    type V = Set<Seq<(u8, Seq<char>)>>;

    closed spec fn view(&self) -> Set<Seq<(u8, Seq<char>)>> {
        places_view(self.items@).to_set()
    }
}

/// The paths a right-click acts on: the whole selection when the clicked item is part
/// of it, otherwise the clicked item alone.
pub open spec fn context_set<A>(sel: Set<A>, clicked: A) -> Set<A> {
    if sel.contains(clicked) {
        sel
    } else {
        set![clicked]
    }
}

/// The selection a rubber band leaves: what it covers, added to what was selected
/// before when Ctrl was held; a drag too short to count leaves the selection as it was.
pub open spec fn band_result<A>(base: Set<A>, ctrl: bool, is_drag: bool, covered: Set<A>) -> Set<A> {
    if !is_drag {
        base
    } else if ctrl {
        base.union(covered)
    } else {
        covered
    }
}

proof fn lemma_push_to_set<A>(s: Seq<A>, x: A)
    ensures
        s.push(x).to_set() == s.to_set().insert(x),
{
    assert(s.push(x).to_set() =~= s.to_set().insert(x)) by {
        assert forall|y: A| s.push(x).contains(y) <==> s.to_set().insert(x).contains(y) by {
            if s.push(x).contains(y) {
                let k = choose|k: int| 0 <= k < s.push(x).len() && s.push(x)[k] == y;
                if k < s.len() {
                    assert(s.contains(y));
                }
            }
            if s.contains(y) {
                let k = choose|k: int| 0 <= k < s.len() && s[k] == y;
                assert(s.push(x)[k] == y);
            }
            if y == x {
                assert(s.push(x)[s.len() as int] == y);
            }
        }
    }
}

proof fn lemma_single_to_set<A>(x: A)
    ensures
        seq![x].to_set() == set![x],
{
    assert(seq![x].to_set() =~= set![x]) by {
        assert(seq![x][0] == x);
    }
}

/// Whether `v` holds a path with the components of `p`.
fn holds(v: &Vec<String>, p: &str) -> (r: bool)
    ensures
        r == places_view(v@).contains(components_of(p@)),
{
    let mut i: usize = 0;
    while i < v.len()
        invariant
            i <= v.len(),
            forall|k: int| 0 <= k < i ==> components_of(v@[k]@) != components_of(p@),
        decreases v.len() - i,
    {
        if same_path(v[i].as_str(), p) {
            proof {
                assert(places_view(v@)[i as int] == components_of(p@));
            }
            return true;
        }
        i = i + 1;
    }
    proof {
        if places_view(v@).contains(components_of(p@)) {
            let k = choose|k: int| 0 <= k < places_view(v@).len() && places_view(v@)[k] == components_of(p@);
            assert(components_of(v@[k]@) == components_of(p@));
        }
    }
    false
}

/// Adds to `v` the paths of `more` whose places it does not hold yet.
fn add_new(v: &mut Vec<String>, more: &Vec<String>)
    requires
        places_view(old(v)@).no_duplicates(),
    ensures
        places_view(final(v)@).no_duplicates(),
        places_view(final(v)@).to_set() == places_view(old(v)@).to_set().union(
            places_view(more@).to_set(),
        ),
{
    let ghost start = places_view(v@).to_set();
    let mut j: usize = 0;
    while j < more.len()
        invariant
            j <= more.len(),
            places_view(v@).no_duplicates(),
            places_view(v@).to_set() == start.union(places_view(more@.take(j as int)).to_set()),
        decreases more.len() - j,
    {
        let ghost before = places_view(v@);
        let ghost x = components_of(more@[j as int]@);
        proof {
            assert(places_view(more@.take(j + 1)) =~= places_view(more@.take(j as int)).push(x));
            lemma_push_to_set(places_view(more@.take(j as int)), x);
        }
        if !holds(v, more[j].as_str()) {
            v.push(more[j].clone());
            proof {
                assert(places_view(v@) =~= before.push(x));
                lemma_push_to_set(before, x);
                assert(places_view(v@).to_set() =~= start.union(
                    places_view(more@.take(j + 1)).to_set(),
                ));
            }
        } else {
            proof {
                assert(places_view(v@).to_set() =~= start.union(
                    places_view(more@.take(j + 1)).to_set(),
                ));
            }
        }
        j = j + 1;
    }
    proof {
        assert(more@.take(more.len() as int) =~= more@);
    }
}

impl Selection {
    /// The text of each selected path as it was stored, in the order stored.
    pub closed spec fn spellings(self) -> Seq<Seq<char>> {
        paths_view(self.items@)
    }

    #[verifier::type_invariant]
    spec fn inv(self) -> bool {
        places_view(self.items@).no_duplicates()
    }

    /// Nothing selected.
    pub fn new() -> (r: Selection)
        ensures
            r@ == Set::<Seq<(u8, Seq<char>)>>::empty(),
    {
        let r = Selection { items: Vec::new() };
        proof {
            assert(places_view(r.items@).to_set() =~= Set::<Seq<(u8, Seq<char>)>>::empty());
        }
        r
    }

    /// The places of `paths`, each once.
    pub fn from_paths(paths: &Vec<String>) -> (r: Selection)
        ensures
            r@ == places_view(paths@).to_set(),
    {
        let mut items: Vec<String> = Vec::new();
        proof {
            assert(places_view(items@).to_set() =~= Set::<Seq<(u8, Seq<char>)>>::empty());
        }
        add_new(&mut items, paths);
        proof {
            assert(places_view(items@).to_set() =~= places_view(paths@).to_set());
        }
        Selection { items }
    }

    /// Just `path`, as a plain click selects.
    pub fn only(path: String) -> (r: Selection)
        ensures
            r@ == set![components_of(path@)],
    {
        let items = vec![path];
        let r = Selection { items };
        proof {
            assert(places_view(r.items@) =~= seq![components_of(r.items@[0]@)]);
            lemma_single_to_set(components_of(r.items@[0]@));
        }
        r
    }

    /// Whether `path` is selected.
    pub fn contains(&self, path: &str) -> (r: bool)
        ensures
            r == self@.contains(components_of(path@)),
    {
        holds(&self.items, path)
    }

    /// How many items are selected.
    pub fn len(&self) -> (n: usize)
        ensures
            n == self@.len(),
            self@.finite(),
    {
        proof {
            use_type_invariant(self);
            places_view(self.items@).unique_seq_to_set();
        }
        self.items.len()
    }

    /// Whether nothing is selected.
    pub fn is_empty(&self) -> (r: bool)
        ensures
            r == (self@ == Set::<Seq<(u8, Seq<char>)>>::empty()),
    {
        proof {
            if self.items.len() > 0 {
                assert(self@.contains(components_of(self.items@[0]@))) by {
                    assert(places_view(self.items@)[0] == components_of(self.items@[0]@));
                }
            } else {
                assert(self@ =~= Set::<Seq<(u8, Seq<char>)>>::empty());
            }
        }
        self.items.len() == 0
    }

    /// The selected paths, each place once, in no particular order.
    pub fn paths(&self) -> (r: Vec<String>)
        ensures
            paths_view(r@) == self.spellings(),
            places_view(r@).no_duplicates(),
            places_view(r@).to_set() == self@,
    {
        proof {
            use_type_invariant(self);
        }
        let mut out: Vec<String> = Vec::new();
        let mut i: usize = 0;
        while i < self.items.len()
            invariant
                i <= self.items.len(),
                places_view(out@) == places_view(self.items@).take(i as int),
                paths_view(out@) == paths_view(self.items@).take(i as int),
            decreases self.items.len() - i,
        {
            let ghost prev = places_view(out@);
            let ghost prev_text = paths_view(out@);
            out.push(self.items[i].clone());
            proof {
                assert(places_view(out@) =~= prev.push(components_of(self.items@[i as int]@)));
                assert(places_view(out@) =~= places_view(self.items@).take(i + 1));
                assert(paths_view(out@) =~= prev_text.push(self.items@[i as int]@));
                assert(paths_view(out@) =~= paths_view(self.items@).take(i + 1));
            }
            i = i + 1;
        }
        proof {
            assert(places_view(self.items@).take(self.items.len() as int) =~= places_view(
                self.items@,
            ));
            assert(paths_view(self.items@).take(self.items.len() as int) =~= paths_view(
                self.items@,
            ));
        }
        out
    }

    /// The paths a right-click on `clicked` acts on: the whole selection when it holds
    /// `clicked`, otherwise `clicked` alone.
    pub fn context_items(&self, clicked: &str) -> (r: Vec<String>)
        ensures
            places_view(r@).no_duplicates(),
            places_view(r@).to_set() == context_set(self@, components_of(clicked@)),
            !self@.contains(components_of(clicked@)) ==> paths_view(r@) == seq![clicked@],
            self@.contains(components_of(clicked@)) ==> paths_view(r@) == self.spellings(),
    {
        if self.contains(clicked) {
            self.paths()
        } else {
            let r = vec![clicked.to_owned()];
            proof {
                assert(paths_view(r@) =~= seq![clicked@]);
                assert(places_view(r@) =~= seq![components_of(clicked@)]);
                lemma_single_to_set(components_of(clicked@));
            }
            r
        }
    }

    /// The paths the keyboard actions act on: the selection, or when nothing is
    /// selected the item the view itself marks, if any.
    pub fn selected_or(&self, fallback: Option<String>) -> (r: Vec<String>)
        ensures
            self@ != Set::<Seq<(u8, Seq<char>)>>::empty() ==> places_view(r@).to_set() == self@
                && places_view(r@).no_duplicates() && paths_view(r@) == self.spellings(),
            self@ == Set::<Seq<(u8, Seq<char>)>>::empty() ==> paths_view(r@) == match fallback {
                Some(p) => seq![p@],
                None => Seq::<Seq<char>>::empty(),
            },
    {
        if !self.is_empty() {
            self.paths()
        } else {
            match fallback {
                Some(p) => {
                    let r = vec![p];
                    proof {
                        assert(paths_view(r@) =~= seq![r@[0]@]);
                    }
                    r
                },
                None => {
                    let r: Vec<String> = Vec::new();
                    proof {
                        assert(paths_view(r@) =~= Seq::<Seq<char>>::empty());
                    }
                    r
                },
            }
        }
    }

    /// The selection after a rubber band covering `covered`: with Ctrl the covered
    /// items join the selection, without they replace it; a drag too short to count
    /// keeps the selection as it was.
    pub fn after_band(&self, ctrl: bool, is_drag: bool, covered: &Vec<String>) -> (r: Selection)
        ensures
            r@ == band_result(self@, ctrl, is_drag, places_view(covered@).to_set()),
    {
        proof {
            use_type_invariant(self);
        }
        if !is_drag {
            let items = self.paths();
            return Selection { items };
        }
        let mut items: Vec<String> = if ctrl {
            self.paths()
        } else {
            Vec::new()
        };
        proof {
            if !ctrl {
                assert(places_view(items@).to_set() =~= Set::<Seq<(u8, Seq<char>)>>::empty());
            }
        }
        add_new(&mut items, covered);
        proof {
            if !ctrl {
                assert(places_view(items@).to_set() =~= places_view(covered@).to_set());
            }
        }
        Selection { items }
    }
}

/// The paths of the items whose bounds the rubber band overlaps.
pub open spec fn covered_by(band: Rect, items: Seq<(Rect, Seq<char>)>) -> Seq<Seq<char>> {
    items.filter(|it: (Rect, Seq<char>)| overlaps(band, it.0)).map_values(
        |it: (Rect, Seq<char>)| it.1,
    )
}

/// The (bounds, path) pairs of a list, as characters.
pub open spec fn placed_view(v: Seq<(Rect, String)>) -> Seq<(Rect, Seq<char>)> {
    v.map_values(|it: (Rect, String)| (it.0, it.1@))
}

/// Whether the right and bottom edges of every item's bounds fit in an `i32`.
pub fn bounds_fit(items: &Vec<(Rect, String)>) -> (r: bool)
    ensures
        r == forall|k: int| 0 <= k < items.len() ==> edges_fit(#[trigger] items@[k].0),
{
    let mut i: usize = 0;
    while i < items.len()
        invariant
            i <= items.len(),
            forall|k: int| 0 <= k < i ==> edges_fit(#[trigger] items@[k].0),
        decreases items.len() - i,
    {
        if !rect_fits(&items[i].0) {
            return false;
        }
        i = i + 1;
    }
    true
}

/// The paths of the items, in order, whose bounds the rubber band `band` overlaps.
pub fn items_in_band(band: &Rect, items: &Vec<(Rect, String)>) -> (r: Vec<String>)
    requires
        edges_fit(*band),
        forall|k: int| 0 <= k < items.len() ==> edges_fit(#[trigger] items@[k].0),
    ensures
        paths_view(r@) == covered_by(*band, placed_view(items@)),
{
    let mut out: Vec<String> = Vec::new();
    let mut i: usize = 0;
    while i < items.len()
        invariant
            i <= items.len(),
            edges_fit(*band),
            forall|k: int| 0 <= k < items.len() ==> edges_fit(#[trigger] items@[k].0),
            paths_view(out@) == covered_by(*band, placed_view(items@.take(i as int))),
        decreases items.len() - i,
    {
        let ghost pre = placed_view(items@.take(i as int));
        let ghost it = (items@[i as int].0, items@[i as int].1@);
        proof {
            assert(placed_view(items@.take(i + 1)) =~= pre.push(it));
            pre.lemma_filter_push(it, |x: (Rect, Seq<char>)| overlaps(*band, x.0));
        }
        if rect_overlaps(band, &items[i].0) {
            out.push(items[i].1.clone());
            proof {
                assert(paths_view(out@) =~= covered_by(*band, pre).push(it.1));
            }
        } else {
            proof {
                assert(paths_view(out@) =~= covered_by(*band, pre.push(it)));
            }
        }
        i = i + 1;
    }
    proof {
        assert(items@.take(items.len() as int) =~= items@);
    }
    out
}

/// A right-click always acts on the clicked item, and on nothing outside the
/// selection unless that is the clicked item alone.
pub proof fn law_context_holds_click(sel: Set<Seq<(u8, Seq<char>)>>, clicked: Seq<(u8, Seq<char>)>)
    ensures
        context_set(sel, clicked).contains(clicked),
        context_set(sel, clicked) == sel || context_set(sel, clicked) == set![clicked],
{
}

/// With Ctrl a drag never loses what was selected; without it the result is exactly
/// what the band covers; a short drag changes nothing.
pub proof fn law_band(base: Set<Seq<(u8, Seq<char>)>>, covered: Set<Seq<(u8, Seq<char>)>>)
    ensures
        base.subset_of(band_result(base, true, true, covered)),
        covered.subset_of(band_result(base, true, true, covered)),
        band_result(base, false, true, covered) == covered,
        band_result(base, true, false, covered) == base,
        band_result(base, false, false, covered) == base,
{
}

} // verus!
