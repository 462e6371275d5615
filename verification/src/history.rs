use vstd::prelude::*;
use crate::paths::{same_path, same_place};

verus! {

/// The most places a tab remembers.
pub const HISTORY_LIMIT: usize = 100;

/// The back/forward history of one tab: visited folders and the position of the one shown.
pub struct History {
    entries: Vec<String>,
    pos: usize,
    shown: String,
}

/// What `navigate` makes of a history: forward places dropped, the new place added
/// unless it is the one shown (the same components), the oldest dropped beyond the
/// limit; the last place is shown.
pub open spec fn navigated(entries: Seq<Seq<char>>, pos: int, path: Seq<char>) -> (Seq<Seq<char>>, int) {
    let kept = entries.take(pos + 1);
    let pushed = if same_place(kept.last(), path) {
        kept
    } else {
        kept.push(path)
    };
    let trimmed = if pushed.len() > HISTORY_LIMIT {
        pushed.drop_first()
    } else {
        pushed
    };
    (trimmed, trimmed.len() - 1)
}

/// The history after going back: one place earlier, if there is one.
pub open spec fn went_back(h: (Seq<Seq<char>>, int)) -> (Seq<Seq<char>>, int) {
    if h.1 > 0 {
        (h.0, h.1 - 1)
    } else {
        h
    }
}

/// The history after going forward: one place later, if there is one.
pub open spec fn went_forward(h: (Seq<Seq<char>>, int)) -> (Seq<Seq<char>>, int) {
    if h.1 + 1 < h.0.len() {
        (h.0, h.1 + 1)
    } else {
        h
    }
}

impl View for History {
    type V = (Seq<Seq<char>>, int);

    closed spec fn view(&self) -> (Seq<Seq<char>>, int) {
        (self.entries.deep_view(), self.pos as int)
    }
}

/// A history holds at least one place, at most the limit, and shows one of them.
pub open spec fn history_ok(v: (Seq<Seq<char>>, int)) -> bool {
    &&& 1 <= v.0.len() <= HISTORY_LIMIT
    &&& 0 <= v.1 < v.0.len()
}

impl History {
    #[verifier::type_invariant]
    spec fn inv(self) -> bool {
        &&& history_ok(self@)
        &&& same_place(self.shown@, self@.0[self@.1])
    }

    /// The path shown, as it was last given: the place of the current entry, spelled
    /// as the navigation or the step back or forward that reached it gave it.
    pub closed spec fn shown(self) -> Seq<char> {
        self.shown@
    }

    /// The history of a tab opened at `initial`.
    pub fn new(initial: String) -> (h: History)
        ensures
            h@ == (seq![initial@], 0int),
            h.shown() == initial@,
            history_ok(h@),
    {
        let mut entries: Vec<String> = Vec::new();
        let shown = initial.clone();
        entries.push(initial);
        let h = History { entries, pos: 0, shown };
        proof {
            assert(h.entries.deep_view() =~= seq![h.entries@[0]@]);
        }
        h
    }

    /// The path shown: the current place, as last given.
    pub fn current(&self) -> (r: &String)
        ensures
            r@ == self.shown(),
            same_place(r@, self@.0[self@.1]),
            history_ok(self@),
    {
        proof {
            use_type_invariant(self);
        }
        &self.shown
    }

    /// Whether there is an earlier place to go back to.
    pub fn can_go_back(&self) -> (r: bool)
        ensures
            r == (self@.1 > 0),
    {
        self.pos > 0
    }

    /// Whether there is a later place to go forward to.
    pub fn can_go_forward(&self) -> (r: bool)
        ensures
            r == (self@.1 + 1 < self@.0.len()),
    {
        proof {
            use_type_invariant(self);
        }
        self.pos + 1 < self.entries.len()
    }

    /// Shows the previous place, if there is one; says whether it moved.
    pub fn back(&mut self) -> (moved: bool)
        ensures
            moved == (old(self)@.1 > 0),
            final(self)@ == went_back(old(self)@),
            final(self).shown() == if moved {
                final(self)@.0[final(self)@.1]
            } else {
                old(self).shown()
            },
            history_ok(final(self)@),
    {
        proof {
            use_type_invariant(&*self);
        }
        if self.pos > 0 {
            let pos = self.pos - 1;
            let shown = self.entries[pos].clone();
            proof {
                lemma_same_place_refl(shown@);
            }
            *self = History { entries: self.entries.clone(), pos, shown };
            true
        } else {
            false
        }
    }

    /// Shows the next place, if there is one; says whether it moved.
    pub fn forward(&mut self) -> (moved: bool)
        ensures
            moved == (old(self)@.1 + 1 < old(self)@.0.len()),
            final(self)@ == went_forward(old(self)@),
            final(self).shown() == if moved {
                final(self)@.0[final(self)@.1]
            } else {
                old(self).shown()
            },
            history_ok(final(self)@),
    {
        proof {
            use_type_invariant(&*self);
        }
        if self.pos + 1 < self.entries.len() {
            let pos = self.pos + 1;
            let shown = self.entries[pos].clone();
            proof {
                lemma_same_place_refl(shown@);
            }
            *self = History { entries: self.entries.clone(), pos, shown };
            true
        } else {
            false
        }
    }

    /// Goes to `path` (already resolved to a folder): the places after the shown one are
    /// dropped, `path` is added unless it is the one shown, and at most the limit is kept.
    /// `path` is shown as given, also when the history keeps an earlier spelling of it.
    pub fn navigate(&mut self, path: String)
        ensures
            final(self)@ == navigated(old(self)@.0, old(self)@.1, path@),
            final(self).shown() == path@,
            history_ok(final(self)@),
    {
        proof {
            use_type_invariant(&*self);
        }
        let ghost before = self@;
        let mut next: Vec<String> = Vec::new();
        let mut i: usize = 0;
        while i <= self.pos
            invariant
                self.pos < self.entries.len(),
                before == self@,
                i <= self.pos + 1,
                next.deep_view() =~= before.0.take(i as int),
            decreases self.pos + 1 - i,
        {
            let ghost b0 = next.deep_view();
            next.push(self.entries[i].clone());
            proof {
                assert(next.deep_view() =~= b0.push(before.0[i as int]));
                assert(before.0.take(i + 1) =~= before.0.take(i as int).push(before.0[i as int]));
            }
            i = i + 1;
        }
        let same = same_path(next[self.pos].as_str(), path.as_str());
        let shown = path.clone();
        if !same {
            let ghost b2 = next.deep_view();
            next.push(path);
            proof {
                assert(next.deep_view() =~= b2.push(next@[next.len() - 1]@));
            }
        }
        if next.len() > HISTORY_LIMIT {
            let ghost b3 = next.deep_view();
            next.remove(0);
            proof {
                assert(next.deep_view() =~= b3.drop_first());
            }
        }
        let pos = next.len() - 1;
        proof {
            lemma_same_place_refl(path@);
        }
        *self = History { entries: next, pos, shown };
    }
}

proof fn lemma_same_place_refl(p: Seq<char>)
    ensures
        same_place(p, p),
{
}

/// Going to a place other than the one shown and then back shows the earlier place
/// again, and going forward from there returns to the new place.
pub proof fn law_navigate_back_forward(h: (Seq<Seq<char>>, int), path: Seq<char>)
    requires
        history_ok(h),
        !same_place(h.0[h.1], path),
    ensures
        ({
            let n = navigated(h.0, h.1, path);
            &&& n.1 > 0
            &&& n.0[n.1 - 1] == h.0[h.1]
            &&& n.0[n.1] == path
            &&& n.1 + 1 == n.0.len()
        }),
{
    let kept = h.0.take(h.1 + 1);
    assert(kept.last() == h.0[h.1]);
}

/// Going back and then forward returns to the same place when going back moved, and
/// going forward and then back likewise.
pub proof fn law_back_then_forward(h: (Seq<Seq<char>>, int))
    requires
        history_ok(h),
    ensures
        h.1 > 0 ==> went_forward(went_back(h)) == h,
        h.1 + 1 < h.0.len() ==> went_back(went_forward(h)) == h,
{
}

/// Every history operation keeps a history well-formed.
pub proof fn law_navigate_keeps_bounds(h: (Seq<Seq<char>>, int), path: Seq<char>)
    requires
        history_ok(h),
    ensures
        history_ok(navigated(h.0, h.1, path)),
        same_place(navigated(h.0, h.1, path).0.last(), path),
{
}

} // verus!
