use vstd::prelude::*;
use crate::order::{lemma_order_keys, order_keys, Atom, Ord3};

verus! {

/// How two items compare by their keys.
pub open spec fn korder<T>(a: T, b: T, key: spec_fn(T) -> Seq<Atom>) -> Ord3 {
    order_keys(key(a), key(b))
}

/// `p` lists each index below `n` exactly once.
pub open spec fn is_permutation(p: Seq<int>, n: nat) -> bool {
    &&& p.len() == n
    &&& forall|i: int| 0 <= i < n ==> 0 <= #[trigger] p[i] < n
    &&& forall|i: int, j: int| 0 <= i < j < n ==> p[i] != p[j]
}

/// No entry of `s` is ordered after a later one.
pub open spec fn sorted_by<T>(s: Seq<T>, key: spec_fn(T) -> Seq<Atom>) -> bool {
    forall|i: int, j: int| 0 <= i < j < s.len() ==> korder(s[i], s[j], key) != Ord3::Greater
}

/// `p` shows `out` to be `inp` stably sorted by `key`: `out[i]` is `inp[p[i]]`, `out`
/// is in order, and entries that compare equal keep their relative order.
pub open spec fn sorts_with<T>(out: Seq<T>, inp: Seq<T>, key: spec_fn(T) -> Seq<Atom>, p: Seq<int>) -> bool {
    &&& is_permutation(p, inp.len())
    &&& out.len() == inp.len()
    &&& forall|i: int| 0 <= i < out.len() ==> out[i] == inp[#[trigger] p[i]]
    &&& sorted_by(out, key)
    &&& forall|i: int, j: int|
        0 <= i < j < out.len() && korder(out[i], out[j], key) == Ord3::Equal ==> p[i] < p[j]
}

/// `out` is `inp` stably sorted by `key`: a rearrangement, in order, where entries
/// that compare equal keep their relative order.
pub open spec fn stable_sort_of<T>(out: Seq<T>, inp: Seq<T>, key: spec_fn(T) -> Seq<Atom>) -> bool {
    exists|p: Seq<int>| sorts_with(out, inp, key, p)
}

proof fn lemma_le_trans<T>(a: T, b: T, c: T, key: spec_fn(T) -> Seq<Atom>)
    requires
        korder(a, b, key) != Ord3::Greater,
        korder(b, c, key) != Ord3::Greater,
    ensures
        korder(a, c, key) != Ord3::Greater,
{
    let ka = key(a);
    let kb = key(b);
    let kc = key(c);
    lemma_order_keys(ka, kb, kc);
    lemma_order_keys(kb, kc, ka);
    lemma_order_keys(ka, kc, kb);
    lemma_order_keys(kc, ka, kb);
}

proof fn lemma_flip_greater<T>(a: T, b: T, key: spec_fn(T) -> Seq<Atom>)
    requires
        korder(a, b, key) == Ord3::Greater,
    ensures
        korder(b, a, key) == Ord3::Less,
{
    lemma_order_keys(key(b), key(a), key(a));
}

/// One step of insertion sort keeps the loop's facts: the prefix `[0, i)` sorted and
/// stable, `s[i]` moved down to `pos`.
#[verifier::rlimit(50)]
proof fn lemma_insert_step<T>(orig: Seq<T>, s: Seq<T>, p: Seq<int>, i: int, pos: int, key: spec_fn(T) -> Seq<Atom>)
    requires
        0 <= pos <= i < s.len(),
        orig.len() == s.len(),
        p.len() == s.len(),
        forall|j: int| 0 <= j < s.len() ==> s[j] == orig[#[trigger] p[j]],
        forall|j: int| i <= j < s.len() ==> #[trigger] p[j] == j,
        forall|j: int| 0 <= j < i ==> 0 <= #[trigger] p[j] < i,
        forall|a: int, b: int| 0 <= a < b < s.len() ==> p[a] != p[b],
        forall|a: int, b: int| 0 <= a < b < i ==> korder(s[a], s[b], key) != Ord3::Greater,
        forall|a: int, b: int|
            0 <= a < b < i && korder(s[a], s[b], key) == Ord3::Equal ==> p[a] < p[b],
        forall|j: int| pos <= j < i ==> korder(#[trigger] s[j], s[i], key) == Ord3::Greater,
        forall|j: int| 0 <= j < pos ==> korder(#[trigger] s[j], s[i], key) != Ord3::Greater,
    ensures
        ({
            let t = s.remove(i).insert(pos, s[i]);
            let q = p.remove(i).insert(pos, i);
            &&& t.len() == s.len()
            &&& q.len() == s.len()
            &&& forall|j: int| 0 <= j < s.len() ==> t[j] == orig[#[trigger] q[j]]
            &&& forall|j: int| i + 1 <= j < s.len() ==> #[trigger] q[j] == j
            &&& forall|j: int| 0 <= j < i + 1 ==> 0 <= #[trigger] q[j] < i + 1
            &&& forall|a: int, b: int| 0 <= a < b < s.len() ==> q[a] != q[b]
            &&& forall|a: int, b: int|
                0 <= a < b < i + 1 ==> korder(t[a], t[b], key) != Ord3::Greater
            &&& forall|a: int, b: int|
                0 <= a < b < i + 1 && korder(t[a], t[b], key) == Ord3::Equal ==> q[a] < q[b]
        }),
{
    let n = s.len();
    let x = s[i];
    let t = s.remove(i).insert(pos, x);
    let q = p.remove(i).insert(pos, i);
    assert forall|j: int| 0 <= j < n implies t[j] == orig[#[trigger] q[j]] by {
        if j < pos {
            assert(t[j] == s[j]);
            assert(q[j] == p[j]);
        } else if j == pos {
            assert(t[j] == s[i]);
            assert(q[j] == i);
            assert(p[i] == i);
            assert(s[i] == orig[p[i]]);
        } else if j <= i {
            assert(t[j] == s[j - 1]);
            assert(q[j] == p[j - 1]);
            assert(s[j - 1] == orig[p[j - 1]]);
        } else {
            assert(t[j] == s[j]);
            assert(q[j] == p[j]);
        }
    }
    assert forall|j: int| i + 1 <= j < n implies #[trigger] q[j] == j by {
        assert(q[j] == p[j]);
    }
    assert forall|j: int| 0 <= j < i + 1 implies 0 <= #[trigger] q[j] < i + 1 by {
        if j < pos {
            assert(q[j] == p[j]);
        } else if j == pos {
        } else {
            assert(q[j] == p[j - 1]);
        }
    }
    assert forall|a: int, b: int| 0 <= a < b < n implies q[a] != q[b] by {
        let pa = if a < pos { a } else if a == pos { -1 } else if a <= i { a - 1 } else { a };
        let pb = if b < pos { b } else if b == pos { -1 } else if b <= i { b - 1 } else { b };
        if a == pos {
            assert(q[a] == i);
            assert(q[b] == p[pb]);
            assert(p[i] == i);
            assert(pb != i);
        } else if b == pos {
            assert(q[b] == i);
            assert(q[a] == p[pa]);
            assert(p[i] == i);
            assert(pa != i);
        } else {
            assert(q[a] == p[pa]);
            assert(q[b] == p[pb]);
            assert(pa < pb);
        }
    }
    assert forall|a: int, b: int|
        0 <= a < b < i + 1 implies korder(t[a], t[b], key) != Ord3::Greater by {
        if b < pos {
            assert(t[a] == s[a] && t[b] == s[b]);
        } else if b == pos {
            assert(t[a] == s[a]);
        } else if a == pos {
            assert(t[b] == s[b - 1]);
            lemma_flip_greater(s[b - 1], x, key);
        } else if a < pos {
            assert(t[a] == s[a] && t[b] == s[b - 1]);
        } else {
            assert(t[a] == s[a - 1] && t[b] == s[b - 1]);
        }
    }
    assert forall|a: int, b: int|
        0 <= a < b < i + 1 && korder(t[a], t[b], key) == Ord3::Equal implies q[a] < q[b] by {
        if b < pos {
            assert(t[a] == s[a] && t[b] == s[b]);
            assert(q[a] == p[a] && q[b] == p[b]);
        } else if b == pos {
            assert(q[b] == i);
            assert(q[a] == p[a]);
        } else if a == pos {
            assert(t[b] == s[b - 1]);
            lemma_flip_greater(s[b - 1], x, key);
        } else if a < pos {
            assert(t[a] == s[a] && t[b] == s[b - 1]);
            assert(q[a] == p[a] && q[b] == p[b - 1]);
        } else {
            assert(t[a] == s[a - 1] && t[b] == s[b - 1]);
            assert(q[a] == p[a - 1] && q[b] == p[b - 1]);
        }
    }
}

/// Sorts `entries` stably by the keys `key`; `compare` compares two items' keys.
pub(crate) fn sort_by_keys<T, F: Fn(&T, &T) -> Ord3>(
    entries: &mut Vec<T>,
    Ghost(key): Ghost<spec_fn(T) -> Seq<Atom>>,
    compare: F,
)
    requires
        forall|a: &T, b: &T| #[trigger] compare.requires((a, b)),
        forall|a: &T, b: &T, r: Ord3| #[trigger] compare.ensures((a, b), r) ==> r == korder(*a, *b, key),
    ensures
        stable_sort_of(final(entries)@, old(entries)@, key),
{
    let ghost orig = entries@;
    let n = entries.len();
    let ghost mut p: Seq<int> = Seq::new(n as nat, |k: int| k);
    let mut i: usize = 0;
    while i < n
        invariant
            forall|a: &T, b: &T| #[trigger] compare.requires((a, b)),
            forall|a: &T, b: &T, r: Ord3| #[trigger] compare.ensures((a, b), r) ==> r == korder(*a, *b, key),
            entries.len() == n,
            orig.len() == n,
            i <= n,
            p.len() == n,
            forall|j: int| 0 <= j < n ==> entries@[j] == orig[#[trigger] p[j]],
            forall|j: int| i <= j < n ==> #[trigger] p[j] == j,
            forall|j: int| 0 <= j < i ==> 0 <= #[trigger] p[j] < i,
            forall|a: int, b: int| 0 <= a < b < n ==> p[a] != p[b],
            forall|a: int, b: int|
                0 <= a < b < i ==> korder(entries@[a], entries@[b], key) != Ord3::Greater,
            forall|a: int, b: int|
                0 <= a < b < i && korder(entries@[a], entries@[b], key) == Ord3::Equal
                    ==> p[a] < p[b],
        decreases n - i,
    {
        let ghost s = entries@;
        let x = entries.remove(i);
        let ghost r = entries@;
        assert(r == s.remove(i as int));
        let mut pos: usize = i;
        while pos > 0 && compare(&entries[pos - 1], &x) == Ord3::Greater
            invariant
                forall|a: &T, b: &T| #[trigger] compare.requires((a, b)),
                forall|a: &T, b: &T, r: Ord3| #[trigger] compare.ensures((a, b), r) ==> r == korder(*a, *b, key),
                pos <= i,
                i < n,
                entries.len() == n - 1,
                entries@ == r,
                r == s.remove(i as int),
                x == s[i as int],
                forall|j: int| pos <= j < i ==> korder(#[trigger] r[j], x, key) == Ord3::Greater,
            decreases pos,
        {
            pos = pos - 1;
        }
        proof {
            assert forall|j: int| pos <= j < i implies korder(#[trigger] s[j], s[i as int], key) == Ord3::Greater by {
                assert(r[j] == s[j]);
            }
            assert forall|j: int| 0 <= j < pos implies korder(#[trigger] s[j], s[i as int], key) != Ord3::Greater by {
                assert(r[j] == s[j]);
                assert(r[pos - 1] == s[pos - 1]);
                if j < pos - 1 {
                    lemma_le_trans(r[j], r[pos - 1], x, key);
                }
            }
            assert forall|j: int| 0 <= j < pos implies korder(#[trigger] r[j], x, key) != Ord3::Greater by {
                assert(r[j] == s[j]);
                assert(r[pos - 1] == s[pos - 1]);
                if j < pos - 1 {
                    lemma_le_trans(r[j], r[pos - 1], x, key);
                }
            }
        }
        entries.insert(pos, x);
        proof {
            lemma_insert_step(orig, s, p, i as int, pos as int, key);
            p = p.remove(i as int).insert(pos as int, i as int);
        }
        i = i + 1;
    }
    proof {
        assert(is_permutation(p, orig.len()));
        assert(sorted_by(entries@, key));
        assert(sorts_with(entries@, orig, key, p));
    }
}


} // verus!
