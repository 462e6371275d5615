use vstd::prelude::*;

verus! {

/// The outcome of a three-way comparison.
#[derive(Clone, Copy, PartialEq, Eq, Structural, Debug)]
pub enum Ord3 {
    Less,
    Equal,
    Greater,
}

/// The opposite outcome.
pub open spec fn flip(c: Ord3) -> Ord3 {
    match c {
        Ord3::Less => Ord3::Greater,
        Ord3::Equal => Ord3::Equal,
        Ord3::Greater => Ord3::Less,
    }
}

/// Compares two integers.
pub open spec fn order_int(a: int, b: int) -> Ord3 {
    if a < b {
        Ord3::Less
    } else if a > b {
        Ord3::Greater
    } else {
        Ord3::Equal
    }
}

/// Lexicographic comparison by code point (the order of `String`'s `cmp`).
pub open spec fn order_chars(a: Seq<char>, b: Seq<char>) -> Ord3
    decreases a.len(),
{
    if a.len() == 0 {
        if b.len() == 0 {
            Ord3::Equal
        } else {
            Ord3::Less
        }
    } else if b.len() == 0 {
        Ord3::Greater
    } else if a[0] < b[0] {
        Ord3::Less
    } else if a[0] > b[0] {
        Ord3::Greater
    } else {
        order_chars(a.drop_first(), b.drop_first())
    }
}

/// One part of a sort key; the `Rev` forms order backwards.
pub enum Atom {
    Num(int),
    RevNum(int),
    Text(Seq<char>),
    RevText(Seq<char>),
}

/// Which form an atom has.
pub open spec fn atom_kind(a: Atom) -> int {
    match a {
        Atom::Num(_) => 0,
        Atom::RevNum(_) => 1,
        Atom::Text(_) => 2,
        Atom::RevText(_) => 3,
    }
}

/// Compares two atoms: by form first, then by value in the form's direction.
pub open spec fn order_atom(a: Atom, b: Atom) -> Ord3 {
    match (a, b) {
        (Atom::Num(x), Atom::Num(y)) => order_int(x, y),
        (Atom::RevNum(x), Atom::RevNum(y)) => order_int(y, x),
        (Atom::Text(x), Atom::Text(y)) => order_chars(x, y),
        (Atom::RevText(x), Atom::RevText(y)) => order_chars(y, x),
        _ => order_int(atom_kind(a), atom_kind(b)),
    }
}

/// Lexicographic comparison of sort keys.
pub open spec fn order_keys(a: Seq<Atom>, b: Seq<Atom>) -> Ord3
    decreases a.len(),
{
    if a.len() == 0 {
        if b.len() == 0 {
            Ord3::Equal
        } else {
            Ord3::Less
        }
    } else if b.len() == 0 {
        Ord3::Greater
    } else {
        match order_atom(a[0], b[0]) {
            Ord3::Equal => order_keys(a.drop_first(), b.drop_first()),
            c => c,
        }
    }
}

/// `order_chars` is a total order on character sequences.
pub proof fn lemma_order_chars(a: Seq<char>, b: Seq<char>, c: Seq<char>)
    ensures
        order_chars(a, b) == flip(order_chars(b, a)),
        order_chars(a, b) == Ord3::Equal <==> a == b,
        order_chars(a, b) == Ord3::Less && order_chars(b, c) == Ord3::Less ==> order_chars(a, c)
            == Ord3::Less,
    decreases a.len(),
{
    if a.len() > 0 && b.len() > 0 && c.len() > 0 {
        lemma_order_chars(a.drop_first(), b.drop_first(), c.drop_first());
    } else if a.len() > 0 && b.len() > 0 {
        lemma_order_chars(a.drop_first(), b.drop_first(), b.drop_first());
    }
    if a.len() > 0 && b.len() > 0 && a[0] == b[0] && a.drop_first() == b.drop_first() {
        assert(a =~= seq![a[0]] + a.drop_first());
        assert(b =~= seq![b[0]] + b.drop_first());
    }
    if a.len() == 0 && b.len() == 0 {
        assert(a =~= b);
    }
}

/// `order_atom` is a total order on atoms.
pub proof fn lemma_order_atom(a: Atom, b: Atom, c: Atom)
    ensures
        order_atom(a, b) == flip(order_atom(b, a)),
        order_atom(a, b) == Ord3::Equal <==> a == b,
        order_atom(a, b) == Ord3::Less && order_atom(b, c) == Ord3::Less ==> order_atom(a, c)
            == Ord3::Less,
{
    match (a, b, c) {
        (Atom::Text(x), Atom::Text(y), Atom::Text(z)) => lemma_order_chars(x, y, z),
        (Atom::RevText(x), Atom::RevText(y), Atom::RevText(z)) => {
            lemma_order_chars(z, y, x);
            lemma_order_chars(x, y, z);
            lemma_order_chars(y, x, z);
        },
        (Atom::Text(x), Atom::Text(y), _) => lemma_order_chars(x, y, y),
        (Atom::RevText(x), Atom::RevText(y), _) => lemma_order_chars(y, x, x),
        _ => {},
    }
}

/// `order_keys` is a total order on sort keys.
pub proof fn lemma_order_keys(a: Seq<Atom>, b: Seq<Atom>, c: Seq<Atom>)
    ensures
        order_keys(a, b) == flip(order_keys(b, a)),
        order_keys(a, b) == Ord3::Equal <==> a == b,
        order_keys(a, b) == Ord3::Less && order_keys(b, c) == Ord3::Less ==> order_keys(a, c)
            == Ord3::Less,
    decreases a.len(),
{
    if a.len() > 0 && b.len() > 0 {
        if c.len() > 0 {
            lemma_order_atom(a[0], b[0], c[0]);
            lemma_order_atom(a[0], c[0], b[0]);
            lemma_order_atom(b[0], c[0], a[0]);
            lemma_order_keys(a.drop_first(), b.drop_first(), c.drop_first());
        } else {
            lemma_order_atom(a[0], b[0], b[0]);
            lemma_order_keys(a.drop_first(), b.drop_first(), b.drop_first());
        }
        if a[0] == b[0] && a.drop_first() == b.drop_first() {
            assert(a =~= seq![a[0]] + a.drop_first());
            assert(b =~= seq![b[0]] + b.drop_first());
        }
    }
    if a.len() == 0 && b.len() == 0 {
        assert(a =~= b);
    }
}

/// Compares two character vectors lexicographically.
pub fn compare_text(a: &Vec<char>, b: &Vec<char>) -> (r: Ord3)
    ensures
        r == order_chars(a@, b@),
{
    let mut i: usize = 0;
    proof {
        assert(a@.skip(0) =~= a@);
        assert(b@.skip(0) =~= b@);
    }
    while i < a.len() && i < b.len()
        invariant
            i <= a.len(),
            i <= b.len(),
            order_chars(a@, b@) == order_chars(a@.skip(i as int), b@.skip(i as int)),
        decreases a.len() - i,
    {
        let x = a[i];
        let y = b[i];
        if x < y {
            return Ord3::Less;
        }
        if x > y {
            return Ord3::Greater;
        }
        proof {
            assert(a@.skip(i as int).drop_first() =~= a@.skip(i + 1));
            assert(b@.skip(i as int).drop_first() =~= b@.skip(i + 1));
        }
        i = i + 1;
    }
    if i < a.len() {
        Ord3::Greater
    } else if i < b.len() {
        Ord3::Less
    } else {
        Ord3::Equal
    }
}

/// Compares two integers.
pub fn compare_i128(a: i128, b: i128) -> (r: Ord3)
    ensures
        r == order_int(a as int, b as int),
{
    if a < b {
        Ord3::Less
    } else if a > b {
        Ord3::Greater
    } else {
        Ord3::Equal
    }
}

/// `first`, unless it is `Equal`, then `second`.
pub open spec fn then(first: Ord3, second: Ord3) -> Ord3 {
    if first == Ord3::Equal {
        second
    } else {
        first
    }
}

} // verus!
