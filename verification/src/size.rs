use vstd::prelude::*;
use crate::text::{dec, digit_char, push_decimal, push_str, string_of};

verus! {

/// Two to the power `n`.
pub open spec fn two_pow(n: nat) -> nat
    decreases n,
{
    if n == 0 {
        1
    } else {
        2 * two_pow((n - 1) as nat)
    }
}

/// The number of significant bits an `f64` can hold.
pub open spec fn mantissa_limit() -> nat {
    0x20_0000_0000_0000
}

/// How many low bits of `b` do not fit in the 53-bit significand of an `f64`.
pub open spec fn excess_bits(b: nat) -> nat
    decreases b,
{
    if b < mantissa_limit() {
        0
    } else {
        1 + excess_bits(b / 2)
    }
}

/// The multiple of `u` nearest to `n`; on a tie, the one whose quotient is even.
pub open spec fn round_half_even(n: nat, u: nat) -> nat
    recommends
        u > 0,
{
    let q = n / u;
    let r = n % u;
    if 2 * r > u || (2 * r == u && q % 2 == 1) {
        (q + 1) * u
    } else {
        q * u
    }
}

/// The value of `b as f64` (round to nearest, ties to even).
pub open spec fn f64_value(b: nat) -> nat {
    round_half_even(b, two_pow(excess_bits(b)))
}

/// Index of the unit a size is shown in: 0 for B up to 4 for TB.
pub open spec fn unit_index(v: nat) -> nat {
    if v < 0x400 {
        0
    } else if v < 0x10_0000 {
        1
    } else if v < 0x4000_0000 {
        2
    } else if v < 0x100_0000_0000 {
        3
    } else {
        4
    }
}

/// The unit names, by index.
pub open spec fn unit_name(k: nat) -> Seq<char> {
    if k == 0 {
        "B"@
    } else if k == 1 {
        "KB"@
    } else if k == 2 {
        "MB"@
    } else if k == 3 {
        "GB"@
    } else {
        "TB"@
    }
}

/// `v / 1024^k` in tenths, rounded half to even (the rounding of `{:.1}`).
pub open spec fn tenths(v: nat, k: nat) -> nat {
    round_half_even(v * 10, two_pow(10 * k)) / two_pow(10 * k)
}

/// The text `human_size` shows for a byte count.
pub open spec fn human_size_text(bytes: nat) -> Seq<char> {
    if bytes == 0 {
        "0 B"@
    } else {
        let v = f64_value(bytes);
        let k = unit_index(v);
        if k == 0 {
            dec(bytes) + " B"@
        } else {
            let t = tenths(v, k);
            dec(t / 10) + "."@ + seq![digit_char(t % 10)] + " "@ + unit_name(k)
        }
    }
}

proof fn lemma_two_pow_pos(n: nat)
    ensures
        two_pow(n) > 0,
    decreases n,
{
    if n > 0 {
        lemma_two_pow_pos((n - 1) as nat);
    }
}

proof fn lemma_div_twice(b: nat, u: nat)
    requires
        u > 0,
    ensures
        b / u / 2 == b / (u * 2),
{
    vstd::arithmetic::div_mod::lemma_div_denominator(b as int, u as int, 2);
}

/// Rounds `b` to the nearest value an `f64` can hold.
fn f64_round(b: u64) -> (r: u128)
    ensures
        r == f64_value(b as nat),
        r <= 0x2_0000_0000_0000_0000,
        b < 0x20_0000_0000_0000 ==> r == b,
        b >= 0x20_0000_0000_0000 ==> r >= 0x400,
{
    let mut t: u128 = b as u128;
    let mut u: u128 = 1;
    let ghost mut s: nat = 0;
    while t >= 0x20_0000_0000_0000
        invariant
            u == two_pow(s),
            u >= 1,
            u <= 0x1000,
            t == (b as nat) / (u as nat),
            u * 0x10_0000_0000_0000 <= (b as nat) || u == 1,
            u == 1 || t >= 0x10_0000_0000_0000,
            u == 1 ==> t == b,
            excess_bits(b as nat) == s + excess_bits(t as nat),
        decreases t,
    {
        proof {
            lemma_div_twice(b as nat, u as nat);
            assert(t >= 0x20_0000_0000_0000);
            assert(u * t <= b) by (nonlinear_arith)
                requires
                    t == (b as nat) / (u as nat),
                    u >= 1,
            {
                vstd::arithmetic::div_mod::lemma_fundamental_div_mod(b as int, u as int);
                vstd::arithmetic::div_mod::lemma_mod_pos_bound(b as int, u as int);
            }
            assert(u * 0x20_0000_0000_0000 <= b) by (nonlinear_arith)
                requires
                    u * t <= b,
                    t >= 0x20_0000_0000_0000,
                    u >= 1,
            {}
        }
        proof {
            assert(u * 2 <= 0x1000) by (nonlinear_arith)
                requires
                    u * 0x20_0000_0000_0000 <= b,
                    b < 0x1_0000_0000_0000_0000,
            {}
        }
        t = t / 2;
        u = u * 2;
        proof {
            s = s + 1;
        }
    }
    proof {
        assert(excess_bits(t as nat) == 0);
        lemma_two_pow_pos(s);
        vstd::arithmetic::div_mod::lemma_fundamental_div_mod(b as int, u as int);
    }
    proof {
        assert(t * u <= b) by (nonlinear_arith)
            requires
                t == (b as nat) / (u as nat),
                u >= 1,
        {
            vstd::arithmetic::div_mod::lemma_fundamental_div_mod(b as int, u as int);
            vstd::arithmetic::div_mod::lemma_mod_pos_bound(b as int, u as int);
        }
        assert((t + 1) * u <= 0x2_0000_0000_0000_0000) by (nonlinear_arith)
            requires
                t * u <= b,
                b < 0x1_0000_0000_0000_0000,
                u <= 0x1000,
        {}
    }
    let r: u128 = b as u128 - t * u;
    let up: bool = 2 * r > u || (2 * r == u && t % 2 == 1);
    proof {
        assert(t * u >= t) by (nonlinear_arith)
            requires
                u >= 1,
        {}
        if u == 1 {
            assert(t * u == t);
        }
        assert((t + 1) * u >= t * u) by (nonlinear_arith);
        if b >= 0x20_0000_0000_0000 {
            assert(u != 1);
        }
    }
    if up {
        (t + 1) * u
    } else {
        t * u
    }
}

proof fn lemma_unit_powers()
    ensures
        two_pow(10) == 0x400,
        two_pow(20) == 0x10_0000,
        two_pow(30) == 0x4000_0000,
        two_pow(40) == 0x100_0000_0000,
{
    reveal_with_fuel(two_pow, 41);
}

/// A byte count in the largest of B, KB, MB, GB and TB (steps of 1024) in which it is
/// at least one; sizes from 1 KB up carry one decimal, rounded half to even.
pub fn human_size(bytes: u64) -> (s: String)
    ensures
        s@ == human_size_text(bytes as nat),
{
    let mut out: Vec<char> = Vec::new();
    if bytes == 0 {
        push_str(&mut out, "0 B");
        return string_of(&out);
    }
    let v: u128 = f64_round(bytes);
    proof {
        lemma_unit_powers();
        if bytes < 0x20_0000_0000_0000 {
            assert(excess_bits(bytes as nat) == 0);
        }
    }
    if v < 0x400 {
        push_decimal(&mut out, bytes);
        push_str(&mut out, " B");
        return string_of(&out);
    }
    let (d, unit): (u128, &str) = if v < 0x10_0000 {
        (0x400, "KB")
    } else if v < 0x4000_0000 {
        (0x10_0000, "MB")
    } else if v < 0x100_0000_0000 {
        (0x4000_0000, "GB")
    } else {
        (0x100_0000_0000, "TB")
    };
    let ghost k: nat = unit_index(v as nat);
    proof {
        assert(d == two_pow(10 * k));
        assert(unit@ == unit_name(k));
    }
    let n: u128 = v * 10;
    let q: u128 = n / d;
    let r: u128 = n % d;
    let up: bool = 2 * r > d || (2 * r == d && q % 2 == 1);
    let m: u128 = if up { q + 1 } else { q };
    proof {
        let qq = q as nat;
        let dd = d as nat;
        assert((qq * dd) / dd == qq) by (nonlinear_arith)
            requires
                dd > 0,
        {}
        assert(((qq + 1) * dd) / dd == qq + 1) by (nonlinear_arith)
            requires
                dd > 0,
        {}
        assert(round_half_even((v * 10) as nat, dd) == if up { (qq + 1) * dd } else { qq * dd });
        assert(m == tenths(v as nat, k));
        assert(m < 0x1_0000_0000_0000_0000) by (nonlinear_arith)
            requires
                m <= q + 1,
                q == n / d,
                n == v * 10,
                v <= 0x2_0000_0000_0000_0000,
                d >= 0x400,
        {}
    }
    let whole: u64 = (m / 10) as u64;
    let digit: u8 = (m % 10) as u8;
    push_decimal(&mut out, whole);
    push_str(&mut out, ".");
    out.push((48u8 + digit) as char);
    proof {
        assert(((48u8 + digit) as char) == digit_char((m % 10) as nat));
    }
    push_str(&mut out, " ");
    push_str(&mut out, unit);
    proof {
        assert(out@ == human_size_text(bytes as nat));
    }
    string_of(&out)
}

} // verus!
