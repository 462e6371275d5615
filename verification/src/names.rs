use vstd::prelude::*;
use crate::paths::{extension_part, file_name_of, path_extension, path_file_stem, path_join, stem_part};
use crate::text::{dec, push_decimal, push_str, string_of};

verus! {

/// `stem (n)` when `ext` is empty, else `stem (n).ext`.
pub open spec fn numbered(stem: Seq<char>, ext: Seq<char>, n: nat) -> Seq<char> {
    if ext.len() == 0 {
        stem + " ("@ + dec(n) + ")"@
    } else {
        stem + " ("@ + dec(n) + ")."@ + ext
    }
}

/// The stem `unique_name` numbers: the path's file stem, or the whole base without one.
pub open spec fn base_stem(base: Seq<char>) -> Seq<char> {
    match file_name_of(base) {
        Some(n) => stem_part(n),
        None => base,
    }
}

/// The extension `unique_name` keeps: the path's extension, or nothing.
pub open spec fn base_extension(base: Seq<char>) -> Seq<char> {
    match file_name_of(base) {
        Some(n) => match extension_part(n) {
            Some(e) => e,
            None => Seq::empty(),
        },
        None => Seq::empty(),
    }
}

/// The `n`-th name `unique_name` tries: the base itself first, then numbered variants.
pub open spec fn candidate(base: Seq<char>, n: nat) -> Seq<char> {
    if n == 0 {
        base
    } else {
        numbered(base_stem(base), base_extension(base), n)
    }
}

/// `stem (n)` or `stem (n).ext`.
pub fn numbered_name(stem: &str, ext: &str, n: u64) -> (r: String)
    ensures
        r@ == numbered(stem@, ext@, n as nat),
{
    let mut out: Vec<char> = Vec::new();
    push_str(&mut out, stem);
    push_str(&mut out, " (");
    push_decimal(&mut out, n);
    if ext.is_empty() {
        push_str(&mut out, ")");
    } else {
        push_str(&mut out, ").");
        push_str(&mut out, ext);
    }
    string_of(&out)
}

/// The `n`-th name tried for `base`.
pub fn candidate_name(base: &str, n: u64) -> (r: String)
    ensures
        r@ == candidate(base@, n as nat),
{
    if n == 0 {
        return base.to_owned();
    }
    let stem = match path_file_stem(base) {
        Some(s) => s,
        None => base.to_owned(),
    };
    let ext = match path_extension(base) {
        Some(e) => e,
        None => String::new(),
    };
    numbered_name(stem.as_str(), ext.as_str(), n)
}

/// Calls `std::path::Path::exists`. The answer depends on the disk, so nothing is
/// claimed of it.
#[verifier::external_body]
fn path_exists(path: &str) -> bool {
    std::path::Path::new(path).exists()
}

/// Whether `n` is the first free place in `taken`: every earlier answer says taken,
/// and the one at `n` says free.
pub open spec fn is_first_free(taken: Seq<bool>, n: nat) -> bool {
    &&& n < taken.len()
    &&& !taken[n as int]
    &&& forall|k: int| 0 <= k < n ==> taken[k]
}

/// One list of answers has one first free place at most, and the name chosen there is
/// none that an earlier answer said was taken.
pub proof fn law_first_free_is_first(taken: Seq<bool>, n: nat, m: nat)
    requires
        is_first_free(taken, n),
        is_first_free(taken, m),
    ensures
        n == m,
        !taken[n as int],
        forall|k: int| 0 <= k < taken.len() && !taken[k] ==> n <= k,
{
}

/// Given whether each of the candidates `base`, `stem (1).ext`, `stem (2).ext`, ...
/// is taken, in that order, the first that is free; `None` when all the answers say
/// taken.
pub fn first_free(base: &str, taken: &Vec<bool>) -> (r: Option<String>)
    ensures
        match r {
            Some(name) => exists|n: nat| #[trigger] is_first_free(taken@, n) && name@ == candidate(base@, n),
            None => forall|k: int| 0 <= k < taken.len() ==> taken@[k],
        },
{
    let mut i: usize = 0;
    while i < taken.len()
        invariant
            i <= taken.len(),
            forall|k: int| 0 <= k < i ==> taken@[k],
        decreases taken.len() - i,
    {
        if !taken[i] {
            let name = candidate_name(base, i as u64);
            proof {
                assert(is_first_free(taken@, i as nat));
            }
            return Some(name);
        }
        i = i + 1;
    }
    None
}

/// The first of `base`, `stem (1).ext`, `stem (2).ext`, ... that does not exist in
/// `parent`: each is looked up in turn and `first_free` picks from the answers. Whatever
/// the disk answers, the result is one of those candidates.
pub fn unique_name(parent: &str, base: &str) -> (r: String)
    ensures
        exists|n: nat| r@ == candidate(base@, n),
{
    let mut taken: Vec<bool> = Vec::new();
    let mut n: u64 = 0;
    loop
        invariant
            taken.len() == n,
            forall|k: int| 0 <= k < taken.len() ==> taken@[k],
        decreases u64::MAX - n,
    {
        let name = candidate_name(base, n);
        if n == u64::MAX {
            return name;
        }
        let full = path_join(parent, name.as_str());
        taken.push(path_exists(full.as_str()));
        match first_free(base, &taken) {
            Some(free) => {
                return free;
            },
            None => {},
        }
        n = n + 1;
    }
}

} // verus!
