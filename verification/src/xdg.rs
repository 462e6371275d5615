use vstd::prelude::*;
use crate::paths::{file_name_of, joined, path_file_name, path_join};
use crate::text::{chars_of, lines, lines_of, push_str, starts_with, string_of, sub_chars, trim, trim_chars};

verus! {

/// ASCII upper-casing of one character.
pub open spec fn ascii_upper(c: char) -> char {
    if 'a' <= c && c <= 'z' {
        ((c as u32) - 32) as char
    } else {
        c
    }
}

/// ASCII lower-casing of one character.
pub open spec fn ascii_lower(c: char) -> char {
    if 'A' <= c && c <= 'Z' {
        ((c as u32) + 32) as char
    } else {
        c
    }
}

/// A text ASCII upper-cased.
pub open spec fn upper_ascii(s: Seq<char>) -> Seq<char> {
    Seq::new(s.len(), |i: int| ascii_upper(s[i]))
}

/// A text ASCII lower-cased.
pub open spec fn lower_ascii(s: Seq<char>) -> Seq<char> {
    Seq::new(s.len(), |i: int| ascii_lower(s[i]))
}

fn map_ascii(s: &str, upper: bool) -> (r: Vec<char>)
    ensures
        r@ == if upper {
            upper_ascii(s@)
        } else {
            lower_ascii(s@)
        },
{
    let v = chars_of(s);
    let mut out: Vec<char> = Vec::new();
    let mut i: usize = 0;
    while i < v.len()
        invariant
            v@ == s@,
            i <= v.len(),
            out@ =~= (if upper {
                upper_ascii(s@)
            } else {
                lower_ascii(s@)
            }).take(i as int),
        decreases v.len() - i,
    {
        let c = v[i];
        let d = if upper && 'a' <= c && c <= 'z' {
            ((c as u32) - 32) as u8 as char
        } else if !upper && 'A' <= c && c <= 'Z' {
            ((c as u32) + 32) as u8 as char
        } else {
            c
        };
        proof {
            if upper && 'a' <= c && c <= 'z' {
                assert(d == ascii_upper(c));
            }
            if !upper && 'A' <= c && c <= 'Z' {
                assert(d == ascii_lower(c));
            }
        }
        out.push(d);
        i = i + 1;
    }
    out
}

/// The key of a folder in `user-dirs.dirs`: `XDG_`, the upper-cased name, `_DIR`.
pub open spec fn dir_key(name: Seq<char>) -> Seq<char> {
    "XDG_"@ + upper_ascii(name) + "_DIR"@
}

/// The key of the user folder `name` (such as `DOCUMENTS`).
pub fn xdg_dir_key(name: &str) -> (r: String)
    ensures
        r@ == dir_key(name@),
{
    let mut out: Vec<char> = Vec::new();
    push_str(&mut out, "XDG_");
    let up = map_ascii(name, true);
    let ups = string_of(&up);
    push_str(&mut out, ups.as_str());
    push_str(&mut out, "_DIR");
    string_of(&out)
}

/// `s` without any leading or trailing `"`.
pub open spec fn strip_quotes(s: Seq<char>) -> Seq<char>
    decreases s.len(),
{
    if s.len() > 0 && s[0] == '"' {
        strip_quotes(s.drop_first())
    } else if s.len() > 0 && s.last() == '"' {
        strip_quotes(s.drop_last())
    } else {
        s
    }
}

/// The value part of a line: after the key, one optional `=`, then trimmed, stripped
/// of quotes and trimmed again.
pub open spec fn line_value(rest: Seq<char>) -> Seq<char> {
    let v = if rest.len() > 0 && rest[0] == '=' {
        rest.drop_first()
    } else {
        rest
    };
    trim(strip_quotes(trim(v)))
}

/// A value with `$HOME/`, `${HOME}/` or `~/` in front resolved against `home`.
pub open spec fn expand_home(v: Seq<char>, home: Seq<char>) -> Seq<char> {
    if "$HOME/"@.is_prefix_of(v) {
        joined(home, v.skip("$HOME/"@.len() as int))
    } else if "${HOME}/"@.is_prefix_of(v) {
        joined(home, v.skip("${HOME}/"@.len() as int))
    } else if "~/"@.is_prefix_of(v) {
        joined(home, v.skip("~/"@.len() as int))
    } else {
        v
    }
}

/// The folder a `user-dirs.dirs` line gives for `key`, if it is that key's line.
pub open spec fn user_dir_line(line: Seq<char>, key: Seq<char>, home: Seq<char>) -> Option<Seq<char>> {
    let t = trim(line);
    if key.is_prefix_of(t) {
        Some(expand_home(line_value(t.skip(key.len() as int)), home))
    } else {
        None
    }
}

fn strip_quotes_exec(v: &Vec<char>) -> (r: Vec<char>)
    ensures
        r@ == strip_quotes(v@),
{
    let mut lo: usize = 0;
    let mut hi: usize = v.len();
    proof {
        assert(v@.subrange(0, v@.len() as int) =~= v@);
    }
    loop
        invariant
            lo <= hi <= v.len(),
            strip_quotes(v@) == strip_quotes(v@.subrange(lo as int, hi as int)),
        decreases hi - lo,
    {
        let ghost cur = v@.subrange(lo as int, hi as int);
        if lo < hi && v[lo] == '"' {
            proof {
                assert(cur.drop_first() =~= v@.subrange(lo + 1, hi as int));
            }
            lo = lo + 1;
        } else if lo < hi && v[hi - 1] == '"' {
            proof {
                assert(cur.drop_last() =~= v@.subrange(lo as int, hi - 1));
            }
            hi = hi - 1;
        } else {
            return sub_chars(v, lo, hi);
        }
    }
}

fn expand_home_exec(v: &Vec<char>, home: &str) -> (r: String)
    ensures
        r@ == expand_home(v@, home@),
{
    if starts_with(v, "$HOME/") {
        let n = chars_of("$HOME/").len();
        let rest = string_of(&sub_chars(v, n, v.len()));
        proof {
            assert(rest@ =~= v@.skip("$HOME/"@.len() as int));
        }
        return path_join(home, rest.as_str());
    }
    if starts_with(v, "${HOME}/") {
        let n = chars_of("${HOME}/").len();
        let rest = string_of(&sub_chars(v, n, v.len()));
        proof {
            assert(rest@ =~= v@.skip("${HOME}/"@.len() as int));
        }
        return path_join(home, rest.as_str());
    }
    if starts_with(v, "~/") {
        let n = chars_of("~/").len();
        let rest = string_of(&sub_chars(v, n, v.len()));
        proof {
            assert(rest@ =~= v@.skip("~/"@.len() as int));
        }
        return path_join(home, rest.as_str());
    }
    string_of(v)
}

/// The folder a `user-dirs.dirs` line gives for `key`, if any.
pub fn user_dir_from_line(line: &Vec<char>, key: &str, home: &str) -> (r: Option<String>)
    ensures
        r.deep_view() == user_dir_line(line@, key@, home@),
{
    let t = trim_chars(line);
    if !starts_with(&t, key) {
        return None;
    }
    let k = chars_of(key).len();
    let rest = sub_chars(&t, k, t.len());
    let v = if rest.len() > 0 && rest[0] == '=' {
        sub_chars(&rest, 1, rest.len())
    } else {
        rest
    };
    proof {
        assert(rest@ =~= t@.skip(key@.len() as int));
        if rest@.len() > 0 && rest@[0] == '=' {
            assert(v@ =~= rest@.drop_first());
        }
    }
    let v1 = trim_chars(&v);
    let v2 = strip_quotes_exec(&v1);
    let v3 = trim_chars(&v2);
    Some(expand_home_exec(&v3, home))
}

/// The folders a `user-dirs.dirs` text gives for `key`, in order.
pub open spec fn user_dir_values(text: Seq<char>, key: Seq<char>, home: Seq<char>) -> Seq<Seq<char>> {
    lines(text).filter_map(|l: Seq<char>| user_dir_line(l, key, home))
}

/// The folders a `user-dirs.dirs` text gives for `key`.
pub fn user_dirs_in(text: &str, key: &str, home: &str) -> (r: Vec<String>)
    ensures
        r.deep_view() == user_dir_values(text@, key@, home@),
{
    let v = chars_of(text);
    let ls = lines_of(&v);
    let ghost all = lines(text@);
    let ghost f = |l: Seq<char>| user_dir_line(l, key@, home@);
    let mut out: Vec<String> = Vec::new();
    let mut i: usize = 0;
    while i < ls.len()
        invariant
            ls.deep_view() == all,
            all == lines(text@),
            f == (|l: Seq<char>| user_dir_line(l, key@, home@)),
            i <= ls.len(),
            out.deep_view() == all.take(i as int).filter_map(f),
        decreases ls.len() - i,
    {
        proof {
            assert(all.take(i + 1).drop_last() =~= all.take(i as int));
            assert(all.take(i + 1).last() == ls@[i as int]@);
        }
        let ghost before = out.deep_view();
        match user_dir_from_line(&ls[i], key, home) {
            Some(p) => {
                out.push(p);
                proof {
                    assert(out.deep_view() =~= before + seq![out@[out.len() - 1]@]);
                }
            },
            None => {},
        }
        i = i + 1;
    }
    proof {
        assert(all.take(ls.len() as int) =~= all);
    }
    out
}

/// Where to look for the user folder `name`, in order: what the user's and then the
/// system's `user-dirs.dirs` say, then `home` joined with the lower-cased name. The
/// first of these that is a folder is the one shown.
pub open spec fn user_dir_candidates(user_text: Seq<char>, system_text: Seq<char>, name: Seq<char>, home: Seq<char>) -> Seq<Seq<char>> {
    user_dir_values(user_text, dir_key(name), home) + user_dir_values(system_text, dir_key(name), home)
        + seq![joined(home, lower_ascii(name))]
}

/// The places to look for the user folder `name`, best first.
pub fn xdg_user_dir_candidates(user_text: &str, system_text: &str, name: &str, home: &str) -> (r: Vec<String>)
    ensures
        r.deep_view() == user_dir_candidates(user_text@, system_text@, name@, home@),
{
    let key = xdg_dir_key(name);
    let mut out = user_dirs_in(user_text, key.as_str(), home);
    let mut more = user_dirs_in(system_text, key.as_str(), home);
    let ghost a = out.deep_view();
    let ghost b = more.deep_view();
    out.append(&mut more);
    let lower = string_of(&map_ascii(name, false));
    let fallback = path_join(home, lower.as_str());
    let ghost c = out.deep_view();
    out.push(fallback);
    proof {
        assert(c =~= a + b);
        assert(out.deep_view() =~= a + b + seq![joined(home@, lower_ascii(name@))]);
    }
    out
}

/// The label of a user folder in the sidebar: the folder's file name, else the
/// lower-cased XDG name.
pub open spec fn place_label_text(path: Seq<char>, name: Seq<char>) -> Seq<char> {
    match file_name_of(path) {
        Some(n) => n,
        None => lower_ascii(name),
    }
}

/// The sidebar label of the user folder `path` found for the XDG name `name`.
pub fn place_label(path: &str, name: &str) -> (r: String)
    ensures
        r@ == place_label_text(path@, name@),
{
    match path_file_name(path) {
        Some(n) => n,
        None => string_of(&map_ascii(name, false)),
    }
}

} // verus!
