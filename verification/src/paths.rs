use vstd::prelude::*;
use crate::order::{compare_text, lemma_order_chars, Ord3};
use crate::text::chars_of;

verus! {

/// What `std::path::Path::file_name` returns for a path, as characters.
pub uninterp spec fn file_name_of(p: Seq<char>) -> Option<Seq<char>>;

/// The components `std::path::Path::components` yields for a path: each as its kind
/// (0 prefix, 1 root, 2 `.`, 3 `..`, 4 a name, the order of `Component`'s variants)
/// and its text.
pub uninterp spec fn components_of(p: Seq<char>) -> Seq<(u8, Seq<char>)>;

/// What `std::path::Path::parent` returns for a path.
pub uninterp spec fn parent_of(p: Seq<char>) -> Option<Seq<char>>;

/// What `std::path::Path::join` returns when the base path is empty.
pub uninterp spec fn joined_to_empty(part: Seq<char>) -> Seq<char>;

/// What `std::path::Path::join` returns for a base path and a pushed part: an absolute
/// part replaces the base, any other part follows it after a `/`, unless the base
/// already ends with one.
pub open spec fn joined(base: Seq<char>, part: Seq<char>) -> Seq<char> {
    if part.len() > 0 && part[0] == '/' {
        part
    } else if base.len() == 0 {
        joined_to_empty(part)
    } else if base.last() == '/' {
        base + part
    } else {
        base + "/"@ + part
    }
}

/// `s` has no `/`.
pub open spec fn no_slash(s: Seq<char>) -> bool {
    forall|i: int| 0 <= i < s.len() ==> s[i] != '/'
}

/// A single normal component: not empty, no `/`, and neither `.` nor `..`.
pub open spec fn plain_name(s: Seq<char>) -> bool {
    &&& s.len() > 0
    &&& no_slash(s)
    &&& s != seq!['.']
    &&& s != seq!['.', '.']
}

/// Index of the last `.` in `n`, if any.
pub open spec fn last_dot(n: Seq<char>) -> Option<int>
    decreases n.len(),
{
    if n.len() == 0 {
        None
    } else if n.last() == '.' {
        Some(n.len() - 1)
    } else {
        last_dot(n.drop_last())
    }
}

/// The stem of a file name: all of it when it has no `.` or only a leading one,
/// else the part before the last `.`.
pub open spec fn stem_part(n: Seq<char>) -> Seq<char> {
    match last_dot(n) {
        Some(i) => if i > 0 {
            n.take(i)
        } else {
            n
        },
        None => n,
    }
}

/// The extension of a file name: the part after the last `.`, unless there is no `.`
/// or the only one leads the name.
pub open spec fn extension_part(n: Seq<char>) -> Option<Seq<char>> {
    match last_dot(n) {
        Some(i) => if i > 0 {
            Some(n.skip(i + 1))
        } else {
            None
        },
        None => None,
    }
}

/// Calls `std::path::Path::file_name`. A path that is one normal component is its own
/// file name; nothing else is claimed beyond the name `file_name_of`.
#[verifier::external_body]
pub(crate) fn path_file_name(p: &str) -> (r: Option<String>)
    ensures
        r.deep_view() == file_name_of(p@),
        plain_name(p@) ==> r.deep_view() == Some(p@),
{
    std::path::Path::new(p).file_name().map(|s| s.to_string_lossy().into_owned())
}

/// Calls `std::path::Path::file_stem`, which the documentation defines from the file name:
/// none without one, else the whole name when it has no `.` or only a leading one, else
/// the part before the last `.`.
#[verifier::external_body]
pub(crate) fn path_file_stem(p: &str) -> (r: Option<String>)
    ensures
        r.deep_view() == (match file_name_of(p@) {
            Some(n) => Some(stem_part(n)),
            None => None,
        }),
{
    std::path::Path::new(p).file_stem().map(|s| s.to_string_lossy().into_owned())
}

/// Calls `std::path::Path::extension`, which the documentation defines from the file name:
/// the part after the last `.` unless there is none or the only one leads the name.
#[verifier::external_body]
pub(crate) fn path_extension(p: &str) -> (r: Option<String>)
    ensures
        r.deep_view() == (match file_name_of(p@) {
            Some(n) => extension_part(n),
            None => None,
        }),
{
    std::path::Path::new(p).extension().map(|s| s.to_string_lossy().into_owned())
}

/// Calls `std::path::Path::components`; each component is told apart by its variant
/// and given with its text.
#[verifier::external_body]
pub(crate) fn path_components(p: &str) -> (r: Vec<(u8, String)>)
    ensures
        r.deep_view() == components_of(p@),
{
    let mut out: Vec<(u8, String)> = Vec::new();
    for c in std::path::Path::new(p).components() {
        let kind: u8 = match c {
            std::path::Component::Prefix(_) => 0,
            std::path::Component::RootDir => 1,
            std::path::Component::CurDir => 2,
            std::path::Component::ParentDir => 3,
            std::path::Component::Normal(_) => 4,
        };
        out.push((kind, c.as_os_str().to_string_lossy().into_owned()));
    }
    out
}

/// Calls `std::path::Path::parent`: the path without its final component; nothing is
/// claimed beyond the name `parent_of`.
#[verifier::external_body]
pub(crate) fn path_parent(p: &str) -> (r: Option<String>)
    ensures
        r.deep_view() == parent_of(p@),
{
    std::path::Path::new(p).parent().map(|q| q.to_string_lossy().into_owned())
}

/// Calls `std::path::Path::join`: on Unix an absolute part replaces the base path, and
/// a relative one is added after a separator, which is written unless the base is empty
/// or already ends with one. What it gives for an empty base is left unsaid.
#[verifier::external_body]
pub(crate) fn path_join(base: &str, part: &str) -> (r: String)
    ensures
        r@ == joined(base@, part@),
        base@.len() == 0 && !(part@.len() > 0 && part@[0] == '/') ==> r@ == joined_to_empty(part@),
{
    std::path::Path::new(base).join(part).to_string_lossy().into_owned()
}

/// Whether two component lists are the same.
pub(crate) fn same_components(a: &Vec<(u8, String)>, b: &Vec<(u8, String)>) -> (r: bool)
    ensures
        r == (a.deep_view() == b.deep_view()),
{
    if a.len() != b.len() {
        proof {
            assert(a.deep_view().len() != b.deep_view().len());
        }
        return false;
    }
    let mut i: usize = 0;
    while i < a.len()
        invariant
            a.len() == b.len(),
            i <= a.len(),
            forall|k: int| 0 <= k < i ==> a.deep_view()[k] == b.deep_view()[k],
        decreases a.len() - i,
    {
        let ta = chars_of(a[i].1.as_str());
        let tb = chars_of(b[i].1.as_str());
        if a[i].0 != b[i].0 || compare_text(&ta, &tb) != Ord3::Equal {
            proof {
                lemma_order_chars(ta@, tb@, tb@);
                assert(a.deep_view()[i as int] != b.deep_view()[i as int]);
            }
            return false;
        }
        proof {
            lemma_order_chars(ta@, tb@, tb@);
        }
        i = i + 1;
    }
    proof {
        assert(a.deep_view() =~= b.deep_view());
    }
    true
}

/// Two paths name the same place: they have the same components.
pub open spec fn same_place(a: Seq<char>, b: Seq<char>) -> bool {
    components_of(a) == components_of(b)
}

/// Whether `a` and `b` have the same components.
pub fn same_path(a: &str, b: &str) -> (r: bool)
    ensures
        r == same_place(a@, b@),
{
    let ca = path_components(a);
    let cb = path_components(b);
    same_components(&ca, &cb)
}

} // verus!
