use vstd::prelude::*;
use crate::paths::{extension_part, file_name_of, path_extension, path_file_name};
use crate::text::{chars_of, dec, push_decimal, push_str, starts_with, str_eq, string_of};

verus! {

/// What `str::to_lowercase` returns: the text under Unicode lower-casing.
pub uninterp spec fn lowercase_of(s: Seq<char>) -> Seq<char>;

/// `c` with the ASCII capitals `A` to `Z` made small; any other character unchanged.
pub open spec fn ascii_lower_char(c: char) -> char {
    if 'A' <= c && c <= 'Z' {
        ((c as int) + 32) as char
    } else {
        c
    }
}

/// `s` with its ASCII capitals made small.
pub open spec fn ascii_lower(s: Seq<char>) -> Seq<char> {
    s.map_values(|c: char| ascii_lower_char(c))
}

/// Whether every character of `s` is ASCII.
pub open spec fn is_ascii_text(s: Seq<char>) -> bool {
    forall|i: int| 0 <= i < s.len() ==> (s[i] as int) < 128
}

/// `str::to_lowercase` lower-cases by the Unicode `Lowercase` mapping, which on ASCII
/// text makes `A` to `Z` small and leaves every other character as it is. That mapping
/// takes `A` to `Z` to `a` to `z`, and the only character whose mapping looks at its
/// neighbours, `Σ`, counts a letter as cased whatever its case: so two texts that
/// differ only in the case of ASCII letters lower-case alike.
pub assume_specification[ str::to_lowercase ](s: &str) -> (r: String)
    ensures
        r@ == lowercase_of(s@),
        is_ascii_text(s@) ==> r@ == ascii_lower(s@),
        forall|t: Seq<char>| #[trigger] ascii_lower(t) == ascii_lower(s@) ==> lowercase_of(t) == r@,
;

/// What `mime_guess::from_path(p).first_raw()` returns for a path.
pub uninterp spec fn mime_guess_of(path: Seq<char>) -> Option<Seq<char>>;

/// Calls `mime_guess::from_path(..).first_raw()`: the first MIME type registered for the
/// path's extension, none for a path without an extension.
#[verifier::external_body]
pub(crate) fn mime_first_raw(path: &str) -> (r: Option<String>)
    ensures
        r.deep_view() == mime_guess_of(path@),
        (match file_name_of(path@) {
            Some(n) => extension_part(n) is None,
            None => true,
        }) ==> r is None,
{
    mime_guess::from_path(path).first_raw().map(|m| m.to_owned())
}

/// One listed item of a folder.
#[derive(Debug, Clone)]
pub struct FileEntry {
    pub name: String,
    pub path: String,
    pub is_dir: bool,
    pub is_symlink: bool,
    pub is_hidden: bool,
    pub size: u64,
    /// Seconds of the modification time relative to the Unix epoch.
    pub modified_secs: i64,
    /// Nanoseconds past `modified_secs`, below one billion.
    pub modified_nanos: u32,
    pub icon_name: String,
    pub mime_approx: String,
}

/// The icon shown for a file whose lower-cased extension is `ext` and MIME type `mime`.
pub open spec fn icon_for(ext: Seq<char>, mime: Seq<char>) -> Seq<char> {
    if ext == "rs"@ {
        "text-x-rust"@
    } else if ext == "py"@ {
        "text-x-python"@
    } else if ext == "js"@ || ext == "ts"@ || ext == "jsx"@ || ext == "tsx"@ {
        "text-x-javascript"@
    } else if ext == "html"@ || ext == "htm"@ {
        "text-html"@
    } else if ext == "css"@ {
        "text-css"@
    } else if ext == "json"@ {
        "text-json"@
    } else if ext == "toml"@ || ext == "yaml"@ || ext == "yml"@ || ext == "md"@ || ext
        == "markdown"@ {
        "text-x-generic"@
    } else if ext == "txt"@ || ext == "log"@ {
        "text-plain"@
    } else if ext == "pdf"@ {
        "application-pdf"@
    } else if ext == "zip"@ || ext == "tar"@ || ext == "gz"@ || ext == "xz"@ || ext == "7z"@
        || ext == "rar"@ || ext == "bz2"@ {
        "package-x-generic"@
    } else if ext == "png"@ || ext == "jpg"@ || ext == "jpeg"@ || ext == "gif"@ || ext
        == "webp"@ || ext == "bmp"@ || ext == "svg"@ {
        "image-x-generic"@
    } else if ext == "mp3"@ || ext == "flac"@ || ext == "wav"@ || ext == "ogg"@ || ext
        == "m4a"@ {
        "audio-x-generic"@
    } else if ext == "mp4"@ || ext == "mkv"@ || ext == "avi"@ || ext == "webm"@ || ext
        == "mov"@ {
        "video-x-generic"@
    } else if ext == "sh"@ || ext == "bash"@ {
        "application-x-shellscript"@
    } else if ext == "c"@ || ext == "cpp"@ || ext == "h"@ || ext == "hpp"@ {
        "text-x-csrc"@
    } else if ext == "nix"@ {
        "text-x-script"@
    } else if "image/"@.is_prefix_of(mime) {
        "image-x-generic"@
    } else if "video/"@.is_prefix_of(mime) {
        "video-x-generic"@
    } else if "audio/"@.is_prefix_of(mime) {
        "audio-x-generic"@
    } else if "text/"@.is_prefix_of(mime) {
        "text-plain"@
    } else {
        "text-x-generic"@
    }
}

fn is_one_of(ext: &str, a: &str, b: &str, c: &str, d: &str) -> (r: bool)
    ensures
        r == (ext@ == a@ || ext@ == b@ || ext@ == c@ || ext@ == d@),
{
    str_eq(ext, a) || str_eq(ext, b) || str_eq(ext, c) || str_eq(ext, d)
}

/// The icon for lower-cased extension `ext` and MIME type `mime`.
pub fn icon_name_for(ext: &str, mime: &str) -> (r: String)
    ensures
        r@ == icon_for(ext@, mime@),
{
    let m = chars_of(mime);
    let icon: &str = if str_eq(ext, "rs") {
        "text-x-rust"
    } else if str_eq(ext, "py") {
        "text-x-python"
    } else if is_one_of(ext, "js", "ts", "jsx", "tsx") {
        "text-x-javascript"
    } else if is_one_of(ext, "html", "htm", "html", "htm") {
        "text-html"
    } else if str_eq(ext, "css") {
        "text-css"
    } else if str_eq(ext, "json") {
        "text-json"
    } else if is_one_of(ext, "toml", "yaml", "yml", "md") || str_eq(ext, "markdown") {
        "text-x-generic"
    } else if is_one_of(ext, "txt", "log", "txt", "log") {
        "text-plain"
    } else if str_eq(ext, "pdf") {
        "application-pdf"
    } else if is_one_of(ext, "zip", "tar", "gz", "xz") || is_one_of(ext, "7z", "rar", "bz2", "bz2") {
        "package-x-generic"
    } else if is_one_of(ext, "png", "jpg", "jpeg", "gif") || is_one_of(ext, "webp", "bmp", "svg", "svg") {
        "image-x-generic"
    } else if is_one_of(ext, "mp3", "flac", "wav", "ogg") || str_eq(ext, "m4a") {
        "audio-x-generic"
    } else if is_one_of(ext, "mp4", "mkv", "avi", "webm") || str_eq(ext, "mov") {
        "video-x-generic"
    } else if is_one_of(ext, "sh", "bash", "sh", "bash") {
        "application-x-shellscript"
    } else if is_one_of(ext, "c", "cpp", "h", "hpp") {
        "text-x-csrc"
    } else if str_eq(ext, "nix") {
        "text-x-script"
    } else if starts_with(&m, "image/") {
        "image-x-generic"
    } else if starts_with(&m, "video/") {
        "video-x-generic"
    } else if starts_with(&m, "audio/") {
        "audio-x-generic"
    } else if starts_with(&m, "text/") {
        "text-plain"
    } else {
        "text-x-generic"
    };
    icon.to_owned()
}

/// The extension of a path as written, empty without one.
pub open spec fn raw_extension(path: Seq<char>) -> Seq<char> {
    match file_name_of(path) {
        Some(n) => match extension_part(n) {
            Some(e) => e,
            None => Seq::empty(),
        },
        None => Seq::empty(),
    }
}

/// The lower-cased extension of a path, empty without one.
pub open spec fn lower_extension(path: Seq<char>) -> Seq<char> {
    lowercase_of(raw_extension(path))
}

/// Whether the lower-cased extension `ext` has an icon of its own, whatever the MIME
/// type.
pub open spec fn has_own_icon(ext: Seq<char>) -> bool {
    ||| ext == "rs"@ || ext == "py"@ || ext == "js"@ || ext == "ts"@ || ext == "jsx"@
    ||| ext == "tsx"@ || ext == "html"@ || ext == "htm"@ || ext == "css"@ || ext == "json"@
    ||| ext == "toml"@ || ext == "yaml"@ || ext == "yml"@ || ext == "md"@ || ext == "markdown"@
    ||| ext == "txt"@ || ext == "log"@ || ext == "pdf"@ || ext == "zip"@ || ext == "tar"@
    ||| ext == "gz"@ || ext == "xz"@ || ext == "7z"@ || ext == "rar"@ || ext == "bz2"@
    ||| ext == "png"@ || ext == "jpg"@ || ext == "jpeg"@ || ext == "gif"@ || ext == "webp"@
    ||| ext == "bmp"@ || ext == "svg"@ || ext == "mp3"@ || ext == "flac"@ || ext == "wav"@
    ||| ext == "ogg"@ || ext == "m4a"@ || ext == "mp4"@ || ext == "mkv"@ || ext == "avi"@
    ||| ext == "webm"@ || ext == "mov"@ || ext == "sh"@ || ext == "bash"@ || ext == "c"@
    ||| ext == "cpp"@ || ext == "h"@ || ext == "hpp"@ || ext == "nix"@
}

/// The MIME type listed for a path: the guess, else `application/octet-stream`.
pub open spec fn listed_mime(path: Seq<char>) -> Seq<char> {
    match mime_guess_of(path) {
        Some(m) => m,
        None => "application/octet-stream"@,
    }
}

/// Icon and MIME text for an entry: broken links and folders get fixed pairs, files go
/// by extension and guessed type.
pub open spec fn icon_and_mime(path: Seq<char>, is_dir: bool, is_symlink: bool, target_exists: bool) -> (Seq<char>, Seq<char>) {
    if is_symlink && !target_exists {
        ("text-x-generic"@, "inode/symlink (broken)"@)
    } else if is_dir {
        ("folder"@, "inode/directory"@)
    } else {
        (icon_for(lower_extension(path), listed_mime(path)), listed_mime(path))
    }
}

/// Icon name and MIME text for a path; `target_exists` says whether what a link points
/// to exists.
///
/// A file whose extension is ASCII and has an icon of its own once its capitals are
/// made small gets that icon; and a file whose lower-cased extension has an icon of its
/// own gets the icon of every other file whose extension differs from it only in the
/// case of ASCII letters.
pub fn guess_icon_and_mime(path: &str, is_dir: bool, is_symlink: bool, target_exists: bool) -> (r: (String, String))
    ensures
        (r.0@, r.1@) == icon_and_mime(path@, is_dir, is_symlink, target_exists),
        !is_dir && !(is_symlink && !target_exists) && is_ascii_text(raw_extension(path@))
            && has_own_icon(ascii_lower(raw_extension(path@))) ==> r.0@ == icon_for(
            ascii_lower(raw_extension(path@)),
            Seq::empty(),
        ),
        forall|q: Seq<char>|
            !is_dir && !(is_symlink && !target_exists) && has_own_icon(lower_extension(path@))
                && #[trigger] ascii_lower(raw_extension(q)) == ascii_lower(raw_extension(path@))
                ==> icon_and_mime(q, false, false, true).0 == r.0@,
{
    if is_symlink && !target_exists {
        return ("text-x-generic".to_owned(), "inode/symlink (broken)".to_owned());
    }
    if is_dir {
        return ("folder".to_owned(), "inode/directory".to_owned());
    }
    let ext: String = match path_extension(path) {
        Some(e) => e,
        None => String::new(),
    };
    let ext_lower = ext.as_str().to_lowercase();
    let mime: String = match mime_first_raw(path) {
        Some(m) => m,
        None => "application/octet-stream".to_owned(),
    };
    let icon = icon_name_for(ext_lower.as_str(), mime.as_str());
    (icon, mime)
}

/// The name listed for a path: its file name, else the whole path.
pub open spec fn listed_name(path: Seq<char>) -> Seq<char> {
    match file_name_of(path) {
        Some(n) => n,
        None => path,
    }
}

/// Whether an entry is a folder: a link counts as what it points to when that is known.
pub open spec fn resolved_dir(is_dir: bool, is_symlink: bool, target_is_dir: Option<bool>) -> bool {
    if is_symlink {
        match target_is_dir {
            Some(d) => d,
            None => is_dir,
        }
    } else {
        is_dir
    }
}

/// `FileEntry::from_metadata` builds exactly this entry.
pub open spec fn entry_matches(
    e: FileEntry,
    path: Seq<char>,
    is_dir: bool,
    is_symlink: bool,
    target_is_dir: Option<bool>,
    len: u64,
    modified: Option<(i64, u32)>,
    target_exists: bool,
) -> bool {
    let dir = resolved_dir(is_dir, is_symlink, target_is_dir);
    &&& e.name@ == listed_name(path)
    &&& e.path@ == path
    &&& e.is_dir == dir
    &&& e.is_symlink == is_symlink
    &&& e.is_hidden == (listed_name(path).len() > 0 && listed_name(path)[0] == '.')
    &&& e.size == (if dir { 0 } else { len })
    &&& (e.modified_secs, e.modified_nanos) == (match modified {
        Some(t) => t,
        None => (0i64, 0u32),
    })
    &&& (e.icon_name@, e.mime_approx@) == icon_and_mime(path, dir, is_symlink, target_exists)
}

impl FileEntry {
    /// The entry for `path` from what its metadata says: `is_dir` and `len` as the link
    /// itself reports them, `target_is_dir` what a link's target reports, `modified` the
    /// modification time if known, `target_exists` whether the path resolves.
    pub fn from_metadata(
        path: &str,
        is_dir: bool,
        is_symlink: bool,
        target_is_dir: Option<bool>,
        len: u64,
        modified: Option<(i64, u32)>,
        target_exists: bool,
    ) -> (e: FileEntry)
        ensures
            entry_matches(e, path@, is_dir, is_symlink, target_is_dir, len, modified, target_exists),
    {
        let name: String = match path_file_name(path) {
            Some(n) => n,
            None => path.to_owned(),
        };
        let nv = chars_of(name.as_str());
        let is_hidden = nv.len() > 0 && nv[0] == '.';
        let dir = if is_symlink {
            match target_is_dir {
                Some(d) => d,
                None => is_dir,
            }
        } else {
            is_dir
        };
        let size = if dir {
            0
        } else {
            len
        };
        let (secs, nanos) = match modified {
            Some(t) => t,
            None => (0i64, 0u32),
        };
        let (icon, mime) = guess_icon_and_mime(path, dir, is_symlink, target_exists);
        FileEntry {
            name,
            path: path.to_owned(),
            is_dir: dir,
            is_symlink,
            is_hidden,
            size,
            modified_secs: secs,
            modified_nanos: nanos,
            icon_name: icon,
            mime_approx: mime,
        }
    }
}

/// Decimal notation of an integer, with a leading `-` when negative.
pub open spec fn signed_dec(x: int) -> Seq<char> {
    if x < 0 {
        seq!['-'] + dec((-x) as nat)
    } else {
        dec(x as nat)
    }
}

/// Whole seconds since the epoch of a modification time, 0 before the epoch.
pub open spec fn epoch_secs(secs: i64) -> nat {
    if secs >= 0 {
        secs as nat
    } else {
        0
    }
}

/// The thumbnail cache key: path, size, seconds, pixel size and the video flag, split by `|`.
pub open spec fn thumb_key(e: FileEntry, px: i32, video: bool) -> Seq<char> {
    e.path@ + "|"@ + dec(e.size as nat) + "|"@ + dec(epoch_secs(e.modified_secs)) + "|"@
        + signed_dec(px as int) + "|"@ + (if video {
        "1"@
    } else {
        "0"@
    })
}

/// The key under which a thumbnail of `px` pixels for `entry` is cached.
pub fn thumb_cache_key(entry: &FileEntry, px: i32, video: bool) -> (r: String)
    ensures
        r@ == thumb_key(*entry, px, video),
{
    let mut out: Vec<char> = Vec::new();
    push_str(&mut out, entry.path.as_str());
    push_str(&mut out, "|");
    push_decimal(&mut out, entry.size);
    push_str(&mut out, "|");
    let mtime: u64 = if entry.modified_secs >= 0 {
        entry.modified_secs as u64
    } else {
        0
    };
    push_decimal(&mut out, mtime);
    push_str(&mut out, "|");
    if px < 0 {
        push_str(&mut out, "-");
        let mag: u64 = (-(px as i64)) as u64;
        push_decimal(&mut out, mag);
    } else {
        push_decimal(&mut out, px as u64);
    }
    push_str(&mut out, "|");
    if video {
        push_str(&mut out, "1");
    } else {
        push_str(&mut out, "0");
    }
    proof {
        if px < 0 {
            assert(seq!['-'] == "-"@) by {
                reveal_strlit("-");
            }
        }
    }
    string_of(&out)
}

/// Whether `c` is an ASCII decimal digit.
pub open spec fn is_ascii_digit(c: char) -> bool {
    '0' <= c && c <= '9'
}

/// The number written by the two digits of `t` at `i` and `i + 1`.
pub open spec fn two_digit_value(t: Seq<char>, i: int) -> int {
    (t[i] as int - 48) * 10 + (t[i + 1] as int - 48)
}

/// Whether `t` has the shape `YYYY-MM-DD HH:MM` of a date and a time of day to the
/// minute: four digits of the year, a month from 01 to 12, a day from 01 to 31, an
/// hour from 00 to 23 and a minute from 00 to 59.
pub open spec fn is_minute_stamp(t: Seq<char>) -> bool {
    &&& t.len() == 16
    &&& forall|i: int|
        0 <= i < 16 && i != 4 && i != 7 && i != 10 && i != 13 ==> is_ascii_digit(#[trigger] t[i])
    &&& t[4] == '-' && t[7] == '-' && t[10] == ' ' && t[13] == ':'
    &&& 1 <= two_digit_value(t, 5) <= 12
    &&& 1 <= two_digit_value(t, 8) <= 31
    &&& two_digit_value(t, 11) <= 23
    &&& two_digit_value(t, 14) <= 59
}

/// Whether a time, in seconds and nanoseconds since the Unix epoch, falls on a local
/// date of the years 0 to 9999 whatever the time zone: from 0000-01-02 to 9999-12-31
/// (UTC), with fewer than a billion nanoseconds.
pub open spec fn in_four_digit_years(secs: i64, nanos: u32) -> bool {
    -62_167_132_800 <= secs <= 253_402_214_400 && nanos < 1_000_000_000
}

/// Whether a UTC time falls in the years 0 to 9999, with fewer than a billion
/// nanoseconds.
pub open spec fn in_utc_four_digit_years(secs: int, nanos: u32) -> bool {
    -62_167_219_200 <= secs < 253_402_300_800 && nanos < 1_000_000_000
}

/// Whether `c` is one of the `strftime` fields `Y`, `m`, `d`, `H`, `M`.
pub open spec fn is_date_field(c: char) -> bool {
    c == 'Y' || c == 'm' || c == 'd' || c == 'H' || c == 'M'
}

/// A `strftime` pattern whose every `%` starts one of the fields `%Y`, `%m`, `%d`,
/// `%H`, `%M`; any other character stands for itself.
pub open spec fn is_plain_pattern(f: Seq<char>) -> bool {
    forall|i: int| 0 <= i < f.len() && #[trigger] f[i] == '%' ==> i + 1 < f.len() && is_date_field(f[i + 1])
}

/// The pattern of the modification column: date and time of day to the minute.
pub open spec fn minute_pattern() -> Seq<char> {
    "%Y-%m-%d %H:%M"@
}

/// Whether `chrono::DateTime::from_timestamp(secs, nanos)` gives a time.
pub uninterp spec fn chrono_has_time(secs: int, nanos: u32) -> bool;

/// Calls `chrono::DateTime::from_timestamp` and tells whether it gives a time. It does
/// for seconds whose day lies between the years -262143 and 262142 and fewer than a
/// billion nanoseconds (more only on a leap second), so for every time of the years 0
/// to 9999, and never for more than 8.4 trillion seconds either way or two billion
/// nanoseconds.
#[verifier::external_body]
fn chrono_time_exists(secs: i64, nanos: u32) -> (r: bool)
    ensures
        r == chrono_has_time(secs as int, nanos),
        in_utc_four_digit_years(secs as int, nanos) ==> r,
        r ==> -8_400_000_000_000 <= secs <= 8_400_000_000_000 && nanos < 2_000_000_000,
{
    chrono::DateTime::from_timestamp(secs, nanos).is_some()
}

/// Calls `chrono`'s `Local` time zone for its offset from UTC, in seconds, at the given
/// UTC time. Which offset comes back depends on the machine's time zone; a
/// `FixedOffset` is always less than a day either way.
#[verifier::external_body]
fn local_offset_at(secs: i64, nanos: u32) -> (off: i32)
    requires
        chrono_has_time(secs as int, nanos),
    ensures
        -86_400 < off < 86_400,
{
    chrono::TimeZone::offset_from_utc_datetime(
        &chrono::Local,
        &chrono::DateTime::from_timestamp(secs, nanos).unwrap().naive_utc(),
    ).local_minus_utc()
}

/// What `chrono` writes for the UTC time `secs`, `nanos` with the `strftime` pattern `fmt`.
pub uninterp spec fn utc_stamp(secs: int, nanos: u32, fmt: Seq<char>) -> Seq<char>;

/// Calls `chrono` to write the UTC time `secs`, `nanos` with the `strftime` pattern
/// `fmt`. `%Y` writes a year from 0 to 9999 as four digits and `%m`, `%d`, `%H`, `%M`
/// write two, so with the minute pattern such a time reads `YYYY-MM-DD HH:MM`.
#[verifier::external_body]
fn utc_text(secs: i64, nanos: u32, fmt: &str) -> (r: String)
    requires
        chrono_has_time(secs as int, nanos),
        is_plain_pattern(fmt@),
    ensures
        r@ == utc_stamp(secs as int, nanos, fmt@),
        fmt@ == minute_pattern() && in_utc_four_digit_years(secs as int, nanos) ==> is_minute_stamp(r@),
{
    chrono::DateTime::from_timestamp(secs, nanos).unwrap().format(fmt).to_string()
}

/// The text shows the time `secs`, `nanos` moved by the offset `off` of less than a day:
/// that time written with the minute pattern, or nothing when `chrono` has no such time.
pub open spec fn shown_with_offset(secs: int, nanos: u32, off: int, text: Seq<char>) -> bool {
    &&& -86_400 < off < 86_400
    &&& if chrono_has_time(secs + off, nanos) {
        text == utc_stamp(secs + off, nanos, minute_pattern())
    } else {
        text.len() == 0
    }
}

/// The text shows the time `secs`, `nanos` in some local time zone: nothing for a time
/// `chrono` cannot represent, else the time moved by a local offset of less than a day.
pub open spec fn shown_in_local_time(secs: int, nanos: u32, text: Seq<char>) -> bool {
    if chrono_has_time(secs, nanos) {
        exists|off: int| #[trigger] shown_with_offset(secs, nanos, off, text)
    } else {
        text.len() == 0
    }
}

/// A time, given as seconds and nanoseconds since the Unix epoch, in the local time
/// zone as `%Y-%m-%d %H:%M`; a time `chrono` cannot represent shows as nothing. Which
/// offset applies depends on the machine's time zone.
pub fn format_time(secs: i64, nanos: u32) -> (r: String)
    ensures
        shown_in_local_time(secs as int, nanos, r@),
        in_four_digit_years(secs, nanos) ==> is_minute_stamp(r@),
{
    if !chrono_time_exists(secs, nanos) {
        return String::new();
    }
    let off = local_offset_at(secs, nanos);
    let r = format_at_offset(secs, nanos, off);
    proof {
        assert(shown_with_offset(secs as int, nanos, off as int, r@));
    }
    r
}

/// The time `secs`, `nanos` moved by the offset `off` from UTC, written as
/// `%Y-%m-%d %H:%M`; nothing when `chrono` has no time there.
pub fn format_at_offset(secs: i64, nanos: u32, off: i32) -> (r: String)
    requires
        -86_400 < off < 86_400,
        i64::MIN <= secs + off <= i64::MAX,
    ensures
        shown_with_offset(secs as int, nanos, off as int, r@),
        in_utc_four_digit_years(secs + off, nanos) ==> is_minute_stamp(r@),
{
    let local: i64 = secs + off as i64;
    if !chrono_time_exists(local, nanos) {
        return String::new();
    }
    let fmt = "%Y-%m-%d %H:%M";
    proof {
        reveal_strlit("%Y-%m-%d %H:%M");
        assert(is_plain_pattern(fmt@));
    }
    utc_text(local, nanos, fmt)
}

/// Seconds and nanoseconds relative to the Unix epoch of a time `secs` seconds and
/// `nanos` nanoseconds after it (`after`) or before it, with the nanoseconds in
/// `0..1_000_000_000` so that the pair orders like the time itself.
pub fn signed_epoch(after: bool, secs: u64, nanos: u32) -> (r: (i64, u32))
    requires
        secs <= i64::MAX,
        nanos < 1_000_000_000,
    ensures
        r.1 < 1_000_000_000,
        r.0 * 1_000_000_000 + r.1 == (if after {
            secs * 1_000_000_000 + nanos
        } else {
            -(secs * 1_000_000_000 + nanos)
        }),
{
    let s: i64 = secs as i64;
    if after {
        (s, nanos)
    } else if nanos == 0 {
        (-s, 0)
    } else {
        (-s - 1, 1_000_000_000 - nanos)
    }
}

} // verus!
