use vstd::prelude::*;
use vstd::utf8::{decode_utf8, encode_scalar, encode_utf8, valid_utf8};
use crate::text::{
    chars_of, contains_chars, contains_seq, lines, lines_of, starts_with, string_of, sub_chars,
    trim, trim_chars,
};

verus! {

/// Bytes `percent_encode` keeps as they are: ASCII letters and digits and `/?:@&=+$,;_-.!~*'()`.
pub open spec fn is_safe(b: u8) -> bool {
    ||| (48 <= b && b <= 57)
    ||| (65 <= b && b <= 90)
    ||| (97 <= b && b <= 122)
    ||| b == 47 || b == 63 || b == 58 || b == 64 || b == 38 || b == 61 || b == 43
    ||| b == 36 || b == 44 || b == 59 || b == 95 || b == 45 || b == 46 || b == 33
    ||| b == 126 || b == 42 || b == 39 || b == 40 || b == 41
}

/// The upper-case hex digit for a value below 16.
pub open spec fn hex_upper(d: u8) -> u8 {
    if d < 10 {
        (48 + d) as u8
    } else {
        (55 + d) as u8
    }
}

/// One byte percent-encoded: itself when safe, else `%` and two upper-case hex digits.
pub open spec fn enc_byte(b: u8) -> Seq<u8> {
    if is_safe(b) {
        seq![b]
    } else {
        seq![37u8, hex_upper(b / 16), hex_upper(b % 16)]
    }
}

/// Bytes percent-encoded one by one.
pub open spec fn enc_bytes(bs: Seq<u8>) -> Seq<u8>
    decreases bs.len(),
{
    if bs.len() == 0 {
        Seq::empty()
    } else {
        enc_byte(bs[0]) + enc_bytes(bs.drop_first())
    }
}

/// ASCII bytes read as characters.
pub open spec fn ascii_text(bs: Seq<u8>) -> Seq<char> {
    Seq::new(bs.len(), |i: int| bs[i] as char)
}

/// The percent-encoding of a text's UTF-8 bytes.
pub open spec fn percent_encoded(s: Seq<char>) -> Seq<char> {
    ascii_text(enc_bytes(encode_utf8(s)))
}

/// The value of a hex digit (either case), if the byte is one.
pub open spec fn hex_val(b: u8) -> Option<u8> {
    if 48 <= b && b <= 57 {
        Some((b - 48) as u8)
    } else if 97 <= b && b <= 102 {
        Some((b - 87) as u8)
    } else if 65 <= b && b <= 70 {
        Some((b - 55) as u8)
    } else {
        None
    }
}

/// Bytes with every `%` followed by two hex digits replaced by the byte they name.
pub open spec fn dec_bytes(bs: Seq<u8>) -> Seq<u8>
    decreases bs.len(),
{
    if bs.len() == 0 {
        Seq::empty()
    } else if bs[0] == 37 && bs.len() > 2 && hex_val(bs[1]) is Some && hex_val(bs[2]) is Some {
        seq![(hex_val(bs[1])->0 * 16 + hex_val(bs[2])->0) as u8] + dec_bytes(bs.skip(3))
    } else {
        seq![bs[0]] + dec_bytes(bs.drop_first())
    }
}

/// What `String::from_utf8_lossy` makes of some bytes.
pub uninterp spec fn lossy_utf8(bytes: Seq<u8>) -> Seq<char>;

/// Calls `String::from_utf8_lossy`: valid UTF-8 is decoded unchanged; how invalid
/// sequences are replaced is left to the name `lossy_utf8`.
#[verifier::external_body]
fn utf8_lossy(bytes: &[u8]) -> (r: String)
    ensures
        r@ == lossy_utf8(bytes@),
        valid_utf8(bytes@) ==> r@ == decode_utf8(bytes@),
{
    String::from_utf8_lossy(bytes).into_owned()
}

/// Bytes read as UTF-8: decoded when valid, else as `String::from_utf8_lossy` replaces them.
pub open spec fn utf8_text(b: Seq<u8>) -> Seq<char> {
    if valid_utf8(b) {
        decode_utf8(b)
    } else {
        lossy_utf8(b)
    }
}

/// The bytes a percent-encoded text stands for.
pub open spec fn percent_decoded_bytes(s: Seq<char>) -> Seq<u8> {
    dec_bytes(encode_utf8(s))
}

fn hex_upper_exec(d: u8) -> (r: u8)
    requires
        d < 16,
    ensures
        r == hex_upper(d),
{
    if d < 10 {
        48 + d
    } else {
        55 + d
    }
}

fn is_safe_exec(b: u8) -> (r: bool)
    ensures
        r == is_safe(b),
{
    (48 <= b && b <= 57) || (65 <= b && b <= 90) || (97 <= b && b <= 122) || b == 47 || b == 63
        || b == 58 || b == 64 || b == 38 || b == 61 || b == 43 || b == 36 || b == 44 || b == 59
        || b == 95 || b == 45 || b == 46 || b == 33 || b == 126 || b == 42 || b == 39 || b == 40
        || b == 41
}

fn hex_val_exec(b: u8) -> (r: Option<u8>)
    ensures
        r == hex_val(b),
{
    if 48 <= b && b <= 57 {
        Some(b - 48)
    } else if 97 <= b && b <= 102 {
        Some(b - 87)
    } else if 65 <= b && b <= 70 {
        Some(b - 55)
    } else {
        None
    }
}

fn ascii_string(bs: &Vec<u8>) -> (r: String)
    ensures
        r@ == ascii_text(bs@),
{
    let mut out: Vec<char> = Vec::new();
    let mut i: usize = 0;
    while i < bs.len()
        invariant
            i <= bs.len(),
            out@ =~= ascii_text(bs@.take(i as int)),
        decreases bs.len() - i,
    {
        out.push(bs[i] as char);
        i = i + 1;
    }
    proof {
        assert(bs@.take(bs.len() as int) =~= bs@);
    }
    string_of(&out)
}

/// The text with every byte outside the safe set written as `%XX` (upper-case hex).
pub fn percent_encode(s: &str) -> (r: String)
    ensures
        r@ == percent_encoded(s@),
{
    let b = s.as_bytes();
    let mut out: Vec<u8> = Vec::new();
    let mut i: usize = 0;
    proof {
        assert(b@.skip(0) =~= b@);
    }
    while i < b.len()
        invariant
            i <= b.len(),
            b@ == encode_utf8(s@),
            out@ + enc_bytes(b@.skip(i as int)) == enc_bytes(b@),
        decreases b.len() - i,
    {
        let x = b[i];
        let ghost before = out@;
        if is_safe_exec(x) {
            out.push(x);
        } else {
            out.push(37u8);
            out.push(hex_upper_exec(x / 16));
            out.push(hex_upper_exec(x % 16));
        }
        proof {
            let t = b@.skip(i as int);
            assert(t[0] == x);
            assert(t.drop_first() =~= b@.skip(i + 1));
            assert(out@ =~= before + enc_byte(x));
            assert(before + (enc_byte(x) + enc_bytes(b@.skip(i + 1))) =~= out@ + enc_bytes(
                b@.skip(i + 1),
            ));
        }
        i = i + 1;
    }
    proof {
        assert(out@ =~= enc_bytes(b@));
    }
    ascii_string(&out)
}

/// The text with each `%` and two hex digits replaced by that byte, read as UTF-8 with
/// invalid sequences replaced.
pub fn percent_decode(s: &str) -> (r: String)
    ensures
        r@ == utf8_text(percent_decoded_bytes(s@)),
{
    let b = s.as_bytes();
    let mut out: Vec<u8> = Vec::new();
    let mut i: usize = 0;
    proof {
        assert(b@.skip(0) =~= b@);
    }
    while i < b.len()
        invariant
            i <= b.len(),
            b@ == encode_utf8(s@),
            out@ + dec_bytes(b@.skip(i as int)) == dec_bytes(b@),
        decreases b.len() - i,
    {
        let ghost before = out@;
        let ghost t = b@.skip(i as int);
        if b[i] == 37u8 && b.len() - i > 2 {
            let hi = hex_val_exec(b[i + 1]);
            let lo = hex_val_exec(b[i + 2]);
            if let (Some(h), Some(l)) = (hi, lo) {
                out.push(h * 16 + l);
                proof {
                    assert(t[0] == b@[i as int] && t[1] == b@[i + 1] && t[2] == b@[i + 2]);
                    assert(t.skip(3) =~= b@.skip(i + 3));
                    assert(before + (seq![(h * 16 + l) as u8] + dec_bytes(b@.skip(i + 3))) =~= out@
                        + dec_bytes(b@.skip(i + 3)));
                }
                i = i + 3;
                continue;
            }
        }
        out.push(b[i]);
        proof {
            assert(t[0] == b@[i as int]);
            if t.len() > 2 {
                assert(t[1] == b@[i + 1] && t[2] == b@[i + 2]);
            }
            assert(t.drop_first() =~= b@.skip(i + 1));
            assert(before + (seq![b@[i as int]] + dec_bytes(b@.skip(i + 1))) =~= out@ + dec_bytes(
                b@.skip(i + 1),
            ));
        }
        i = i + 1;
    }
    proof {
        assert(b@.skip(i as int).len() == 0);
        assert(out@ =~= dec_bytes(b@));
    }
    utf8_lossy(out.as_slice())
}

proof fn lemma_hex_round_trip(b: u8)
    ensures
        hex_val(hex_upper(b / 16)) == Some(b / 16),
        hex_val(hex_upper(b % 16)) == Some(b % 16),
        ((b / 16) * 16 + b % 16) as u8 == b,
{
}

proof fn lemma_dec_enc(bs: Seq<u8>)
    ensures
        dec_bytes(enc_bytes(bs)) == bs,
    decreases bs.len(),
{
    if bs.len() > 0 {
        let b = bs[0];
        let rest = enc_bytes(bs.drop_first());
        let e = enc_byte(b) + rest;
        lemma_dec_enc(bs.drop_first());
        if is_safe(b) {
            assert(e.drop_first() =~= rest);
        } else {
            lemma_hex_round_trip(b);
            assert(e.skip(3) =~= rest);
        }
        assert(bs =~= seq![b] + bs.drop_first());
    }
}

proof fn lemma_enc_ascii(bs: Seq<u8>)
    ensures
        forall|i: int| 0 <= i < enc_bytes(bs).len() ==> #[trigger] enc_bytes(bs)[i] < 128,
    decreases bs.len(),
{
    if bs.len() > 0 {
        lemma_enc_ascii(bs.drop_first());
        let e = enc_byte(bs[0]);
        let rest = enc_bytes(bs.drop_first());
        assert forall|i: int| 0 <= i < (e + rest).len() implies #[trigger] (e + rest)[i] < 128 by {
            if i >= e.len() {
                assert((e + rest)[i] == rest[i - e.len()]);
            }
        }
    }
}

proof fn lemma_ascii_bytes(bs: Seq<u8>)
    requires
        forall|i: int| 0 <= i < bs.len() ==> #[trigger] bs[i] < 128,
    ensures
        encode_utf8(ascii_text(bs)) == bs,
{
    let t = ascii_text(bs);
    assert(vstd::utf8::is_ascii_chars(t));
    vstd::utf8::is_ascii_chars_encode_utf8(t);
    assert forall|i: int| 0 <= i < bs.len() implies encode_utf8(t)[i] == bs[i] by {
        assert(t[i] as u8 == encode_utf8(t)[i]);
    }
    assert(encode_utf8(t) =~= bs);
}

/// Decoding what `percent_encode` produced gives back the original text.
pub proof fn law_percent_round_trip(s: Seq<char>)
    ensures
        utf8_text(percent_decoded_bytes(percent_encoded(s))) == s,
{
    let bs = encode_utf8(s);
    lemma_enc_ascii(bs);
    lemma_ascii_bytes(enc_bytes(bs));
    lemma_dec_enc(bs);
    vstd::utf8::encode_utf8_valid_utf8(s);
    vstd::utf8::encode_utf8_decode_utf8(s);
}

/// The local path a `text/uri-list` entry names: a `file://` URI loses its scheme and
/// one trailing `/` and is percent-decoded; any other URI names none; anything else is
/// taken as a path. Surrounding white space is ignored.
pub open spec fn uri_path(s: Seq<char>) -> Option<Seq<char>> {
    let t = trim(s);
    if "file://"@.is_prefix_of(t) {
        let rest = t.skip("file://"@.len() as int);
        let bare = if rest.len() > 0 && rest.last() == '/' {
            rest.drop_last()
        } else {
            rest
        };
        Some(utf8_text(percent_decoded_bytes(bare)))
    } else if contains_seq(t, "://"@) {
        None
    } else {
        Some(t)
    }
}

/// The local path a URI names, if any.
pub fn uri_to_path(s: &str) -> (r: Option<String>)
    ensures
        r.deep_view() == uri_path(s@),
{
    let t = trim_chars(&chars_of(s));
    if starts_with(&t, "file://") {
        let skip = chars_of("file://");
        let mut end = t.len();
        if end > skip.len() && t[end - 1] == '/' {
            end = end - 1;
        }
        let bare = sub_chars(&t, skip.len(), end);
        proof {
            let rest = t@.skip(skip@.len() as int);
            if t@.len() > skip@.len() && t@.last() == '/' {
                assert(bare@ =~= rest.drop_last());
            } else {
                assert(bare@ =~= rest);
            }
        }
        let bare_s = string_of(&bare);
        return Some(percent_decode(bare_s.as_str()));
    }
    let sep = chars_of("://");
    if contains_chars(&t, &sep) {
        return None;
    }
    Some(string_of(&t))
}

/// A line of a URI list names a path unless it is blank or a `#` comment.
pub open spec fn uri_entry(line: Seq<char>) -> Option<Seq<char>> {
    let l = trim(line);
    if l.len() == 0 || l[0] == '#' {
        None
    } else {
        uri_path(l)
    }
}

/// The local paths a `text/uri-list` payload names, in order.
pub fn parse_uri_list(s: &str) -> (r: Vec<String>)
    ensures
        r.deep_view() == lines(s@).filter_map(|l: Seq<char>| uri_entry(l)),
{
    let v = chars_of(s);
    let ls = lines_of(&v);
    let ghost all = lines(s@);
    let ghost f = |l: Seq<char>| uri_entry(l);
    let mut out: Vec<String> = Vec::new();
    let mut i: usize = 0;
    while i < ls.len()
        invariant
            ls.deep_view() == all,
            all == lines(s@),
            f == (|l: Seq<char>| uri_entry(l)),
            i <= ls.len(),
            out.deep_view() == all.take(i as int).filter_map(f),
        decreases ls.len() - i,
    {
        proof {
            assert(all.take(i + 1).drop_last() =~= all.take(i as int));
            assert(all.take(i + 1).last() == ls@[i as int]@);
        }
        let t = trim_chars(&ls[i]);
        let ghost before = out.deep_view();
        if t.len() > 0 && t[0] != '#' {
            let ts = string_of(&t);
            match uri_to_path(ts.as_str()) {
                Some(p) => {
                    out.push(p);
                    proof {
                        assert(out.deep_view() =~= before + seq![out@[out.len() - 1]@]);
                    }
                },
                None => {},
            }
        }
        i = i + 1;
    }
    proof {
        assert(all.take(ls.len() as int) =~= all);
    }
    out
}

proof fn lemma_enc_printable(bs: Seq<u8>)
    ensures
        forall|i: int| 0 <= i < enc_bytes(bs).len() ==> 33 <= #[trigger] enc_bytes(bs)[i] <= 126,
    decreases bs.len(),
{
    if bs.len() > 0 {
        lemma_enc_printable(bs.drop_first());
        let e = enc_byte(bs[0]);
        let rest = enc_bytes(bs.drop_first());
        assert forall|i: int| 0 <= i < (e + rest).len() implies 33 <= #[trigger] (e + rest)[i] <= 126 by {
            if i >= e.len() {
                assert((e + rest)[i] == rest[i - e.len()]);
            }
        }
    }
}

/// Every character of a percent-encoded text is printable ASCII other than a space.
pub proof fn lemma_encoded_printable(p: Seq<char>)
    ensures
        forall|i: int| 0 <= i < percent_encoded(p).len() ==> '!' <= #[trigger] percent_encoded(p)[i] <= '~',
{
    lemma_enc_printable(encode_utf8(p));
}

/// A `file://` URI made of a percent-encoded path names that path again, unless the
/// path ends in `/` (which a URI list drops).
pub proof fn law_file_uri_round_trip(p: Seq<char>)
    requires
        !(p.len() > 0 && p.last() == '/'),
    ensures
        uri_path("file://"@ + percent_encoded(p)) == Some(p),
{
    reveal_strlit("file://");
    lemma_encoded_printable(p);
    let enc = percent_encoded(p);
    let u = "file://"@ + enc;
    assert(!crate::text::is_ws(u[0]));
    assert(u.last() == if enc.len() > 0 {
        enc.last()
    } else {
        '/'
    });
    if enc.len() > 0 {
        assert(enc[enc.len() - 1] == enc.last());
        assert(!crate::text::is_ws(u.last()));
    }
    crate::text::lemma_trim_id(u);
    assert("file://"@.is_prefix_of(u)) by {
        assert(u.subrange(0, 7) =~= "file://"@);
    }
    assert(u.skip(7) =~= enc);
    lemma_encoded_ends(p);
    law_percent_round_trip(p);
}

proof fn lemma_scalar_last_slash(c: char)
    ensures
        encode_utf8(seq![c]).len() > 0,
        encode_utf8(seq![c]).last() == 47 ==> c == '/',
{
    let v = c as u32;
    reveal_with_fuel(encode_utf8, 2);
    assert(seq![c].drop_first() =~= Seq::<char>::empty());
    assert(seq![c][0] == c);
    assert(encode_utf8(seq![c]) =~= encode_scalar(v));
    if vstd::utf8::has_width_1_encoding(v) {
        let b = vstd::utf8::leading_byte_width_1(v);
        assert(v <= 0x7f ==> (v & 0x7f) as u8 == v) by (bit_vector);
        if b == 47 {
            assert(v == 47);
        }
    } else {
        let b = vstd::utf8::last_continuation_byte(v);
        assert(0x80u8 | ((v & 0x3f) as u8) != 47u8) by (bit_vector);
        assert(b != 47);
    }
}

proof fn lemma_utf8_last_slash(p: Seq<char>)
    requires
        p.len() > 0,
    ensures
        encode_utf8(p).len() > 0,
        encode_utf8(p).last() == 47 ==> p.last() == '/',
    decreases p.len(),
{
    let first = encode_utf8(seq![p[0]]);
    let rest = p.drop_first();
    lemma_scalar_last_slash(p[0]);
    reveal_with_fuel(encode_utf8, 2);
    assert(seq![p[0]].drop_first() =~= Seq::<char>::empty());
    assert(seq![p[0]][0] == p[0]);
    assert(first =~= encode_scalar(p[0] as u32));
    if p.len() > 1 {
        lemma_utf8_last_slash(rest);
        assert(encode_utf8(p) == first + encode_utf8(rest));
        assert((first + encode_utf8(rest)).last() == encode_utf8(rest).last());
        assert(rest.last() == p.last());
    } else {
        assert(rest.len() == 0);
        assert(encode_utf8(rest).len() == 0);
        assert(first + encode_utf8(rest) =~= first);
        assert(p =~= seq![p[0]]);
    }
}

proof fn lemma_enc_last(bs: Seq<u8>)
    requires
        bs.len() > 0,
    ensures
        enc_bytes(bs).len() > 0,
        enc_bytes(bs).last() == 47 ==> bs.last() == 47,
    decreases bs.len(),
{
    let e = enc_byte(bs[0]);
    let rest = enc_bytes(bs.drop_first());
    if bs.len() > 1 {
        lemma_enc_last(bs.drop_first());
        assert((e + rest).last() == rest.last());
        assert(bs.drop_first().last() == bs.last());
    } else {
        assert(rest.len() == 0) by {
            assert(bs.drop_first().len() == 0);
        }
        assert(e + rest =~= e);
        if !is_safe(bs[0]) {
            assert(e.last() == hex_upper(bs[0] % 16));
        }
    }
}

proof fn lemma_encoded_ends(p: Seq<char>)
    requires
        !(p.len() > 0 && p.last() == '/'),
    ensures
        !(percent_encoded(p).len() > 0 && percent_encoded(p).last() == '/'),
{
    let bs = encode_utf8(p);
    if bs.len() > 0 {
        lemma_enc_last(bs);
        let e = enc_bytes(bs);
        assert(percent_encoded(p).last() == e.last() as char);
        if e.last() == 47 {
            assert(bs.last() == 47);
            assert(p.len() > 0);
            lemma_utf8_last_slash(p);
        }
    }
}

} // verus!
