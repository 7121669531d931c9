//! Encodings: rot13, HTML entities and percent-encoding, each verified
//! against an exact spec over characters and UTF-8 bytes.
use vstd::prelude::*;

use base64::engine::general_purpose::STANDARD;
use base64::Engine;
use sha1::Digest;

use vstd::utf8::{decode_utf8, encode_utf8, valid_utf8};

use crate::numkit::{digit_char_upper, digit_char_upper_exec, spec_radix_nat};
use crate::strkit::{chars_to_string, lower_of, lower_str, str_eq, str_to_chars};
use vstd::string::StrSliceExecFns;

verus! {

/// The encoding operations.
#[derive(Clone, Copy, Debug, PartialEq, Eq, Structural)]
pub enum EncodingOp {
    Rot13,
    Base64Encode,
    Base64Decode,
    Md5,
    Sha1,
    Sha256,
    Sha512,
    HtmlEncode,
    HtmlDecode,
    HtmlEncodeAll,
    UrlEncode,
    UrlDecode,
    UrlEntityEncode,
    UrlEntitiesDecode,
    Unknown,
}

/// The operation a token selects, matched against the token as written.
pub open spec fn spec_encoding_op(s: Seq<char>) -> EncodingOp {
    if s == "rot13"@ {
        EncodingOp::Rot13
    } else if s == "base64_encode"@ {
        EncodingOp::Base64Encode
    } else if s == "base64_decode"@ {
        EncodingOp::Base64Decode
    } else if s == "md5"@ {
        EncodingOp::Md5
    } else if s == "sha1"@ {
        EncodingOp::Sha1
    } else if s == "sha256"@ {
        EncodingOp::Sha256
    } else if s == "sha512"@ {
        EncodingOp::Sha512
    } else if s == "html_encode"@ {
        EncodingOp::HtmlEncode
    } else if s == "html_decode"@ {
        EncodingOp::HtmlDecode
    } else if s == "html_encode_all"@ {
        EncodingOp::HtmlEncodeAll
    } else if s == "url_encode"@ {
        EncodingOp::UrlEncode
    } else if s == "url_decode"@ {
        EncodingOp::UrlDecode
    } else if s == "url_entity_encode"@ {
        EncodingOp::UrlEntityEncode
    } else if s == "url_entities_decode"@ {
        EncodingOp::UrlEntitiesDecode
    } else {
        EncodingOp::Unknown
    }
}

/// Maps a token, as written, to its encoding operation.
pub fn str_to_encoding_op(arg: &str) -> (r: EncodingOp)
    ensures
        r == spec_encoding_op(arg@),
{
    if str_eq(arg, "rot13") {
        EncodingOp::Rot13
    } else if str_eq(arg, "base64_encode") {
        EncodingOp::Base64Encode
    } else if str_eq(arg, "base64_decode") {
        EncodingOp::Base64Decode
    } else if str_eq(arg, "md5") {
        EncodingOp::Md5
    } else if str_eq(arg, "sha1") {
        EncodingOp::Sha1
    } else if str_eq(arg, "sha256") {
        EncodingOp::Sha256
    } else if str_eq(arg, "sha512") {
        EncodingOp::Sha512
    } else if str_eq(arg, "html_encode") {
        EncodingOp::HtmlEncode
    } else if str_eq(arg, "html_decode") {
        EncodingOp::HtmlDecode
    } else if str_eq(arg, "html_encode_all") {
        EncodingOp::HtmlEncodeAll
    } else if str_eq(arg, "url_encode") {
        EncodingOp::UrlEncode
    } else if str_eq(arg, "url_decode") {
        EncodingOp::UrlDecode
    } else if str_eq(arg, "url_entity_encode") {
        EncodingOp::UrlEntityEncode
    } else if str_eq(arg, "url_entities_decode") {
        EncodingOp::UrlEntitiesDecode
    } else {
        EncodingOp::Unknown
    }
}

/// The operation of the first token whose lowered form is an encoding
/// keyword, resolved against the token as written.
pub open spec fn spec_select_encoding(args: Seq<Seq<char>>) -> EncodingOp
    decreases args.len(),
{
    if args.len() == 0 {
        EncodingOp::Unknown
    } else if crate::utils::encoding_kw(lower_of(args[0])) {
        spec_encoding_op(args[0])
    } else {
        spec_select_encoding(args.drop_first())
    }
}

/// Scans the arguments for the first encoding keyword.
pub fn select_encoding_option(args: &Vec<String>) -> (r: EncodingOp)
    ensures
        r == spec_select_encoding(crate::utils::str_views(args@)),
{
    let ghost av = crate::utils::str_views(args@);
    let mut i: usize = 0;
    proof {
        assert(av.skip(0) =~= av);
    }
    while i < args.len()
        invariant
            av == crate::utils::str_views(args@),
            i <= args@.len(),
            spec_select_encoding(av) == spec_select_encoding(av.skip(i as int)),
        decreases args@.len() - i,
    {
        let low = lower_str(args[i].as_str());
        proof {
            assert(av.skip(i as int)[0] == av[i as int]);
            assert(av.skip(i as int).drop_first() =~= av.skip(i + 1));
        }
        if crate::utils::is_encoding_kw(low.as_str()) {
            return str_to_encoding_op(args[i].as_str());
        }
        i = i + 1;
    }
    proof {
        assert(av.skip(args@.len() as int) =~= Seq::<Seq<char>>::empty());
    }
    EncodingOp::Unknown
}

// ------------------------------------------------------------------
// rot13
// ------------------------------------------------------------------

/// An ASCII letter rotated thirteen places; any other character unchanged.
pub open spec fn rot13_char(c: char) -> char {
    if 65 <= c as u32 && c as u32 <= 90 {
        (((((c as u32) - 65 + 13) % 26) + 65) as u8) as char
    } else if 97 <= c as u32 && c as u32 <= 122 {
        (((((c as u32) - 97 + 13) % 26) + 97) as u8) as char
    } else {
        c
    }
}

/// Every character rotated by `rot13_char`.
pub open spec fn spec_rot13(s: Seq<char>) -> Seq<char> {
    s.map_values(|c: char| rot13_char(c))
}

/// Applies the rot13 rotation to every ASCII letter.
pub fn rot13(text: &str) -> (r: String)
    ensures
        r@ == spec_rot13(text@),
{
    let cs = str_to_chars(text);
    let mut out: Vec<char> = Vec::new();
    let mut i: usize = 0;
    while i < cs.len()
        invariant
            i <= cs@.len(),
            cs@ == text@,
            out@.len() == i,
            forall|j: int| 0 <= j < i ==> out@[j] == rot13_char(cs@[j]),
        decreases cs@.len() - i,
    {
        let c = cs[i];
        let v = c as u32;
        let rc: char = if 65 <= v && v <= 90 {
            ((((v - 65 + 13) % 26) + 65) as u8) as char
        } else if 97 <= v && v <= 122 {
            ((((v - 97 + 13) % 26) + 97) as u8) as char
        } else {
            c
        };
        out.push(rc);
        i = i + 1;
    }
    proof {
        assert(out@ =~= spec_rot13(text@));
    }
    chars_to_string(&out)
}

/// Applying rot13 twice gives back every string.
pub proof fn lemma_rot13_involution(s: Seq<char>)
    ensures
        spec_rot13(spec_rot13(s)) == s,
{
    assert forall|j: int| 0 <= j < s.len() implies rot13_char(#[trigger] spec_rot13(s)[j])
        == s[j] by {
        lemma_rot13_char_involution(s[j]);
    }
    assert(spec_rot13(spec_rot13(s)) =~= s);
}

/// The rotation is an involution on every character.
pub proof fn lemma_rot13_char_involution(c: char)
    ensures
        rot13_char(rot13_char(c)) == c,
{
    if 65 <= c as u32 && c as u32 <= 90 {
        let x = (c as u32) - 65;
        let d = ((x + 13) % 26) + 65;
        assert(rot13_char(c) == (d as u8) as char);
        assert(65 <= d <= 90);
        assert((d as u8) as char as u32 == d);
        assert(((d - 65 + 13) % 26) + 65 == c as u32);
    } else if 97 <= c as u32 && c as u32 <= 122 {
        let x = (c as u32) - 97;
        let d = ((x + 13) % 26) + 97;
        assert(rot13_char(c) == (d as u8) as char);
        assert(97 <= d <= 122);
        assert((d as u8) as char as u32 == d);
        assert(((d - 97 + 13) % 26) + 97 == c as u32);
    }
}

// ------------------------------------------------------------------
// HTML entities
// ------------------------------------------------------------------

/// The entity a character encodes to, where one is defined.
pub open spec fn html_enc_char(c: char) -> Seq<char> {
    if c == '<' {
        seq!['&', '#', 'x', '3', 'C', ';']
    } else if c == '>' {
        seq!['&', '#', 'x', '3', 'E', ';']
    } else if c == '&' {
        seq!['&', '#', 'x', '2', '6', ';']
    } else if c == '\'' {
        seq!['&', '#', 'x', '2', '2', ';']
    } else if c == '"' {
        seq!['&', '#', 'x', '2', '7', ';']
    } else {
        seq![c]
    }
}

/// The text with each mapped character replaced by its entity.
pub open spec fn spec_html_encode(s: Seq<char>) -> Seq<char>
    decreases s.len(),
{
    if s.len() == 0 {
        Seq::empty()
    } else {
        html_enc_char(s[0]) + spec_html_encode(s.drop_first())
    }
}

/// Encodes the five mapped characters as hexadecimal HTML entities.
pub fn html_encode(text: &str) -> (r: String)
    ensures
        r@ == spec_html_encode(text@),
{
    let cs = str_to_chars(text);
    let mut out: Vec<char> = Vec::new();
    let mut i: usize = 0;
    proof {
        assert(cs@.skip(0) =~= cs@);
        assert(out@ + spec_html_encode(cs@) =~= spec_html_encode(cs@));
    }
    while i < cs.len()
        invariant
            i <= cs@.len(),
            cs@ == text@,
            spec_html_encode(text@) =~= out@ + spec_html_encode(cs@.skip(i as int)),
        decreases cs@.len() - i,
    {
        let ghost rest = cs@.skip(i as int);
        let ghost out0 = out@;
        let c = cs[i];
        proof {
            assert(rest[0] == c);
            assert(rest.drop_first() =~= cs@.skip(i + 1));
        }
        if c == '<' {
            push6(&mut out, '&', '#', 'x', '3', 'C', ';');
        } else if c == '>' {
            push6(&mut out, '&', '#', 'x', '3', 'E', ';');
        } else if c == '&' {
            push6(&mut out, '&', '#', 'x', '2', '6', ';');
        } else if c == '\'' {
            push6(&mut out, '&', '#', 'x', '2', '2', ';');
        } else if c == '"' {
            push6(&mut out, '&', '#', 'x', '2', '7', ';');
        } else {
            out.push(c);
            proof {
                assert(out@ =~= out0 + seq![c]);
            }
        }
        i = i + 1;
    }
    proof {
        assert(cs@.skip(cs@.len() as int) =~= Seq::<char>::empty());
        assert(out@ =~= spec_html_encode(text@));
    }
    chars_to_string(&out)
}

/// Pushes six characters.
fn push6(out: &mut Vec<char>, a: char, b: char, c: char, d: char, e: char, f: char)
    ensures
        final(out)@ == old(out)@ + seq![a, b, c, d, e, f],
{
    out.push(a);
    out.push(b);
    out.push(c);
    out.push(d);
    out.push(e);
    out.push(f);
    proof {
        assert(out@ =~= old(out)@ + seq![a, b, c, d, e, f]);
    }
}

/// The character a six-character entity decodes to, if it is recognized.
pub open spec fn entity_of(e: Seq<char>) -> Option<char>
    recommends
        e.len() == 6,
{
    if e[0] == '&' && e[1] == '#' && e[2] == 'x' && e[5] == ';' {
        if e[3] == '3' && e[4] == 'C' {
            Some('<')
        } else if e[3] == '3' && e[4] == 'E' {
            Some('>')
        } else if e[3] == '2' && e[4] == '6' {
            Some('&')
        } else if e[3] == '2' && e[4] == '2' {
            Some('\'')
        } else if e[3] == '2' && e[4] == '7' {
            Some('"')
        } else {
            None
        }
    } else {
        None
    }
}

/// The text with each recognized entity decoded; other characters kept.
pub open spec fn spec_html_decode(s: Seq<char>) -> Seq<char>
    decreases s.len(),
{
    if s.len() == 0 {
        Seq::empty()
    } else if s.len() >= 6 && entity_of(s.take(6)) is Some {
        seq![entity_of(s.take(6))->0] + spec_html_decode(s.skip(6))
    } else {
        seq![s[0]] + spec_html_decode(s.drop_first())
    }
}

/// Decodes the five recognized hexadecimal HTML entities.
pub fn html_decode(text: &str) -> (r: String)
    ensures
        r@ == spec_html_decode(text@),
{
    let cs = str_to_chars(text);
    let mut out: Vec<char> = Vec::new();
    let mut i: usize = 0;
    proof {
        assert(cs@.skip(0) =~= cs@);
        assert(out@ + spec_html_decode(cs@) =~= spec_html_decode(cs@));
    }
    while i < cs.len()
        invariant
            i <= cs@.len(),
            cs@ == text@,
            spec_html_decode(text@) =~= out@ + spec_html_decode(cs@.skip(i as int)),
        decreases cs@.len() - i,
    {
        let ghost rest = cs@.skip(i as int);
        proof {
            assert(rest[0] == cs@[i as int]);
            assert(rest.drop_first() =~= cs@.skip(i + 1));
        }
        let mut decoded: Option<char> = None;
        if cs.len() - i >= 6 {
            proof {
                assert(rest.take(6) =~= cs@.subrange(i as int, i as int + 6));
                assert forall|k: int| 0 <= k < 6 implies #[trigger] rest.take(6)[k] == cs@[i
                    + k] by {}
            }
            if cs[i] == '&' && cs[i + 1] == '#' && cs[i + 2] == 'x' && cs[i + 5] == ';' {
                let d3 = cs[i + 3];
                let d4 = cs[i + 4];
                if d3 == '3' && d4 == 'C' {
                    decoded = Some('<');
                } else if d3 == '3' && d4 == 'E' {
                    decoded = Some('>');
                } else if d3 == '2' && d4 == '6' {
                    decoded = Some('&');
                } else if d3 == '2' && d4 == '2' {
                    decoded = Some('\'');
                } else if d3 == '2' && d4 == '7' {
                    decoded = Some('"');
                }
            }
            proof {
                assert(decoded == entity_of(rest.take(6)));
            }
        }
        match decoded {
            Some(d) => {
                out.push(d);
                proof {
                    assert(rest.skip(6) =~= cs@.skip(i + 6));
                }
                i = i + 6;
            },
            None => {
                out.push(cs[i]);
                i = i + 1;
            },
        }
    }
    proof {
        assert(cs@.skip(cs@.len() as int) =~= Seq::<char>::empty());
        assert(out@ =~= spec_html_decode(text@));
    }
    chars_to_string(&out)
}

/// Every character as a decimal numeric entity.
pub open spec fn spec_html_encode_all(s: Seq<char>) -> Seq<char>
    decreases s.len(),
{
    if s.len() == 0 {
        Seq::empty()
    } else {
        seq!['&', '#'] + spec_radix_nat(s[0] as u32 as nat, 10) + seq![';'] + spec_html_encode_all(
            s.drop_first(),
        )
    }
}

/// Encodes every character as a decimal numeric entity.
pub fn html_encode_all(text: &str) -> (r: String)
    ensures
        r@ == spec_html_encode_all(text@),
{
    let cs = str_to_chars(text);
    let mut out: Vec<char> = Vec::new();
    let mut i: usize = 0;
    proof {
        assert(cs@.skip(0) =~= cs@);
        assert(out@ + spec_html_encode_all(cs@) =~= spec_html_encode_all(cs@));
    }
    while i < cs.len()
        invariant
            i <= cs@.len(),
            cs@ == text@,
            spec_html_encode_all(text@) =~= out@ + spec_html_encode_all(cs@.skip(i as int)),
        decreases cs@.len() - i,
    {
        let ghost rest = cs@.skip(i as int);
        let ghost out0 = out@;
        let c = cs[i];
        proof {
            assert(rest[0] == c);
            assert(rest.drop_first() =~= cs@.skip(i + 1));
        }
        out.push('&');
        out.push('#');
        let cv = c as u32;
        crate::numkit::push_radix_u64(cv as u64, 10, &mut out);
        out.push(';');
        proof {
            assert(cv as u64 as nat == c as u32 as nat);
            assert(out@ =~= out0 + (seq!['&', '#'] + spec_radix_nat(c as u32 as nat, 10)
                + seq![';']));
        }
        i = i + 1;
    }
    proof {
        assert(cs@.skip(cs@.len() as int) =~= Seq::<char>::empty());
        assert(out@ =~= spec_html_encode_all(text@));
    }
    chars_to_string(&out)
}

// ------------------------------------------------------------------
// Percent-encoding
// ------------------------------------------------------------------

/// An ASCII letter or digit, as a byte.
pub open spec fn is_alnum_byte(b: u8) -> bool {
    (48 <= b && b <= 57) || (65 <= b && b <= 90) || (97 <= b && b <= 122)
}

/// A byte as `%XX`, upper-case hex.
pub open spec fn pct_byte(b: u8) -> Seq<char> {
    seq!['%', digit_char_upper(b as int / 16), digit_char_upper(b as int % 16)]
}

/// Every byte percent-encoded except ASCII letters and digits.
pub open spec fn spec_pct_encode(bs: Seq<u8>) -> Seq<char>
    decreases bs.len(),
{
    if bs.len() == 0 {
        Seq::empty()
    } else if is_alnum_byte(bs[0]) {
        seq![bs[0] as char] + spec_pct_encode(bs.drop_first())
    } else {
        pct_byte(bs[0]) + spec_pct_encode(bs.drop_first())
    }
}

/// Every byte percent-encoded.
pub open spec fn spec_pct_encode_all(bs: Seq<u8>) -> Seq<char>
    decreases bs.len(),
{
    if bs.len() == 0 {
        Seq::empty()
    } else {
        pct_byte(bs[0]) + spec_pct_encode_all(bs.drop_first())
    }
}

/// Percent-encodes the text's UTF-8 bytes, keeping ASCII letters and digits.
pub fn url_encode(text: &str) -> (r: String)
    ensures
        r@ == spec_pct_encode(encode_utf8(text@)),
{
    let bs = text.as_bytes_vec();
    let mut out: Vec<char> = Vec::new();
    let mut i: usize = 0;
    proof {
        assert(bs@.skip(0) =~= bs@);
        assert(out@ + spec_pct_encode(bs@) =~= spec_pct_encode(bs@));
    }
    while i < bs.len()
        invariant
            i <= bs@.len(),
            bs@ == encode_utf8(text@),
            spec_pct_encode(bs@) =~= out@ + spec_pct_encode(bs@.skip(i as int)),
        decreases bs@.len() - i,
    {
        let ghost rest = bs@.skip(i as int);
        let ghost out0 = out@;
        let b = bs[i];
        proof {
            assert(rest[0] == b);
            assert(rest.drop_first() =~= bs@.skip(i + 1));
        }
        if (48 <= b && b <= 57) || (65 <= b && b <= 90) || (97 <= b && b <= 122) {
            out.push(b as char);
            proof {
                assert(out@ =~= out0 + seq![b as char]);
            }
        } else {
            out.push('%');
            out.push(digit_char_upper_exec((b / 16) as u64));
            out.push(digit_char_upper_exec((b % 16) as u64));
            proof {
                assert(out@ =~= out0 + pct_byte(b));
            }
        }
        i = i + 1;
    }
    proof {
        assert(bs@.skip(bs@.len() as int) =~= Seq::<u8>::empty());
        assert(out@ =~= spec_pct_encode(bs@));
    }
    chars_to_string(&out)
}

/// Percent-encodes every UTF-8 byte of the text.
pub fn url_entity_encode(text: &str) -> (r: String)
    ensures
        r@ == spec_pct_encode_all(encode_utf8(text@)),
{
    let bs = text.as_bytes_vec();
    let mut out: Vec<char> = Vec::new();
    let mut i: usize = 0;
    proof {
        assert(bs@.skip(0) =~= bs@);
        assert(out@ + spec_pct_encode_all(bs@) =~= spec_pct_encode_all(bs@));
    }
    while i < bs.len()
        invariant
            i <= bs@.len(),
            bs@ == encode_utf8(text@),
            spec_pct_encode_all(bs@) =~= out@ + spec_pct_encode_all(bs@.skip(i as int)),
        decreases bs@.len() - i,
    {
        let ghost rest = bs@.skip(i as int);
        let ghost out0 = out@;
        let b = bs[i];
        proof {
            assert(rest[0] == b);
            assert(rest.drop_first() =~= bs@.skip(i + 1));
        }
        out.push('%');
        out.push(digit_char_upper_exec((b / 16) as u64));
        out.push(digit_char_upper_exec((b % 16) as u64));
        proof {
            assert(out@ =~= out0 + pct_byte(b));
        }
        i = i + 1;
    }
    proof {
        assert(bs@.skip(bs@.len() as int) =~= Seq::<u8>::empty());
        assert(out@ =~= spec_pct_encode_all(bs@));
    }
    chars_to_string(&out)
}

/// The value of a hex digit byte, either case.
pub open spec fn hex_byte_val(b: u8) -> Option<u8> {
    if 48 <= b && b <= 57 {
        Some((b - 48) as u8)
    } else if 97 <= b && b <= 102 {
        Some((b - 87) as u8)
    } else if 65 <= b && b <= 70 {
        Some((b - 55) as u8)
    } else {
        None
    }
}

/// Each `%XX` with two hex digits turned into its byte; everything else
/// passed through, as `percent_decode_str`.
pub open spec fn spec_pct_decode(bs: Seq<u8>) -> Seq<u8>
    decreases bs.len(),
{
    if bs.len() == 0 {
        Seq::empty()
    } else if bs[0] == 37 && bs.len() >= 3 && hex_byte_val(bs[1]) is Some && hex_byte_val(
        bs[2],
    ) is Some {
        seq![(hex_byte_val(bs[1])->0 * 16 + hex_byte_val(bs[2])->0) as u8] + spec_pct_decode(
            bs.skip(3),
        )
    } else {
        seq![bs[0]] + spec_pct_decode(bs.drop_first())
    }
}

/// What `String::from_utf8_lossy` returns for the given bytes.
pub uninterp spec fn utf8_lossy_of(bs: Seq<u8>) -> Seq<char>;

/// Relies on `String::from_utf8_lossy`: a function of the bytes alone,
/// which decodes valid UTF-8 unchanged.
#[verifier::external_body]
fn utf8_lossy(b: &Vec<u8>) -> (r: String)
    ensures
        r@ == utf8_lossy_of(b@),
        valid_utf8(b@) ==> r@ == decode_utf8(b@),
{
    String::from_utf8_lossy(b).into_owned()
}

/// The value of a hex digit byte, executable.
fn hex_byte_val_exec(b: u8) -> (r: Option<u8>)
    ensures
        r == hex_byte_val(b),
{
    if 48 <= b && b <= 57 {
        Some(b - 48)
    } else if 97 <= b && b <= 102 {
        Some(b - 87)
    } else if 65 <= b && b <= 70 {
        Some(b - 55)
    } else {
        None
    }
}

/// Percent-decodes the text's UTF-8 bytes, then reads them as UTF-8,
/// lossily.
pub fn url_decode(text: &str) -> (r: String)
    ensures
        r@ == utf8_lossy_of(spec_pct_decode(encode_utf8(text@))),
        valid_utf8(spec_pct_decode(encode_utf8(text@))) ==> r@ == decode_utf8(
            spec_pct_decode(encode_utf8(text@)),
        ),
{
    let bs = text.as_bytes_vec();
    let mut out: Vec<u8> = Vec::new();
    let mut i: usize = 0;
    proof {
        assert(bs@.skip(0) =~= bs@);
        assert(out@ + spec_pct_decode(bs@) =~= spec_pct_decode(bs@));
    }
    while i < bs.len()
        invariant
            i <= bs@.len(),
            bs@ == encode_utf8(text@),
            spec_pct_decode(bs@) =~= out@ + spec_pct_decode(bs@.skip(i as int)),
        decreases bs@.len() - i,
    {
        let ghost rest = bs@.skip(i as int);
        let ghost out0 = out@;
        let b = bs[i];
        proof {
            assert(rest[0] == b);
            assert(rest.drop_first() =~= bs@.skip(i + 1));
        }
        let mut step: usize = 1;
        if b == 37 && bs.len() - i >= 3 {
            proof {
                assert(rest[1] == bs@[i + 1]);
                assert(rest[2] == bs@[i + 2]);
                assert(rest.skip(3) =~= bs@.skip(i + 3));
            }
            let h = hex_byte_val_exec(bs[i + 1]);
            let l = hex_byte_val_exec(bs[i + 2]);
            match (h, l) {
                (Some(hv), Some(lv)) => {
                    out.push(hv * 16 + lv);
                    step = 3;
                },
                _ => {
                    out.push(b);
                },
            }
        } else {
            out.push(b);
        }
        i = i + step;
    }
    proof {
        assert(bs@.skip(bs@.len() as int) =~= Seq::<u8>::empty());
        assert(out@ =~= spec_pct_decode(bs@));
    }
    utf8_lossy(&out)
}

/// Percent-decodes the text, as `url_decode` does.
pub fn url_entities_decode(text: &str) -> (r: String)
    ensures
        r@ == utf8_lossy_of(spec_pct_decode(encode_utf8(text@))),
        valid_utf8(spec_pct_decode(encode_utf8(text@))) ==> r@ == decode_utf8(
            spec_pct_decode(encode_utf8(text@)),
        ),
{
    url_decode(text)
}

/// Percent-encoding keeps to ASCII characters.
pub proof fn lemma_pct_encode_ascii(bs: Seq<u8>)
    ensures
        vstd::utf8::is_ascii_chars(spec_pct_encode(bs)),
    decreases bs.len(),
{
    if bs.len() > 0 {
        lemma_pct_encode_ascii(bs.drop_first());
    }
}

/// The ASCII bytes of an ASCII character sequence.
pub open spec fn ascii_bytes(s: Seq<char>) -> Seq<u8> {
    Seq::new(s.len(), |i: int| s[i] as u8)
}

/// Percent-decoding inverts percent-encoding on the byte level.
pub proof fn lemma_pct_round_trip(bs: Seq<u8>)
    ensures
        spec_pct_decode(ascii_bytes(spec_pct_encode(bs))) == bs,
    decreases bs.len(),
{
    if bs.len() == 0 {
        assert(ascii_bytes(spec_pct_encode(bs)) =~= Seq::<u8>::empty());
        assert(spec_pct_decode(ascii_bytes(spec_pct_encode(bs))) =~= bs);
    } else {
        let b = bs[0];
        lemma_pct_round_trip(bs.drop_first());
        let e = spec_pct_encode(bs);
        let eb = ascii_bytes(e);
        if is_alnum_byte(b) {
            assert(e =~= seq![b as char] + spec_pct_encode(bs.drop_first()));
            assert(eb[0] == b);
            assert(b != 37);
            assert(eb.drop_first() =~= ascii_bytes(spec_pct_encode(bs.drop_first())));
            assert(spec_pct_decode(eb) =~= seq![b] + spec_pct_decode(eb.drop_first()));
            assert(spec_pct_decode(eb) =~= bs);
        } else {
            assert(e =~= pct_byte(b) + spec_pct_encode(bs.drop_first()));
            assert(eb[0] == '%' as u8);
            assert(eb[0] == 37);
            assert(eb.len() >= 3);
            lemma_digit_char_upper_byte(b as int / 16);
            lemma_digit_char_upper_byte(b as int % 16);
            assert(eb[1] == digit_char_upper(b as int / 16) as u8);
            assert(eb[2] == digit_char_upper(b as int % 16) as u8);
            assert(hex_byte_val(eb[1]) == Some((b / 16) as u8));
            assert(hex_byte_val(eb[2]) == Some((b % 16) as u8));
            assert(((b / 16) * 16 + (b % 16)) as u8 == b);
            assert(eb.skip(3) =~= ascii_bytes(spec_pct_encode(bs.drop_first())));
            assert(spec_pct_decode(eb) =~= seq![b] + spec_pct_decode(eb.skip(3)));
            assert(spec_pct_decode(eb) =~= bs);
        }
    }
}

/// An upper-case hex digit character reads back as a hex byte value.
pub proof fn lemma_digit_char_upper_byte(d: int)
    requires
        0 <= d < 16,
    ensures
        hex_byte_val(digit_char_upper(d) as u8) == Some(d as u8),
{
}

/// Percent-decoding the encoding of a text's UTF-8 bytes gives those bytes
/// back, and they are valid UTF-8: with `url_decode`'s contract, decoding
/// an encoded text returns the text.
pub proof fn lemma_url_round_trip(t: Seq<char>)
    ensures
        spec_pct_decode(encode_utf8(spec_pct_encode(encode_utf8(t)))) == encode_utf8(t),
        decode_utf8(spec_pct_decode(encode_utf8(spec_pct_encode(encode_utf8(t))))) == t,
        valid_utf8(spec_pct_decode(encode_utf8(spec_pct_encode(encode_utf8(t))))),
{
    let bs = encode_utf8(t);
    let e = spec_pct_encode(bs);
    lemma_pct_encode_ascii(bs);
    vstd::utf8::is_ascii_chars_encode_utf8(e);
    assert(encode_utf8(e) =~= ascii_bytes(e));
    lemma_pct_round_trip(bs);
    vstd::utf8::encode_utf8_valid_utf8(t);
    vstd::utf8::encode_utf8_decode_utf8(t);
}

} // verus!

verus! {

// ------------------------------------------------------------------
// Base64
// ------------------------------------------------------------------

/// What the standard base64 engine's `encode` returns for the given bytes.
pub uninterp spec fn b64_of(bs: Seq<u8>) -> Seq<char>;

/// Relies on base64's standard engine `encode`: a function of the bytes
/// alone; empty input encodes to the empty string.
#[verifier::external_body]
fn b64_encode(text: &str) -> (r: String)
    ensures
        r@ == b64_of(encode_utf8(text@)),
        text@.len() == 0 ==> r@.len() == 0,
{
    STANDARD.encode(text)
}

/// Relies on base64's standard engine `decode`: with canonical padding
/// required and trailing bits refused, it accepts exactly the engine's
/// `encode` outputs and inverts them; the empty string decodes to no
/// bytes.
#[verifier::external_body]
fn b64_decode(text: &str) -> (r: Option<Vec<u8>>)
    ensures
        forall|bs: Seq<u8>| text@ == b64_of(bs) ==> r is Some && r->0@ == bs,
        r is Some ==> text@ == b64_of(r->0@),
        text@.len() == 0 ==> r is Some && r->0@.len() == 0,
{
    STANDARD.decode(text).ok()
}

/// A non-empty text has non-empty UTF-8 bytes.
pub proof fn lemma_encode_utf8_nonempty(t: Seq<char>)
    requires
        t.len() > 0,
    ensures
        encode_utf8(t).len() > 0,
{
    assert(encode_utf8(t) == vstd::utf8::encode_scalar(t[0] as u32) + encode_utf8(
        t.drop_first(),
    ));
    assert(vstd::utf8::encode_scalar(t[0] as u32).len() >= 1);
}

/// Base64-encodes the text's UTF-8 bytes with the standard alphabet.
pub fn base64_encode(text: &str) -> (r: String)
    ensures
        r@ == b64_of(encode_utf8(text@)),
        text@.len() == 0 ==> r@.len() == 0,
{
    b64_encode(text)
}

/// Base64-decodes the text; when the text is not an encoding, or encodes
/// nothing, or encodes bytes that are not UTF-8, the text itself is
/// returned. Decoding the encoding of any non-empty text gives that text
/// back; with `base64_encode`'s contract the round trip is the identity.
pub fn base64_decode(text: &str) -> (r: String)
    ensures
        text@.len() == 0 ==> r@ == text@,
        forall|t: Seq<char>| t.len() > 0 && text@ == b64_of(encode_utf8(t)) ==> r@ == t,
        forall|bs: Seq<u8>|
            text@ == b64_of(bs) && bs.len() > 0 && valid_utf8(bs) ==> r@ == decode_utf8(bs),
        (forall|bs: Seq<u8>| text@ != b64_of(bs)) ==> r@ == text@,
        forall|bs: Seq<u8>|
            text@ == b64_of(bs) && (bs.len() == 0 || !valid_utf8(bs)) ==> r@ == text@,
{
    let decoded = b64_decode(text);
    match decoded {
        Some(bytes) => {
            if bytes.len() == 0 {
                let out = crate::strkit::copy_str(text);
                proof {
                    assert forall|t: Seq<char>|
                        t.len() > 0 && text@ == b64_of(encode_utf8(t)) implies out@ == t by {
                        lemma_encode_utf8_nonempty(t);
                    }
                }
                out
            } else {
                let ghost bv = bytes@;
                match crate::conversion::bytes_to_string(bytes) {
                    Some(s) => {
                        proof {
                            assert forall|t: Seq<char>|
                                t.len() > 0 && text@ == b64_of(encode_utf8(t)) implies s@
                                == t by {
                                assert(bv == encode_utf8(t));
                                vstd::utf8::encode_utf8_decode_utf8(t);
                            }
                        }
                        s
                    },
                    None => {
                        let out = crate::strkit::copy_str(text);
                        proof {
                            assert forall|t: Seq<char>|
                                t.len() > 0 && text@ == b64_of(encode_utf8(t)) implies out@
                                == t by {
                                assert(bv == encode_utf8(t));
                                vstd::utf8::encode_utf8_valid_utf8(t);
                            }
                        }
                        out
                    },
                }
            }
        },
        None => {
            let out = crate::strkit::copy_str(text);
            out
        },
    }
}

// ------------------------------------------------------------------
// Digests
// ------------------------------------------------------------------

/// What `md5::compute` returns for the given bytes.
pub uninterp spec fn md5_of(bs: Seq<u8>) -> Seq<u8>;

/// What `sha1::Sha1::digest` returns for the given bytes.
pub uninterp spec fn sha1_of(bs: Seq<u8>) -> Seq<u8>;

/// What `sha2::Sha256::digest` returns for the given bytes.
pub uninterp spec fn sha256_of(bs: Seq<u8>) -> Seq<u8>;

/// What `sha2::Sha512::digest` returns for the given bytes.
pub uninterp spec fn sha512_of(bs: Seq<u8>) -> Seq<u8>;

/// Relies on `md5::compute`: a 16-byte digest of the bytes alone.
#[verifier::external_body]
fn md5_digest(text: &str) -> (r: Vec<u8>)
    ensures
        r@ == md5_of(encode_utf8(text@)),
        r@.len() == 16,
{
    md5::compute(text).0.to_vec()
}

/// Relies on `sha1::Sha1` with the `Digest` trait: a 20-byte digest of the
/// bytes alone.
#[verifier::external_body]
fn sha1_digest(text: &str) -> (r: Vec<u8>)
    ensures
        r@ == sha1_of(encode_utf8(text@)),
        r@.len() == 20,
{
    sha1::Sha1::digest(text).to_vec()
}

/// Relies on `sha2::Sha256` with the `Digest` trait: a 32-byte digest of
/// the bytes alone.
#[verifier::external_body]
fn sha256_digest(text: &str) -> (r: Vec<u8>)
    ensures
        r@ == sha256_of(encode_utf8(text@)),
        r@.len() == 32,
{
    sha2::Sha256::digest(text).to_vec()
}

/// Relies on `sha2::Sha512` with the `Digest` trait: a 64-byte digest of
/// the bytes alone.
#[verifier::external_body]
fn sha512_digest(text: &str) -> (r: Vec<u8>)
    ensures
        r@ == sha512_of(encode_utf8(text@)),
        r@.len() == 64,
{
    sha2::Sha512::digest(text).to_vec()
}

/// The MD5 digest of the text's UTF-8 bytes, in lower-case hex.
pub fn md5(text: &str) -> (r: String)
    ensures
        r@ == crate::numkit::spec_hex_bytes(md5_of(encode_utf8(text@))),
        r@.len() == 32,
{
    let d = md5_digest(text);
    proof {
        crate::numkit::lemma_hex_len_even(d@);
    }
    let out = crate::numkit::hex_bytes(&d);
    chars_to_string(&out)
}

/// The SHA-1 digest of the text's UTF-8 bytes, in lower-case hex.
pub fn sha1(text: &str) -> (r: String)
    ensures
        r@ == crate::numkit::spec_hex_bytes(sha1_of(encode_utf8(text@))),
        r@.len() == 40,
{
    let d = sha1_digest(text);
    proof {
        crate::numkit::lemma_hex_len_even(d@);
    }
    let out = crate::numkit::hex_bytes(&d);
    chars_to_string(&out)
}

/// The SHA-256 digest of the text's UTF-8 bytes, in lower-case hex.
pub fn sha256(text: &str) -> (r: String)
    ensures
        r@ == crate::numkit::spec_hex_bytes(sha256_of(encode_utf8(text@))),
        r@.len() == 64,
{
    let d = sha256_digest(text);
    proof {
        crate::numkit::lemma_hex_len_even(d@);
    }
    let out = crate::numkit::hex_bytes(&d);
    chars_to_string(&out)
}

/// The SHA-512 digest of the text's UTF-8 bytes, in lower-case hex.
pub fn sha512(text: &str) -> (r: String)
    ensures
        r@ == crate::numkit::spec_hex_bytes(sha512_of(encode_utf8(text@))),
        r@.len() == 128,
{
    let d = sha512_digest(text);
    proof {
        crate::numkit::lemma_hex_len_even(d@);
    }
    let out = crate::numkit::hex_bytes(&d);
    chars_to_string(&out)
}

/// Applies the selected encoding operation to the text.
pub fn handle_encoding_operation(text: &str, op: EncodingOp) -> (r: String)
    requires
        !(op is Unknown),
    ensures
        op is Rot13 ==> r@ == spec_rot13(text@),
        op is Base64Encode ==> r@ == b64_of(encode_utf8(text@)),
        op is Base64Decode ==> (forall|t: Seq<char>|
            t.len() > 0 && text@ == b64_of(encode_utf8(t)) ==> r@ == t),
        op is Md5 ==> r@ == crate::numkit::spec_hex_bytes(md5_of(encode_utf8(text@))),
        op is Sha1 ==> r@ == crate::numkit::spec_hex_bytes(sha1_of(encode_utf8(text@))),
        op is Sha256 ==> r@ == crate::numkit::spec_hex_bytes(sha256_of(encode_utf8(text@))),
        op is Sha512 ==> r@ == crate::numkit::spec_hex_bytes(sha512_of(encode_utf8(text@))),
        op is HtmlEncode ==> r@ == spec_html_encode(text@),
        op is HtmlDecode ==> r@ == spec_html_decode(text@),
        op is HtmlEncodeAll ==> r@ == spec_html_encode_all(text@),
        op is UrlEncode ==> r@ == spec_pct_encode(encode_utf8(text@)),
        op is UrlDecode ==> r@ == utf8_lossy_of(spec_pct_decode(encode_utf8(text@))),
        op is UrlEntityEncode ==> r@ == spec_pct_encode_all(encode_utf8(text@)),
        op is UrlEntitiesDecode ==> r@ == utf8_lossy_of(spec_pct_decode(encode_utf8(text@))),
{
    match op {
        EncodingOp::Rot13 => rot13(text),
        EncodingOp::Base64Encode => base64_encode(text),
        EncodingOp::Base64Decode => base64_decode(text),
        EncodingOp::Md5 => md5(text),
        EncodingOp::Sha1 => sha1(text),
        EncodingOp::Sha256 => sha256(text),
        EncodingOp::Sha512 => sha512(text),
        EncodingOp::HtmlEncode => html_encode(text),
        EncodingOp::HtmlDecode => html_decode(text),
        EncodingOp::HtmlEncodeAll => html_encode_all(text),
        EncodingOp::UrlEncode => url_encode(text),
        EncodingOp::UrlDecode => url_decode(text),
        EncodingOp::UrlEntityEncode => url_entity_encode(text),
        EncodingOp::UrlEntitiesDecode => url_entities_decode(text),
        EncodingOp::Unknown => vstd::pervasive::unreached(),
    }
}

} // verus!
