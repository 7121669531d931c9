//! Conversions between representations: hex and ASCII, binary, decimal and
//! hexadecimal numbers, RGB triples and shell hex escapes. The verified
//! functions state exactly which inputs convert and to what.
use vstd::prelude::*;

use vstd::utf8::{decode_utf8, encode_utf8, valid_utf8};

use crate::numkit::{
    spec_hex_byte, spec_hex_bytes, spec_hex_decode, spec_int_dec, spec_parse_i32, spec_parse_u32,
    spec_radix_nat, hex_bytes, hex_decode_chars, int_dec_chars, parse_i32_radix, parse_u32_radix,
    radix_chars_u64,
};
use crate::strkit::{append_chars, chars_to_string, lower_of, lower_str, spec_replace, str_eq, str_to_chars};
use crate::OpError;
use vstd::string::{StrSliceExecFns, StringExecFns};

verus! {

/// The conversion operations.
#[derive(Clone, Copy, Debug, PartialEq, Eq, Structural)]
pub enum ConversionOp {
    AsciiToHex,
    HexToAscii,
    YamlToJson,
    JsonToYaml,
    DateToTimestamp,
    DateToUtc,
    BinaryToDecimal,
    DecimalToBinary,
    JsonToQueryString,
    QueryStringToJson,
    DecimalToHex,
    HexToDecimal,
    JsonToCsv,
    CsvToJson,
    HexToRgb,
    FishPathHexConv,
    Unknown,
}

/// The operation a token selects, matched against the token as written.
pub open spec fn spec_conversion_op(s: Seq<char>) -> ConversionOp {
    if s == "ascii_to_hex"@ {
        ConversionOp::AsciiToHex
    } else if s == "hex_to_ascii"@ {
        ConversionOp::HexToAscii
    } else if s == "yaml_to_json"@ {
        ConversionOp::YamlToJson
    } else if s == "json_to_yaml"@ {
        ConversionOp::JsonToYaml
    } else if s == "date_to_timestamp"@ {
        ConversionOp::DateToTimestamp
    } else if s == "date_to_utc"@ {
        ConversionOp::DateToUtc
    } else if s == "binary_to_decimal"@ {
        ConversionOp::BinaryToDecimal
    } else if s == "decimal_to_binary"@ {
        ConversionOp::DecimalToBinary
    } else if s == "json_to_query_string"@ {
        ConversionOp::JsonToQueryString
    } else if s == "query_string_to_json"@ {
        ConversionOp::QueryStringToJson
    } else if s == "decimal_to_hex"@ {
        ConversionOp::DecimalToHex
    } else if s == "hex_to_decimal"@ {
        ConversionOp::HexToDecimal
    } else if s == "json_to_csv"@ {
        ConversionOp::JsonToCsv
    } else if s == "csv_to_json"@ {
        ConversionOp::CsvToJson
    } else if s == "hex_to_rgb"@ {
        ConversionOp::HexToRgb
    } else if s == "fish_path_hex_conv"@ {
        ConversionOp::FishPathHexConv
    } else {
        ConversionOp::Unknown
    }
}

/// Maps a token, as written, to its conversion operation.
pub fn str_to_conversion_op(arg: &str) -> (r: ConversionOp)
    ensures
        r == spec_conversion_op(arg@),
{
    if str_eq(arg, "ascii_to_hex") {
        ConversionOp::AsciiToHex
    } else if str_eq(arg, "hex_to_ascii") {
        ConversionOp::HexToAscii
    } else if str_eq(arg, "yaml_to_json") {
        ConversionOp::YamlToJson
    } else if str_eq(arg, "json_to_yaml") {
        ConversionOp::JsonToYaml
    } else if str_eq(arg, "date_to_timestamp") {
        ConversionOp::DateToTimestamp
    } else if str_eq(arg, "date_to_utc") {
        ConversionOp::DateToUtc
    } else if str_eq(arg, "binary_to_decimal") {
        ConversionOp::BinaryToDecimal
    } else if str_eq(arg, "decimal_to_binary") {
        ConversionOp::DecimalToBinary
    } else if str_eq(arg, "json_to_query_string") {
        ConversionOp::JsonToQueryString
    } else if str_eq(arg, "query_string_to_json") {
        ConversionOp::QueryStringToJson
    } else if str_eq(arg, "decimal_to_hex") {
        ConversionOp::DecimalToHex
    } else if str_eq(arg, "hex_to_decimal") {
        ConversionOp::HexToDecimal
    } else if str_eq(arg, "json_to_csv") {
        ConversionOp::JsonToCsv
    } else if str_eq(arg, "csv_to_json") {
        ConversionOp::CsvToJson
    } else if str_eq(arg, "hex_to_rgb") {
        ConversionOp::HexToRgb
    } else if str_eq(arg, "fish_path_hex_conv") {
        ConversionOp::FishPathHexConv
    } else {
        ConversionOp::Unknown
    }
}

/// The operation of the first token whose lowered form is a conversion
/// keyword, resolved against the token as written.
pub open spec fn spec_select_conversion(args: Seq<Seq<char>>) -> ConversionOp
    decreases args.len(),
{
    if args.len() == 0 {
        ConversionOp::Unknown
    } else if crate::utils::conversion_family_kw(lower_of(args[0])) {
        spec_conversion_op(args[0])
    } else {
        spec_select_conversion(args.drop_first())
    }
}

/// Scans the arguments for the first conversion keyword.
pub fn select_conversion_option(args: &Vec<String>) -> (r: ConversionOp)
    ensures
        r == spec_select_conversion(crate::utils::str_views(args@)),
{
    let ghost av = crate::utils::str_views(args@);
    let mut i: usize = 0;
    proof {
        assert(av.skip(0) =~= av);
    }
    while i < args.len()
        invariant
            av == crate::utils::str_views(args@),
            i <= args@.len(),
            spec_select_conversion(av) == spec_select_conversion(av.skip(i as int)),
        decreases args@.len() - i,
    {
        let low = lower_str(args[i].as_str());
        proof {
            assert(av.skip(i as int)[0] == av[i as int]);
            assert(av.skip(i as int).drop_first() =~= av.skip(i + 1));
        }
        if crate::utils::is_conversion_family_kw(low.as_str()) {
            return str_to_conversion_op(args[i].as_str());
        }
        i = i + 1;
    }
    proof {
        assert(av.skip(args@.len() as int) =~= Seq::<Seq<char>>::empty());
    }
    ConversionOp::Unknown
}

// ------------------------------------------------------------------
// Hex and ASCII
// ------------------------------------------------------------------

/// Relies on `String::from_utf8`: it succeeds exactly on valid UTF-8 and
/// decodes it.
#[verifier::external_body]
pub(crate) fn bytes_to_string(b: Vec<u8>) -> (r: Option<String>)
    ensures
        r is Some <==> valid_utf8(b@),
        r is Some ==> r->0@ == decode_utf8(b@),
{
    String::from_utf8(b).ok()
}

/// The text's UTF-8 bytes in lower-case hex.
pub fn ascii_to_hex(text: &str) -> (r: String)
    ensures
        r@ == spec_hex_bytes(encode_utf8(text@)),
{
    let bs = text.as_bytes_vec();
    let out = hex_bytes(&bs);
    chars_to_string(&out)
}

/// Decodes a hex digit string to bytes and reads them as UTF-8. Fails on
/// odd length or an invalid digit, and on bytes that are not UTF-8.
pub fn hex_to_ascii(text: &str) -> (r: Result<String, OpError>)
    ensures
        r is Ok <==> (spec_hex_decode(text@) is Some && valid_utf8(spec_hex_decode(text@)->0)),
        r is Ok ==> r->Ok_0@ == decode_utf8(spec_hex_decode(text@)->0),
        spec_hex_decode(text@) is None ==> r == Result::<String, OpError>::Err(OpError::InvalidHex),
        spec_hex_decode(text@) is Some && !valid_utf8(spec_hex_decode(text@)->0) ==> r
            == Result::<String, OpError>::Err(OpError::HexNotUtf8),
{
    let cs = str_to_chars(text);
    match hex_decode_chars(&cs) {
        Some(bytes) => match bytes_to_string(bytes) {
            Some(s) => Ok(s),
            None => Err(OpError::HexNotUtf8),
        },
        None => Err(OpError::InvalidHex),
    }
}

// ------------------------------------------------------------------
// Number bases
// ------------------------------------------------------------------

/// The two's-complement 32-bit pattern of a value in `i32` range.
pub open spec fn twos32(v: int) -> int
    recommends
        -2147483648 <= v <= 2147483647,
{
    if v < 0 {
        v + 4294967296
    } else {
        v
    }
}

/// Parses a binary number (as `i32::from_str_radix(_, 2)`) and renders it
/// in decimal.
pub fn binary_to_decimal(text: &str) -> (r: Result<String, OpError>)
    ensures
        r is Ok <==> spec_parse_i32(text@, 2) is Some,
        r is Ok ==> r->Ok_0@ == spec_int_dec(spec_parse_i32(text@, 2)->0),
        r is Err ==> r == Result::<String, OpError>::Err(OpError::NotBinary),
{
    let cs = str_to_chars(text);
    match parse_i32_radix(&cs, 2) {
        Some(v) => {
            let out = int_dec_chars(v as i64);
            Ok(chars_to_string(&out))
        },
        None => Err(OpError::NotBinary),
    }
}

/// Parses a decimal number (as `str::parse::<i32>`) and renders its 32-bit
/// pattern in binary, as `{:b}` does.
pub fn decimal_to_binary(text: &str) -> (r: Result<String, OpError>)
    ensures
        r is Ok <==> spec_parse_i32(text@, 10) is Some,
        r is Ok ==> r->Ok_0@ == spec_radix_nat(twos32(spec_parse_i32(text@, 10)->0) as nat, 2),
        r is Err ==> r == Result::<String, OpError>::Err(OpError::NotDecimal),
{
    let cs = str_to_chars(text);
    match parse_i32_radix(&cs, 10) {
        Some(v) => {
            let bits: u32 = v as u32;
            proof {
                assert(bits as int == twos32(v as int)) by (bit_vector)
                    requires
                        bits == v as u32,
                        twos32(v as int) == (if v < 0 {
                            v as int + 4294967296
                        } else {
                            v as int
                        }),
                ;
            }
            let out = radix_chars_u64(bits as u64, 2);
            Ok(chars_to_string(&out))
        },
        None => Err(OpError::NotDecimal),
    }
}

/// Parses a decimal number and renders its 32-bit pattern in lower-case
/// hex, as `{:x}` does.
pub fn decimal_to_hex(text: &str) -> (r: Result<String, OpError>)
    ensures
        r is Ok <==> spec_parse_i32(text@, 10) is Some,
        r is Ok ==> r->Ok_0@ == spec_radix_nat(twos32(spec_parse_i32(text@, 10)->0) as nat, 16),
        r is Err ==> r == Result::<String, OpError>::Err(OpError::NotDecimal),
{
    let cs = str_to_chars(text);
    match parse_i32_radix(&cs, 10) {
        Some(v) => {
            let bits: u32 = v as u32;
            proof {
                assert(bits as int == twos32(v as int)) by (bit_vector)
                    requires
                        bits == v as u32,
                        twos32(v as int) == (if v < 0 {
                            v as int + 4294967296
                        } else {
                            v as int
                        }),
                ;
            }
            let out = radix_chars_u64(bits as u64, 16);
            Ok(chars_to_string(&out))
        },
        None => Err(OpError::NotDecimal),
    }
}

/// Parses a hex number (as `u32::from_str_radix(_, 16)`) and renders it in
/// decimal.
pub fn hex_to_decimal(text: &str) -> (r: Result<String, OpError>)
    ensures
        r is Ok <==> spec_parse_u32(text@, 16) is Some,
        r is Ok ==> r->Ok_0@ == spec_radix_nat(spec_parse_u32(text@, 16)->0, 10),
        r is Err ==> r == Result::<String, OpError>::Err(OpError::NotHexNumber),
{
    let cs = str_to_chars(text);
    match parse_u32_radix(&cs, 16) {
        Some(v) => {
            let out = radix_chars_u64(v as u64, 10);
            Ok(chars_to_string(&out))
        },
        None => Err(OpError::NotHexNumber),
    }
}

// ------------------------------------------------------------------
// RGB triples and shell hex escapes
// ------------------------------------------------------------------

/// The text with every leading `#` removed.
pub open spec fn spec_strip_hash(s: Seq<char>) -> Seq<char>
    decreases s.len(),
{
    if s.len() > 0 && s[0] == '#' {
        spec_strip_hash(s.drop_first())
    } else {
        s
    }
}

/// The RGB rendering of the first six hex digits after leading hashes:
/// `(r, g, b)` in decimal.
pub open spec fn spec_rgb_of(bytes: Seq<u8>) -> Seq<char>
    recommends
        bytes.len() == 3,
{
    seq!['('] + spec_radix_nat(bytes[0] as nat, 10) + seq![',', ' '] + spec_radix_nat(
        bytes[1] as nat,
        10,
    ) + seq![',', ' '] + spec_radix_nat(bytes[2] as nat, 10) + seq![')']
}

/// Decodes the first six hex digits (after leading hashes) as an RGB
/// triple. Fails when fewer than six characters remain or they are not hex.
pub fn hex_to_rgb(text: &str) -> (r: Result<String, OpError>)
    ensures
        r is Ok <==> (spec_strip_hash(text@).len() >= 6 && spec_hex_decode(
            spec_strip_hash(text@).take(6),
        ) is Some),
        r is Ok ==> r->Ok_0@ == spec_rgb_of(spec_hex_decode(spec_strip_hash(text@).take(6))->0),
        spec_strip_hash(text@).len() < 6 ==> r == Result::<String, OpError>::Err(
            OpError::RgbTooShort,
        ),
        spec_strip_hash(text@).len() >= 6 && spec_hex_decode(spec_strip_hash(text@).take(6))
            is None ==> r == Result::<String, OpError>::Err(OpError::RgbInvalidHex),
{
    let cs = str_to_chars(text);
    let mut a: usize = 0;
    proof {
        assert(cs@.skip(0) =~= cs@);
    }
    while a < cs.len() && cs[a] == '#'
        invariant
            a <= cs@.len(),
            cs@ == text@,
            spec_strip_hash(cs@) == spec_strip_hash(cs@.skip(a as int)),
        decreases cs@.len() - a,
    {
        proof {
            assert(cs@.skip(a as int).drop_first() =~= cs@.skip(a + 1));
        }
        a = a + 1;
    }
    let ghost clean = cs@.skip(a as int);
    proof {
        assert(spec_strip_hash(cs@) == clean);
    }
    if cs.len() - a < 6 {
        return Err(OpError::RgbTooShort);
    }
    let n = cs.len();
    let mut first6: Vec<char> = Vec::new();
    let mut k: usize = 0;
    while k < 6
        invariant
            n == cs@.len(),
            a + 6 <= cs@.len(),
            k <= 6,
            cs@ == text@,
            clean == cs@.skip(a as int),
            first6@ =~= clean.take(6).take(k as int),
        decreases 6 - k,
    {
        first6.push(cs[a + k]);
        proof {
            assert(clean.take(6).take(k + 1) =~= clean.take(6).take(k as int).push(
                cs@[a + k],
            ));
        }
        k = k + 1;
    }
    proof {
        assert(first6@ =~= clean.take(6));
    }
    match hex_decode_chars(&first6) {
        Some(bytes) => {
            proof {
                crate::numkit::lemma_hex_decode_len(first6@);
            }
            let mut out: Vec<char> = Vec::new();
            out.push('(');
            let d0 = radix_chars_u64(bytes[0] as u64, 10);
            append_chars(&mut out, &d0);
            out.push(',');
            out.push(' ');
            let d1 = radix_chars_u64(bytes[1] as u64, 10);
            append_chars(&mut out, &d1);
            out.push(',');
            out.push(' ');
            let d2 = radix_chars_u64(bytes[2] as u64, 10);
            append_chars(&mut out, &d2);
            out.push(')');
            proof {
                assert(out@ =~= spec_rgb_of(spec_hex_decode(clean.take(6))->0));
            }
            Ok(chars_to_string(&out))
        },
        None => Err(OpError::RgbInvalidHex),
    }
}

/// Every UTF-8 byte as a `\xHH` escape, lower-case hex.
pub open spec fn spec_fish_hex(bs: Seq<u8>) -> Seq<char>
    decreases bs.len(),
{
    if bs.len() == 0 {
        Seq::empty()
    } else {
        seq!['\\', 'x'] + spec_hex_byte(bs[0]) + spec_fish_hex(bs.drop_first())
    }
}

/// Renders every UTF-8 byte of the text as a `\xHH` escape.
pub fn fish_path_hex_conv(text: &str) -> (r: String)
    ensures
        r@ == spec_fish_hex(encode_utf8(text@)),
{
    let bs = text.as_bytes_vec();
    let mut out: Vec<char> = Vec::new();
    let mut i: usize = 0;
    proof {
        assert(bs@.skip(0) =~= bs@);
        assert(out@ + spec_fish_hex(bs@) =~= spec_fish_hex(bs@));
    }
    while i < bs.len()
        invariant
            i <= bs@.len(),
            bs@ == encode_utf8(text@),
            spec_fish_hex(bs@) =~= out@ + spec_fish_hex(bs@.skip(i as int)),
        decreases bs@.len() - i,
    {
        let ghost rest = bs@.skip(i as int);
        let ghost out0 = out@;
        let b = bs[i];
        proof {
            assert(rest[0] == b);
            assert(rest.drop_first() =~= bs@.skip(i + 1));
        }
        out.push('\\');
        out.push('x');
        crate::numkit::push_hex_byte(b, &mut out);
        proof {
            assert(out@ =~= out0 + (seq!['\\', 'x'] + spec_hex_byte(b)));
        }
        i = i + 1;
    }
    proof {
        assert(bs@.skip(bs@.len() as int) =~= Seq::<u8>::empty());
        assert(out@ =~= spec_fish_hex(bs@));
    }
    chars_to_string(&out)
}

} // verus!

verus! {

// ------------------------------------------------------------------
// Delegated conversions: YAML, JSON, query strings and dates
// ------------------------------------------------------------------

/// The outcome of a two-stage conversion: the converted text, or the
/// message of the stage that failed.
pub enum ConvertOutcome {
    Done(String),
    ParseFailed(String),
    PrintFailed(String),
}

/// The pretty JSON of the text's YAML value, or nothing when it has none.
pub uninterp spec fn yaml_json_of(s: Seq<char>) -> Option<Seq<char>>;

/// The YAML of the text's JSON value, or nothing when it has none.
pub uninterp spec fn json_yaml_of(s: Seq<char>) -> Option<Seq<char>>;

/// The query string of the text's JSON object, or nothing when the text is
/// not an object of encodable values.
pub uninterp spec fn json_qs_of(s: Seq<char>) -> Option<Seq<char>>;

/// The pretty JSON of the text read as a query string, or nothing when it
/// does not parse.
pub uninterp spec fn qs_json_of(s: Seq<char>) -> Option<Seq<char>>;

/// Relies on `serde_yaml::from_str::<serde_json::Value>` and
/// `serde_json::to_string_pretty`: a function of the text alone; it
/// converts exactly when both stages succeed.
#[verifier::external_body]
fn yaml_to_json_call(text: &str) -> (r: ConvertOutcome)
    ensures
        r is Done <==> yaml_json_of(text@) is Some,
        r is Done ==> r->Done_0@ == yaml_json_of(text@)->0,
{
    match serde_yaml::from_str::<serde_json::Value>(text) {
        Ok(value) => match serde_json::to_string_pretty(&value) {
            Ok(json) => ConvertOutcome::Done(json),
            Err(e) => ConvertOutcome::PrintFailed(e.to_string()),
        },
        Err(e) => ConvertOutcome::ParseFailed(e.to_string()),
    }
}

/// Relies on `serde_json::from_str::<serde_json::Value>` and
/// `serde_yaml::to_string`: a function of the text alone.
#[verifier::external_body]
fn json_to_yaml_call(text: &str) -> (r: ConvertOutcome)
    ensures
        r is Done <==> json_yaml_of(text@) is Some,
        r is Done ==> r->Done_0@ == json_yaml_of(text@)->0,
{
    match serde_json::from_str::<serde_json::Value>(text) {
        Ok(value) => match serde_yaml::to_string(&value) {
            Ok(yaml) => ConvertOutcome::Done(yaml),
            Err(e) => ConvertOutcome::PrintFailed(e.to_string()),
        },
        Err(e) => ConvertOutcome::ParseFailed(e.to_string()),
    }
}

/// Relies on `serde_json::from_str::<serde_json::Map>` and
/// `serde_urlencoded::to_string`: a function of the text alone.
#[verifier::external_body]
fn json_to_qs_call(text: &str) -> (r: ConvertOutcome)
    ensures
        r is Done <==> json_qs_of(text@) is Some,
        r is Done ==> r->Done_0@ == json_qs_of(text@)->0,
{
    let obj: serde_json::Map<String, serde_json::Value> = match serde_json::from_str(text) {
        Ok(val) => val,
        Err(e) => return ConvertOutcome::ParseFailed(e.to_string()),
    };
    match serde_urlencoded::to_string(obj) {
        Ok(s) => ConvertOutcome::Done(s),
        Err(e) => ConvertOutcome::PrintFailed(e.to_string()),
    }
}

/// Relies on `serde_urlencoded::from_str::<serde_json::Value>` and
/// `serde_json::to_string_pretty`: a function of the text alone.
#[verifier::external_body]
fn qs_to_json_call(text: &str) -> (r: ConvertOutcome)
    ensures
        r is Done <==> qs_json_of(text@) is Some,
        r is Done ==> r->Done_0@ == qs_json_of(text@)->0,
{
    match serde_urlencoded::from_str::<serde_json::Value>(text) {
        Ok(val) => match serde_json::to_string_pretty(&val) {
            Ok(s) => ConvertOutcome::Done(s),
            Err(e) => ConvertOutcome::PrintFailed(e.to_string()),
        },
        Err(e) => ConvertOutcome::ParseFailed(e.to_string()),
    }
}

/// A prefix joined with a failure message.
fn prefixed(prefix: &str, m: String) -> (r: String)
    ensures
        r@ == prefix@ + m@,
{
    let mut out = crate::strkit::copy_str(prefix);
    out.append(m.as_str());
    out
}

/// Converts YAML to pretty JSON; a failed stage reports itself in the
/// returned text.
pub fn yaml_to_json(text: &str) -> (r: String)
    ensures
        yaml_json_of(text@) is Some ==> r@ == yaml_json_of(text@)->0,
        yaml_json_of(text@) is None ==> exists|m: Seq<char>|
            r@ == "Failed to parse YAML: "@ + m || r@ == "Failed to convert to JSON: "@ + m,
{
    match yaml_to_json_call(text) {
        ConvertOutcome::Done(s) => s,
        ConvertOutcome::ParseFailed(m) => {
            let ghost mv = m@;
            let out = prefixed("Failed to parse YAML: ", m);
            proof {
                assert(out@ == "Failed to parse YAML: "@ + mv);
            }
            out
        },
        ConvertOutcome::PrintFailed(m) => {
            let ghost mv = m@;
            let out = prefixed("Failed to convert to JSON: ", m);
            proof {
                assert(out@ == "Failed to convert to JSON: "@ + mv);
            }
            out
        },
    }
}

/// Converts JSON to YAML; a failed stage reports itself in the returned
/// text.
pub fn json_to_yaml(text: &str) -> (r: String)
    ensures
        json_yaml_of(text@) is Some ==> r@ == json_yaml_of(text@)->0,
        json_yaml_of(text@) is None ==> exists|m: Seq<char>|
            r@ == "Failed to parse JSON: "@ + m || r@ == "Failed to convert to YAML: "@ + m,
{
    match json_to_yaml_call(text) {
        ConvertOutcome::Done(s) => s,
        ConvertOutcome::ParseFailed(m) => {
            let ghost mv = m@;
            let out = prefixed("Failed to parse JSON: ", m);
            proof {
                assert(out@ == "Failed to parse JSON: "@ + mv);
            }
            out
        },
        ConvertOutcome::PrintFailed(m) => {
            let ghost mv = m@;
            let out = prefixed("Failed to convert to YAML: ", m);
            proof {
                assert(out@ == "Failed to convert to YAML: "@ + mv);
            }
            out
        },
    }
}

/// Converts a JSON object to a query string; a failed stage reports itself
/// in the returned text.
pub fn json_to_query_string(text: &str) -> (r: String)
    ensures
        json_qs_of(text@) is Some ==> r@ == json_qs_of(text@)->0,
        json_qs_of(text@) is None ==> exists|m: Seq<char>|
            r@ == "Invalid JSON: "@ + m || r@ == "Error encoding query string: "@ + m,
{
    match json_to_qs_call(text) {
        ConvertOutcome::Done(s) => s,
        ConvertOutcome::ParseFailed(m) => {
            let ghost mv = m@;
            let out = prefixed("Invalid JSON: ", m);
            proof {
                assert(out@ == "Invalid JSON: "@ + mv);
            }
            out
        },
        ConvertOutcome::PrintFailed(m) => {
            let ghost mv = m@;
            let out = prefixed("Error encoding query string: ", m);
            proof {
                assert(out@ == "Error encoding query string: "@ + mv);
            }
            out
        },
    }
}

/// Converts a query string to pretty JSON; a failure reports itself in the
/// returned text.
pub fn query_string_to_json(text: &str) -> (r: String)
    ensures
        qs_json_of(text@) is Some ==> r@ == qs_json_of(text@)->0,
        qs_json_of(text@) is None ==> exists|m: Seq<char>|
            r@ == "Failed to parse query string: "@ + m,
{
    match qs_to_json_call(text) {
        ConvertOutcome::Done(s) => s,
        ConvertOutcome::ParseFailed(m) => {
            let ghost mv = m@;
            let out = prefixed("Failed to parse query string: ", m);
            proof {
                assert(out@ == "Failed to parse query string: "@ + mv);
            }
            out
        },
        ConvertOutcome::PrintFailed(m) => {
            let ghost mv = m@;
            let out = prefixed("Failed to parse query string: ", m);
            proof {
                assert(out@ == "Failed to parse query string: "@ + mv);
            }
            out
        },
    }
}

/// The Unix second count of an RFC 3339 date, or nothing when the text is
/// not one.
pub uninterp spec fn rfc3339_ts_of(s: Seq<char>) -> Option<int>;

/// The RFC 3339 rendering in UTC of an RFC 3339 date, or nothing when the
/// text is not one.
pub uninterp spec fn rfc3339_utc_of(s: Seq<char>) -> Option<Seq<char>>;

/// Relies on `chrono::DateTime::parse_from_rfc3339` and `timestamp`: the
/// Unix second count, a function of the text alone.
#[verifier::external_body]
fn rfc3339_timestamp(text: &str) -> (r: Result<i64, String>)
    ensures
        r is Ok <==> rfc3339_ts_of(text@) is Some,
        r is Ok ==> r->Ok_0 as int == rfc3339_ts_of(text@)->0,
{
    match chrono::DateTime::parse_from_rfc3339(text) {
        Ok(dt) => Ok(dt.timestamp()),
        Err(e) => Err(e.to_string()),
    }
}

/// Relies on `chrono::DateTime::parse_from_rfc3339`, `with_timezone` and
/// `to_rfc3339`: the date rendered in UTC, a function of the text alone.
#[verifier::external_body]
fn rfc3339_to_utc(text: &str) -> (r: Result<String, String>)
    ensures
        r is Ok <==> rfc3339_utc_of(text@) is Some,
        r is Ok ==> r->Ok_0@ == rfc3339_utc_of(text@)->0,
{
    match chrono::DateTime::parse_from_rfc3339(text) {
        Ok(dt) => Ok(dt.with_timezone(&chrono::Utc).to_rfc3339()),
        Err(e) => Err(e.to_string()),
    }
}

/// The Unix timestamp of an RFC 3339 date, in decimal; a parse failure
/// reports itself in the returned text.
pub fn date_to_timestamp(text: &str) -> (r: String)
    ensures
        rfc3339_ts_of(text@) is Some ==> r@ == spec_int_dec(rfc3339_ts_of(text@)->0),
        rfc3339_ts_of(text@) is None ==> exists|m: Seq<char>|
            r@ == "Failed to parse date: "@ + m,
{
    match rfc3339_timestamp(text) {
        Ok(ts) => {
            let out = int_dec_chars(ts);
            chars_to_string(&out)
        },
        Err(m) => {
            let ghost mv = m@;
            let out = prefixed("Failed to parse date: ", m);
            proof {
                assert(out@ == "Failed to parse date: "@ + mv);
            }
            out
        },
    }
}

/// An RFC 3339 date rendered in UTC; a parse failure reports itself in the
/// returned text.
pub fn date_to_utc(text: &str) -> (r: String)
    ensures
        rfc3339_utc_of(text@) is Some ==> r@ == rfc3339_utc_of(text@)->0,
        rfc3339_utc_of(text@) is None ==> exists|m: Seq<char>|
            r@ == "Failed to parse date: "@ + m,
{
    match rfc3339_to_utc(text) {
        Ok(s) => s,
        Err(m) => {
            let ghost mv = m@;
            let out = prefixed("Failed to parse date: ", m);
            proof {
                assert(out@ == "Failed to parse date: "@ + mv);
            }
            out
        },
    }
}

} // verus!

verus! {

// ------------------------------------------------------------------
// JSON to CSV
// ------------------------------------------------------------------

/// A JSON array of objects read as flat records — each object's keys with
/// its values rendered as compact JSON — or how the text refused to be
/// that, at the spec level.
pub enum JsonRecords {
    Records(Seq<Seq<(Seq<char>, Seq<char>)>>),
    NotArray,
    NotObject,
    Bad(Seq<char>),
}

/// The same outcome as the parser hands it back.
pub enum JsonRecordsData {
    Records(Vec<Vec<(String, String)>>),
    NotArray,
    NotObject,
    Bad(String),
}

/// What reading the text as a JSON array of objects yields: a function of
/// the text alone (the default map keeps object keys sorted).
pub uninterp spec fn json_records_of(s: Seq<char>) -> JsonRecords;

/// Relies on `serde_json::from_str::<Value>`, `Value::as_array`,
/// `Value::as_object` and `Value::to_string`: the array's objects as
/// key/rendered-value records, or the first stage that refused the text.
#[verifier::external_body]
fn json_records(text: &str) -> (r: JsonRecordsData)
    ensures
        match json_records_of(text@) {
            JsonRecords::Records(rv) => r is Records && recs_views(r->Records_0@) == rv,
            JsonRecords::NotArray => r is NotArray,
            JsonRecords::NotObject => r is NotObject,
            JsonRecords::Bad(m) => r is Bad && r->Bad_0@ == m,
        },
{
    let v: serde_json::Value = match serde_json::from_str(text) {
        Ok(v) => v,
        Err(e) => return JsonRecordsData::Bad(e.to_string()),
    };
    let arr = match v.as_array() {
        Some(a) => a,
        None => return JsonRecordsData::NotArray,
    };
    let recs: Option<Vec<Vec<(String, String)>>> = arr.iter().map(
        |rec| rec.as_object().map(|m| m.iter().map(|(k, w)| (k.clone(), w.to_string())).collect()),
    ).collect();
    match recs {
        Some(out) => JsonRecordsData::Records(out),
        None => JsonRecordsData::NotObject,
    }
}

/// The views of a record's key/value string pairs.
pub open spec fn rec_views(ps: Seq<(String, String)>) -> Seq<(Seq<char>, Seq<char>)> {
    Seq::new(ps.len(), |i: int| (ps[i].0@, ps[i].1@))
}

/// The views of a sequence of records.
pub open spec fn recs_views(rs: Seq<Vec<(String, String)>>) -> Seq<Seq<(Seq<char>, Seq<char>)>> {
    Seq::new(rs.len(), |i: int| rec_views(rs[i]@))
}

/// The keys of one record, in order.
pub open spec fn spec_keys_of(rec: Seq<(Seq<char>, Seq<char>)>) -> Seq<Seq<char>> {
    rec.map_values(|p: (Seq<char>, Seq<char>)| p.0)
}

/// All records' keys, record by record.
pub open spec fn spec_all_keys(recs: Seq<Seq<(Seq<char>, Seq<char>)>>) -> Seq<Seq<char>>
    decreases recs.len(),
{
    if recs.len() == 0 {
        Seq::empty()
    } else {
        spec_all_keys(recs.drop_last()) + spec_keys_of(recs.last())
    }
}

/// The header: the distinct keys of all records, sorted.
pub open spec fn spec_header(recs: Seq<Seq<(Seq<char>, Seq<char>)>>) -> Seq<Seq<char>> {
    crate::strkit::spec_sort(crate::strkit::spec_unique(spec_all_keys(recs)))
}

/// The first value stored under the key; empty when the key is absent.
pub open spec fn spec_assoc(rec: Seq<(Seq<char>, Seq<char>)>, k: Seq<char>) -> Seq<char>
    decreases rec.len(),
{
    if rec.len() == 0 {
        Seq::empty()
    } else if rec[0].0 == k {
        rec[0].1
    } else {
        spec_assoc(rec.drop_first(), k)
    }
}

/// One record's row under the header.
pub open spec fn spec_row(rec: Seq<(Seq<char>, Seq<char>)>, header: Seq<Seq<char>>) -> Seq<
    Seq<char>,
> {
    header.map_values(|k: Seq<char>| spec_assoc(rec, k))
}

/// A CSV field, quoted exactly when it holds a quote, comma, newline or
/// carriage return, with quotes doubled, as the CSV writer's default
/// quoting works (the writer also quotes carriage returns because the
/// reader treats them as record ends).
pub open spec fn spec_csv_field(f: Seq<char>) -> Seq<char> {
    if f.contains('"') || f.contains(',') || f.contains('\n') || f.contains('\r') {
        seq!['"'] + spec_replace(f, seq!['"'], seq!['"', '"']) + seq!['"']
    } else {
        f
    }
}

/// A CSV record line: the quoted fields joined by commas and terminated by
/// a newline; a record with no bytes is written as one quoted empty field.
pub open spec fn spec_csv_row(fields: Seq<Seq<char>>) -> Seq<char> {
    let body = crate::strkit::spec_join(
        fields.map_values(|f: Seq<char>| spec_csv_field(f)),
        seq![','],
    );
    if body.len() == 0 {
        seq!['"', '"', '\n']
    } else {
        body + seq!['\n']
    }
}

/// Relies on csv's `Writer::write_record` with the default configuration:
/// the record's CSV line, quoting exactly where needed. Writing one record
/// to a fresh in-memory writer cannot fail: no earlier record constrains
/// the field count, flushing into a vector cannot err, and the output of
/// UTF-8 fields joined by ASCII punctuation stays UTF-8.
#[verifier::external_body]
fn csv_format_row(fields: &Vec<String>) -> (r: String)
    ensures
        r@ == spec_csv_row(crate::utils::str_views(fields@)),
{
    let mut w = csv::Writer::from_writer(Vec::new());
    let _ = w.write_record(fields);
    match w.into_inner() {
        Ok(buf) => String::from_utf8(buf).unwrap_or_default(),
        Err(_) => String::new(),
    }
}

/// The CSV rows of the records under the header, one line per record.
pub open spec fn spec_rows_csv(
    recs: Seq<Seq<(Seq<char>, Seq<char>)>>,
    header: Seq<Seq<char>>,
) -> Seq<char>
    decreases recs.len(),
{
    if recs.len() == 0 {
        Seq::empty()
    } else {
        spec_csv_row(spec_row(recs[0], header)) + spec_rows_csv(recs.drop_first(), header)
    }
}

/// The whole CSV: the sorted unioned header line, then one row per record,
/// missing fields rendered empty.
pub open spec fn spec_records_csv(recs: Seq<Seq<(Seq<char>, Seq<char>)>>) -> Seq<char> {
    spec_csv_row(spec_header(recs)) + spec_rows_csv(recs, spec_header(recs))
}

/// The distinct keys of all records, sorted, executable.
fn union_keys(records: &Vec<Vec<(String, String)>>) -> (r: Vec<Vec<char>>)
    ensures
        crate::strkit::views_of(r@) == spec_header(recs_views(records@)),
{
    let ghost rv = recs_views(records@);
    let mut all: Vec<Vec<char>> = Vec::new();
    let mut i: usize = 0;
    proof {
        assert(rv.take(0) =~= Seq::<Seq<(Seq<char>, Seq<char>)>>::empty());
        assert(crate::strkit::views_of(all@) =~= spec_all_keys(rv.take(0)));
    }
    while i < records.len()
        invariant
            i <= records@.len(),
            rv == recs_views(records@),
            crate::strkit::views_of(all@) =~= spec_all_keys(rv.take(i as int)),
        decreases records@.len() - i,
    {
        let rec = &records[i];
        let ghost all0 = crate::strkit::views_of(all@);
        let mut k: usize = 0;
        proof {
            assert(rv.take(i + 1).drop_last() =~= rv.take(i as int));
            assert(rv.take(i + 1).last() == rv[i as int]);
            assert(spec_keys_of(rv[i as int]).take(0) =~= Seq::<Seq<char>>::empty());
            assert(all0 + spec_keys_of(rv[i as int]).take(0) =~= all0);
        }
        while k < rec.len()
            invariant
                k <= rec@.len(),
                rv == recs_views(records@),
                i < records@.len(),
                rec@ == records@[i as int]@,
                crate::strkit::views_of(all@) =~= all0 + spec_keys_of(rv[i as int]).take(
                    k as int,
                ),
            decreases rec@.len() - k,
        {
            let key = crate::strkit::str_to_chars(rec[k].0.as_str());
            let ghost acc0 = all@;
            all.push(key);
            proof {
                crate::strkit::lemma_views_of_push(acc0, all@.last());
                assert(spec_keys_of(rv[i as int]).take(k + 1) =~= spec_keys_of(
                    rv[i as int],
                ).take(k as int).push(rv[i as int][k as int].0));
                assert(rv[i as int][k as int].0 == rec@[k as int].0@);
                assert(all0 + spec_keys_of(rv[i as int]).take(k + 1) =~= (all0 + spec_keys_of(
                    rv[i as int],
                ).take(k as int)).push(rec@[k as int].0@));
            }
            k = k + 1;
        }
        proof {
            assert(spec_keys_of(rv[i as int]).take(rec@.len() as int) =~= spec_keys_of(
                rv[i as int],
            ));
            assert(crate::strkit::views_of(all@) =~= spec_all_keys(rv.take(i + 1)));
        }
        i = i + 1;
    }
    proof {
        assert(rv.take(records@.len() as int) =~= rv);
    }
    let uniq = crate::strkit::unique_lines(all);
    crate::strkit::sort_chars_vec(uniq)
}

/// The first value stored under the key, executable.
fn assoc_value(rec: &Vec<(String, String)>, key: &Vec<char>) -> (r: Vec<char>)
    ensures
        r@ == spec_assoc(rec_views(rec@), key@),
{
    let ghost pv = rec_views(rec@);
    let mut j: usize = 0;
    proof {
        assert(pv.skip(0) =~= pv);
    }
    while j < rec.len()
        invariant
            j <= rec@.len(),
            pv == rec_views(rec@),
            spec_assoc(pv, key@) == spec_assoc(pv.skip(j as int), key@),
        decreases rec@.len() - j,
    {
        proof {
            assert(pv.skip(j as int)[0] == pv[j as int]);
            assert(pv.skip(j as int).drop_first() =~= pv.skip(j + 1));
        }
        let kc = crate::strkit::str_to_chars(rec[j].0.as_str());
        if crate::strkit::chars_eq(&kc, key) {
            return crate::strkit::str_to_chars(rec[j].1.as_str());
        }
        j = j + 1;
    }
    proof {
        assert(pv.skip(rec@.len() as int) =~= Seq::<(Seq<char>, Seq<char>)>::empty());
    }
    let empty: Vec<char> = Vec::new();
    empty
}

/// Builds the CSV for a list of records: sorted unioned header, then one
/// row per record with missing fields empty.
pub fn records_to_csv(records: &Vec<Vec<(String, String)>>) -> (r: String)
    ensures
        r@ == spec_records_csv(recs_views(records@)),
{
    let ghost rv = recs_views(records@);
    let header = union_keys(records);
    let mut header_strs: Vec<String> = Vec::new();
    let mut i: usize = 0;
    while i < header.len()
        invariant
            i <= header@.len(),
            crate::strkit::views_of(header@) == spec_header(recs_views(records@)),
            crate::utils::str_views(header_strs@) =~= crate::strkit::views_of(header@).take(
                i as int,
            ),
        decreases header@.len() - i,
    {
        let hs = chars_to_string(&header[i]);
        let ghost acc0 = header_strs@;
        header_strs.push(hs);
        proof {
            assert(crate::utils::str_views(header_strs@) =~= crate::utils::str_views(acc0).push(
                header@[i as int]@,
            ));
            assert(crate::strkit::views_of(header@).take(i + 1) =~= crate::strkit::views_of(
                header@,
            ).take(i as int).push(header@[i as int]@));
        }
        i = i + 1;
    }
    proof {
        assert(crate::strkit::views_of(header@).take(header@.len() as int)
            =~= crate::strkit::views_of(header@));
    }
    let mut out: Vec<char> = Vec::new();
    let header_line = csv_format_row(&header_strs);
    let hl = crate::strkit::str_to_chars(header_line.as_str());
    crate::strkit::append_chars(&mut out, &hl);
    let ghost hv = spec_header(rv);
    let mut rix: usize = 0;
    proof {
        assert(rv.skip(0) =~= rv);
    }
    while rix < records.len()
        invariant
            rix <= records@.len(),
            rv == recs_views(records@),
            hv == spec_header(rv),
            crate::strkit::views_of(header@) == hv,
            crate::utils::str_views(header_strs@) == hv,
            spec_records_csv(rv) =~= out@ + spec_rows_csv(rv.skip(rix as int), hv),
        decreases records@.len() - rix,
    {
        let ghost rest = rv.skip(rix as int);
        let ghost out0 = out@;
        proof {
            assert(rest[0] == rv[rix as int]);
            assert(rest.drop_first() =~= rv.skip(rix + 1));
        }
        let rec = &records[rix];
        let mut fields: Vec<String> = Vec::new();
        let mut h: usize = 0;
        while h < header.len()
            invariant
                h <= header@.len(),
                rv == recs_views(records@),
                rix < records@.len(),
                rec@ == records@[rix as int]@,
                crate::strkit::views_of(header@) == hv,
                crate::utils::str_views(fields@) =~= spec_row(rv[rix as int], hv).take(h as int),
            decreases header@.len() - h,
        {
            let val = assoc_value(rec, &header[h]);
            let vs = chars_to_string(&val);
            let ghost acc0 = fields@;
            fields.push(vs);
            proof {
                assert(crate::utils::str_views(fields@) =~= crate::utils::str_views(acc0).push(
                    spec_assoc(rv[rix as int], hv[h as int]),
                ));
                assert(spec_row(rv[rix as int], hv).take(h + 1) =~= spec_row(
                    rv[rix as int],
                    hv,
                ).take(h as int).push(spec_assoc(rv[rix as int], hv[h as int])));
            }
            h = h + 1;
        }
        proof {
            assert(spec_row(rv[rix as int], hv).take(hv.len() as int) =~= spec_row(
                rv[rix as int],
                hv,
            ));
        }
        let line = csv_format_row(&fields);
        let lc = crate::strkit::str_to_chars(line.as_str());
        crate::strkit::append_chars(&mut out, &lc);
        proof {
            assert(out@ =~= out0 + spec_csv_row(spec_row(rv[rix as int], hv)));
        }
        rix = rix + 1;
    }
    proof {
        assert(rv.skip(records@.len() as int) =~= Seq::<Seq<(Seq<char>, Seq<char>)>>::empty());
        assert(out@ =~= spec_records_csv(rv));
    }
    chars_to_string(&out)
}

/// Converts a JSON array of objects to CSV: a sorted unioned header, then
/// one row per object with values rendered as compact JSON and missing
/// fields empty; inputs that are not such an array get the matching
/// report.
pub fn json_to_csv(text: &str) -> (r: String)
    ensures
        json_records_of(text@) is Records ==> r@ == spec_records_csv(
            json_records_of(text@)->Records_0,
        ),
        json_records_of(text@) is NotArray ==> r@ == "JSON must be an array of objects"@,
        json_records_of(text@) is NotObject ==> r@
            == "Each item in the JSON array must be an object."@,
        json_records_of(text@) is Bad ==> r@ == "Invalid JSON: "@ + json_records_of(text@)->Bad_0,
{
    match json_records(text) {
        JsonRecordsData::Records(records) => records_to_csv(&records),
        JsonRecordsData::NotArray => crate::strkit::copy_str("JSON must be an array of objects"),
        JsonRecordsData::NotObject => crate::strkit::copy_str(
            "Each item in the JSON array must be an object.",
        ),
        JsonRecordsData::Bad(m) => {
            let ghost mv = m@;
            let out = prefixed("Invalid JSON: ", m);
            proof {
                assert(out@ == "Invalid JSON: "@ + mv);
            }
            out
        },
    }
}

// ------------------------------------------------------------------
// CSV to JSON
// ------------------------------------------------------------------

/// A parsed CSV document: the header row and the data rows — or the
/// reader's report, at the spec level.
pub enum CsvRows {
    Rows(Seq<Seq<char>>, Seq<Seq<Seq<char>>>),
    Bad(Seq<char>),
}

/// The same outcome as the reader hands it back.
pub enum CsvRowsData {
    Rows(Vec<String>, Vec<Vec<String>>),
    Bad(String),
}

/// The views of a sequence of field rows.
pub open spec fn rows_views(rs: Seq<Vec<String>>) -> Seq<Seq<Seq<char>>> {
    Seq::new(rs.len(), |i: int| crate::utils::str_views(rs[i]@))
}

/// What reading the text as CSV yields — header and rows, or the reader's
/// report: a function of the text alone.
pub uninterp spec fn csv_rows_of(s: Seq<char>) -> CsvRows;

/// Relies on csv's `Reader::from_reader`, `headers` and `read_record` with
/// the default configuration: the header row, then every data row, or the
/// first error (rows of a length other than the header's error out, as
/// they do when deserialized).
#[verifier::external_body]
fn csv_rows(text: &str) -> (r: CsvRowsData)
    ensures
        match csv_rows_of(text@) {
            CsvRows::Rows(h, rows) => r is Rows && crate::utils::str_views(r->Rows_0@) == h
                && rows_views(r->Rows_1@) == rows,
            CsvRows::Bad(m) => r is Bad && r->Bad_0@ == m,
        },
{
    let mut rdr = csv::Reader::from_reader(text.as_bytes());
    let headers: Vec<String> = match rdr.headers() {
        Ok(h) => h.iter().map(|f| f.to_string()).collect(),
        Err(e) => return CsvRowsData::Bad(e.to_string()),
    };
    let mut rows: Vec<Vec<String>> = Vec::new();
    let mut rec = csv::StringRecord::new();
    loop {
        match rdr.read_record(&mut rec) {
            Ok(true) => rows.push(rec.iter().map(|f| f.to_string()).collect()),
            Ok(false) => return CsvRowsData::Rows(headers, rows),
            Err(e) => return CsvRowsData::Bad(e.to_string()),
        }
    }
}

/// The last value a key carries among the paired-up columns of header and
/// row; columns without a partner never pair.
pub open spec fn spec_last_value(
    header: Seq<Seq<char>>,
    fields: Seq<Seq<char>>,
    k: Seq<char>,
) -> Seq<char>
    decreases header.len() + fields.len(),
{
    if header.len() == 0 || fields.len() == 0 {
        Seq::empty()
    } else if header.len() > fields.len() {
        spec_last_value(header.take(fields.len() as int), fields, k)
    } else if fields.len() > header.len() {
        spec_last_value(header, fields.take(header.len() as int), k)
    } else if header.last() == k {
        fields.last()
    } else {
        spec_last_value(header.drop_last(), fields.drop_last(), k)
    }
}

/// One row as a JSON object's entries: the header's distinct keys, sorted,
/// each carrying the last value its column holds, as deserializing into a
/// map and re-sorting does.
pub open spec fn spec_row_record(header: Seq<Seq<char>>, fields: Seq<Seq<char>>) -> Seq<
    (Seq<char>, Seq<char>),
> {
    crate::strkit::spec_sort(crate::strkit::spec_unique(header)).map_values(
        |k: Seq<char>| (k, spec_last_value(header, fields, k)),
    )
}

/// What `serde_json::to_string_pretty` returns for an array of objects of
/// strings built from the given records.
pub uninterp spec fn pretty_records_of(rs: Seq<Seq<(Seq<char>, Seq<char>)>>) -> Seq<char>;

/// Relies on `serde_json::to_string_pretty` over an array of string-valued
/// objects built one-for-one from the records: a function of the records
/// alone.
#[verifier::external_body]
fn records_to_pretty_json(records: &Vec<Vec<(String, String)>>) -> (r: String)
    ensures
        r@ == pretty_records_of(recs_views(records@)),
{
    let arr: Vec<serde_json::Value> = records
        .iter()
        .map(|rec| serde_json::Value::Object(
            rec.iter().map(|(k, v)| (k.clone(), serde_json::Value::String(v.clone()))).collect(),
        ))
        .collect();
    match serde_json::to_string_pretty(&serde_json::Value::Array(arr)) {
        Ok(s) => s,
        Err(_) => String::new(),
    }
}

/// The value under `k` in the row, scanning the paired columns from the
/// end, executable.
fn last_value(header: &Vec<String>, fields: &Vec<String>, k: &Vec<char>) -> (r: String)
    ensures
        r@ == spec_last_value(
            crate::utils::str_views(header@),
            crate::utils::str_views(fields@),
            k@,
        ),
{
    let ghost hvs = crate::utils::str_views(header@);
    let ghost fvs = crate::utils::str_views(fields@);
    let n = if header.len() < fields.len() {
        header.len()
    } else {
        fields.len()
    };
    let mut j: usize = n;
    proof {
        lemma_last_value_clip(hvs, fvs, k@);
        if hvs.len() < fvs.len() {
            assert(hvs.take(n as int) =~= hvs);
        } else if fvs.len() < hvs.len() {
            assert(fvs.take(n as int) =~= fvs);
        } else {
            assert(hvs.take(n as int) =~= hvs);
            assert(fvs.take(n as int) =~= fvs);
        }
    }
    while j > 0
        invariant
            j <= n,
            n <= header@.len(),
            n <= fields@.len(),
            hvs == crate::utils::str_views(header@),
            fvs == crate::utils::str_views(fields@),
            spec_last_value(hvs, fvs, k@) == spec_last_value(
                hvs.take(j as int),
                fvs.take(j as int),
                k@,
            ),
        decreases j,
    {
        proof {
            assert(hvs.take(j as int).last() == hvs[j - 1]);
            assert(fvs.take(j as int).last() == fvs[j - 1]);
            assert(hvs.take(j as int).drop_last() =~= hvs.take(j - 1));
            assert(fvs.take(j as int).drop_last() =~= fvs.take(j - 1));
        }
        let hc = crate::strkit::str_to_chars(header[j - 1].as_str());
        if crate::strkit::chars_eq(&hc, k) {
            return crate::strkit::copy_str(fields[j - 1].as_str());
        }
        j = j - 1;
    }
    proof {
        assert(spec_last_value(hvs.take(0), fvs.take(0), k@) == Seq::<char>::empty());
    }
    let empty: Vec<char> = Vec::new();
    chars_to_string(&empty)
}

/// Clipping both columns to their common length keeps the last value.
pub proof fn lemma_last_value_clip(header: Seq<Seq<char>>, fields: Seq<Seq<char>>, k: Seq<char>)
    ensures
        spec_last_value(header, fields, k) == (if header.len() < fields.len() {
            spec_last_value(header, fields.take(header.len() as int), k)
        } else if fields.len() < header.len() {
            spec_last_value(header.take(fields.len() as int), fields, k)
        } else {
            spec_last_value(header, fields, k)
        }),
{
    if header.len() == 0 || fields.len() == 0 {
        if header.len() < fields.len() {
            assert(fields.take(header.len() as int).len() == header.len());
        } else if fields.len() < header.len() {
            assert(header.take(fields.len() as int).len() == fields.len());
        }
    }
}

/// Builds the JSON-object entries of one row: the header's distinct keys,
/// sorted, each with the last value its column holds.
pub fn row_to_record(header: &Vec<String>, fields: &Vec<String>) -> (r: Vec<(String, String)>)
    ensures
        rec_views(r@) == spec_row_record(
            crate::utils::str_views(header@),
            crate::utils::str_views(fields@),
        ),
{
    let ghost hvs = crate::utils::str_views(header@);
    let ghost fvs = crate::utils::str_views(fields@);
    let mut hchars: Vec<Vec<char>> = Vec::new();
    let mut i: usize = 0;
    while i < header.len()
        invariant
            i <= header@.len(),
            hvs == crate::utils::str_views(header@),
            crate::strkit::views_of(hchars@).len() == i,
            forall|j: int| 0 <= j < i ==> crate::strkit::views_of(hchars@)[j] == hvs[j],
        decreases header@.len() - i,
    {
        let hc = crate::strkit::str_to_chars(header[i].as_str());
        hchars.push(hc);
        i = i + 1;
    }
    proof {
        assert(crate::strkit::views_of(hchars@) =~= hvs);
    }
    let uniq = crate::strkit::unique_lines(hchars);
    let keys = crate::strkit::sort_chars_vec(uniq);
    let ghost kv = crate::strkit::views_of(keys@);
    let mut out: Vec<(String, String)> = Vec::new();
    let mut t: usize = 0;
    while t < keys.len()
        invariant
            t <= keys@.len(),
            hvs == crate::utils::str_views(header@),
            fvs == crate::utils::str_views(fields@),
            kv == crate::strkit::views_of(keys@),
            kv == crate::strkit::spec_sort(crate::strkit::spec_unique(hvs)),
            rec_views(out@).len() == t,
            forall|j: int|
                0 <= j < t ==> rec_views(out@)[j] == (kv[j], spec_last_value(hvs, fvs, kv[j])),
        decreases keys@.len() - t,
    {
        let k = &keys[t];
        let v = last_value(header, fields, k);
        let ks = chars_to_string(k);
        let ghost ksv = ks@;
        let ghost vv = v@;
        let ghost acc0 = out@;
        out.push((ks, v));
        proof {
            assert(out@.last().0@ == ksv);
            assert(out@.last().1@ == vv);
            assert(rec_views(out@)[t as int] == (kv[t as int], spec_last_value(
                hvs,
                fvs,
                kv[t as int],
            )));
            assert forall|j: int| 0 <= j < t implies #[trigger] rec_views(out@)[j] == (
                kv[j],
                spec_last_value(hvs, fvs, kv[j]),
            ) by {
                assert(out@[j] == acc0[j]);
                assert(rec_views(acc0)[j] == (kv[j], spec_last_value(hvs, fvs, kv[j])));
            }
        }
        t = t + 1;
    }
    proof {
        assert(rec_views(out@) =~= spec_row_record(hvs, fvs));
    }
    out
}

/// Each row as a record under the header.
pub open spec fn spec_rows_records(
    header: Seq<Seq<char>>,
    rows: Seq<Seq<Seq<char>>>,
) -> Seq<Seq<(Seq<char>, Seq<char>)>> {
    rows.map_values(|row: Seq<Seq<char>>| spec_row_record(header, row))
}

/// Converts CSV with a header row to pretty JSON: one object per row, all
/// values strings, keys sorted; a reader error reports itself in the
/// returned text.
pub fn csv_to_json(text: &str) -> (r: String)
    ensures
        csv_rows_of(text@) is Rows ==> r@ == pretty_records_of(
            spec_rows_records(csv_rows_of(text@)->Rows_0, csv_rows_of(text@)->Rows_1),
        ),
        csv_rows_of(text@) is Bad ==> r@ == "Failed to parse CSV row: "@ + csv_rows_of(
            text@,
        )->Bad_0,
{
    match csv_rows(text) {
        CsvRowsData::Rows(headers, rows) => {
            let ghost hv = crate::utils::str_views(headers@);
            let ghost rowsv = rows_views(rows@);
            let mut records: Vec<Vec<(String, String)>> = Vec::new();
            let mut i: usize = 0;
            while i < rows.len()
                invariant
                    i <= rows@.len(),
                    hv == crate::utils::str_views(headers@),
                    rowsv == rows_views(rows@),
                    recs_views(records@).len() == i,
                    forall|j: int|
                        0 <= j < i ==> recs_views(records@)[j] == spec_row_record(hv, rowsv[j]),
                decreases rows@.len() - i,
            {
                let rec = row_to_record(&headers, &rows[i]);
                let ghost rview = rec_views(rec@);
                let ghost acc0 = records@;
                records.push(rec);
                proof {
                    assert(rec_views(records@.last()@) == rview);
                    assert(recs_views(records@)[i as int] == spec_row_record(hv, rowsv[i as int]));
                    assert forall|j: int| 0 <= j < i implies #[trigger] recs_views(records@)[j]
                        == spec_row_record(hv, rowsv[j]) by {
                        assert(records@[j] == acc0[j]);
                        assert(recs_views(acc0)[j] == spec_row_record(hv, rowsv[j]));
                    }
                }
                i = i + 1;
            }
            proof {
                assert(recs_views(records@) =~= spec_rows_records(hv, rowsv));
            }
            records_to_pretty_json(&records)
        },
        CsvRowsData::Bad(m) => {
            let ghost mv = m@;
            let out = prefixed("Failed to parse CSV row: ", m);
            proof {
                assert(out@ == "Failed to parse CSV row: "@ + mv);
            }
            out
        },
    }
}

/// Applies the selected conversion to the text. The faulty inputs of the
/// numeric, hex and RGB conversions come back as errors; the delegated
/// conversions report failures inside their returned text, as their
/// contracts state.
pub fn handle_conversion_operation(text: &str, op: &ConversionOp) -> (r: Result<
    String,
    OpError,
>)
    requires
        !(op is Unknown),
    ensures
        op is AsciiToHex ==> r is Ok && r->Ok_0@ == spec_hex_bytes(encode_utf8(text@)),
        op is HexToAscii ==> ((r is Ok <==> (spec_hex_decode(text@) is Some && valid_utf8(
            spec_hex_decode(text@)->0,
        ))) && (r is Ok ==> r->Ok_0@ == decode_utf8(spec_hex_decode(text@)->0))),
        op is YamlToJson ==> r is Ok && (yaml_json_of(text@) is Some ==> r->Ok_0@ == yaml_json_of(
            text@,
        )->0) && (yaml_json_of(text@) is None ==> exists|m: Seq<char>|
            r->Ok_0@ == "Failed to parse YAML: "@ + m || r->Ok_0@ == "Failed to convert to JSON: "@
                + m),
        op is JsonToYaml ==> r is Ok && (json_yaml_of(text@) is Some ==> r->Ok_0@ == json_yaml_of(
            text@,
        )->0) && (json_yaml_of(text@) is None ==> exists|m: Seq<char>|
            r->Ok_0@ == "Failed to parse JSON: "@ + m || r->Ok_0@ == "Failed to convert to YAML: "@
                + m),
        op is DateToTimestamp ==> r is Ok && (rfc3339_ts_of(text@) is Some ==> r->Ok_0@
            == spec_int_dec(rfc3339_ts_of(text@)->0)) && (rfc3339_ts_of(text@) is None ==> exists|
            m: Seq<char>,
        |
            r->Ok_0@ == "Failed to parse date: "@ + m),
        op is DateToUtc ==> r is Ok && (rfc3339_utc_of(text@) is Some ==> r->Ok_0@
            == rfc3339_utc_of(text@)->0) && (rfc3339_utc_of(text@) is None ==> exists|m: Seq<char>|
            r->Ok_0@ == "Failed to parse date: "@ + m),
        op is BinaryToDecimal ==> ((r is Ok <==> spec_parse_i32(text@, 2) is Some) && (r is Ok
            ==> r->Ok_0@ == spec_int_dec(spec_parse_i32(text@, 2)->0))),
        op is DecimalToBinary ==> ((r is Ok <==> spec_parse_i32(text@, 10) is Some) && (r is Ok
            ==> r->Ok_0@ == spec_radix_nat(twos32(spec_parse_i32(text@, 10)->0) as nat, 2))),
        op is JsonToQueryString ==> r is Ok && (json_qs_of(text@) is Some ==> r->Ok_0@
            == json_qs_of(text@)->0) && (json_qs_of(text@) is None ==> exists|m: Seq<char>|
            r->Ok_0@ == "Invalid JSON: "@ + m || r->Ok_0@ == "Error encoding query string: "@ + m),
        op is QueryStringToJson ==> r is Ok && (qs_json_of(text@) is Some ==> r->Ok_0@
            == qs_json_of(text@)->0) && (qs_json_of(text@) is None ==> exists|m: Seq<char>|
            r->Ok_0@ == "Failed to parse query string: "@ + m),
        op is DecimalToHex ==> ((r is Ok <==> spec_parse_i32(text@, 10) is Some) && (r is Ok
            ==> r->Ok_0@ == spec_radix_nat(twos32(spec_parse_i32(text@, 10)->0) as nat, 16))),
        op is HexToDecimal ==> ((r is Ok <==> spec_parse_u32(text@, 16) is Some) && (r is Ok
            ==> r->Ok_0@ == spec_radix_nat(spec_parse_u32(text@, 16)->0, 10))),
        op is JsonToCsv ==> r is Ok && (json_records_of(text@) is Records ==> r->Ok_0@
            == spec_records_csv(json_records_of(text@)->Records_0)) && (json_records_of(text@)
            is NotArray ==> r->Ok_0@ == "JSON must be an array of objects"@) && (json_records_of(
            text@,
        ) is NotObject ==> r->Ok_0@ == "Each item in the JSON array must be an object."@) && (
        json_records_of(text@) is Bad ==> r->Ok_0@ == "Invalid JSON: "@ + json_records_of(
            text@,
        )->Bad_0),
        op is CsvToJson ==> r is Ok && (csv_rows_of(text@) is Rows ==> r->Ok_0@
            == pretty_records_of(
            spec_rows_records(csv_rows_of(text@)->Rows_0, csv_rows_of(text@)->Rows_1),
        )) && (csv_rows_of(text@) is Bad ==> r->Ok_0@ == "Failed to parse CSV row: "@
            + csv_rows_of(text@)->Bad_0),
        op is HexToRgb ==> (r is Ok <==> (spec_strip_hash(text@).len() >= 6 && spec_hex_decode(
            spec_strip_hash(text@).take(6),
        ) is Some)) && (r is Ok ==> r->Ok_0@ == spec_rgb_of(
            spec_hex_decode(spec_strip_hash(text@).take(6))->0,
        )),
        op is FishPathHexConv ==> r is Ok && r->Ok_0@ == spec_fish_hex(encode_utf8(text@)),
{
    match op {
        ConversionOp::AsciiToHex => Ok(ascii_to_hex(text)),
        ConversionOp::HexToAscii => hex_to_ascii(text),
        ConversionOp::YamlToJson => Ok(yaml_to_json(text)),
        ConversionOp::JsonToYaml => Ok(json_to_yaml(text)),
        ConversionOp::DateToTimestamp => Ok(date_to_timestamp(text)),
        ConversionOp::DateToUtc => Ok(date_to_utc(text)),
        ConversionOp::BinaryToDecimal => binary_to_decimal(text),
        ConversionOp::DecimalToBinary => decimal_to_binary(text),
        ConversionOp::JsonToQueryString => Ok(json_to_query_string(text)),
        ConversionOp::QueryStringToJson => Ok(query_string_to_json(text)),
        ConversionOp::DecimalToHex => decimal_to_hex(text),
        ConversionOp::HexToDecimal => hex_to_decimal(text),
        ConversionOp::JsonToCsv => Ok(json_to_csv(text)),
        ConversionOp::CsvToJson => Ok(csv_to_json(text)),
        ConversionOp::HexToRgb => hex_to_rgb(text),
        ConversionOp::FishPathHexConv => Ok(fish_path_hex_conv(text)),
        ConversionOp::Unknown => vstd::pervasive::unreached(),
    }
}

} // verus!
