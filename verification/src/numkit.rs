//! Number rendering and parsing: decimal, binary and hexadecimal digit
//! strings, with exact specs mirroring `from_str_radix` and the `{:b}`,
//! `{:x}` and decimal formatters of std.
use vstd::prelude::*;

verus! {

/// The digit character for a value below sixteen, lower case.
pub open spec fn digit_char(d: int) -> char
    recommends
        0 <= d < 16,
{
    if d < 10 {
        ((d + 48) as u8) as char
    } else {
        ((d + 87) as u8) as char
    }
}

/// The digit character for a value below sixteen, upper case.
pub open spec fn digit_char_upper(d: int) -> char
    recommends
        0 <= d < 16,
{
    if d < 10 {
        ((d + 48) as u8) as char
    } else {
        ((d + 55) as u8) as char
    }
}

/// The digits of `n` under `radix`, most significant first, as `{:b}`,
/// `{:x}` and the decimal formatter print unsigned numbers.
pub open spec fn spec_radix_nat(n: nat, radix: nat) -> Seq<char>
    recommends
        2 <= radix <= 16,
    decreases n,
        when 2 <= radix
        via spec_radix_nat_dec
{
    if radix < 2 {
        Seq::empty()
    } else if n < radix {
        seq![digit_char(n as int)]
    } else {
        spec_radix_nat(n / radix, radix).push(digit_char((n % radix) as int))
    }
}

#[via_fn]
proof fn spec_radix_nat_dec(n: nat, radix: nat) {
    if radix >= 2 && n >= radix {
        assert(n / radix < n) by (nonlinear_arith)
            requires
                2 <= radix,
                n >= radix,
        ;
    }
}

/// The decimal rendering of a signed value, as `i32`'s `to_string`.
pub open spec fn spec_int_dec(v: int) -> Seq<char> {
    if v < 0 {
        seq!['-'] + spec_radix_nat((-v) as nat, 10)
    } else {
        spec_radix_nat(v as nat, 10)
    }
}

/// The digit character, executable.
pub fn digit_char_exec(d: u64) -> (r: char)
    requires
        d < 16,
    ensures
        r == digit_char(d as int),
{
    if d < 10 {
        (d as u8 + 48) as char
    } else {
        (d as u8 + 87) as char
    }
}

/// The upper-case digit character, executable.
pub fn digit_char_upper_exec(d: u64) -> (r: char)
    requires
        d < 16,
    ensures
        r == digit_char_upper(d as int),
{
    if d < 10 {
        (d as u8 + 48) as char
    } else {
        (d as u8 + 55) as char
    }
}

/// Appends the digits of `n` under `radix` to `out`.
pub fn push_radix_u64(n: u64, radix: u64, out: &mut Vec<char>)
    requires
        2 <= radix <= 16,
    ensures
        final(out)@ == old(out)@ + spec_radix_nat(n as nat, radix as nat),
    decreases n,
{
    if n < radix {
        out.push(digit_char_exec(n));
        proof {
            assert(old(out)@ + spec_radix_nat(n as nat, radix as nat) =~= old(out)@.push(
                digit_char(n as int),
            ));
        }
    } else {
        proof {
            assert((n as nat) / (radix as nat) < (n as nat)) by (nonlinear_arith)
                requires
                    2 <= radix,
                    n >= radix,
            ;
        }
        push_radix_u64(n / radix, radix, out);
        out.push(digit_char_exec(n % radix));
        proof {
            assert(((n / radix) as nat) == (n as nat) / (radix as nat));
            assert(((n % radix) as nat) == (n as nat) % (radix as nat));
            assert(old(out)@ + spec_radix_nat(n as nat, radix as nat) =~= (old(out)@
                + spec_radix_nat((n as nat) / (radix as nat), radix as nat)).push(
                digit_char(((n as nat) % (radix as nat)) as int),
            ));
        }
    }
}

/// Renders `n` under `radix` as a fresh character vector.
pub fn radix_chars_u64(n: u64, radix: u64) -> (r: Vec<char>)
    requires
        2 <= radix <= 16,
    ensures
        r@ == spec_radix_nat(n as nat, radix as nat),
{
    let mut out: Vec<char> = Vec::new();
    push_radix_u64(n, radix, &mut out);
    proof {
        assert(Seq::<char>::empty() + spec_radix_nat(n as nat, radix as nat) =~= spec_radix_nat(
            n as nat,
            radix as nat,
        ));
    }
    out
}

/// Renders a signed value in decimal, as `to_string` does.
pub fn int_dec_chars(v: i64) -> (r: Vec<char>)
    ensures
        r@ == spec_int_dec(v as int),
{
    if v < 0 {
        let mag: u64 = if v == -9223372036854775807 - 1 {
            9223372036854775808
        } else {
            (-v) as u64
        };
        proof {
            assert(mag as nat == (-(v as int)) as nat);
        }
        let mut out: Vec<char> = Vec::new();
        out.push('-');
        push_radix_u64(mag, 10, &mut out);
        proof {
            assert(seq!['-'] + spec_radix_nat(mag as nat, 10) =~= seq!['-'].add(
                spec_radix_nat((-(v as int)) as nat, 10),
            ));
        }
        out
    } else {
        radix_chars_u64(v as u64, 10)
    }
}

// ------------------------------------------------------------------
// Parsing, as `from_str_radix` accepts digit strings
// ------------------------------------------------------------------

/// The value of one digit character under `radix`, if it is a valid digit.
pub open spec fn digit_val(c: char, radix: nat) -> Option<nat> {
    let v = c as u32;
    if 48 <= v && v <= 57 && (v - 48) < radix {
        Some((v - 48) as nat)
    } else if 97 <= v && v <= 102 && (v - 87) < radix {
        Some((v - 87) as nat)
    } else if 65 <= v && v <= 70 && (v - 55) < radix {
        Some((v - 55) as nat)
    } else {
        None
    }
}

/// The value of a non-empty digit string under `radix`; `None` when the
/// string is empty or holds an invalid digit.
pub open spec fn spec_digits_val(s: Seq<char>, radix: nat) -> Option<nat>
    decreases s.len(),
{
    if s.len() == 0 {
        None
    } else if s.len() == 1 {
        digit_val(s[0], radix)
    } else {
        match (spec_digits_val(s.drop_last(), radix), digit_val(s.last(), radix)) {
            (Some(hi), Some(lo)) => Some(hi * radix + lo),
            _ => None,
        }
    }
}

/// What `u32::from_str_radix` accepts and returns: an optional plus sign,
/// then digits, valued below two to the thirty-second.
pub open spec fn spec_parse_u32(s: Seq<char>, radix: nat) -> Option<nat> {
    let body = if s.len() >= 1 && s[0] == '+' {
        s.drop_first()
    } else {
        s
    };
    match spec_digits_val(body, radix) {
        Some(v) => if v <= 4294967295 {
            Some(v)
        } else {
            None
        },
        None => None,
    }
}

/// What `i32::from_str_radix` (and `str::parse::<i32>` for radix ten)
/// accepts and returns: an optional sign, then digits, valued in range.
pub open spec fn spec_parse_i32(s: Seq<char>, radix: nat) -> Option<int> {
    let neg = s.len() >= 1 && s[0] == '-';
    let body = if s.len() >= 1 && (s[0] == '-' || s[0] == '+') {
        s.drop_first()
    } else {
        s
    };
    match spec_digits_val(body, radix) {
        Some(v) => if neg && v <= 2147483648 {
            Some(-(v as int))
        } else if !neg && v <= 2147483647 {
            Some(v as int)
        } else {
            None
        },
        None => None,
    }
}

pub proof fn lemma_digits_val_push(s: Seq<char>, c: char, radix: nat)
    ensures
        s.len() == 0 ==> spec_digits_val(s.push(c), radix) == digit_val(c, radix),
        s.len() > 0 ==> spec_digits_val(s.push(c), radix) == (match (
            spec_digits_val(s, radix),
            digit_val(c, radix),
        ) {
            (Some(hi), Some(lo)) => Some(hi * radix + lo),
            _ => None::<nat>,
        }),
{
    assert(s.push(c).drop_last() =~= s);
    assert(s.push(c).last() == c);
    if s.len() == 0 {
        assert(s.push(c).len() == 1);
        assert(s.push(c)[0] == c);
    }
}

/// A valid digit string's value only grows as digits are appended.
pub proof fn lemma_digits_val_prefix(s: Seq<char>, k: int, radix: nat)
    requires
        1 <= k <= s.len(),
        spec_digits_val(s, radix) is Some,
    ensures
        spec_digits_val(s.take(k), radix) is Some,
        spec_digits_val(s.take(k), radix)->0 <= spec_digits_val(s, radix)->0,
    decreases s.len(),
{
    if k == s.len() {
        assert(s.take(k) =~= s);
    } else {
        assert(s.len() > 1);
        assert(spec_digits_val(s.drop_last(), radix) is Some);
        let hi = spec_digits_val(s.drop_last(), radix)->0;
        let lo = digit_val(s.last(), radix)->0;
        assert(spec_digits_val(s, radix)->0 == hi * radix + lo);
        assert(hi * radix + lo >= hi) by (nonlinear_arith)
            requires
                radix >= 1 || true,
                hi >= 0,
                lo >= 0,
                radix >= 1,
        ;
        assert(s.take(k) =~= s.drop_last().take(k));
        lemma_digits_val_prefix(s.drop_last(), k, radix);
    }
}

/// The value of one digit character under `radix`, executable.
pub fn digit_val_exec(c: char, radix: u64) -> (r: Option<u64>)
    requires
        2 <= radix <= 16,
    ensures
        r is Some <==> digit_val(c, radix as nat) is Some,
        r is Some ==> r->0 as nat == digit_val(c, radix as nat)->0 && r->0 < radix,
{
    let v = c as u32;
    if 48 <= v && v <= 57 && (v - 48) < radix as u32 {
        Some((v - 48) as u64)
    } else if 97 <= v && v <= 102 && (v - 87) < radix as u32 {
        Some((v - 87) as u64)
    } else if 65 <= v && v <= 70 && (v - 55) < radix as u32 {
        Some((v - 55) as u64)
    } else {
        None
    }
}

/// Parses the digit string `s[from..]` under `radix`, succeeding exactly
/// when it is a non-empty valid digit string whose value is at most `limit`.
pub fn parse_mag(s: &Vec<char>, from: usize, radix: u64, limit: u64) -> (r: Option<u64>)
    requires
        2 <= radix <= 16,
        from <= s@.len(),
        limit <= 4294967295,
    ensures
        r is Some <==> (spec_digits_val(s@.skip(from as int), radix as nat) is Some
            && spec_digits_val(s@.skip(from as int), radix as nat)->0 <= limit),
        r is Some ==> r->0 as nat == spec_digits_val(s@.skip(from as int), radix as nat)->0,
{
    let ghost body = s@.skip(from as int);
    let n = s.len();
    let mut i: usize = from;
    let mut acc: u64 = 0;
    let mut valid: bool = true;
    let mut over: bool = false;
    proof {
        assert(body.take(0) =~= Seq::<char>::empty());
    }
    while i < n
        invariant
            2 <= radix <= 16,
            limit <= 4294967295,
            from <= i <= n,
            n == s@.len(),
            body == s@.skip(from as int),
            i - from <= body.len(),
            body.take(i - from) =~= s@.subrange(from as int, i as int),
            i == from ==> (valid && !over && acc == 0),
            i > from ==> (valid <==> spec_digits_val(body.take(i - from), radix as nat) is Some),
            valid && !over ==> acc as nat == (if i == from {
                0
            } else {
                spec_digits_val(body.take(i - from), radix as nat)->0
            }) && acc <= limit,
            valid && over ==> i > from && spec_digits_val(body.take(i - from), radix as nat)->0
                > limit,
        decreases n - i,
    {
        let c = s[i];
        let ghost pre = body.take(i - from);
        proof {
            assert(body.take(i + 1 - from) =~= pre.push(c));
            lemma_digits_val_push(pre, c, radix as nat);
        }
        match digit_val_exec(c, radix) {
            None => {
                proof {
                    assert(spec_digits_val(body.take(i + 1 - from), radix as nat) is None);
                }
                valid = false;
            },
            Some(d) => {
                if valid && !over {
                    let acc0 = acc;
                    proof {
                        assert(acc * radix <= 68719476720) by (nonlinear_arith)
                            requires
                                acc <= 4294967295,
                                radix <= 16,
                        ;
                    }
                    acc = acc * radix + d;
                    if acc > limit {
                        over = true;
                    }
                    proof {
                        if i > from {
                            assert(spec_digits_val(body.take(i + 1 - from), radix as nat)->0
                                == (acc0 as nat) * (radix as nat) + (d as nat));
                        }
                    }
                } else if valid {
                    proof {
                        let hi = spec_digits_val(pre, radix as nat)->0;
                        assert(hi * (radix as nat) + (d as nat) >= hi) by (nonlinear_arith)
                            requires
                                hi >= 0,
                                d >= 0,
                                radix >= 1,
                        ;
                    }
                }
            },
        }
        i = i + 1;
    }
    proof {
        assert(body.take(i - from) =~= body);
    }
    if i == from {
        proof {
            assert(body.len() == 0);
        }
        return None;
    }
    if !valid || over {
        return None;
    }
    Some(acc)
}

/// Parses a signed 32-bit number under `radix`, as `i32::from_str_radix`.
pub fn parse_i32_radix(s: &Vec<char>, radix: u64) -> (r: Option<i32>)
    requires
        2 <= radix <= 16,
    ensures
        r is Some <==> spec_parse_i32(s@, radix as nat) is Some,
        r is Some ==> r->0 as int == spec_parse_i32(s@, radix as nat)->0,
{
    let neg = s.len() >= 1 && s[0] == '-';
    let plus = s.len() >= 1 && s[0] == '+';
    let from: usize = if neg || plus {
        1
    } else {
        0
    };
    let limit: u64 = if neg {
        2147483648
    } else {
        2147483647
    };
    proof {
        if from == 1 {
            assert(s@.skip(1) =~= s@.drop_first());
        } else {
            assert(s@.skip(0) =~= s@);
        }
    }
    match parse_mag(s, from, radix, limit) {
        Some(mag) => {
            if neg {
                if mag == 2147483648 {
                    Some(-2147483647 - 1)
                } else {
                    Some(-(mag as i32))
                }
            } else {
                Some(mag as i32)
            }
        },
        None => None,
    }
}

/// Parses an unsigned 32-bit number under `radix`, as `u32::from_str_radix`.
pub fn parse_u32_radix(s: &Vec<char>, radix: u64) -> (r: Option<u32>)
    requires
        2 <= radix <= 16,
    ensures
        r is Some <==> spec_parse_u32(s@, radix as nat) is Some,
        r is Some ==> r->0 as nat == spec_parse_u32(s@, radix as nat)->0,
{
    let plus = s.len() >= 1 && s[0] == '+';
    let from: usize = if plus {
        1
    } else {
        0
    };
    proof {
        if from == 1 {
            assert(s@.skip(1) =~= s@.drop_first());
        } else {
            assert(s@.skip(0) =~= s@);
        }
    }
    match parse_mag(s, from, radix, 4294967295) {
        Some(mag) => Some(mag as u32),
        None => None,
    }
}

// ------------------------------------------------------------------
// Hexadecimal byte strings
// ------------------------------------------------------------------

/// The two lower-case hex digits of a byte, as `hex::encode` renders it.
pub open spec fn spec_hex_byte(b: u8) -> Seq<char> {
    seq![digit_char(b as int / 16), digit_char(b as int % 16)]
}

/// The lower-case hex rendering of a byte string.
pub open spec fn spec_hex_bytes(bs: Seq<u8>) -> Seq<char>
    decreases bs.len(),
{
    if bs.len() == 0 {
        Seq::empty()
    } else {
        spec_hex_byte(bs[0]) + spec_hex_bytes(bs.drop_first())
    }
}

pub proof fn lemma_hex_bytes_push(bs: Seq<u8>, b: u8)
    ensures
        spec_hex_bytes(bs.push(b)) =~= spec_hex_bytes(bs) + spec_hex_byte(b),
    decreases bs.len(),
{
    if bs.len() == 0 {
        assert(bs.push(b)[0] == b);
        assert(bs.push(b).drop_first() =~= Seq::<u8>::empty());
        assert(spec_hex_bytes(Seq::<u8>::empty()) =~= Seq::<char>::empty());
        assert(spec_hex_bytes(bs.push(b)) =~= spec_hex_byte(b) + Seq::<char>::empty());
        assert(spec_hex_byte(b) + Seq::<char>::empty() =~= spec_hex_byte(b));
        assert(Seq::<char>::empty() + spec_hex_byte(b) =~= spec_hex_byte(b));
    } else {
        assert(bs.push(b)[0] == bs[0]);
        assert(bs.push(b).drop_first() =~= bs.drop_first().push(b));
        lemma_hex_bytes_push(bs.drop_first(), b);
        assert(spec_hex_byte(bs[0]) + (spec_hex_bytes(bs.drop_first()) + spec_hex_byte(b))
            =~= (spec_hex_byte(bs[0]) + spec_hex_bytes(bs.drop_first())) + spec_hex_byte(b));
    }
}

/// Appends the two lower-case hex digits of `b` to `out`.
pub fn push_hex_byte(b: u8, out: &mut Vec<char>)
    ensures
        final(out)@ == old(out)@ + spec_hex_byte(b),
{
    out.push(digit_char_exec((b / 16) as u64));
    out.push(digit_char_exec((b % 16) as u64));
    proof {
        assert(old(out)@ + spec_hex_byte(b) =~= old(out)@.push(digit_char(b as int / 16)).push(
            digit_char(b as int % 16),
        ));
    }
}

/// Renders a byte string in lower-case hex, as `hex::encode`.
pub fn hex_bytes(bs: &Vec<u8>) -> (r: Vec<char>)
    ensures
        r@ == spec_hex_bytes(bs@),
{
    let mut out: Vec<char> = Vec::new();
    let mut i: usize = 0;
    proof {
        assert(bs@.take(0) =~= Seq::<u8>::empty());
    }
    while i < bs.len()
        invariant
            i <= bs@.len(),
            out@ =~= spec_hex_bytes(bs@.take(i as int)),
        decreases bs@.len() - i,
    {
        push_hex_byte(bs[i], &mut out);
        proof {
            assert(bs@.take(i + 1) =~= bs@.take(i as int).push(bs@[i as int]));
            lemma_hex_bytes_push(bs@.take(i as int), bs@[i as int]);
        }
        i = i + 1;
    }
    proof {
        assert(bs@.take(bs@.len() as int) =~= bs@);
    }
    out
}

/// The bytes of an even-length hex digit string (either case), as
/// `hex::decode` accepts it; `None` on odd length or an invalid digit.
pub open spec fn spec_hex_decode(s: Seq<char>) -> Option<Seq<u8>>
    decreases s.len(),
{
    if s.len() % 2 == 1 {
        None
    } else if s.len() == 0 {
        Some(Seq::empty())
    } else {
        match (digit_val(s[0], 16), digit_val(s[1], 16), spec_hex_decode(s.skip(2))) {
            (Some(h), Some(l), Some(rest)) => Some(seq![(h * 16 + l) as u8] + rest),
            _ => None,
        }
    }
}

/// Decodes an even-length hex digit string, as `hex::decode`.
pub fn hex_decode_chars(s: &Vec<char>) -> (r: Option<Vec<u8>>)
    ensures
        r is Some <==> spec_hex_decode(s@) is Some,
        r is Some ==> r->0@ == spec_hex_decode(s@)->0,
{
    if s.len() % 2 == 1 {
        return None;
    }
    let mut out: Vec<u8> = Vec::new();
    let mut i: usize = 0;
    proof {
        assert(s@.skip(0) =~= s@);
        if spec_hex_decode(s@) is Some {
            assert(out@ + spec_hex_decode(s@)->0 =~= spec_hex_decode(s@)->0);
        }
    }
    while i < s.len()
        invariant
            i <= s@.len(),
            i % 2 == 0,
            s@.len() % 2 == 0,
            spec_hex_decode(s@) is Some <==> spec_hex_decode(s@.skip(i as int)) is Some,
            spec_hex_decode(s@) is Some ==> spec_hex_decode(s@)->0 =~= out@ + spec_hex_decode(
                s@.skip(i as int),
            )->0,
        decreases s@.len() - i,
    {
        let ghost rest = s@.skip(i as int);
        proof {
            assert(rest.len() % 2 == 0);
            assert(rest.len() >= 2);
            assert(rest[0] == s@[i as int]);
            assert(rest[1] == s@[i + 1]);
            assert(rest.skip(2) =~= s@.skip(i + 2));
        }
        let h = hex_digit_val(s[i]);
        let l = hex_digit_val(s[i + 1]);
        match (h, l) {
            (Some(hv), Some(lv)) => {
                out.push(hv * 16 + lv);
            },
            _ => {
                return None;
            },
        }
        i = i + 2;
    }
    proof {
        assert(s@.skip(s@.len() as int) =~= Seq::<char>::empty());
        if spec_hex_decode(s@) is Some {
            assert(out@ + Seq::<u8>::empty() =~= out@);
        }
    }
    Some(out)
}

/// A successful hex decode yields one byte per digit pair.
pub proof fn lemma_hex_decode_len(s: Seq<char>)
    requires
        spec_hex_decode(s) is Some,
    ensures
        spec_hex_decode(s)->0.len() == s.len() / 2,
    decreases s.len(),
{
    if s.len() >= 2 {
        lemma_hex_decode_len(s.skip(2));
    }
}

/// The value of one hex digit character, either case.
pub fn hex_digit_val(c: char) -> (r: Option<u8>)
    ensures
        r is Some <==> digit_val(c, 16) is Some,
        r is Some ==> r->0 as nat == digit_val(c, 16)->0 && r->0 < 16,
{
    let v = c as u32;
    if 48 <= v && v <= 57 {
        Some((v - 48) as u8)
    } else if 97 <= v && v <= 102 {
        Some((v - 87) as u8)
    } else if 65 <= v && v <= 70 {
        Some((v - 55) as u8)
    } else {
        None
    }
}

/// Lower-case hex encoding then decoding gives back the bytes.
pub proof fn lemma_hex_round_trip(bs: Seq<u8>)
    ensures
        spec_hex_decode(spec_hex_bytes(bs)) == Some(bs),
    decreases bs.len(),
{
    if bs.len() == 0 {
        assert(spec_hex_bytes(bs).len() == 0);
        assert(spec_hex_decode(spec_hex_bytes(bs))->0 =~= bs);
    } else {
        let b = bs[0];
        let s = spec_hex_bytes(bs);
        lemma_hex_round_trip(bs.drop_first());
        assert(s =~= spec_hex_byte(b) + spec_hex_bytes(bs.drop_first()));
        lemma_hex_len_even(bs);
        assert(s[0] == digit_char(b as int / 16));
        assert(s[1] == digit_char(b as int % 16));
        lemma_digit_char_val(b as int / 16);
        lemma_digit_char_val(b as int % 16);
        assert(s.skip(2) =~= spec_hex_bytes(bs.drop_first()));
        assert(digit_val(s[0], 16) == Some((b as int / 16) as nat));
        assert(digit_val(s[1], 16) == Some((b as int % 16) as nat));
        assert(((b as int / 16) as nat * 16 + (b as int % 16) as nat) as u8 == b);
        assert(spec_hex_decode(s)->0 =~= bs);
    }
}

/// A hex rendering has even length.
pub proof fn lemma_hex_len_even(bs: Seq<u8>)
    ensures
        spec_hex_bytes(bs).len() == 2 * bs.len(),
    decreases bs.len(),
{
    if bs.len() > 0 {
        lemma_hex_len_even(bs.drop_first());
    }
}

/// `digit_char` renders values below sixteen to digits that read back.
pub proof fn lemma_digit_char_val(d: int)
    requires
        0 <= d < 16,
    ensures
        digit_val(digit_char(d), 16) == Some(d as nat),
{
}

} // verus!
