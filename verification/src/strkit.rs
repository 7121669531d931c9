//! Character-level string machinery: conversion between `&str`/`String` and
//! `Vec<char>`, line and word splitting, joining, substring replacement,
//! stable sorting and duplicate removal, each verified against a spec
//! function over `Seq<char>`.
use vstd::prelude::*;

use vstd::multiset::Multiset;
use vstd::seq_lib::lemma_multiset_commutative;
use vstd::string::{StrSliceExecFns, StringExecFns};

verus! {

/// Collects the characters of a string slice into a vector.
pub fn str_to_chars(s: &str) -> (r: Vec<char>)
    ensures
        r@ == s@,
{
    let n = s.unicode_len();
    let mut r: Vec<char> = Vec::new();
    let mut i: usize = 0;
    while i < n
        invariant
            n == s@.len(),
            i <= n,
            r@ == s@.take(i as int),
        decreases n - i,
    {
        r.push(s.get_char(i));
        i = i + 1;
        proof {
            assert(r@ =~= s@.take(i as int));
        }
    }
    proof {
        assert(r@ =~= s@);
    }
    r
}

/// Relies on std's `FromIterator` for `String`: collecting characters
/// concatenates them in order.
#[verifier::external_body]
pub fn chars_to_string(v: &Vec<char>) -> (r: String)
    ensures
        r@ == v@,
{
    v.iter().collect()
}

/// A fresh `String` equal to the given string slice.
pub fn copy_str(s: &str) -> (r: String)
    ensures
        r@ == s@,
{
    String::from_str(s)
}

/// A one-character vector.
pub fn chars1(a: char) -> (r: Vec<char>)
    ensures
        r@ == seq![a],
{
    let mut r: Vec<char> = Vec::new();
    r.push(a);
    proof {
        assert(r@ =~= seq![a]);
    }
    r
}

/// A three-character vector.
pub fn chars3(a: char, b: char, c: char) -> (r: Vec<char>)
    ensures
        r@ == seq![a, b, c],
{
    let mut r: Vec<char> = Vec::new();
    r.push(a);
    r.push(b);
    r.push(c);
    proof {
        assert(r@ =~= seq![a, b, c]);
    }
    r
}

/// A four-character vector.
pub fn chars4(a: char, b: char, c: char, d: char) -> (r: Vec<char>)
    ensures
        r@ == seq![a, b, c, d],
{
    let mut r: Vec<char> = Vec::new();
    r.push(a);
    r.push(b);
    r.push(c);
    r.push(d);
    proof {
        assert(r@ =~= seq![a, b, c, d]);
    }
    r
}

/// Equality of two character vectors.
pub fn chars_eq(a: &Vec<char>, b: &Vec<char>) -> (r: bool)
    ensures
        r == (a@ == b@),
{
    if a.len() != b.len() {
        return false;
    }
    let mut i: usize = 0;
    while i < a.len()
        invariant
            a@.len() == b@.len(),
            i <= a@.len(),
            forall|j: int| 0 <= j < i ==> a@[j] == b@[j],
        decreases a@.len() - i,
    {
        if a[i] != b[i] {
            return false;
        }
        i = i + 1;
    }
    proof {
        assert(a@ =~= b@);
    }
    true
}

/// Equality of two string slices, decided character by character.
pub fn str_eq(a: &str, b: &str) -> (r: bool)
    ensures
        r == (a@ == b@),
{
    let an = a.unicode_len();
    let bn = b.unicode_len();
    if an != bn {
        return false;
    }
    let mut i: usize = 0;
    while i < an
        invariant
            an == a@.len(),
            a@.len() == b@.len(),
            i <= an,
            forall|j: int| 0 <= j < i ==> a@[j] == b@[j],
        decreases an - i,
    {
        if a.get_char(i) != b.get_char(i) {
            return false;
        }
        i = i + 1;
    }
    proof {
        assert(a@ =~= b@);
    }
    true
}

/// True when the character sequence contains `c`.
pub fn chars_contain(s: &Vec<char>, c: char) -> (r: bool)
    ensures
        r == s@.contains(c),
{
    let mut i: usize = 0;
    while i < s.len()
        invariant
            i <= s@.len(),
            forall|j: int| 0 <= j < i ==> s@[j] != c,
        decreases s@.len() - i,
    {
        if s[i] == c {
            return true;
        }
        i = i + 1;
    }
    false
}

// ------------------------------------------------------------------
// Lines, as `str::lines` sees them: terminated by `\n` (a final line
// ending is optional), with one trailing `\r` removed from each line.
// ------------------------------------------------------------------

/// One trailing carriage return removed, as `str::lines` does.
pub open spec fn strip_cr(l: Seq<char>) -> Seq<char> {
    if l.len() > 0 && l.last() == '\r' {
        l.drop_last()
    } else {
        l
    }
}

/// Index of the first newline in `s`, or `s.len()` when there is none.
pub open spec fn first_nl(s: Seq<char>) -> int
    decreases s.len(),
{
    if s.len() == 0 {
        0
    } else if s[0] == '\n' {
        0
    } else {
        1 + first_nl(s.drop_first())
    }
}

pub proof fn lemma_first_nl(s: Seq<char>)
    ensures
        0 <= first_nl(s) <= s.len(),
        forall|j: int| 0 <= j < first_nl(s) ==> s[j] != '\n',
        first_nl(s) < s.len() ==> s[first_nl(s)] == '\n',
    decreases s.len(),
{
    if s.len() == 0 {
    } else if s[0] == '\n' {
    } else {
        lemma_first_nl(s.drop_first());
        assert forall|j: int| 0 <= j < first_nl(s) implies s[j] != '\n' by {
            if j > 0 {
                assert(s.drop_first()[j - 1] == s[j]);
                assert(j - 1 < first_nl(s.drop_first()));
            }
        }
    }
}

/// The views of a sequence of character vectors.
pub open spec fn views_of(vs: Seq<Vec<char>>) -> Seq<Seq<char>> {
    Seq::new(vs.len(), |i: int| vs[i]@)
}

pub proof fn lemma_views_of_push(vs: Seq<Vec<char>>, x: Vec<char>)
    ensures
        views_of(vs.push(x)) =~= views_of(vs).push(x@),
{
}

/// The lines of `s`, as `str::lines` yields them.
pub open spec fn spec_lines(s: Seq<char>) -> Seq<Seq<char>>
    decreases s.len(),
{
    if s.len() == 0 {
        Seq::empty()
    } else {
        let i = first_nl_bounded(s);
        if i == s.len() {
            seq![strip_cr(s)]
        } else {
            seq![strip_cr(s.take(i))] + spec_lines(s.skip(i + 1))
        }
    }
}

/// `first_nl`, clipped into range so that recursion visibly terminates.
pub open spec fn first_nl_bounded(s: Seq<char>) -> int {
    if first_nl(s) < 0 {
        0
    } else if first_nl(s) > s.len() {
        s.len() as int
    } else {
        first_nl(s)
    }
}

pub proof fn lemma_first_nl_concat(c: Seq<char>, r: Seq<char>)
    requires
        !c.contains('\n'),
    ensures
        r.len() > 0 && r[0] == '\n' ==> first_nl(c + r) == c.len(),
        r.len() == 0 ==> first_nl(c + r) == c.len(),
    decreases c.len(),
{
    if c.len() == 0 {
        assert(c + r =~= r);
    } else {
        assert(c[0] != '\n');
        assert((c + r)[0] == c[0]);
        assert((c + r).drop_first() =~= c.drop_first() + r);
        assert(!c.drop_first().contains('\n')) by {
            assert(forall|j: int|
                0 <= j < c.drop_first().len() ==> c.drop_first()[j] == c[j + 1]);
        }
        lemma_first_nl_concat(c.drop_first(), r);
    }
}

/// The lines of a newline-free sequence: none when empty, else itself.
pub proof fn lemma_lines_no_nl(c: Seq<char>)
    requires
        !c.contains('\n'),
    ensures
        c.len() == 0 ==> spec_lines(c) =~= Seq::<Seq<char>>::empty(),
        c.len() > 0 ==> spec_lines(c) =~= seq![strip_cr(c)],
{
    if c.len() > 0 {
        lemma_first_nl_concat(c, Seq::empty());
        assert(c + Seq::<char>::empty() =~= c);
        lemma_first_nl(c);
        assert(first_nl(c) == c.len());
    }
}

/// Splitting off one full line: the head line, then the lines of the rest.
pub proof fn lemma_lines_step(c: Seq<char>, r: Seq<char>)
    requires
        !c.contains('\n'),
    ensures
        spec_lines(c + seq!['\n'] + r) =~= seq![strip_cr(c)] + spec_lines(r),
{
    let s = c + seq!['\n'] + r;
    lemma_first_nl_concat(c, seq!['\n'] + r);
    assert(c + (seq!['\n'] + r) =~= s);
    assert((seq!['\n'] + r)[0] == '\n');
    assert(first_nl(s) == c.len());
    lemma_first_nl(s);
    assert(s.len() > 0);
    assert(first_nl_bounded(s) == c.len());
    assert(s.take(c.len() as int) =~= c);
    assert(s.skip(c.len() as int + 1) =~= r);
}

/// Splits a character sequence into its lines.
pub fn split_lines(s: &Vec<char>) -> (r: Vec<Vec<char>>)
    ensures
        views_of(r@) == spec_lines(s@),
{
    let mut res: Vec<Vec<char>> = Vec::new();
    let mut cur: Vec<char> = Vec::new();
    let mut i: usize = 0;
    proof {
        assert(views_of(res@) =~= Seq::<Seq<char>>::empty());
        assert(cur@ + s@.skip(0) =~= s@);
        assert(views_of(res@) + spec_lines(s@) =~= spec_lines(s@));
    }
    while i < s.len()
        invariant
            i <= s@.len(),
            !cur@.contains('\n'),
            spec_lines(s@) =~= views_of(res@) + spec_lines(cur@ + s@.skip(i as int)),
        decreases s@.len() - i,
    {
        let ghost rest = s@.skip(i as int);
        let ghost cur0 = cur@;
        let ghost res0 = res@;
        if s[i] == '\n' {
            proof {
                assert(rest[0] == '\n');
                assert(cur0 + rest =~= cur0 + seq!['\n'] + s@.skip(i + 1));
                lemma_lines_step(cur0, s@.skip(i + 1));
            }
            let line = strip_cr_exec(cur);
            res.push(line);
            cur = Vec::new();
            proof {
                lemma_views_of_push(res0, res@.last());
                assert(cur@ + s@.skip(i + 1) =~= s@.skip(i + 1));
                assert(views_of(res0) + (seq![strip_cr(cur0)] + spec_lines(s@.skip(i + 1)))
                    =~= views_of(res0).push(strip_cr(cur0)) + spec_lines(s@.skip(i + 1)));
            }
        } else {
            proof {
                assert(rest[0] != '\n');
            }
            cur.push(s[i]);
            proof {
                assert(cur@ + s@.skip(i + 1) =~= cur0 + rest);
                assert(!cur@.contains('\n')) by {
                    assert(forall|j: int| 0 <= j < cur@.len() ==> cur@[j] == cur0.push(
                        s@[i as int],
                    )[j]);
                }
            }
        }
        i = i + 1;
    }
    proof {
        assert(cur@ + s@.skip(i as int) =~= cur@);
        lemma_lines_no_nl(cur@);
    }
    let ghost res1 = res@;
    if cur.len() > 0 {
        let line = strip_cr_exec(cur);
        res.push(line);
        proof {
            lemma_views_of_push(res1, res@.last());
        }
    }
    proof {
        assert(views_of(res@) =~= spec_lines(s@));
    }
    res
}

/// Removes one trailing carriage return, as `str::lines` does.
pub fn strip_cr_exec(l: Vec<char>) -> (r: Vec<char>)
    ensures
        r@ == strip_cr(l@),
{
    let mut l = l;
    if l.len() > 0 && l[l.len() - 1] == '\r' {
        let _ = l.pop();
        proof {
            assert(l@ =~= strip_cr(l@.push('\r')));
        }
    }
    l
}

// ------------------------------------------------------------------
// Joining
// ------------------------------------------------------------------

/// The pieces joined with the separator between them.
pub open spec fn spec_join(ls: Seq<Seq<char>>, sep: Seq<char>) -> Seq<char>
    decreases ls.len(),
{
    if ls.len() == 0 {
        Seq::empty()
    } else if ls.len() == 1 {
        ls[0]
    } else {
        ls[0] + sep + spec_join(ls.drop_first(), sep)
    }
}

pub proof fn lemma_join_push(ls: Seq<Seq<char>>, x: Seq<char>, sep: Seq<char>)
    ensures
        ls.len() == 0 ==> spec_join(ls.push(x), sep) =~= x,
        ls.len() > 0 ==> spec_join(ls.push(x), sep) =~= spec_join(ls, sep) + sep + x,
    decreases ls.len(),
{
    if ls.len() == 0 {
        assert(spec_join(ls.push(x), sep) == ls.push(x)[0]);
        assert(ls.push(x)[0] =~= x);
    } else if ls.len() == 1 {
        assert(ls.push(x).drop_first() =~= seq![x]);
        assert(spec_join(ls.push(x), sep) == ls.push(x)[0] + sep + spec_join(seq![x], sep));
        assert(ls.push(x)[0] =~= ls[0]);
        assert(spec_join(seq![x], sep) == x);
        assert(spec_join(ls, sep) == ls[0]);
    } else {
        assert(ls.push(x).drop_first() =~= ls.drop_first().push(x));
        lemma_join_push(ls.drop_first(), x, sep);
        assert(ls.push(x)[0] =~= ls[0]);
        assert(spec_join(ls.push(x), sep) =~= ls[0] + sep + spec_join(ls.drop_first().push(x), sep));
        assert(spec_join(ls.drop_first().push(x), sep) =~= spec_join(ls.drop_first(), sep) + sep + x);
        assert(ls[0] + sep + (spec_join(ls.drop_first(), sep) + sep + x) =~= (ls[0] + sep
            + spec_join(ls.drop_first(), sep)) + sep + x);
    }
}

/// Joins the pieces with the given separator.
pub fn join_chars(ls: &Vec<Vec<char>>, sep: &Vec<char>) -> (r: Vec<char>)
    ensures
        r@ == spec_join(views_of(ls@), sep@),
{
    let mut out: Vec<char> = Vec::new();
    let mut i: usize = 0;
    while i < ls.len()
        invariant
            i <= ls@.len(),
            out@ =~= spec_join(views_of(ls@).take(i as int), sep@),
        decreases ls@.len() - i,
    {
        let ghost pre = views_of(ls@).take(i as int);
        if i > 0 {
            append_chars(&mut out, sep);
        }
        append_chars(&mut out, &ls[i]);
        proof {
            assert(views_of(ls@).take(i + 1) =~= pre.push(views_of(ls@)[i as int]));
            lemma_join_push(pre, views_of(ls@)[i as int], sep@);
            assert(ls@[i as int]@ == views_of(ls@)[i as int]);
        }
        i = i + 1;
    }
    proof {
        assert(views_of(ls@).take(ls@.len() as int) =~= views_of(ls@));
    }
    out
}

// ------------------------------------------------------------------
// Whitespace, trimming, and case mapping
// ------------------------------------------------------------------

/// What `char::is_whitespace` holds of a character.
pub uninterp spec fn is_space(c: char) -> bool;

/// Relies on `char::is_whitespace`: the Unicode `White_Space` property; the
/// ASCII members are exactly space, tab and the newline control characters.
#[verifier::external_body]
pub fn is_space_char(c: char) -> (r: bool)
    ensures
        r == is_space(c),
        (c as u32) < 128 ==> r == (c == ' ' || c == '\t' || c == '\n' || c == '\r' || c == '\u{b}'
            || c == '\u{c}'),
{
    c.is_whitespace()
}

/// An ASCII upper-case letter mapped down; any other character unchanged.
pub open spec fn ascii_lower_char(c: char) -> char {
    if 65 <= c as u32 && c as u32 <= 90 {
        ((c as u8) + 32) as char
    } else {
        c
    }
}

/// An ASCII lower-case letter mapped up; any other character unchanged.
pub open spec fn ascii_upper_char(c: char) -> char {
    if 97 <= c as u32 && c as u32 <= 122 {
        ((c as u8) - 32) as char
    } else {
        c
    }
}

/// What `str::to_lowercase` returns for the given characters.
pub uninterp spec fn lower_of(s: Seq<char>) -> Seq<char>;

/// What `str::to_uppercase` returns for the given characters.
pub uninterp spec fn upper_of(s: Seq<char>) -> Seq<char>;

/// Relies on `str::to_lowercase`: the Unicode lowercase mapping, a function
/// of the characters alone; on ASCII it maps `A`..=`Z` down and keeps the
/// other characters.
#[verifier::external_body]
pub fn lower_str(s: &str) -> (r: String)
    ensures
        r@ == lower_of(s@),
        vstd::utf8::is_ascii_chars(s@) ==> r@ == s@.map_values(|c: char| ascii_lower_char(c)),
{
    s.to_lowercase()
}

/// Relies on `str::to_uppercase`: the Unicode uppercase mapping, a function
/// of the characters alone; on ASCII it maps `a`..=`z` up and keeps the
/// other characters.
#[verifier::external_body]
pub fn upper_str(s: &str) -> (r: String)
    ensures
        r@ == upper_of(s@),
        vstd::utf8::is_ascii_chars(s@) ==> r@ == s@.map_values(|c: char| ascii_upper_char(c)),
{
    s.to_uppercase()
}

/// The first character of `char::to_lowercase` for the given character.
pub uninterp spec fn char_lower_first_of(c: char) -> char;

/// The first character of `char::to_uppercase` for the given character.
pub uninterp spec fn char_upper_first_of(c: char) -> char;

/// All characters of `char::to_uppercase` for the given character.
pub uninterp spec fn char_upper_str_of(c: char) -> Seq<char>;

/// Relies on `char::to_lowercase`: its first character (the iterator is
/// never empty); an ASCII character maps inside ASCII, letters down.
#[verifier::external_body]
pub fn char_lower_first(c: char) -> (r: char)
    ensures
        r == char_lower_first_of(c),
        (c as u32) < 128 ==> r == ascii_lower_char(c),
{
    c.to_lowercase().next().unwrap_or(c)
}

/// Relies on `char::to_uppercase`: its first character (the iterator is
/// never empty); an ASCII character maps inside ASCII, letters up.
#[verifier::external_body]
pub fn char_upper_first(c: char) -> (r: char)
    ensures
        r == char_upper_first_of(c),
        (c as u32) < 128 ==> r == ascii_upper_char(c),
{
    c.to_uppercase().next().unwrap_or(c)
}

/// Relies on `char::to_uppercase`: the whole uppercase expansion (one or
/// more characters); for an ASCII character it is that character, letters up.
#[verifier::external_body]
pub fn char_upper_full(c: char) -> (r: String)
    ensures
        r@ == char_upper_str_of(c),
        (c as u32) < 128 ==> r@ == seq![ascii_upper_char(c)],
{
    c.to_uppercase().collect::<String>()
}

/// The sequence with leading white space removed.
pub open spec fn spec_trim_start(s: Seq<char>) -> Seq<char>
    decreases s.len(),
{
    if s.len() > 0 && is_space(s[0]) {
        spec_trim_start(s.drop_first())
    } else {
        s
    }
}

/// The sequence with trailing white space removed.
pub open spec fn spec_trim_end(s: Seq<char>) -> Seq<char>
    decreases s.len(),
{
    if s.len() > 0 && is_space(s.last()) {
        spec_trim_end(s.drop_last())
    } else {
        s
    }
}

/// What `str::trim` returns for the given characters.
pub open spec fn spec_trim(s: Seq<char>) -> Seq<char> {
    spec_trim_end(spec_trim_start(s))
}

/// Removes leading and trailing white space.
pub fn trim_chars(s: &Vec<char>) -> (r: Vec<char>)
    ensures
        r@ == spec_trim(s@),
{
    let n = s.len();
    let mut a: usize = 0;
    proof {
        assert(s@.skip(0) =~= s@);
    }
    while a < s.len() && is_space_char(s[a])
        invariant
            n == s@.len(),
            a <= s@.len(),
            spec_trim_start(s@) == spec_trim_start(s@.skip(a as int)),
        decreases s@.len() - a,
    {
        proof {
            assert(s@.skip(a as int).drop_first() =~= s@.skip(a + 1));
        }
        a = a + 1;
    }
    let ghost t = s@.skip(a as int);
    proof {
        assert(spec_trim_start(s@) == t);
    }
    let mut b: usize = s.len() - a;
    proof {
        assert(t.take(b as int) =~= t);
    }
    while b > 0 && is_space_char(s[a + b - 1])
        invariant
            n == s@.len(),
            a + b <= s@.len(),
            t == s@.skip(a as int),
            spec_trim_end(t) == spec_trim_end(t.take(b as int)),
        decreases b,
    {
        proof {
            assert(t.take(b as int).last() == s@[a + b - 1]);
            assert(t.take(b as int).drop_last() =~= t.take(b - 1));
        }
        b = b - 1;
    }
    proof {
        if b > 0 {
            assert(t.take(b as int).last() == s@[a + b - 1]);
        }
        assert(spec_trim_end(t.take(b as int)) == t.take(b as int));
    }
    let mut r: Vec<char> = Vec::new();
    let mut i: usize = 0;
    while i < b
        invariant
            n == s@.len(),
            a + b <= s@.len(),
            i <= b,
            t == s@.skip(a as int),
            r@ =~= t.take(b as int).take(i as int),
        decreases b - i,
    {
        r.push(s[a + i]);
        proof {
            assert(t.take(b as int).take(i + 1) =~= t.take(b as int).take(i as int).push(
                s@[a + i],
            ));
        }
        i = i + 1;
    }
    proof {
        assert(t.take(b as int).take(b as int) =~= t.take(b as int));
    }
    r
}

// ------------------------------------------------------------------
// Words, as `str::split_whitespace` sees them
// ------------------------------------------------------------------

/// Index of the first white-space character, or `s.len()` when none.
pub open spec fn first_space(s: Seq<char>) -> int
    decreases s.len(),
{
    if s.len() == 0 {
        0
    } else if is_space(s[0]) {
        0
    } else {
        1 + first_space(s.drop_first())
    }
}

pub proof fn lemma_first_space(s: Seq<char>)
    ensures
        0 <= first_space(s) <= s.len(),
        forall|j: int| 0 <= j < first_space(s) ==> !is_space(s[j]),
        first_space(s) < s.len() ==> is_space(s[first_space(s)]),
    decreases s.len(),
{
    if s.len() == 0 {
    } else if is_space(s[0]) {
    } else {
        lemma_first_space(s.drop_first());
        assert forall|j: int| 0 <= j < first_space(s) implies !is_space(s[j]) by {
            if j > 0 {
                assert(s.drop_first()[j - 1] == s[j]);
                assert(j - 1 < first_space(s.drop_first()));
            }
        }
    }
}

/// The maximal white-space-free words of `s`, in order.
pub open spec fn spec_words(s: Seq<char>) -> Seq<Seq<char>>
    decreases s.len(),
{
    if s.len() == 0 {
        Seq::empty()
    } else if is_space(s[0]) {
        spec_words(s.drop_first())
    } else {
        let i = first_space_bounded(s);
        seq![s.take(i)] + spec_words(s.skip(i))
    }
}

/// `first_space`, clipped into range so that recursion visibly terminates.
pub open spec fn first_space_bounded(s: Seq<char>) -> int {
    if first_space(s) < 1 {
        1
    } else if first_space(s) > s.len() {
        s.len() as int
    } else {
        first_space(s)
    }
}

pub proof fn lemma_first_space_concat(c: Seq<char>, r: Seq<char>)
    requires
        forall|j: int| 0 <= j < c.len() ==> !is_space(c[j]),
        r.len() == 0 || is_space(r[0]),
    ensures
        first_space(c + r) == c.len(),
    decreases c.len(),
{
    if c.len() == 0 {
        assert(c + r =~= r);
    } else {
        assert((c + r)[0] == c[0]);
        assert((c + r).drop_first() =~= c.drop_first() + r);
        assert(forall|j: int| 0 <= j < c.drop_first().len() ==> c.drop_first()[j] == c[j + 1]);
        lemma_first_space_concat(c.drop_first(), r);
    }
}

/// The words of a space-free sequence: none when empty, else itself.
pub proof fn lemma_words_no_space(c: Seq<char>)
    requires
        forall|j: int| 0 <= j < c.len() ==> !is_space(c[j]),
    ensures
        c.len() == 0 ==> spec_words(c) =~= Seq::<Seq<char>>::empty(),
        c.len() > 0 ==> spec_words(c) =~= seq![c],
{
    if c.len() > 0 {
        lemma_first_space_concat(c, Seq::empty());
        assert(c + Seq::<char>::empty() =~= c);
        assert(first_space(c) == c.len());
        assert(!is_space(c[0]));
        assert(first_space_bounded(c) == c.len());
        assert(c.take(c.len() as int) =~= c);
        assert(c.skip(c.len() as int) =~= Seq::<char>::empty());
        assert(spec_words(c) =~= seq![c.take(c.len() as int)] + spec_words(
            c.skip(c.len() as int),
        ));
        assert(seq![c] + Seq::<Seq<char>>::empty() =~= seq![c]);
    }
}

/// Splitting off one full word before a white-space character.
pub proof fn lemma_words_step(c: Seq<char>, r: Seq<char>)
    requires
        c.len() > 0,
        forall|j: int| 0 <= j < c.len() ==> !is_space(c[j]),
        r.len() > 0 && is_space(r[0]),
    ensures
        spec_words(c + r) =~= seq![c] + spec_words(r),
{
    let s = c + r;
    lemma_first_space_concat(c, r);
    assert(first_space(s) == c.len());
    assert(!is_space(s[0]));
    assert(first_space_bounded(s) == c.len());
    assert(s.take(c.len() as int) =~= c);
    assert(s.skip(c.len() as int) =~= r);
}

/// Splits a character sequence into its white-space-separated words.
pub fn split_words(s: &Vec<char>) -> (r: Vec<Vec<char>>)
    ensures
        views_of(r@) == spec_words(s@),
{
    let mut res: Vec<Vec<char>> = Vec::new();
    let mut cur: Vec<char> = Vec::new();
    let mut i: usize = 0;
    proof {
        assert(views_of(res@) =~= Seq::<Seq<char>>::empty());
        assert(cur@ + s@.skip(0) =~= s@);
        assert(views_of(res@) + spec_words(s@) =~= spec_words(s@));
    }
    while i < s.len()
        invariant
            i <= s@.len(),
            forall|j: int| 0 <= j < cur@.len() ==> !is_space(cur@[j]),
            spec_words(s@) =~= views_of(res@) + spec_words(cur@ + s@.skip(i as int)),
        decreases s@.len() - i,
    {
        let ghost rest = s@.skip(i as int);
        let ghost cur0 = cur@;
        let ghost res0 = res@;
        let c = s[i];
        if is_space_char(c) {
            proof {
                assert(is_space(rest[0]));
            }
            if cur.len() > 0 {
                proof {
                    lemma_words_step(cur0, rest);
                }
                res.push(cur);
                cur = Vec::new();
                proof {
                    lemma_views_of_push(res0, res@.last());
                    assert(views_of(res0) + (seq![cur0] + spec_words(rest)) =~= views_of(
                        res0,
                    ).push(cur0) + spec_words(rest));
                }
            } else {
                proof {
                    assert(cur0 + rest =~= rest);
                }
            }
            proof {
                assert(spec_words(rest) == spec_words(rest.drop_first()));
                assert(rest.drop_first() =~= s@.skip(i + 1));
                assert(cur@ + s@.skip(i + 1) =~= s@.skip(i + 1));
            }
        } else {
            cur.push(c);
            proof {
                assert(cur@ + s@.skip(i + 1) =~= cur0 + rest);
                assert(forall|j: int| 0 <= j < cur@.len() ==> cur@[j] == cur0.push(
                    s@[i as int],
                )[j]);
            }
        }
        i = i + 1;
    }
    proof {
        assert(cur@ + s@.skip(i as int) =~= cur@);
        lemma_words_no_space(cur@);
    }
    let ghost res1 = res@;
    if cur.len() > 0 {
        res.push(cur);
        proof {
            lemma_views_of_push(res1, res@.last());
        }
    }
    proof {
        assert(views_of(res@) =~= spec_words(s@));
    }
    res
}

// ------------------------------------------------------------------
// Substring replacement, as `str::replace` does it
// ------------------------------------------------------------------

/// Every non-overlapping occurrence of `p`, scanned left to right,
/// replaced by `rep`.
pub open spec fn spec_replace(s: Seq<char>, p: Seq<char>, rep: Seq<char>) -> Seq<char>
    recommends
        p.len() > 0,
    decreases s.len(),
{
    if p.len() == 0 || s.len() < p.len() {
        s
    } else if s.take(p.len() as int) == p {
        rep + spec_replace(s.skip(p.len() as int), p, rep)
    } else {
        s.take(1) + spec_replace(s.drop_first(), p, rep)
    }
}

/// True when `p` occurs in `s` starting at `i`.
pub fn window_eq(s: &Vec<char>, i: usize, p: &Vec<char>) -> (r: bool)
    requires
        i + p@.len() <= s@.len(),
    ensures
        r == (s@.subrange(i as int, i + p@.len()) == p@),
{
    let n = s.len();
    let mut j: usize = 0;
    while j < p.len()
        invariant
            n == s@.len(),
            i + p@.len() <= s@.len(),
            j <= p@.len(),
            forall|k: int| 0 <= k < j ==> s@[i + k] == p@[k],
        decreases p@.len() - j,
    {
        if s[i + j] != p[j] {
            proof {
                assert(s@.subrange(i as int, i + p@.len())[j as int] == s@[i + j]);
            }
            return false;
        }
        j = j + 1;
    }
    proof {
        assert(s@.subrange(i as int, i + p@.len()) =~= p@);
    }
    true
}

/// Replaces every non-overlapping occurrence of `p` by `rep`, left to right.
pub fn replace_chars(s: &Vec<char>, p: &Vec<char>, rep: &Vec<char>) -> (out: Vec<char>)
    requires
        p@.len() > 0,
    ensures
        out@ == spec_replace(s@, p@, rep@),
{
    let mut out: Vec<char> = Vec::new();
    let mut i: usize = 0;
    proof {
        assert(s@.skip(0) =~= s@);
        assert(out@ + spec_replace(s@, p@, rep@) =~= spec_replace(s@, p@, rep@));
    }
    while i < s.len()
        invariant
            p@.len() > 0,
            i <= s@.len(),
            spec_replace(s@, p@, rep@) =~= out@ + spec_replace(s@.skip(i as int), p@, rep@),
        decreases s@.len() - i,
    {
        let ghost rest = s@.skip(i as int);
        if p.len() <= s.len() - i && window_eq(s, i, p) {
            append_chars(&mut out, rep);
            proof {
                assert(rest.take(p@.len() as int) =~= s@.subrange(i as int, i + p@.len()));
                assert(rest.skip(p@.len() as int) =~= s@.skip(i + p@.len()));
                assert(spec_replace(rest, p@, rep@) == rep@ + spec_replace(
                    s@.skip(i + p@.len()),
                    p@,
                    rep@,
                ));
            }
            i = i + p.len();
        } else {
            out.push(s[i]);
            proof {
                if rest.len() < p@.len() {
                    assert(spec_replace(rest, p@, rep@) == rest);
                    assert(rest =~= seq![s@[i as int]] + s@.skip(i + 1));
                    assert(spec_replace(s@.skip(i + 1), p@, rep@) == s@.skip(i + 1));
                } else {
                    assert(rest.take(p@.len() as int) =~= s@.subrange(i as int, i + p@.len()));
                    assert(rest.take(1) =~= seq![s@[i as int]]);
                    assert(rest.drop_first() =~= s@.skip(i + 1));
                }
            }
            i = i + 1;
        }
    }
    proof {
        assert(s@.skip(s@.len() as int) =~= Seq::<char>::empty());
        assert(out@ =~= spec_replace(s@, p@, rep@));
    }
    out
}

// ------------------------------------------------------------------
// Duplicate removal, keeping first occurrences in order
// ------------------------------------------------------------------

/// The distinct elements of `ls`, each at its first occurrence.
pub open spec fn spec_unique(ls: Seq<Seq<char>>) -> Seq<Seq<char>>
    decreases ls.len(),
{
    if ls.len() == 0 {
        Seq::empty()
    } else {
        let pre = spec_unique(ls.drop_last());
        if ls.drop_last().contains(ls.last()) {
            pre
        } else {
            pre.push(ls.last())
        }
    }
}

pub proof fn lemma_contains_push(s: Seq<Seq<char>>, v: Seq<char>, x: Seq<char>)
    ensures
        s.push(v).contains(x) <==> (s.contains(x) || x == v),
{
    if s.push(v).contains(x) {
        let k = choose|k: int| 0 <= k < s.push(v).len() && s.push(v)[k] == x;
        if k < s.len() {
            assert(s[k] == x);
        }
    }
    if s.contains(x) {
        let k = choose|k: int| 0 <= k < s.len() && s[k] == x;
        assert(s.push(v)[k] == x);
    }
    if x == v {
        assert(s.push(v)[s.len() as int] == x);
    }
}

/// True when some element of `r` has view `x`.
pub fn contains_line(r: &Vec<Vec<char>>, x: &Vec<char>) -> (res: bool)
    ensures
        res == views_of(r@).contains(x@),
{
    let mut i: usize = 0;
    while i < r.len()
        invariant
            i <= r@.len(),
            forall|j: int| 0 <= j < i ==> views_of(r@)[j] != x@,
        decreases r@.len() - i,
    {
        if chars_eq(&r[i], x) {
            assert(views_of(r@)[i as int] == x@);
            return true;
        }
        i = i + 1;
    }
    false
}

/// Keeps the first occurrence of each distinct line, in order.
pub fn unique_lines(ls: Vec<Vec<char>>) -> (r: Vec<Vec<char>>)
    ensures
        views_of(r@) == spec_unique(views_of(ls@)),
{
    let mut res: Vec<Vec<char>> = Vec::new();
    let mut i: usize = 0;
    proof {
        assert(views_of(res@) =~= Seq::<Seq<char>>::empty());
        assert(views_of(ls@).take(0) =~= Seq::<Seq<char>>::empty());
    }
    while i < ls.len()
        invariant
            i <= ls@.len(),
            views_of(res@) =~= spec_unique(views_of(ls@).take(i as int)),
            forall|x: Seq<char>| views_of(res@).contains(x) <==> views_of(ls@).take(
                i as int,
            ).contains(x),
        decreases ls@.len() - i,
    {
        let ghost pre = views_of(ls@).take(i as int);
        let ghost v = views_of(ls@)[i as int];
        let ghost res0 = res@;
        proof {
            assert(views_of(ls@).take(i + 1).drop_last() =~= pre);
            assert(views_of(ls@).take(i + 1).last() == v);
        }
        let seen = contains_line(&res, &ls[i]);
        if !seen {
            let line = clone_chars(&ls[i]);
            res.push(line);
            proof {
                lemma_views_of_push(res0, res@.last());
            }
        }
        proof {
            assert forall|x: Seq<char>|
                views_of(res@).contains(x) <==> views_of(ls@).take(i + 1).contains(x) by {
                lemma_contains_push(pre, v, x);
                assert(views_of(ls@).take(i + 1) =~= pre.push(v));
                if !seen {
                    lemma_contains_push(views_of(res0), v, x);
                }
            }
        }
        i = i + 1;
    }
    proof {
        assert(views_of(ls@).take(ls@.len() as int) =~= views_of(ls@));
    }
    res
}

/// A copy of the character vector.
pub fn clone_chars(v: &Vec<char>) -> (r: Vec<char>)
    ensures
        r@ == v@,
{
    let mut r: Vec<char> = Vec::new();
    let mut i: usize = 0;
    while i < v.len()
        invariant
            i <= v@.len(),
            r@ =~= v@.take(i as int),
        decreases v@.len() - i,
    {
        r.push(v[i]);
        proof {
            assert(v@.take(i + 1) =~= v@.take(i as int).push(v@[i as int]));
        }
        i = i + 1;
    }
    proof {
        assert(v@.take(v@.len() as int) =~= v@);
    }
    r
}

// ------------------------------------------------------------------
// Lexicographic order and stable sorting
// ------------------------------------------------------------------

/// Lexicographic order on character sequences, by code point, as the
/// derived `Ord` on `String` orders their UTF-8 bytes.
pub open spec fn lex_le(a: Seq<char>, b: Seq<char>) -> bool
    decreases a.len(),
{
    if a.len() == 0 {
        true
    } else if b.len() == 0 {
        false
    } else if (a[0] as u32) < (b[0] as u32) {
        true
    } else if (a[0] as u32) > (b[0] as u32) {
        false
    } else {
        lex_le(a.drop_first(), b.drop_first())
    }
}

/// Decides `lex_le` on two character vectors.
pub fn lex_le_chars(a: &Vec<char>, b: &Vec<char>) -> (r: bool)
    ensures
        r == lex_le(a@, b@),
{
    let mut i: usize = 0;
    proof {
        assert(a@.skip(0) =~= a@);
        assert(b@.skip(0) =~= b@);
    }
    while i < a.len() && i < b.len()
        invariant
            i <= a@.len(),
            i <= b@.len(),
            lex_le(a@, b@) == lex_le(a@.skip(i as int), b@.skip(i as int)),
        decreases a@.len() - i,
    {
        let ca = a[i] as u32;
        let cb = b[i] as u32;
        if ca < cb {
            return true;
        }
        if ca > cb {
            return false;
        }
        proof {
            assert(a@.skip(i as int).drop_first() =~= a@.skip(i + 1));
            assert(b@.skip(i as int).drop_first() =~= b@.skip(i + 1));
        }
        i = i + 1;
    }
    proof {
        if i >= a@.len() {
            assert(a@.skip(i as int).len() == 0);
        } else {
            assert(b@.skip(i as int).len() == 0);
            assert(a@.skip(i as int).len() > 0);
        }
    }
    i >= a.len()
}

/// `x` inserted after every element that is `lex_le` below or equal to it:
/// the insertion step of a stable insertion sort.
pub open spec fn spec_insert_sorted(x: Seq<char>, l: Seq<Seq<char>>) -> Seq<Seq<char>>
    decreases l.len(),
{
    if l.len() == 0 {
        seq![x]
    } else if lex_le(l[0], x) {
        seq![l[0]] + spec_insert_sorted(x, l.drop_first())
    } else {
        seq![x] + l
    }
}

/// The stable sort of `ls` under `lex_le`, one insertion per element.
pub open spec fn spec_sort(ls: Seq<Seq<char>>) -> Seq<Seq<char>>
    decreases ls.len(),
{
    if ls.len() == 0 {
        Seq::empty()
    } else {
        spec_insert_sorted(ls.last(), spec_sort(ls.drop_last()))
    }
}

pub proof fn lemma_insert_sorted_at(x: Seq<char>, l: Seq<Seq<char>>, j: int)
    requires
        0 <= j <= l.len(),
        forall|k: int| 0 <= k < j ==> lex_le(l[k], x),
        j < l.len() ==> !lex_le(l[j], x),
    ensures
        spec_insert_sorted(x, l) =~= l.take(j).push(x) + l.skip(j),
    decreases j,
{
    if j == 0 {
        if l.len() == 0 {
            assert(spec_insert_sorted(x, l) =~= seq![x]);
        } else {
            assert(!lex_le(l[0], x));
        }
        assert(l.take(0).push(x) + l.skip(0) =~= seq![x] + l);
        if l.len() == 0 {
            assert(seq![x] + l =~= seq![x]);
        }
    } else {
        assert(lex_le(l[0], x));
        assert(forall|k: int| 0 <= k < j - 1 ==> l.drop_first()[k] == l[k + 1]);
        if j - 1 < l.drop_first().len() {
            assert(l.drop_first()[j - 1] == l[j]);
        }
        lemma_insert_sorted_at(x, l.drop_first(), j - 1);
        assert(spec_insert_sorted(x, l) =~= seq![l[0]] + (l.drop_first().take(j - 1).push(x)
            + l.drop_first().skip(j - 1)));
        assert(l.drop_first().take(j - 1) =~= l.take(j).drop_first());
        assert(l.drop_first().skip(j - 1) =~= l.skip(j));
        assert(seq![l[0]] + (l.take(j).drop_first().push(x) + l.skip(j)) =~= l.take(j).push(x)
            + l.skip(j));
    }
}

/// Sorts the lines under `lex_le`, stably.
pub fn sort_chars_vec(ls: Vec<Vec<char>>) -> (r: Vec<Vec<char>>)
    ensures
        views_of(r@) == spec_sort(views_of(ls@)),
{
    let mut res: Vec<Vec<char>> = Vec::new();
    let mut i: usize = 0;
    proof {
        assert(views_of(ls@).take(0) =~= Seq::<Seq<char>>::empty());
        assert(views_of(res@) =~= Seq::<Seq<char>>::empty());
    }
    while i < ls.len()
        invariant
            i <= ls@.len(),
            views_of(res@) =~= spec_sort(views_of(ls@).take(i as int)),
        decreases ls@.len() - i,
    {
        let x = clone_chars(&ls[i]);
        let ghost pre = views_of(ls@).take(i as int);
        proof {
            assert(views_of(ls@).take(i + 1).drop_last() =~= pre);
            assert(views_of(ls@).take(i + 1).last() == views_of(ls@)[i as int]);
        }
        insert_sorted_exec(&mut res, x);
        i = i + 1;
    }
    proof {
        assert(views_of(ls@).take(ls@.len() as int) =~= views_of(ls@));
    }
    res
}

/// Inserts `x` after every element below or equal to it.
pub fn insert_sorted_exec(res: &mut Vec<Vec<char>>, x: Vec<char>) -> (r: ())
    ensures
        views_of(final(res)@) == spec_insert_sorted(x@, views_of(old(res)@)),
{
    let mut j: usize = 0;
    while j < res.len() && lex_le_chars(&res[j], &x)
        invariant
            j <= res@.len(),
            res@ == old(res)@,
            forall|k: int| 0 <= k < j ==> lex_le(views_of(res@)[k], x@),
        decreases res@.len() - j,
    {
        j = j + 1;
    }
    proof {
        lemma_insert_sorted_at(x@, views_of(res@), j as int);
    }
    let ghost res0 = res@;
    res.insert(j, x);
    proof {
        assert(views_of(res@) =~= views_of(res0).take(j as int).push(x@) + views_of(res0).skip(
            j as int,
        ));
    }
}

// ------------------------------------------------------------------
// Laws of sorting and duplicate removal
// ------------------------------------------------------------------

/// Every pair of positions is ordered under `lex_le`.
pub open spec fn sorted_lex(l: Seq<Seq<char>>) -> bool {
    forall|i: int, j: int| 0 <= i < j < l.len() ==> lex_le(l[i], l[j])
}

/// `lex_le` is total: of any two sequences, one is below or equal.
pub proof fn lemma_lex_le_total(a: Seq<char>, b: Seq<char>)
    ensures
        lex_le(a, b) || lex_le(b, a),
    decreases a.len(),
{
    if a.len() == 0 {
    } else if b.len() == 0 {
        assert(lex_le(b, a));
    } else if (a[0] as u32) < (b[0] as u32) {
        assert(lex_le(a, b));
    } else if (a[0] as u32) > (b[0] as u32) {
        assert(lex_le(b, a));
    } else {
        lemma_lex_le_total(a.drop_first(), b.drop_first());
    }
}

/// `lex_le` is transitive.
pub proof fn lemma_lex_le_trans(a: Seq<char>, b: Seq<char>, c: Seq<char>)
    requires
        lex_le(a, b),
        lex_le(b, c),
    ensures
        lex_le(a, c),
    decreases a.len(),
{
    if a.len() == 0 {
    } else {
        assert(b.len() > 0);
        assert(c.len() > 0);
        let a0 = a[0] as u32;
        let b0 = b[0] as u32;
        let c0 = c[0] as u32;
        assert(a0 <= b0);
        assert(b0 <= c0);
        if a0 == b0 && b0 == c0 {
            lemma_lex_le_trans(a.drop_first(), b.drop_first(), c.drop_first());
        } else {
            assert(a0 < c0);
        }
    }
}

/// One insertion keeps the list sorted and adds exactly the new element.
pub proof fn lemma_insert_sorted_props(x: Seq<char>, l: Seq<Seq<char>>)
    requires
        sorted_lex(l),
    ensures
        sorted_lex(spec_insert_sorted(x, l)),
        spec_insert_sorted(x, l).to_multiset() == l.to_multiset().insert(x),
    decreases l.len(),
{
    broadcast use vstd::seq_lib::group_to_multiset_ensures;

    let res = spec_insert_sorted(x, l);
    if l.len() == 0 {
        assert(res =~= Seq::<Seq<char>>::empty().push(x));
        assert(l.to_multiset() =~= Multiset::<Seq<char>>::empty());
        assert(res.to_multiset() =~= l.to_multiset().insert(x));
    } else if lex_le(l[0], x) {
        let rest = l.drop_first();
        assert(sorted_lex(rest)) by {
            assert(forall|i: int, j: int|
                0 <= i < j < rest.len() ==> rest[i] == l[i + 1] && rest[j] == l[j + 1]);
        }
        lemma_insert_sorted_props(x, rest);
        let ins = spec_insert_sorted(x, rest);
        assert(res =~= seq![l[0]] + ins);
        assert forall|j: int| 0 <= j < ins.len() implies lex_le(l[0], #[trigger] ins[j]) by {
            assert(ins.contains(ins[j]));
            assert(ins.to_multiset().count(ins[j]) > 0);
            if ins[j] == x {
            } else {
                assert(rest.to_multiset().count(ins[j]) > 0);
                assert(rest.contains(ins[j]));
                let w = choose|w: int| 0 <= w < rest.len() && rest[w] == ins[j];
                assert(rest[w] == l[w + 1]);
                assert(lex_le(l[0], l[w + 1]));
            }
        }
        assert forall|i: int, j: int| 0 <= i < j < res.len() implies lex_le(
            #[trigger] res[i],
            #[trigger] res[j],
        ) by {
            if i == 0 {
                assert(res[j] == ins[j - 1]);
            } else {
                assert(res[i] == ins[i - 1]);
                assert(res[j] == ins[j - 1]);
            }
        }
        lemma_multiset_commutative(seq![l[0]], ins);
        assert(l =~= seq![l[0]] + rest);
        lemma_multiset_commutative(seq![l[0]], rest);
        assert(res.to_multiset() =~= l.to_multiset().insert(x));
    } else {
        lemma_lex_le_total(l[0], x);
        assert(lex_le(x, l[0]));
        assert(res =~= seq![x] + l);
        assert forall|j: int| 0 <= j < l.len() implies lex_le(x, #[trigger] l[j]) by {
            if j > 0 {
                assert(lex_le(l[0], l[j]));
                lemma_lex_le_trans(x, l[0], l[j]);
            }
        }
        assert forall|i: int, j: int| 0 <= i < j < res.len() implies lex_le(
            #[trigger] res[i],
            #[trigger] res[j],
        ) by {
            if i > 0 {
                assert(res[i] == l[i - 1]);
                assert(res[j] == l[j - 1]);
            } else {
                assert(res[j] == l[j - 1]);
            }
        }
        lemma_multiset_commutative(seq![x], l);
        assert(res.to_multiset() =~= l.to_multiset().insert(x));
    }
}

/// The sort is sorted under `lex_le` and permutes the lines: it keeps
/// exactly the same multiset of lines.
pub proof fn lemma_sort_props(ls: Seq<Seq<char>>)
    ensures
        sorted_lex(spec_sort(ls)),
        spec_sort(ls).to_multiset() == ls.to_multiset(),
    decreases ls.len(),
{
    broadcast use vstd::seq_lib::group_to_multiset_ensures;

    if ls.len() == 0 {
    } else {
        lemma_sort_props(ls.drop_last());
        lemma_insert_sorted_props(ls.last(), spec_sort(ls.drop_last()));
        assert(ls =~= ls.drop_last().push(ls.last()));
        assert(ls.to_multiset() =~= ls.drop_last().to_multiset().insert(ls.last()));
    }
}

/// Duplicate removal keeps no duplicates and exactly the original lines'
/// set: each distinct line survives, at its first occurrence.
pub proof fn lemma_unique_props(ls: Seq<Seq<char>>)
    ensures
        forall|i: int, j: int|
            0 <= i < j < spec_unique(ls).len() ==> spec_unique(ls)[i] != spec_unique(ls)[j],
        forall|x: Seq<char>| spec_unique(ls).contains(x) <==> ls.contains(x),
    decreases ls.len(),
{
    if ls.len() == 0 {
    } else {
        lemma_unique_props(ls.drop_last());
        let pre = spec_unique(ls.drop_last());
        let last = ls.last();
        assert(ls =~= ls.drop_last().push(last));
        assert forall|x: Seq<char>| ls.contains(x) <==> (ls.drop_last().contains(x) || x
            == last) by {
            lemma_contains_push(ls.drop_last(), last, x);
        }
        if ls.drop_last().contains(last) {
            assert(spec_unique(ls) == pre);
        } else {
            assert(spec_unique(ls) == pre.push(last));
            assert(!pre.contains(last));
            assert forall|x: Seq<char>|
                spec_unique(ls).contains(x) <==> (pre.contains(x) || x == last) by {
                lemma_contains_push(pre, last, x);
            }
            assert forall|i: int, j: int|
                0 <= i < j < spec_unique(ls).len() implies spec_unique(ls)[i] != spec_unique(
                ls,
            )[j] by {
                if j == pre.len() {
                    assert(spec_unique(ls)[i] == pre[i]);
                    assert(pre.contains(pre[i]));
                    assert(spec_unique(ls)[j] == last);
                } else {
                    assert(spec_unique(ls)[i] == pre[i]);
                    assert(spec_unique(ls)[j] == pre[j]);
                }
            }
        }
    }
}

// ------------------------------------------------------------------
// Stable sorting of key/value pairs by key
// ------------------------------------------------------------------

/// The views of a sequence of key/value character-vector pairs.
pub open spec fn pair_views(vs: Seq<(Vec<char>, Vec<char>)>) -> Seq<(Seq<char>, Seq<char>)> {
    Seq::new(vs.len(), |i: int| (vs[i].0@, vs[i].1@))
}

/// `x` inserted after every pair whose key is below or equal to its key.
pub open spec fn spec_insert_by_key(
    x: (Seq<char>, Seq<char>),
    l: Seq<(Seq<char>, Seq<char>)>,
) -> Seq<(Seq<char>, Seq<char>)>
    decreases l.len(),
{
    if l.len() == 0 {
        seq![x]
    } else if lex_le(l[0].0, x.0) {
        seq![l[0]] + spec_insert_by_key(x, l.drop_first())
    } else {
        seq![x] + l
    }
}

/// The stable sort of the pairs by key under `lex_le`.
pub open spec fn spec_sort_by_key(ls: Seq<(Seq<char>, Seq<char>)>) -> Seq<(Seq<char>, Seq<char>)>
    decreases ls.len(),
{
    if ls.len() == 0 {
        Seq::empty()
    } else {
        spec_insert_by_key(ls.last(), spec_sort_by_key(ls.drop_last()))
    }
}

pub proof fn lemma_insert_by_key_at(
    x: (Seq<char>, Seq<char>),
    l: Seq<(Seq<char>, Seq<char>)>,
    j: int,
)
    requires
        0 <= j <= l.len(),
        forall|k: int| 0 <= k < j ==> lex_le((#[trigger] l[k]).0, x.0),
        j < l.len() ==> !lex_le(l[j].0, x.0),
    ensures
        spec_insert_by_key(x, l) =~= l.take(j).push(x) + l.skip(j),
    decreases j,
{
    if j == 0 {
        if l.len() == 0 {
            assert(spec_insert_by_key(x, l) =~= seq![x]);
        } else {
            assert(!lex_le(l[0].0, x.0));
        }
        assert(l.take(0).push(x) + l.skip(0) =~= seq![x] + l);
        if l.len() == 0 {
            assert(seq![x] + l =~= seq![x]);
        }
    } else {
        assert(lex_le(l[0].0, x.0));
        assert(forall|k: int| 0 <= k < j - 1 ==> (#[trigger] l.drop_first()[k]) == l[k + 1]);
        if j - 1 < l.drop_first().len() {
            assert(l.drop_first()[j - 1] == l[j]);
        }
        lemma_insert_by_key_at(x, l.drop_first(), j - 1);
        assert(l.drop_first().take(j - 1) =~= l.take(j).drop_first());
        assert(l.drop_first().skip(j - 1) =~= l.skip(j));
        assert(seq![l[0]] + (l.take(j).drop_first().push(x) + l.skip(j)) =~= l.take(j).push(x)
            + l.skip(j));
    }
}

/// Sorts the pairs by key under `lex_le`, stably.
pub fn sort_pairs_by_key(ls: Vec<(Vec<char>, Vec<char>)>) -> (r: Vec<(Vec<char>, Vec<char>)>)
    ensures
        pair_views(r@) == spec_sort_by_key(pair_views(ls@)),
{
    let mut res: Vec<(Vec<char>, Vec<char>)> = Vec::new();
    let mut i: usize = 0;
    proof {
        assert(pair_views(ls@).take(0) =~= Seq::<(Seq<char>, Seq<char>)>::empty());
        assert(pair_views(res@) =~= Seq::<(Seq<char>, Seq<char>)>::empty());
    }
    while i < ls.len()
        invariant
            i <= ls@.len(),
            pair_views(res@) =~= spec_sort_by_key(pair_views(ls@).take(i as int)),
        decreases ls@.len() - i,
    {
        let key = clone_chars(&ls[i].0);
        let val = clone_chars(&ls[i].1);
        let ghost pre = pair_views(ls@).take(i as int);
        proof {
            assert(pair_views(ls@).take(i + 1).drop_last() =~= pre);
            assert(pair_views(ls@).take(i + 1).last() == pair_views(ls@)[i as int]);
        }
        insert_pair_exec(&mut res, (key, val));
        i = i + 1;
    }
    proof {
        assert(pair_views(ls@).take(ls@.len() as int) =~= pair_views(ls@));
    }
    res
}

/// Inserts the pair after every pair whose key is below or equal to its key.
pub fn insert_pair_exec(res: &mut Vec<(Vec<char>, Vec<char>)>, x: (Vec<char>, Vec<char>)) -> (r:
    ())
    ensures
        pair_views(final(res)@) == spec_insert_by_key(
            (x.0@, x.1@),
            pair_views(old(res)@),
        ),
{
    let mut j: usize = 0;
    while j < res.len() && lex_le_chars(&res[j].0, &x.0)
        invariant
            j <= res@.len(),
            res@ == old(res)@,
            forall|k: int| 0 <= k < j ==> lex_le((#[trigger] pair_views(res@)[k]).0, x.0@),
        decreases res@.len() - j,
    {
        j = j + 1;
    }
    proof {
        lemma_insert_by_key_at((x.0@, x.1@), pair_views(res@), j as int);
    }
    let ghost res0 = res@;
    res.insert(j, x);
    proof {
        assert(pair_views(res@) =~= pair_views(res0).take(j as int).push((x.0@, x.1@))
            + pair_views(res0).skip(j as int));
    }
}

/// Appends all characters of `src` to `dst`.
pub fn append_chars(dst: &mut Vec<char>, src: &Vec<char>) -> (r: ())
    ensures
        final(dst)@ == old(dst)@ + src@,
{
    let mut i: usize = 0;
    while i < src.len()
        invariant
            i <= src@.len(),
            dst@ =~= old(dst)@ + src@.take(i as int),
        decreases src@.len() - i,
    {
        dst.push(src[i]);
        proof {
            assert(old(dst)@ + src@.take(i + 1) =~= (old(dst)@ + src@.take(i as int)).push(
                src@[i as int]));
        }
        i = i + 1;
    }
    proof {
        assert(dst@ =~= old(dst)@ + src@);
    }
}

} // verus!
