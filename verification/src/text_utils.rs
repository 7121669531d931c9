//! Text utilities: defanging, line cleanup, deduplication, sorting,
//! trimming, reversal and quoting, each a pure `text -> text` transform
//! verified against a spec over `Seq<char>`.
use vstd::prelude::*;

use rand::seq::SliceRandom;

use crate::numkit::spec_radix_nat;
use crate::strkit::{
    append_chars, chars1, chars3, chars4, chars_to_string, clone_chars, join_chars,
    lower_of, lower_str, pair_views, spec_join, spec_lines, spec_replace, spec_sort,
    spec_sort_by_key, spec_trim, spec_unique, split_lines, str_eq, str_to_chars, replace_chars,
    sort_chars_vec, sort_pairs_by_key, trim_chars, unique_lines, views_of,
};

verus! {

/// The text-utility operations.
#[derive(Clone, Copy, Debug, PartialEq, Eq, Structural)]
pub enum TextUtilOp {
    Defang,
    Refang,
    Deburr,
    ShuffleLines,
    SumAll,
    CountChars,
    CollapseLines,
    DedupLines,
    SortLines,
    Trim,
    NaturalSortLines,
    ReverseString,
    LoremIpsum,
    MdQuote,
    ReplaceSmartQuotes,
    Unknown,
}

/// The operation a token selects, matched against the token as written.
pub open spec fn spec_text_util_op(s: Seq<char>) -> TextUtilOp {
    if s == "defang"@ {
        TextUtilOp::Defang
    } else if s == "refang"@ {
        TextUtilOp::Refang
    } else if s == "deburr"@ {
        TextUtilOp::Deburr
    } else if s == "shuffle"@ {
        TextUtilOp::ShuffleLines
    } else if s == "sum"@ {
        TextUtilOp::SumAll
    } else if s == "count"@ {
        TextUtilOp::CountChars
    } else if s == "collapse"@ {
        TextUtilOp::CollapseLines
    } else if s == "dedup"@ {
        TextUtilOp::DedupLines
    } else if s == "sort"@ {
        TextUtilOp::SortLines
    } else if s == "trim"@ {
        TextUtilOp::Trim
    } else if s == "natural_sort"@ {
        TextUtilOp::NaturalSortLines
    } else if s == "reverse"@ {
        TextUtilOp::ReverseString
    } else if s == "lorem_ipsum"@ {
        TextUtilOp::LoremIpsum
    } else if s == "md_quote"@ {
        TextUtilOp::MdQuote
    } else if s == "replace_smart_quotes"@ {
        TextUtilOp::ReplaceSmartQuotes
    } else {
        TextUtilOp::Unknown
    }
}

/// Maps a token, as written, to its text-utility operation.
pub fn str_to_encoding_op(arg: &str) -> (r: TextUtilOp)
    ensures
        r == spec_text_util_op(arg@),
{
    if str_eq(arg, "defang") {
        TextUtilOp::Defang
    } else if str_eq(arg, "refang") {
        TextUtilOp::Refang
    } else if str_eq(arg, "deburr") {
        TextUtilOp::Deburr
    } else if str_eq(arg, "shuffle") {
        TextUtilOp::ShuffleLines
    } else if str_eq(arg, "sum") {
        TextUtilOp::SumAll
    } else if str_eq(arg, "count") {
        TextUtilOp::CountChars
    } else if str_eq(arg, "collapse") {
        TextUtilOp::CollapseLines
    } else if str_eq(arg, "dedup") {
        TextUtilOp::DedupLines
    } else if str_eq(arg, "sort") {
        TextUtilOp::SortLines
    } else if str_eq(arg, "trim") {
        TextUtilOp::Trim
    } else if str_eq(arg, "natural_sort") {
        TextUtilOp::NaturalSortLines
    } else if str_eq(arg, "reverse") {
        TextUtilOp::ReverseString
    } else if str_eq(arg, "lorem_ipsum") {
        TextUtilOp::LoremIpsum
    } else if str_eq(arg, "md_quote") {
        TextUtilOp::MdQuote
    } else if str_eq(arg, "replace_smart_quotes") {
        TextUtilOp::ReplaceSmartQuotes
    } else {
        TextUtilOp::Unknown
    }
}

/// The operation of the first token whose lowered form is a text-utility
/// keyword, resolved against the token as written.
pub open spec fn spec_select_text_util(args: Seq<Seq<char>>) -> TextUtilOp
    decreases args.len(),
{
    if args.len() == 0 {
        TextUtilOp::Unknown
    } else if crate::utils::text_util_kw(lower_of(args[0])) {
        spec_text_util_op(args[0])
    } else {
        spec_select_text_util(args.drop_first())
    }
}

/// Scans the arguments for the first text-utility keyword.
pub fn select_text_util_option(args: &Vec<String>) -> (r: TextUtilOp)
    ensures
        r == spec_select_text_util(crate::utils::str_views(args@)),
{
    let ghost av = crate::utils::str_views(args@);
    let mut i: usize = 0;
    proof {
        assert(av.skip(0) =~= av);
    }
    while i < args.len()
        invariant
            av == crate::utils::str_views(args@),
            i <= args@.len(),
            spec_select_text_util(av) == spec_select_text_util(av.skip(i as int)),
        decreases args@.len() - i,
    {
        let low = lower_str(args[i].as_str());
        proof {
            assert(av.skip(i as int)[0] == av[i as int]);
            assert(av.skip(i as int).drop_first() =~= av.skip(i + 1));
        }
        if crate::utils::is_text_util_kw(low.as_str()) {
            return str_to_encoding_op(args[i].as_str());
        }
        i = i + 1;
    }
    proof {
        assert(av.skip(args@.len() as int) =~= Seq::<Seq<char>>::empty());
    }
    TextUtilOp::Unknown
}

// ------------------------------------------------------------------
// The operations
// ------------------------------------------------------------------

/// Every dot bracketed and `http` turned to `hxxp`.
pub open spec fn spec_defang(s: Seq<char>) -> Seq<char> {
    spec_replace(
        spec_replace(s, seq!['.'], seq!['[', '.', ']']),
        seq!['h', 't', 't', 'p'],
        seq!['h', 'x', 'x', 'p'],
    )
}

/// Replaces `.` by `[.]`, then `http` by `hxxp`.
pub fn defang(text: &str) -> (r: String)
    ensures
        r@ == spec_defang(text@),
{
    let cs = str_to_chars(text);
    let dot: Vec<char> = chars1('.');
    let bdot: Vec<char> = chars3('[', '.', ']');
    let http: Vec<char> = chars4('h', 't', 't', 'p');
    let hxxp: Vec<char> = chars4('h', 'x', 'x', 'p');
    let step1 = replace_chars(&cs, &dot, &bdot);
    let step2 = replace_chars(&step1, &http, &hxxp);
    chars_to_string(&step2)
}

/// Every `hxxp` turned back to `http` and `[.]` to a dot.
pub open spec fn spec_refang(s: Seq<char>) -> Seq<char> {
    spec_replace(
        spec_replace(s, seq!['h', 'x', 'x', 'p'], seq!['h', 't', 't', 'p']),
        seq!['[', '.', ']'],
        seq!['.'],
    )
}

/// Replaces `hxxp` by `http`, then `[.]` by `.`.
pub fn refang(text: &str) -> (r: String)
    ensures
        r@ == spec_refang(text@),
{
    let cs = str_to_chars(text);
    let dot: Vec<char> = chars1('.');
    let bdot: Vec<char> = chars3('[', '.', ']');
    let http: Vec<char> = chars4('h', 't', 't', 'p');
    let hxxp: Vec<char> = chars4('h', 'x', 'x', 'p');
    let step1 = replace_chars(&cs, &hxxp, &http);
    let step2 = replace_chars(&step1, &bdot, &dot);
    chars_to_string(&step2)
}

/// The number of characters, in decimal.
pub fn count_chars(text: &str) -> (r: String)
    ensures
        r@ == spec_radix_nat(text@.len(), 10),
{
    let cs = str_to_chars(text);
    let digits = crate::numkit::radix_chars_u64(cs.len() as u64, 10);
    chars_to_string(&digits)
}

/// All newlines removed.
pub fn collapse_lines(text: &str) -> (r: String)
    ensures
        r@ == spec_replace(text@, seq!['\n'], Seq::<char>::empty()),
{
    let cs = str_to_chars(text);
    let nl: Vec<char> = chars1('\n');
    let empty: Vec<char> = Vec::new();
    let out = replace_chars(&cs, &nl, &empty);
    chars_to_string(&out)
}

/// The lines with duplicates removed, first occurrences kept in order.
pub fn dedup_lines(text: &str) -> (r: String)
    ensures
        r@ == spec_join(spec_unique(spec_lines(text@)), seq!['\n']),
{
    let cs = str_to_chars(text);
    let lines = split_lines(&cs);
    let uniq = unique_lines(lines);
    let nl: Vec<char> = chars1('\n');
    let out = join_chars(&uniq, &nl);
    chars_to_string(&out)
}

/// The lines sorted lexicographically.
pub fn sort_lines(text: &str) -> (r: String)
    ensures
        r@ == spec_join(spec_sort(spec_lines(text@)), seq!['\n']),
{
    let cs = str_to_chars(text);
    let lines = split_lines(&cs);
    let sorted = sort_chars_vec(lines);
    let nl: Vec<char> = chars1('\n');
    let out = join_chars(&sorted, &nl);
    chars_to_string(&out)
}

/// Leading and trailing white space removed.
pub fn trim_input(text: &str) -> (r: String)
    ensures
        r@ == spec_trim(text@),
{
    let cs = str_to_chars(text);
    let out = trim_chars(&cs);
    chars_to_string(&out)
}

/// The lines keyed by their lowered forms.
pub open spec fn spec_keyed_lines(ls: Seq<Seq<char>>) -> Seq<(Seq<char>, Seq<char>)> {
    ls.map_values(|l: Seq<char>| (lower_of(l), l))
}

/// The value components of the pairs.
pub open spec fn spec_pair_vals(ps: Seq<(Seq<char>, Seq<char>)>) -> Seq<Seq<char>> {
    ps.map_values(|p: (Seq<char>, Seq<char>)| p.1)
}

/// The lines sorted by their lowered forms, stably.
pub fn natural_sort_lines(text: &str) -> (r: String)
    ensures
        r@ == spec_join(
            spec_pair_vals(spec_sort_by_key(spec_keyed_lines(spec_lines(text@)))),
            seq!['\n'],
        ),
{
    let cs = str_to_chars(text);
    let lines = split_lines(&cs);
    let mut pairs: Vec<(Vec<char>, Vec<char>)> = Vec::new();
    let mut i: usize = 0;
    proof {
        assert(pair_views(pairs@) =~= spec_keyed_lines(views_of(lines@).take(0)));
    }
    while i < lines.len()
        invariant
            i <= lines@.len(),
            views_of(lines@) == spec_lines(text@),
            pair_views(pairs@) =~= spec_keyed_lines(views_of(lines@).take(i as int)),
        decreases lines@.len() - i,
    {
        let line_str = chars_to_string(&lines[i]);
        let low = lower_str(line_str.as_str());
        let low_chars = str_to_chars(low.as_str());
        let line = clone_chars(&lines[i]);
        let ghost kv = low_chars@;
        let ghost vv = line@;
        let ghost pairs0 = pairs@;
        pairs.push((low_chars, line));
        proof {
            let lv = views_of(lines@);
            assert(pairs@.len() == pairs0.len() + 1);
            assert(pair_views(pairs0).len() == pairs0.len());
            assert(lv.take(i as int).len() == i as int);
            assert(pairs0.len() == i as int);
            assert(pairs@.last().0@ == kv);
            assert(pairs@.last().1@ == vv);
            assert(kv == lower_of(lv[i as int]));
            assert(vv == lv[i as int]);
            assert(pair_views(pairs@)[i as int] == (lower_of(lv[i as int]), lv[i as int]));
            assert(lv.take(i + 1) =~= lv.take(i as int).push(lv[i as int]));
            assert(spec_keyed_lines(lv.take(i + 1))[i as int] == (
                lower_of(lv[i as int]),
                lv[i as int],
            ));
            assert forall|j: int| 0 <= j < i implies #[trigger] pair_views(pairs@)[j]
                == spec_keyed_lines(lv.take(i + 1))[j] by {
                assert(pairs@[j] == pairs0[j]);
                assert(pair_views(pairs0)[j] == spec_keyed_lines(lv.take(i as int))[j]);
                assert(spec_keyed_lines(lv.take(i as int))[j] == (
                    lower_of(lv.take(i as int)[j]),
                    lv.take(i as int)[j],
                ));
                assert(lv.take(i as int)[j] == lv.take(i + 1)[j]);
            }
            assert(pair_views(pairs@) =~= spec_keyed_lines(lv.take(i + 1)));
        }
        i = i + 1;
    }
    proof {
        assert(views_of(lines@).take(lines@.len() as int) =~= views_of(lines@));
    }
    let sorted = sort_pairs_by_key(pairs);
    let mut vals: Vec<Vec<char>> = Vec::new();
    let mut k: usize = 0;
    proof {
        assert(views_of(vals@) =~= spec_pair_vals(pair_views(sorted@).take(0)));
    }
    while k < sorted.len()
        invariant
            k <= sorted@.len(),
            pair_views(sorted@) == spec_sort_by_key(spec_keyed_lines(spec_lines(text@))),
            views_of(vals@) =~= spec_pair_vals(pair_views(sorted@).take(k as int)),
        decreases sorted@.len() - k,
    {
        let v = clone_chars(&sorted[k].1);
        let ghost vval = v@;
        let ghost vals0 = vals@;
        vals.push(v);
        proof {
            let pv = pair_views(sorted@);
            assert(vals@.len() == vals0.len() + 1);
            assert(views_of(vals0).len() == vals0.len());
            assert(pv.take(k as int).len() == k as int);
            assert(vals0.len() == k as int);
            assert(vals@.last()@ == vval);
            assert(vval == pv[k as int].1);
            assert(views_of(vals@)[k as int] == pv[k as int].1);
            assert(pv.take(k + 1) =~= pv.take(k as int).push(pv[k as int]));
            assert(spec_pair_vals(pv.take(k + 1))[k as int] == pv[k as int].1);
            assert forall|j: int| 0 <= j < k implies #[trigger] views_of(vals@)[j]
                == spec_pair_vals(pv.take(k + 1))[j] by {
                assert(vals@[j] == vals0[j]);
                assert(views_of(vals0)[j] == spec_pair_vals(pv.take(k as int))[j]);
                assert(spec_pair_vals(pv.take(k as int))[j] == pv.take(k as int)[j].1);
                assert(pv.take(k as int)[j] == pv.take(k + 1)[j]);
            }
            assert(views_of(vals@) =~= spec_pair_vals(pv.take(k + 1)));
        }
        k = k + 1;
    }
    proof {
        assert(pair_views(sorted@).take(sorted@.len() as int) =~= pair_views(sorted@));
    }
    let nl: Vec<char> = chars1('\n');
    let out = join_chars(&vals, &nl);
    chars_to_string(&out)
}

/// The characters in reverse order.
pub open spec fn spec_reverse(s: Seq<char>) -> Seq<char> {
    Seq::new(s.len(), |i: int| s[s.len() - 1 - i])
}

/// Reverses the string character by character.
pub fn reverse_string(text: &str) -> (r: String)
    ensures
        r@ == spec_reverse(text@),
{
    let cs = str_to_chars(text);
    let mut out: Vec<char> = Vec::new();
    let mut i: usize = cs.len();
    while i > 0
        invariant
            i <= cs@.len(),
            cs@ == text@,
            out@.len() == cs@.len() - i,
            forall|j: int| 0 <= j < out@.len() ==> out@[j] == cs@[cs@.len() - 1 - j],
        decreases i,
    {
        out.push(cs[i - 1]);
        i = i - 1;
    }
    proof {
        assert(out@ =~= spec_reverse(text@));
    }
    chars_to_string(&out)
}

/// Each line prefixed with a Markdown quotation mark.
pub open spec fn spec_md_quoted(ls: Seq<Seq<char>>) -> Seq<Seq<char>> {
    ls.map_values(|l: Seq<char>| seq![' ', '>', ' '] + l)
}

/// Prefixes each line with ` > `.
pub fn md_quote(text: &str) -> (r: String)
    ensures
        r@ == spec_join(spec_md_quoted(spec_lines(text@)), seq!['\n']),
{
    let cs = str_to_chars(text);
    let lines = split_lines(&cs);
    let mut quoted: Vec<Vec<char>> = Vec::new();
    let mut i: usize = 0;
    proof {
        assert(views_of(quoted@) =~= spec_md_quoted(views_of(lines@).take(0)));
    }
    while i < lines.len()
        invariant
            i <= lines@.len(),
            views_of(lines@) == spec_lines(text@),
            views_of(quoted@) =~= spec_md_quoted(views_of(lines@).take(i as int)),
        decreases lines@.len() - i,
    {
        let mut q: Vec<char> = chars3(' ', '>', ' ');
        append_chars(&mut q, &lines[i]);
        let ghost qv = q@;
        let ghost quoted0 = quoted@;
        quoted.push(q);
        proof {
            let lv = views_of(lines@);
            assert(quoted@.len() == quoted0.len() + 1);
            assert(views_of(quoted0).len() == quoted0.len());
            assert(lv.take(i as int).len() == i as int);
            assert(quoted0.len() == i as int);
            assert(quoted@.last()@ == qv);
            assert(qv == seq![' ', '>', ' '] + lv[i as int]);
            assert(views_of(quoted@)[i as int] == seq![' ', '>', ' '] + lv[i as int]);
            assert(lv.take(i + 1) =~= lv.take(i as int).push(lv[i as int]));
            assert(spec_md_quoted(lv.take(i + 1))[i as int] == seq![' ', '>', ' ']
                + lv[i as int]);
            assert forall|j: int| 0 <= j < i implies #[trigger] views_of(quoted@)[j]
                == spec_md_quoted(lv.take(i + 1))[j] by {
                assert(quoted@[j] == quoted0[j]);
                assert(views_of(quoted0)[j] == spec_md_quoted(lv.take(i as int))[j]);
                assert(spec_md_quoted(lv.take(i as int))[j] == seq![' ', '>', ' '] + lv.take(
                    i as int,
                )[j]);
                assert(lv.take(i as int)[j] == lv.take(i + 1)[j]);
            }
            assert(views_of(quoted@) =~= spec_md_quoted(lv.take(i + 1)));
        }
        i = i + 1;
    }
    proof {
        assert(views_of(lines@).take(lines@.len() as int) =~= views_of(lines@));
    }
    let nl: Vec<char> = chars1('\n');
    let out = join_chars(&quoted, &nl);
    chars_to_string(&out)
}

/// Curly quotes, long dashes and the ellipsis mapped to ASCII.
pub open spec fn spec_replace_smart_quotes(s: Seq<char>) -> Seq<char> {
    let s1 = spec_replace(s, seq!['\u{201c}'], seq!['"']);
    let s2 = spec_replace(s1, seq!['\u{201d}'], seq!['"']);
    let s3 = spec_replace(s2, seq!['\u{2018}'], seq!['\'']);
    let s4 = spec_replace(s3, seq!['\u{2019}'], seq!['\'']);
    let s5 = spec_replace(s4, seq!['\u{2013}'], seq!['-']);
    let s6 = spec_replace(s5, seq!['\u{2014}'], seq!['-']);
    spec_replace(s6, seq!['\u{2026}'], seq!['.', '.', '.'])
}

/// Replaces curly quotes, dashes and the ellipsis by ASCII equivalents.
pub fn replace_smart_quotes(text: &str) -> (r: String)
    ensures
        r@ == spec_replace_smart_quotes(text@),
{
    let cs = str_to_chars(text);
    let p1: Vec<char> = chars1('\u{201c}');
    let p2: Vec<char> = chars1('\u{201d}');
    let p3: Vec<char> = chars1('\u{2018}');
    let p4: Vec<char> = chars1('\u{2019}');
    let p5: Vec<char> = chars1('\u{2013}');
    let p6: Vec<char> = chars1('\u{2014}');
    let p7: Vec<char> = chars1('\u{2026}');
    let dq: Vec<char> = chars1('"');
    let sq: Vec<char> = chars1('\'');
    let da: Vec<char> = chars1('-');
    let el: Vec<char> = chars3('.', '.', '.');
    let s1 = replace_chars(&cs, &p1, &dq);
    let s2 = replace_chars(&s1, &p2, &dq);
    let s3 = replace_chars(&s2, &p3, &sq);
    let s4 = replace_chars(&s3, &p4, &sq);
    let s5 = replace_chars(&s4, &p5, &da);
    let s6 = replace_chars(&s5, &p6, &da);
    let s7 = replace_chars(&s6, &p7, &el);
    chars_to_string(&s7)
}

// ------------------------------------------------------------------
// Sum tokenization (the summation itself works on floating-point
// numbers and lives outside the verified library)
// ------------------------------------------------------------------

/// The delimiters of the summation tokenizer: white space, commas,
/// semicolons and equals signs.
pub open spec fn is_sum_delim(c: char) -> bool {
    crate::strkit::is_space(c) || c == ',' || c == ';' || c == '='
}

/// Index of the first delimiter, or `s.len()` when none.
pub open spec fn first_sum_delim(s: Seq<char>) -> int
    decreases s.len(),
{
    if s.len() == 0 {
        0
    } else if is_sum_delim(s[0]) {
        0
    } else {
        1 + first_sum_delim(s.drop_first())
    }
}

/// `first_sum_delim`, clipped into range.
pub open spec fn first_sum_delim_bounded(s: Seq<char>) -> int {
    if first_sum_delim(s) < 1 {
        1
    } else if first_sum_delim(s) > s.len() {
        s.len() as int
    } else {
        first_sum_delim(s)
    }
}

/// The maximal delimiter-free tokens of `s`, in order.
pub open spec fn spec_sum_tokens(s: Seq<char>) -> Seq<Seq<char>>
    decreases s.len(),
{
    if s.len() == 0 {
        Seq::empty()
    } else if is_sum_delim(s[0]) {
        spec_sum_tokens(s.drop_first())
    } else {
        let i = first_sum_delim_bounded(s);
        seq![s.take(i)] + spec_sum_tokens(s.skip(i))
    }
}

pub proof fn lemma_first_sum_delim_concat(c: Seq<char>, r: Seq<char>)
    requires
        forall|j: int| 0 <= j < c.len() ==> !is_sum_delim(c[j]),
        r.len() == 0 || is_sum_delim(r[0]),
    ensures
        first_sum_delim(c + r) == c.len(),
    decreases c.len(),
{
    if c.len() == 0 {
        assert(c + r =~= r);
    } else {
        assert((c + r)[0] == c[0]);
        assert((c + r).drop_first() =~= c.drop_first() + r);
        assert(forall|j: int| 0 <= j < c.drop_first().len() ==> c.drop_first()[j] == c[j + 1]);
        lemma_first_sum_delim_concat(c.drop_first(), r);
    }
}

pub proof fn lemma_sum_tokens_no_delim(c: Seq<char>)
    requires
        forall|j: int| 0 <= j < c.len() ==> !is_sum_delim(c[j]),
    ensures
        c.len() == 0 ==> spec_sum_tokens(c) =~= Seq::<Seq<char>>::empty(),
        c.len() > 0 ==> spec_sum_tokens(c) =~= seq![c],
{
    if c.len() > 0 {
        lemma_first_sum_delim_concat(c, Seq::empty());
        assert(c + Seq::<char>::empty() =~= c);
        assert(first_sum_delim(c) == c.len());
        assert(!is_sum_delim(c[0]));
        assert(first_sum_delim_bounded(c) == c.len());
        assert(c.take(c.len() as int) =~= c);
        assert(c.skip(c.len() as int) =~= Seq::<char>::empty());
        assert(spec_sum_tokens(c) =~= seq![c.take(c.len() as int)] + spec_sum_tokens(
            c.skip(c.len() as int),
        ));
        assert(seq![c] + Seq::<Seq<char>>::empty() =~= seq![c]);
    }
}

pub proof fn lemma_sum_tokens_step(c: Seq<char>, r: Seq<char>)
    requires
        c.len() > 0,
        forall|j: int| 0 <= j < c.len() ==> !is_sum_delim(c[j]),
        r.len() > 0 && is_sum_delim(r[0]),
    ensures
        spec_sum_tokens(c + r) =~= seq![c] + spec_sum_tokens(r),
{
    let s = c + r;
    lemma_first_sum_delim_concat(c, r);
    assert(first_sum_delim(s) == c.len());
    assert(!is_sum_delim(s[0]));
    assert(first_sum_delim_bounded(s) == c.len());
    assert(s.take(c.len() as int) =~= c);
    assert(s.skip(c.len() as int) =~= r);
}

/// Whether the character delimits summation tokens.
pub fn is_sum_delim_char(c: char) -> (r: bool)
    ensures
        r == is_sum_delim(c),
{
    crate::strkit::is_space_char(c) || c == ',' || c == ';' || c == '='
}

/// Splits the text into the tokens the summation works on: maximal runs
/// free of white space, commas, semicolons and equals signs.
pub fn sum_tokens(text: &str) -> (r: Vec<String>)
    ensures
        crate::utils::str_views(r@) == spec_sum_tokens(text@),
{
    let cs = str_to_chars(text);
    let mut res: Vec<String> = Vec::new();
    let mut cur: Vec<char> = Vec::new();
    let mut i: usize = 0;
    proof {
        assert(crate::utils::str_views(res@) =~= Seq::<Seq<char>>::empty());
        assert(cur@ + cs@.skip(0) =~= cs@);
        assert(crate::utils::str_views(res@) + spec_sum_tokens(cs@) =~= spec_sum_tokens(cs@));
    }
    while i < cs.len()
        invariant
            i <= cs@.len(),
            cs@ == text@,
            forall|j: int| 0 <= j < cur@.len() ==> !is_sum_delim(cur@[j]),
            spec_sum_tokens(text@) =~= crate::utils::str_views(res@) + spec_sum_tokens(
                cur@ + cs@.skip(i as int),
            ),
        decreases cs@.len() - i,
    {
        let ghost rest = cs@.skip(i as int);
        let ghost cur0 = cur@;
        let ghost res0 = res@;
        let c = cs[i];
        if is_sum_delim_char(c) {
            proof {
                assert(is_sum_delim(rest[0]));
            }
            if cur.len() > 0 {
                proof {
                    lemma_sum_tokens_step(cur0, rest);
                }
                let tok = chars_to_string(&cur);
                res.push(tok);
                cur = Vec::new();
                proof {
                    assert(crate::utils::str_views(res@) =~= crate::utils::str_views(res0).push(
                        cur0,
                    ));
                    assert(crate::utils::str_views(res0) + (seq![cur0] + spec_sum_tokens(rest))
                        =~= crate::utils::str_views(res0).push(cur0) + spec_sum_tokens(rest));
                }
            } else {
                proof {
                    assert(cur0 + rest =~= rest);
                }
            }
            proof {
                assert(spec_sum_tokens(rest) == spec_sum_tokens(rest.drop_first()));
                assert(rest.drop_first() =~= cs@.skip(i + 1));
                assert(cur@ + cs@.skip(i + 1) =~= cs@.skip(i + 1));
            }
        } else {
            cur.push(c);
            proof {
                assert(cur@ + cs@.skip(i + 1) =~= cur0 + rest);
                assert(forall|j: int| 0 <= j < cur@.len() ==> cur@[j] == cur0.push(
                    cs@[i as int],
                )[j]);
            }
        }
        i = i + 1;
    }
    proof {
        assert(cur@ + cs@.skip(i as int) =~= cur@);
        lemma_sum_tokens_no_delim(cur@);
    }
    let ghost res1 = res@;
    if cur.len() > 0 {
        let tok = chars_to_string(&cur);
        res.push(tok);
        proof {
            assert(crate::utils::str_views(res@) =~= crate::utils::str_views(res1).push(cur@));
        }
    }
    proof {
        assert(crate::utils::str_views(res@) =~= spec_sum_tokens(text@));
    }
    res
}

} // verus!

verus! {

// ------------------------------------------------------------------
// Deburr, shuffle and lorem ipsum
// ------------------------------------------------------------------

/// What `deunicode::deunicode` returns for the given characters.
pub uninterp spec fn deunicode_of(s: Seq<char>) -> Seq<char>;

/// Relies on `deunicode::deunicode`: an ASCII transliteration, a function
/// of the characters alone.
#[verifier::external_body]
fn deunicode_str(s: &str) -> (r: String)
    ensures
        r@ == deunicode_of(s@),
{
    deunicode::deunicode(s)
}

/// Transliterates the text to ASCII.
pub fn deburr(text: &str) -> (r: String)
    ensures
        r@ == deunicode_of(text@),
{
    deunicode_str(text)
}

/// Relies on rand's slice shuffle: it permutes the elements in place, so
/// the multiset of elements is kept.
#[verifier::external_body]
fn shuffle_vec(v: &mut Vec<Vec<char>>)
    ensures
        views_of(final(v)@).to_multiset() == views_of(old(v)@).to_multiset(),
{
    let mut rng = rand::rng();
    v.shuffle(&mut rng);
}

/// Puts the lines in a random order: whatever the order, the output is
/// the lines' own join under some permutation, so their multiset is kept.
pub fn shuffle_lines(text: &str) -> (r: String)
    ensures
        exists|p: Seq<Seq<char>>|
            p.to_multiset() == spec_lines(text@).to_multiset() && r@ == spec_join(p, seq!['\n']),
{
    let cs = str_to_chars(text);
    let mut lines = split_lines(&cs);
    shuffle_vec(&mut lines);
    let nl = chars1('\n');
    let out = join_chars(&lines, &nl);
    proof {
        let p = views_of(lines@);
        vstd::seq_lib::lemma_multiset_commutative(p, p);
        assert(p.to_multiset() == spec_lines(text@).to_multiset() && out@ == spec_join(
            p,
            seq!['\n'],
        ));
    }
    chars_to_string(&out)
}

/// Relies on `rand::random_range`: the result lies below the bound;
/// nothing is promised of which value comes.
#[verifier::external_body]
fn rand_below(n: usize) -> (r: usize)
    requires
        n > 0,
    ensures
        r < n,
{
    rand::random_range(0..n)
}

/// The fixed catalog of placeholder paragraphs.
pub open spec fn spec_lorem(k: int) -> Seq<char> {
    if k == 0 {
        "Lorem ipsum dolor sit amet consectetur adipiscing elit. Blandit quis suspendisse aliquet nisi sodales consequat magna. Sem placerat in id cursus mi pretium tellus. Finibus facilisis dapibus etiam interdum tortor ligula congue. Sed diam urna tempor pulvinar vivamus fringilla lacus. Porta elementum a enim euismod quam justo lectus. Nisl malesuada lacinia integer nunc posuere ut hendrerit. Imperdiet mollis nullam volutpat porttitor ullamcorper rutrum gravida. Ad litora torquent per conubia nostra inceptos himenaeos."@
    } else if k == 1 {
        "Ornare sagittis vehicula praesent dui felis venenatis ultrices. Dis parturient montes nascetur ridiculus mus donec rhoncus. Potenti ultricies habitant morbi senectus netus suscipit auctor. Maximus eget fermentum odio phasellus non purus est. Platea dictumst lorem ipsum dolor sit amet consectetur. Dictum risus blandit quis suspendisse aliquet nisi sodales. Vitae pellentesque sem placerat in id cursus mi. Luctus nibh finibus facilisis dapibus etiam interdum tortor."@
    } else if k == 2 {
        "Eu aenean sed diam urna tempor pulvinar vivamus. Tincidunt nam porta elementum a enim euismod quam. Iaculis massa nisl malesuada lacinia integer nunc posuere. Velit aliquam imperdiet mollis nullam volutpat porttitor ullamcorper. Taciti sociosqu ad litora torquent per conubia nostra. Primis vulputate ornare sagittis vehicula praesent dui felis. Et magnis dis parturient montes nascetur ridiculus mus. Accumsan maecenas potenti ultricies habitant morbi senectus netus. Mattis scelerisque maximus eget fermentum odio phasellus non."@
    } else if k == 3 {
        "Hac habitasse platea dictumst lorem ipsum dolor sit. Vestibulum fusce dictum risus blandit quis suspendisse aliquet. Ex sapien vitae pellentesque sem placerat in id. Neque at luctus nibh finibus facilisis dapibus etiam. Tempus leo eu aenean sed diam urna tempor. Viverra ac tincidunt nam porta elementum a enim. Bibendum egestas iaculis massa nisl malesuada lacinia integer. Arcu dignissim velit aliquam imperdiet mollis nullam volutpat. Class aptent taciti sociosqu ad litora torquent per. Turpis fames primis vulputate ornare sagittis vehicula praesent. Natoque penatibus et magnis dis parturient montes nascetur."@
    } else if k == 4 {
        "Feugiat tristique accumsan maecenas potenti ultricies habitant morbi. Nulla molestie mattis scelerisque maximus eget fermentum odio. Cubilia curae hac habitasse platea dictumst lorem ipsum. Mauris pharetra vestibulum fusce dictum risus blandit quis. Quisque faucibus ex sapien vitae pellentesque sem placerat. Ante condimentum neque at luctus nibh finibus facilisis. Duis convallis tempus leo eu aenean sed diam. Sollicitudin erat viverra ac tincidunt nam porta elementum. Nec metus bibendum egestas iaculis massa nisl malesuada."@
    } else {
        "Commodo augue arcu dignissim velit aliquam imperdiet mollis. Semper vel class aptent taciti sociosqu ad litora. Cras eleifend turpis fames primis vulputate ornare sagittis. Orci varius natoque penatibus et magnis dis parturient. Proin libero feugiat tristique accumsan maecenas potenti ultricies. Eros lobortis nulla molestie mattis scelerisque maximus eget. Curabitur facilisi cubilia curae hac habitasse platea dictumst. Efficitur laoreet mauris pharetra vestibulum fusce dictum risus. Adipiscing elit quisque faucibus ex sapien vitae pellentesque. Consequat magna ante condimentum neque at luctus nibh. Pretium tellus duis convallis tempus leo eu aenean. Ligula congue sollicitudin erat viverra ac tincidunt nam."@
    }
}

/// The catalog, executable.
pub fn lorem_text(k: usize) -> (r: &'static str)
    requires
        k < 6,
    ensures
        r@ == spec_lorem(k as int),
{
    match k {
        0 => "Lorem ipsum dolor sit amet consectetur adipiscing elit. Blandit quis suspendisse aliquet nisi sodales consequat magna. Sem placerat in id cursus mi pretium tellus. Finibus facilisis dapibus etiam interdum tortor ligula congue. Sed diam urna tempor pulvinar vivamus fringilla lacus. Porta elementum a enim euismod quam justo lectus. Nisl malesuada lacinia integer nunc posuere ut hendrerit. Imperdiet mollis nullam volutpat porttitor ullamcorper rutrum gravida. Ad litora torquent per conubia nostra inceptos himenaeos.",
        1 => "Ornare sagittis vehicula praesent dui felis venenatis ultrices. Dis parturient montes nascetur ridiculus mus donec rhoncus. Potenti ultricies habitant morbi senectus netus suscipit auctor. Maximus eget fermentum odio phasellus non purus est. Platea dictumst lorem ipsum dolor sit amet consectetur. Dictum risus blandit quis suspendisse aliquet nisi sodales. Vitae pellentesque sem placerat in id cursus mi. Luctus nibh finibus facilisis dapibus etiam interdum tortor.",
        2 => "Eu aenean sed diam urna tempor pulvinar vivamus. Tincidunt nam porta elementum a enim euismod quam. Iaculis massa nisl malesuada lacinia integer nunc posuere. Velit aliquam imperdiet mollis nullam volutpat porttitor ullamcorper. Taciti sociosqu ad litora torquent per conubia nostra. Primis vulputate ornare sagittis vehicula praesent dui felis. Et magnis dis parturient montes nascetur ridiculus mus. Accumsan maecenas potenti ultricies habitant morbi senectus netus. Mattis scelerisque maximus eget fermentum odio phasellus non.",
        3 => "Hac habitasse platea dictumst lorem ipsum dolor sit. Vestibulum fusce dictum risus blandit quis suspendisse aliquet. Ex sapien vitae pellentesque sem placerat in id. Neque at luctus nibh finibus facilisis dapibus etiam. Tempus leo eu aenean sed diam urna tempor. Viverra ac tincidunt nam porta elementum a enim. Bibendum egestas iaculis massa nisl malesuada lacinia integer. Arcu dignissim velit aliquam imperdiet mollis nullam volutpat. Class aptent taciti sociosqu ad litora torquent per. Turpis fames primis vulputate ornare sagittis vehicula praesent. Natoque penatibus et magnis dis parturient montes nascetur.",
        4 => "Feugiat tristique accumsan maecenas potenti ultricies habitant morbi. Nulla molestie mattis scelerisque maximus eget fermentum odio. Cubilia curae hac habitasse platea dictumst lorem ipsum. Mauris pharetra vestibulum fusce dictum risus blandit quis. Quisque faucibus ex sapien vitae pellentesque sem placerat. Ante condimentum neque at luctus nibh finibus facilisis. Duis convallis tempus leo eu aenean sed diam. Sollicitudin erat viverra ac tincidunt nam porta elementum. Nec metus bibendum egestas iaculis massa nisl malesuada.",
        _ => "Commodo augue arcu dignissim velit aliquam imperdiet mollis. Semper vel class aptent taciti sociosqu ad litora. Cras eleifend turpis fames primis vulputate ornare sagittis. Orci varius natoque penatibus et magnis dis parturient. Proin libero feugiat tristique accumsan maecenas potenti ultricies. Eros lobortis nulla molestie mattis scelerisque maximus eget. Curabitur facilisi cubilia curae hac habitasse platea dictumst. Efficitur laoreet mauris pharetra vestibulum fusce dictum risus. Adipiscing elit quisque faucibus ex sapien vitae pellentesque. Consequat magna ante condimentum neque at luctus nibh. Pretium tellus duis convallis tempus leo eu aenean. Ligula congue sollicitudin erat viverra ac tincidunt nam.",
    }
}

/// Picks one of the six fixed paragraphs at random: whatever the pick, the
/// output is one of the catalog's exact strings.
pub fn lorem_ipsum() -> (r: String)
    ensures
        r@ == spec_lorem(0) || r@ == spec_lorem(1) || r@ == spec_lorem(2) || r@ == spec_lorem(3)
            || r@ == spec_lorem(4) || r@ == spec_lorem(5),
{
    let k = rand_below(6);
    let t = lorem_text(k);
    crate::strkit::copy_str(t)
}

/// Applies the selected text utility to the text. The summation operation
/// works on floating-point numbers and stands outside this library: its
/// tokenizer is `sum_tokens`.
pub fn handle_text_util_operation(text: &str, op: TextUtilOp) -> (r: String)
    requires
        !(op is Unknown),
        !(op is SumAll),
    ensures
        op is Defang ==> r@ == spec_defang(text@),
        op is Refang ==> r@ == spec_refang(text@),
        op is Deburr ==> r@ == deunicode_of(text@),
        op is ShuffleLines ==> exists|p: Seq<Seq<char>>|
            p.to_multiset() == spec_lines(text@).to_multiset() && r@ == spec_join(p, seq!['\n']),
        op is CountChars ==> r@ == crate::numkit::spec_radix_nat(text@.len(), 10),
        op is CollapseLines ==> r@ == spec_replace(text@, seq!['\n'], Seq::<char>::empty()),
        op is DedupLines ==> r@ == spec_join(spec_unique(spec_lines(text@)), seq!['\n']),
        op is SortLines ==> r@ == spec_join(spec_sort(spec_lines(text@)), seq!['\n']),
        op is Trim ==> r@ == spec_trim(text@),
        op is NaturalSortLines ==> r@ == spec_join(
            spec_pair_vals(spec_sort_by_key(spec_keyed_lines(spec_lines(text@)))),
            seq!['\n'],
        ),
        op is ReverseString ==> r@ == spec_reverse(text@),
        op is LoremIpsum ==> (r@ == spec_lorem(0) || r@ == spec_lorem(1) || r@ == spec_lorem(2)
            || r@ == spec_lorem(3) || r@ == spec_lorem(4) || r@ == spec_lorem(5)),
        op is MdQuote ==> r@ == spec_join(spec_md_quoted(spec_lines(text@)), seq!['\n']),
        op is ReplaceSmartQuotes ==> r@ == spec_replace_smart_quotes(text@),
{
    match op {
        TextUtilOp::Defang => defang(text),
        TextUtilOp::Refang => refang(text),
        TextUtilOp::Deburr => deburr(text),
        TextUtilOp::ShuffleLines => shuffle_lines(text),
        TextUtilOp::SumAll => vstd::pervasive::unreached(),
        TextUtilOp::CountChars => count_chars(text),
        TextUtilOp::CollapseLines => collapse_lines(text),
        TextUtilOp::DedupLines => dedup_lines(text),
        TextUtilOp::SortLines => sort_lines(text),
        TextUtilOp::Trim => trim_input(text),
        TextUtilOp::NaturalSortLines => natural_sort_lines(text),
        TextUtilOp::ReverseString => reverse_string(text),
        TextUtilOp::LoremIpsum => lorem_ipsum(),
        TextUtilOp::MdQuote => md_quote(text),
        TextUtilOp::ReplaceSmartQuotes => replace_smart_quotes(text),
        TextUtilOp::Unknown => vstd::pervasive::unreached(),
    }
}

} // verus!

verus! {

// ------------------------------------------------------------------
// The dot half of the defang round trip
// ------------------------------------------------------------------

/// True when `p` occurs somewhere in `s`.
pub open spec fn has_sub(s: Seq<char>, p: Seq<char>) -> bool {
    exists|i: int| 0 <= i <= s.len() - p.len() && #[trigger] s.subrange(i, i + p.len()) == p
}

/// An occurrence at a given position witnesses `has_sub`.
pub proof fn lemma_has_sub_at(s: Seq<char>, p: Seq<char>, i: int)
    requires
        0 <= i <= s.len() - p.len(),
        s.subrange(i, i + p.len()) == p,
    ensures
        has_sub(s, p),
{
}

pub proof fn lemma_has_sub_drop(s: Seq<char>, p: Seq<char>)
    requires
        !has_sub(s, p),
        s.len() > 0,
    ensures
        !has_sub(s.drop_first(), p),
{
    if has_sub(s.drop_first(), p) {
        let i = choose|i: int|
            0 <= i <= s.drop_first().len() - p.len() && #[trigger] s.drop_first().subrange(
                i,
                i + p.len(),
            ) == p;
        assert(s.subrange(i + 1, i + 1 + p.len()) =~= s.drop_first().subrange(i, i + p.len()));
        assert(s.subrange(i + 1, i + 1 + p.len()) == p);
    }
}

/// The first character of a dot-bracketing is never a dot, and is the
/// text's own first character where that is not a dot.
pub proof fn lemma_bracket_first(s: Seq<char>)
    requires
        s.len() > 0,
    ensures
        spec_replace(s, seq!['.'], seq!['[', '.', ']']).len() > 0,
        s[0] == '.' ==> spec_replace(s, seq!['.'], seq!['[', '.', ']'])[0] == '[',
        s[0] != '.' ==> spec_replace(s, seq!['.'], seq!['[', '.', ']'])[0] == s[0],
{
    let dot = seq!['.'];
    let bdot = seq!['[', '.', ']'];
    assert(s.take(1) =~= seq![s[0]]);
    if s[0] == '.' {
        assert(s.take(1) =~= dot);
        assert(spec_replace(s, dot, bdot) == bdot + spec_replace(s.skip(1), dot, bdot));
    } else {
        assert(s.take(1) != dot) by {
            assert(s.take(1)[0] == s[0]);
        }
        assert(spec_replace(s, dot, bdot) == s.take(1) + spec_replace(s.drop_first(), dot, bdot));
    }
}

/// Replacing every dot by `[.]` and then every `[.]` by a dot gives the
/// text back, whenever the text did not hold `[.]` already. (This is the
/// dot half of the defang/refang round trip; a text holding `[.]` or
/// `hxxp` is changed, as `refang(defang("hxxp")) == "http"` shows.)
pub proof fn lemma_dot_round_trip(s: Seq<char>)
    requires
        !has_sub(s, seq!['[', '.', ']']),
    ensures
        spec_replace(
            spec_replace(s, seq!['.'], seq!['[', '.', ']']),
            seq!['[', '.', ']'],
            seq!['.'],
        ) == s,
    decreases s.len(),
{
    let dot = seq!['.'];
    let bdot = seq!['[', '.', ']'];
    let d = spec_replace(s, dot, bdot);
    if s.len() == 0 {
        assert(d.len() == 0);
    } else if s[0] == '.' {
        assert(s.take(1) =~= dot);
        let dtail = spec_replace(s.skip(1), dot, bdot);
        assert(d == bdot + dtail);
        assert(d.len() >= 3);
        assert(d.take(3) =~= bdot);
        assert(spec_replace(d, bdot, dot) == dot + spec_replace(d.skip(3), bdot, dot));
        assert(d.skip(3) =~= dtail);
        assert(s.skip(1) =~= s.drop_first());
        lemma_has_sub_drop(s, bdot);
        lemma_dot_round_trip(s.drop_first());
        assert(dot + s.drop_first() =~= s);
    } else {
        assert(s.take(1) =~= seq![s[0]]);
        assert(s.take(1) != dot) by {
            assert(s.take(1)[0] == s[0]);
        }
        let stail = s.drop_first();
        let dtail = spec_replace(stail, dot, bdot);
        assert(d == s.take(1) + dtail);
        lemma_has_sub_drop(s, bdot);
        lemma_dot_round_trip(stail);
        if d.len() < 3 {
            assert(dtail.len() < 2);
            assert(spec_replace(d, bdot, dot) == d);
            assert(spec_replace(dtail, bdot, dot) == dtail);
            assert(dtail == stail);
            assert(d =~= s);
        } else {
            assert(d[0] == s[0]);
            assert(!(d.take(3) == bdot)) by {
                if d.take(3) == bdot {
                    assert(d[0] == '[');
                    assert(d[1] == '.');
                    assert(dtail.len() >= 2);
                    assert(stail.len() > 0);
                    lemma_bracket_first(stail);
                    assert(d[1] == dtail[0]);
                    assert(dtail[0] != '.');
                }
            }
            assert(spec_replace(d, bdot, dot) == d.take(1) + spec_replace(
                d.drop_first(),
                bdot,
                dot,
            ));
            assert(d.take(1) =~= seq![s[0]]);
            assert(d.drop_first() =~= dtail);
            assert(seq![s[0]] + stail =~= s);
        }
    }
}

} // verus!

verus! {

/// Skipping a prefix cannot create an occurrence.
pub proof fn lemma_has_sub_skip(s: Seq<char>, p: Seq<char>, k: int)
    requires
        !has_sub(s, p),
        0 <= k <= s.len(),
    ensures
        !has_sub(s.skip(k), p),
{
    if has_sub(s.skip(k), p) {
        let i = choose|i: int|
            0 <= i <= s.skip(k).len() - p.len() && #[trigger] s.skip(k).subrange(i, i + p.len())
                == p;
        assert(s.subrange(i + k, i + k + p.len()) =~= s.skip(k).subrange(i, i + p.len()));
        assert(s.subrange(i + k, i + k + p.len()) == p);
    }
}

/// The first character of the `http` replacement output: `h` where the
/// text starts with `http`, else the text's own first character.
pub proof fn lemma_http_first(s: Seq<char>)
    requires
        s.len() > 0,
    ensures
        spec_replace(s, seq!['h', 't', 't', 'p'], seq!['h', 'x', 'x', 'p']).len() > 0,
        spec_replace(s, seq!['h', 't', 't', 'p'], seq!['h', 'x', 'x', 'p'])[0] == (if s.len() >= 4
            && s.take(4) == seq!['h', 't', 't', 'p'] {
            'h'
        } else {
            s[0]
        }),
{
    let http = seq!['h', 't', 't', 'p'];
    let hxxp = seq!['h', 'x', 'x', 'p'];
    if s.len() >= 4 && s.take(4) == http {
        assert(spec_replace(s, http, hxxp) == hxxp + spec_replace(s.skip(4), http, hxxp));
    } else if s.len() < 4 {
        assert(spec_replace(s, http, hxxp) == s);
    } else {
        assert(spec_replace(s, http, hxxp) == s.take(1) + spec_replace(
            s.drop_first(),
            http,
            hxxp,
        ));
        assert(s.take(1)[0] == s[0]);
    }
}

/// A text that starts with four characters matching `hxxp` in the `http`
/// replacement's output itself starts with `hxxp`.
pub proof fn lemma_http_out_prefix(s: Seq<char>)
    requires
        s.len() > 0,
        spec_replace(s, seq!['h', 't', 't', 'p'], seq!['h', 'x', 'x', 'p']).len() >= 4,
        !(s.len() >= 4 && s.take(4) == seq!['h', 't', 't', 'p']),
        spec_replace(s, seq!['h', 't', 't', 'p'], seq!['h', 'x', 'x', 'p']).take(4) == seq![
            'h',
            'x',
            'x',
            'p',
        ],
    ensures
        s.len() >= 4 && s.subrange(0, 4) == seq!['h', 'x', 'x', 'p'],
{
    let http = seq!['h', 't', 't', 'p'];
    let hxxp = seq!['h', 'x', 'x', 'p'];
    let d = spec_replace(s, http, hxxp);
    if s.len() < 4 {
        assert(d == s);
        assert(s.subrange(0, 4) =~= d.take(4));
    } else {
        assert(d == s.take(1) + spec_replace(s.drop_first(), http, hxxp));
        let s1 = s.drop_first();
        let d1 = spec_replace(s1, http, hxxp);
        assert(d[0] == s[0]);
        assert(s[0] == 'h');
        assert(d[1] == d1[0]);
        assert(d1.len() >= 3);
        assert(s1.len() > 0);
        lemma_http_first(s1);
        assert(d1[0] == 'x');
        assert(!(s1.len() >= 4 && s1.take(4) == http));
        assert(s1[0] == 'x');
        assert(d1 == s1.take(1) + spec_replace(s1.drop_first(), http, hxxp));
        let s2 = s1.drop_first();
        let d2 = spec_replace(s2, http, hxxp);
        assert(d[2] == d1[1]);
        assert(d1[1] == d2[0]);
        assert(d2.len() >= 2);
        assert(s2.len() > 0);
        lemma_http_first(s2);
        assert(d2[0] == 'x');
        assert(s2[0] == 'x');
        assert(d2 == s2.take(1) + spec_replace(s2.drop_first(), http, hxxp));
        let s3 = s2.drop_first();
        let d3 = spec_replace(s3, http, hxxp);
        assert(d[3] == d2[1]);
        assert(d2[1] == d3[0]);
        assert(d3.len() >= 1);
        assert(s3.len() > 0);
        lemma_http_first(s3);
        assert(d3[0] == 'p');
        assert(s3[0] == 'p');
        assert(s[1] == s1[0]);
        assert(s[2] == s2[0]);
        assert(s[3] == s3[0]);
        assert(s.subrange(0, 4) =~= hxxp);
    }
}

/// Replacing `http` by `hxxp` and back gives the text back, whenever the
/// text did not hold `hxxp` already.
pub proof fn lemma_http_round_trip(s: Seq<char>)
    requires
        !has_sub(s, seq!['h', 'x', 'x', 'p']),
    ensures
        spec_replace(
            spec_replace(s, seq!['h', 't', 't', 'p'], seq!['h', 'x', 'x', 'p']),
            seq!['h', 'x', 'x', 'p'],
            seq!['h', 't', 't', 'p'],
        ) == s,
    decreases s.len(),
{
    let http = seq!['h', 't', 't', 'p'];
    let hxxp = seq!['h', 'x', 'x', 'p'];
    let d = spec_replace(s, http, hxxp);
    if s.len() == 0 {
        assert(d.len() == 0);
    } else if s.len() >= 4 && s.take(4) == http {
        let dtail = spec_replace(s.skip(4), http, hxxp);
        assert(d == hxxp + dtail);
        assert(d.len() >= 4);
        assert(d.take(4) =~= hxxp);
        assert(spec_replace(d, hxxp, http) == http + spec_replace(d.skip(4), hxxp, http));
        assert(d.skip(4) =~= dtail);
        lemma_has_sub_skip(s, hxxp, 4);
        lemma_http_round_trip(s.skip(4));
        assert(http + s.skip(4) =~= s);
    } else {
        let stail = s.drop_first();
        let dtail = spec_replace(stail, http, hxxp);
        assert(d == s.take(1) + dtail);
        assert(d[0] == s[0]);
        lemma_has_sub_drop(s, hxxp);
        lemma_http_round_trip(stail);
        if d.len() < 4 {
            assert(dtail.len() < 3);
            assert(spec_replace(d, hxxp, http) == d);
            assert(spec_replace(dtail, hxxp, http) == dtail);
            assert(dtail == stail);
            assert(s.take(1) + stail =~= s);
        } else {
            assert(!(d.take(4) == hxxp)) by {
                if d.take(4) == hxxp {
                    lemma_http_out_prefix(s);
                    lemma_has_sub_at(s, hxxp, 0);
                }
            }
            assert(spec_replace(d, hxxp, http) == d.take(1) + spec_replace(
                d.drop_first(),
                hxxp,
                http,
            ));
            assert(d.take(1) =~= s.take(1));
            assert(d.drop_first() =~= dtail);
            assert(s.take(1) + stail =~= s);
        }
    }
}

/// Bracketing dots cannot create an occurrence of `hxxp`: its characters
/// never appear in `[.]`, so any occurrence was already in the text.
pub proof fn lemma_bracket_keeps_no_hxxp(s: Seq<char>)
    requires
        !has_sub(s, seq!['h', 'x', 'x', 'p']),
    ensures
        !has_sub(spec_replace(s, seq!['.'], seq!['[', '.', ']']), seq!['h', 'x', 'x', 'p']),
    decreases s.len(),
{
    let dot = seq!['.'];
    let bdot = seq!['[', '.', ']'];
    let hxxp = seq!['h', 'x', 'x', 'p'];
    let d = spec_replace(s, dot, bdot);
    if s.len() == 0 {
        assert(d.len() == 0);
        if has_sub(d, hxxp) {
            let i = choose|i: int|
                0 <= i <= d.len() - hxxp.len() && #[trigger] d.subrange(i, i + hxxp.len())
                    == hxxp;
        }
    } else {
        let piece: Seq<char> = if s[0] == '.' {
            bdot
        } else {
            s.take(1)
        };
        let stail = s.drop_first();
        let dtail = spec_replace(stail, dot, bdot);
        assert(s.take(1) =~= seq![s[0]]);
        if s[0] == '.' {
            assert(s.take(1) =~= dot);
            assert(s.skip(1) =~= stail);
            assert(d == bdot + dtail);
        } else {
            assert(s.take(1) != dot) by {
                assert(s.take(1)[0] == s[0]);
            }
            assert(d == s.take(1) + dtail);
        }
        assert(d == piece + dtail);
        lemma_has_sub_drop(s, hxxp);
        lemma_bracket_keeps_no_hxxp(stail);
        if has_sub(d, hxxp) {
            let i = choose|i: int|
                0 <= i <= d.len() - hxxp.len() && #[trigger] d.subrange(i, i + hxxp.len())
                    == hxxp;
            if i >= piece.len() {
                assert(dtail.subrange(i - piece.len(), i - piece.len() + 4) =~= d.subrange(
                    i,
                    i + 4,
                ));
                assert(has_sub(dtail, hxxp));
            } else {
                assert(d.subrange(i, i + 4)[0] == d[i]);
                assert(d[i] == 'h');
                if s[0] == '.' {
                    assert(piece == bdot);
                    assert(d[i] == bdot[i]);
                    assert(bdot[i] != 'h');
                } else {
                    assert(i == 0);
                    assert(d[0] == s[0]);
                    assert(s[0] == 'h');
                    assert(d.len() >= 4);
                    assert(d.take(4) =~= d.subrange(0, 4));
                    lemma_bracket_hxxp_prefix(s);
                    lemma_has_sub_at(s, hxxp, 0);
                }
            }
        }
    }
}

/// A dot-bracketing output that starts with `hxxp` comes from a text that
/// starts with `hxxp`.
pub proof fn lemma_bracket_hxxp_prefix(s: Seq<char>)
    requires
        s.len() > 0,
        s[0] != '.',
        spec_replace(s, seq!['.'], seq!['[', '.', ']']).len() >= 4,
        spec_replace(s, seq!['.'], seq!['[', '.', ']']).take(4) == seq!['h', 'x', 'x', 'p'],
    ensures
        s.len() >= 4 && s.subrange(0, 4) == seq!['h', 'x', 'x', 'p'],
{
    let dot = seq!['.'];
    let bdot = seq!['[', '.', ']'];
    let hxxp = seq!['h', 'x', 'x', 'p'];
    let d = spec_replace(s, dot, bdot);
    assert(s.take(1) =~= seq![s[0]]);
    assert(s.take(1) != dot) by {
        assert(s.take(1)[0] == s[0]);
    }
    let s1 = s.drop_first();
    let d1 = spec_replace(s1, dot, bdot);
    assert(d == s.take(1) + d1);
    assert(d[0] == s[0]);
    assert(s[0] == 'h');
    assert(d[1] == d1[0]);
    assert(d1.len() >= 3);
    assert(s1.len() > 0);
    lemma_bracket_first(s1);
    assert(d1[0] == 'x');
    assert(s1[0] == 'x');
    assert(s1.take(1) =~= seq![s1[0]]);
    assert(s1.take(1) != dot) by {
        assert(s1.take(1)[0] == s1[0]);
    }
    let s2 = s1.drop_first();
    let d2 = spec_replace(s2, dot, bdot);
    assert(d1 == s1.take(1) + d2);
    assert(d[2] == d1[1]);
    assert(d1[1] == d2[0]);
    assert(d2.len() >= 2);
    assert(s2.len() > 0);
    lemma_bracket_first(s2);
    assert(d2[0] == 'x');
    assert(s2[0] == 'x');
    assert(s2.take(1) =~= seq![s2[0]]);
    assert(s2.take(1) != dot) by {
        assert(s2.take(1)[0] == s2[0]);
    }
    let s3 = s2.drop_first();
    let d3 = spec_replace(s3, dot, bdot);
    assert(d2 == s2.take(1) + d3);
    assert(d[3] == d2[1]);
    assert(d2[1] == d3[0]);
    assert(d3.len() >= 1);
    assert(s3.len() > 0);
    lemma_bracket_first(s3);
    assert(d3[0] == 'p');
    assert(s3[0] == 'p');
    assert(s[1] == s1[0]);
    assert(s[2] == s2[0]);
    assert(s[3] == s3[0]);
    assert(s.subrange(0, 4) =~= hxxp);
}

/// Defanging never introduces `[.]` beyond its own insertions, and those
/// decode back; and it never introduces `hxxp`: refanging a defanged text
/// gives the text back, whenever the text held neither `[.]` nor `hxxp`.
/// (On other texts it does not: `refang(defang("hxxp")) == "http"`.)
pub proof fn lemma_defang_refang_round_trip(s: Seq<char>)
    requires
        !has_sub(s, seq!['[', '.', ']']),
        !has_sub(s, seq!['h', 'x', 'x', 'p']),
    ensures
        spec_refang(spec_defang(s)) == s,
{
    let a = spec_replace(s, seq!['.'], seq!['[', '.', ']']);
    lemma_bracket_keeps_no_hxxp(s);
    lemma_http_round_trip(a);
    lemma_dot_round_trip(s);
}

} // verus!
