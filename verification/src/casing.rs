//! Case conversion: upper, lower and title casing, with word and line
//! structure verified exactly; the Unicode case mappings themselves come
//! from std behind named results.
use vstd::prelude::*;

use case::CaseExt;
use rand::Rng;

use crate::strkit::{
    char_lower_first, char_lower_first_of, char_upper_first, char_upper_first_of,
};
use crate::strkit::{
    char_upper_str_of, char_upper_full, chars1, chars_to_string, join_chars, lower_of,
    lower_str, spec_join, spec_lines, spec_words, split_lines, split_words, str_eq,
    str_to_chars, upper_of, upper_str, views_of,
};

verus! {

/// The casing operations.
#[derive(Clone, Copy, Debug, PartialEq, Eq, Structural)]
pub enum CaseOp {
    Title,
    Lower,
    Upper,
    Sponge,
    Snake,
    Camel,
    Kebab,
    Unknown,
}

/// The operation a token selects, matched against the token as written.
pub open spec fn spec_case_op(s: Seq<char>) -> CaseOp {
    if s == "title"@ {
        CaseOp::Title
    } else if s == "upper"@ {
        CaseOp::Upper
    } else if s == "lower"@ {
        CaseOp::Lower
    } else if s == "sponge"@ {
        CaseOp::Sponge
    } else if s == "snake"@ {
        CaseOp::Snake
    } else if s == "camel"@ {
        CaseOp::Camel
    } else if s == "kebab"@ {
        CaseOp::Kebab
    } else {
        CaseOp::Unknown
    }
}

/// Maps a token, as written, to its casing operation.
pub fn str_to_case_op(arg: &str) -> (r: CaseOp)
    ensures
        r == spec_case_op(arg@),
{
    if str_eq(arg, "title") {
        CaseOp::Title
    } else if str_eq(arg, "upper") {
        CaseOp::Upper
    } else if str_eq(arg, "lower") {
        CaseOp::Lower
    } else if str_eq(arg, "sponge") {
        CaseOp::Sponge
    } else if str_eq(arg, "snake") {
        CaseOp::Snake
    } else if str_eq(arg, "camel") {
        CaseOp::Camel
    } else if str_eq(arg, "kebab") {
        CaseOp::Kebab
    } else {
        CaseOp::Unknown
    }
}

/// The operation of the first token whose lowered form is a casing
/// keyword, resolved against the token as written.
pub open spec fn spec_select_case(args: Seq<Seq<char>>) -> CaseOp
    decreases args.len(),
{
    if args.len() == 0 {
        CaseOp::Unknown
    } else if crate::utils::casing_kw(lower_of(args[0])) {
        spec_case_op(args[0])
    } else {
        spec_select_case(args.drop_first())
    }
}

/// Scans the arguments for the first casing keyword.
pub fn select_case_option(args: &Vec<String>) -> (r: CaseOp)
    ensures
        r == spec_select_case(crate::utils::str_views(args@)),
{
    let ghost av = crate::utils::str_views(args@);
    let mut i: usize = 0;
    proof {
        assert(av.skip(0) =~= av);
    }
    while i < args.len()
        invariant
            av == crate::utils::str_views(args@),
            i <= args@.len(),
            spec_select_case(av) == spec_select_case(av.skip(i as int)),
        decreases args@.len() - i,
    {
        let low = lower_str(args[i].as_str());
        proof {
            assert(av.skip(i as int)[0] == av[i as int]);
            assert(av.skip(i as int).drop_first() =~= av.skip(i + 1));
        }
        if crate::utils::is_casing_kw(low.as_str()) {
            return str_to_case_op(args[i].as_str());
        }
        i = i + 1;
    }
    proof {
        assert(av.skip(args@.len() as int) =~= Seq::<Seq<char>>::empty());
    }
    CaseOp::Unknown
}

// ------------------------------------------------------------------
// The casings
// ------------------------------------------------------------------

/// The whole text lowered.
pub fn lower_case(text: &str) -> (r: String)
    ensures
        r@ == lower_of(text@),
{
    lower_str(text)
}

/// The whole text uppered.
pub fn upper_case(text: &str) -> (r: String)
    ensures
        r@ == upper_of(text@),
{
    upper_str(text)
}

/// A word lowered, then its first character's uppercase expansion put in
/// front of the rest.
pub open spec fn title_word(w: Seq<char>) -> Seq<char> {
    let lw = lower_of(w);
    if lw.len() == 0 {
        Seq::empty()
    } else {
        char_upper_str_of(lw[0]) + lw.drop_first()
    }
}

/// A line title-cased: its words each title-cased, joined by one space.
pub open spec fn spec_title_line(l: Seq<char>) -> Seq<char> {
    spec_join(spec_words(l).map_values(|w: Seq<char>| title_word(w)), seq![' '])
}

/// The text title-cased line by line.
pub open spec fn spec_title(s: Seq<char>) -> Seq<char> {
    spec_join(spec_lines(s).map_values(|l: Seq<char>| spec_title_line(l)), seq!['\n'])
}

/// Title-cases one word.
fn title_word_exec(w: &Vec<char>) -> (r: Vec<char>)
    ensures
        r@ == title_word(w@),
{
    let ws = chars_to_string(w);
    let low = lower_str(ws.as_str());
    let lw = str_to_chars(low.as_str());
    if lw.len() == 0 {
        let empty: Vec<char> = Vec::new();
        return empty;
    }
    let up = char_upper_full(lw[0]);
    let mut out = str_to_chars(up.as_str());
    let mut k: usize = 1;
    proof {
        assert(lw@.subrange(1, 1) =~= Seq::<char>::empty());
        assert(out@ + lw@.subrange(1, 1) =~= out@);
    }
    while k < lw.len()
        invariant
            1 <= k <= lw@.len(),
            lw@ == lower_of(w@),
            lw@.len() > 0,
            out@ =~= char_upper_str_of(lw@[0]) + lw@.subrange(1, k as int),
        decreases lw@.len() - k,
    {
        out.push(lw[k]);
        proof {
            assert(lw@.subrange(1, k + 1) =~= lw@.subrange(1, k as int).push(lw@[k as int]));
            assert(out@ =~= char_upper_str_of(lw@[0]) + lw@.subrange(1, k + 1));
        }
        k = k + 1;
    }
    proof {
        assert(lw@.subrange(1, lw@.len() as int) =~= lw@.drop_first());
    }
    out
}

/// Title-cases one line.
fn title_line_exec(l: &Vec<char>) -> (r: Vec<char>)
    ensures
        r@ == spec_title_line(l@),
{
    let words = split_words(l);
    let ghost wv = views_of(words@);
    let mut titled: Vec<Vec<char>> = Vec::new();
    let mut i: usize = 0;
    while i < words.len()
        invariant
            i <= words@.len(),
            wv == views_of(words@),
            wv == spec_words(l@),
            views_of(titled@).len() == i,
            forall|j: int| 0 <= j < i ==> views_of(titled@)[j] == title_word(wv[j]),
        decreases words@.len() - i,
    {
        let t = title_word_exec(&words[i]);
        let ghost tv = t@;
        let ghost acc0 = titled@;
        titled.push(t);
        proof {
            assert(titled@.last()@ == tv);
            assert forall|j: int| 0 <= j < i implies #[trigger] views_of(titled@)[j]
                == title_word(wv[j]) by {
                assert(titled@[j] == acc0[j]);
                assert(views_of(acc0)[j] == title_word(wv[j]));
            }
            assert(views_of(titled@)[i as int] == title_word(wv[i as int]));
        }
        i = i + 1;
    }
    proof {
        assert(views_of(titled@) =~= spec_words(l@).map_values(|w: Seq<char>| title_word(w)));
    }
    let sp = chars1(' ');
    join_chars(&titled, &sp)
}

/// Title-cases the text: for each line, each word is lowered and its first
/// character uppered, and the words are joined by single spaces.
pub fn title_case(text: &str) -> (r: String)
    ensures
        r@ == spec_title(text@),
{
    let cs = str_to_chars(text);
    let lines = split_lines(&cs);
    let ghost lv = views_of(lines@);
    let mut titled: Vec<Vec<char>> = Vec::new();
    let mut i: usize = 0;
    while i < lines.len()
        invariant
            i <= lines@.len(),
            lv == views_of(lines@),
            lv == spec_lines(text@),
            views_of(titled@).len() == i,
            forall|j: int| 0 <= j < i ==> views_of(titled@)[j] == spec_title_line(lv[j]),
        decreases lines@.len() - i,
    {
        let t = title_line_exec(&lines[i]);
        let ghost tv = t@;
        let ghost acc0 = titled@;
        titled.push(t);
        proof {
            assert(titled@.last()@ == tv);
            assert forall|j: int| 0 <= j < i implies #[trigger] views_of(titled@)[j]
                == spec_title_line(lv[j]) by {
                assert(titled@[j] == acc0[j]);
                assert(views_of(acc0)[j] == spec_title_line(lv[j]));
            }
            assert(views_of(titled@)[i as int] == spec_title_line(lv[i as int]));
        }
        i = i + 1;
    }
    proof {
        assert(views_of(titled@) =~= spec_lines(text@).map_values(
            |l: Seq<char>| spec_title_line(l),
        ));
    }
    let nl = chars1('\n');
    let out = join_chars(&titled, &nl);
    chars_to_string(&out)
}

} // verus!

verus! {

/// What `case::CaseExt::to_camel` returns for the given characters.
pub uninterp spec fn camel_of(s: Seq<char>) -> Seq<char>;

/// What `case::CaseExt::to_snake` returns for the given characters.
pub uninterp spec fn snake_of(s: Seq<char>) -> Seq<char>;


/// Relies on `case::CaseExt::to_camel`: a function of the characters alone.
#[verifier::external_body]
fn to_camel_str(s: &str) -> (r: String)
    ensures
        r@ == camel_of(s@),
{
    s.to_camel()
}

/// Relies on `case::CaseExt::to_snake`: a function of the characters alone.
#[verifier::external_body]
fn to_snake_str(s: &str) -> (r: String)
    ensures
        r@ == snake_of(s@),
{
    s.to_snake()
}

/// Relies on `case::CaseExt::to_dashed`: it turns every underscore into a
/// dash and keeps every other character.
#[verifier::external_body]
fn to_dashed_str(s: &str) -> (r: String)
    ensures
        r@ == crate::strkit::spec_replace(s@, seq!['_'], seq!['-']),
{
    s.to_dashed()
}

/// Camel-cases the text.
pub fn camel_case(text: &str) -> (r: String)
    ensures
        r@ == camel_of(text@),
{
    to_camel_str(text)
}

/// Snake-cases the text.
pub fn snake_case(text: &str) -> (r: String)
    ensures
        r@ == snake_of(text@),
{
    to_snake_str(text)
}

/// Snake-cases the text, then turns underscores into dashes.
pub fn kebab_case(text: &str) -> (r: String)
    ensures
        r@ == crate::strkit::spec_replace(snake_of(text@), seq!['_'], seq!['-']),
{
    let temp = to_snake_str(text);
    to_dashed_str(temp.as_str())
}

// ------------------------------------------------------------------
// Sponge case
// ------------------------------------------------------------------

/// Relies on rand's thread-local generator: a coin flip; nothing is
/// promised of the outcome.
#[verifier::external_body]
fn rand_bool() -> bool {
    rand::rng().random::<bool>()
}

/// What holds of a sponge-cased text whatever the coin flips were: each
/// character is replaced by the first character of its lowercase or of its
/// uppercase mapping, so letters keep their identity up to case, and
/// characters without case mappings — white space among them — stay
/// exactly.
pub open spec fn sponge_rel(s: Seq<char>, r: Seq<char>) -> bool {
    r.len() == s.len() && (forall|i: int|
        0 <= i < s.len() ==> r[i] == char_lower_first_of(s[i]) || r[i] == char_upper_first_of(
            s[i],
        ))
}

/// Randomly upper- or lower-cases each character of the text; whatever the
/// coin flips, `sponge_rel` holds.
pub fn sponge_case(text: &str) -> (r: String)
    ensures
        sponge_rel(text@, r@),
{
    let t = str_to_chars(text);
    let mut out: Vec<char> = Vec::new();
    let mut i: usize = 0;
    while i < t.len()
        invariant
            i <= t@.len(),
            t@ == text@,
            out@.len() == i,
            forall|j: int|
                0 <= j < i ==> out@[j] == char_lower_first_of(t@[j]) || out@[j]
                    == char_upper_first_of(t@[j]),
        decreases t@.len() - i,
    {
        let c = t[i];
        let rc = if rand_bool() {
            char_lower_first(c)
        } else {
            char_upper_first(c)
        };
        out.push(rc);
        i = i + 1;
    }
    chars_to_string(&out)
}

/// Applies the selected casing operation to the text.
pub fn handle_case_operation(text: &str, op: CaseOp) -> (r: String)
    requires
        !(op is Unknown),
    ensures
        op is Title ==> r@ == spec_title(text@),
        op is Lower ==> r@ == lower_of(text@),
        op is Upper ==> r@ == upper_of(text@),
        op is Sponge ==> sponge_rel(text@, r@),
        op is Snake ==> r@ == snake_of(text@),
        op is Camel ==> r@ == camel_of(text@),
        op is Kebab ==> r@ == crate::strkit::spec_replace(snake_of(text@), seq!['_'], seq!['-']),
{
    match op {
        CaseOp::Title => title_case(text),
        CaseOp::Lower => lower_case(text),
        CaseOp::Upper => upper_case(text),
        CaseOp::Sponge => sponge_case(text),
        CaseOp::Snake => snake_case(text),
        CaseOp::Camel => camel_case(text),
        CaseOp::Kebab => kebab_case(text),
        CaseOp::Unknown => vstd::pervasive::unreached(),
    }
}

} // verus!
