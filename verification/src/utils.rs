//! The argument-handling core: flag scanning, operation-family dispatch,
//! input-path resolution and output-path rewriting.
use vstd::prelude::*;

use crate::strkit::{lower_of, lower_str, str_eq, str_to_chars};

verus! {

/// The five operation families, plus the catch-all.
#[derive(Clone, Copy, Debug, PartialEq, Eq, Structural)]
pub enum CommandFamily {
    Casing,
    Encoding,
    Format,
    TextUtils,
    Conversion,
    Unknown,
}

/// How a conversion changes the serialization format of the output path.
#[derive(Clone, Copy, Debug, PartialEq, Eq, Structural)]
pub enum PathChange {
    JsonCsv,
    CsvJson,
    JsonYaml,
    YamlJson,
    NoChange,
}

// ------------------------------------------------------------------
// Flag scanning
// ------------------------------------------------------------------

/// The recognized flag letters.
pub open spec fn is_flag_char(c: char) -> bool {
    c == 's' || c == 'f' || c == 'i' || c == 'h'
}

/// The recognized flag letters of a token body, in order.
pub open spec fn flag_chars(tok: Seq<char>) -> Seq<char>
    decreases tok.len(),
{
    if tok.len() == 0 {
        Seq::empty()
    } else {
        let rest = flag_chars(tok.drop_last());
        if is_flag_char(tok.last()) {
            rest.push(tok.last())
        } else {
            rest
        }
    }
}

/// Each flag letter paired with the index of its token.
pub open spec fn pair_up(cs: Seq<char>, i: usize) -> Seq<(usize, char)> {
    cs.map_values(|c: char| (i, c))
}

/// The flag pairs contributed by the token at index `i`: its recognized
/// letters after a leading dash, each at index `i`.
pub open spec fn token_flags(tok: Seq<char>, i: usize) -> Seq<(usize, char)> {
    if tok.len() > 0 && tok[0] == '-' {
        pair_up(flag_chars(tok.drop_first()), i)
    } else {
        Seq::empty()
    }
}

/// The views of a sequence of strings.
pub open spec fn str_views(args: Seq<String>) -> Seq<Seq<char>> {
    Seq::new(args.len(), |i: int| args[i]@)
}

/// All flag pairs of the argument list, token by token, left to right.
pub open spec fn spec_flags(args: Seq<Seq<char>>) -> Seq<(usize, char)>
    decreases args.len(),
{
    if args.len() == 0 {
        Seq::empty()
    } else {
        spec_flags(args.drop_last()) + token_flags(args.last(), (args.len() - 1) as usize)
    }
}

/// Extracts the recognized flags: one `(token index, letter)` pair per
/// recognized letter inside each dash-led token, scanning left to right.
pub fn get_flags(args: &Vec<String>) -> (r: Vec<(usize, char)>)
    ensures
        r@ == spec_flags(str_views(args@)),
        forall|j: int| 0 <= j < r@.len() ==> (#[trigger] r@[j]).0 < args@.len(),
{
    let ghost av = str_views(args@);
    let mut r: Vec<(usize, char)> = Vec::new();
    let mut i: usize = 0;
    proof {
        assert(av.take(0) =~= Seq::<Seq<char>>::empty());
        assert(r@ =~= spec_flags(av.take(0)));
    }
    while i < args.len()
        invariant
            av == str_views(args@),
            i <= args@.len(),
            r@ =~= spec_flags(av.take(i as int)),
            forall|j: int| 0 <= j < r@.len() ==> (#[trigger] r@[j]).0 < i,
        decreases args@.len() - i,
    {
        let ghost r0 = r@;
        let tok = str_to_chars(&args[i]);
        proof {
            assert(av.take(i + 1).drop_last() =~= av.take(i as int));
            assert(av.take(i + 1).last() == av[i as int]);
            assert(tok@ == av[i as int]);
        }
        if tok.len() > 0 && tok[0] == '-' {
            let mut k: usize = 1;
            proof {
                assert(tok@.subrange(1, 1) =~= Seq::<char>::empty());
                assert(pair_up(flag_chars(tok@.subrange(1, 1)), i) =~= Seq::<(usize, char)>::empty());
                assert(r@ =~= r0 + pair_up(flag_chars(tok@.subrange(1, k as int)), i));
            }
            while k < tok.len()
                invariant
                    av == str_views(args@),
                    i < args@.len(),
                    tok@ == av[i as int],
                    tok@.len() > 0,
                    1 <= k <= tok@.len(),
                    r@ =~= r0 + pair_up(flag_chars(tok@.subrange(1, k as int)), i),
                    forall|j: int| 0 <= j < r0.len() ==> (#[trigger] r0[j]).0 < i,
                    forall|j: int| 0 <= j < r@.len() ==> (#[trigger] r@[j]).0 <= i,
                decreases tok@.len() - k,
            {
                let c = tok[k];
                let ghost body_pre = tok@.subrange(1, k as int);
                proof {
                    assert(tok@.subrange(1, k + 1).drop_last() =~= body_pre);
                    assert(tok@.subrange(1, k + 1).last() == c);
                }
                if c == 's' || c == 'f' || c == 'i' || c == 'h' {
                    r.push((i, c));
                    proof {
                        assert(pair_up(flag_chars(body_pre).push(c), i) =~= pair_up(
                            flag_chars(body_pre),
                            i,
                        ).push((i, c)));
                        assert(r@ =~= r0 + pair_up(flag_chars(tok@.subrange(1, k + 1)), i));
                    }
                } else {
                    proof {
                        assert(flag_chars(tok@.subrange(1, k + 1)) == flag_chars(body_pre));
                    }
                }
                k = k + 1;
            }
            proof {
                assert(tok@.subrange(1, tok@.len() as int) =~= tok@.drop_first());
                assert(r@ =~= r0 + token_flags(av[i as int], i));
                assert(r@ =~= spec_flags(av.take(i + 1)));
            }
        } else {
            proof {
                assert(token_flags(av[i as int], i) =~= Seq::<(usize, char)>::empty());
                assert(r0 + token_flags(av[i as int], i) =~= r0);
                assert(r@ =~= spec_flags(av.take(i + 1)));
            }
        }
        i = i + 1;
    }
    proof {
        assert(av.take(args@.len() as int) =~= av);
    }
    r
}

/// True when some pair carries the flag letter.
pub open spec fn spec_flags_contains(flags: Seq<(usize, char)>, target: char) -> bool {
    exists|j: int| 0 <= j < flags.len() && (#[trigger] flags[j]).1 == target
}

/// Whether the flag letter occurs among the scanned pairs.
pub fn flags_contains(flags: &Vec<(usize, char)>, target: char) -> (r: bool)
    ensures
        r == spec_flags_contains(flags@, target),
{
    let mut j: usize = 0;
    while j < flags.len()
        invariant
            j <= flags@.len(),
            forall|k: int| 0 <= k < j ==> (#[trigger] flags@[k]).1 != target,
        decreases flags@.len() - j,
    {
        if flags[j].1 == target {
            return true;
        }
        j = j + 1;
    }
    false
}

/// The token index of the first pair carrying the flag letter.
pub open spec fn first_flag_idx(flags: Seq<(usize, char)>, target: char) -> usize
    decreases flags.len(),
{
    if flags.len() == 0 {
        0
    } else if flags[0].1 == target {
        flags[0].0
    } else {
        first_flag_idx(flags.drop_first(), target)
    }
}

/// The argument index just after the token where the flag was found: the
/// position of that flag's associated value.
pub fn get_flag_idx(flags: &Vec<(usize, char)>, target: char) -> (r: usize)
    requires
        spec_flags_contains(flags@, target),
        first_flag_idx(flags@, target) < usize::MAX,
    ensures
        r == first_flag_idx(flags@, target) + 1,
{
    let mut j: usize = 0;
    proof {
        assert(flags@.skip(0) =~= flags@);
    }
    while j < flags.len()
        invariant
            j <= flags@.len(),
            spec_flags_contains(flags@, target),
            first_flag_idx(flags@, target) < usize::MAX,
            forall|k: int| 0 <= k < j ==> (#[trigger] flags@[k]).1 != target,
            first_flag_idx(flags@, target) == first_flag_idx(flags@.skip(j as int), target),
        decreases flags@.len() - j,
    {
        if flags[j].1 == target {
            proof {
                assert(flags@.skip(j as int)[0] == flags@[j as int]);
            }
            return flags[j].0 + 1;
        }
        proof {
            assert(flags@.skip(j as int)[0] == flags@[j as int]);
            assert(flags@.skip(j as int).drop_first() =~= flags@.skip(j + 1));
        }
        j = j + 1;
    }
    proof {
        let w = choose|k: int| 0 <= k < flags@.len() && (#[trigger] flags@[k]).1 == target;
        assert(false);
    }
    0
}

// ------------------------------------------------------------------
// Keyword tables and family dispatch
// ------------------------------------------------------------------

/// The casing keywords.
pub open spec fn casing_kw(s: Seq<char>) -> bool {
    ||| s == "upper"@
    ||| s == "lower"@
    ||| s == "title"@
    ||| s == "sponge"@
    ||| s == "snake"@
    ||| s == "camel"@
    ||| s == "kebab"@
}

/// The encoding keywords.
pub open spec fn encoding_kw(s: Seq<char>) -> bool {
    ||| s == "rot13"@
    ||| s == "base64_encode"@
    ||| s == "base64_decode"@
    ||| s == "md5"@
    ||| s == "html_encode"@
    ||| s == "html_decode"@
    ||| s == "html_encode_all"@
    ||| s == "url_encode"@
    ||| s == "url_decode"@
    ||| s == "url_entity_encode"@
    ||| s == "url_entities_decode"@
    ||| s == "sha1"@
    ||| s == "sha256"@
    ||| s == "sha512"@
}

/// The format keywords.
pub open spec fn format_kw(s: Seq<char>) -> bool {
    ||| s == "add_slashes"@
    ||| s == "remove_slashes"@
    ||| s == "format_json"@
    ||| s == "format_sql"@
    ||| s == "format_css"@
    ||| s == "format_xml"@
    ||| s == "minify_json"@
    ||| s == "minify_sql"@
    ||| s == "minify_css"@
    ||| s == "minify_xml"@
}

/// The text-utility keywords.
pub open spec fn text_util_kw(s: Seq<char>) -> bool {
    ||| s == "defang"@
    ||| s == "refang"@
    ||| s == "deburr"@
    ||| s == "shuffle"@
    ||| s == "sum"@
    ||| s == "count"@
    ||| s == "collapse"@
    ||| s == "dedup"@
    ||| s == "sort"@
    ||| s == "trim"@
    ||| s == "natural_sort"@
    ||| s == "reverse"@
    ||| s == "lorem_ipsum"@
    ||| s == "md_quote"@
    ||| s == "replace_smart_quotes"@
}

/// The conversion keywords as the family table spells them.
pub open spec fn conversion_family_kw(s: Seq<char>) -> bool {
    ||| s == "ascii_to_hex"@
    ||| s == "hex_to_ascii"@
    ||| s == "yaml_to_json"@
    ||| s == "json_to_yaml"@
    ||| s == "date_to_timestamp"@
    ||| s == "date_to_utc"@
    ||| s == "binary_to_decimal"@
    ||| s == "decimal_to_binary"@
    ||| s == "json_to_query_string"@
    ||| s == "query_string_to_json"@
    ||| s == "decimal_to_hex"@
    ||| s == "hex_to_decimal"@
    ||| s == "json_to_csv"@
    ||| s == "csv_to_json"@
    ||| s == "hex_to_rgb"@
    ||| s == "fish_path_hex_conv"@
}

/// The family of one lowered token, checked in the fixed precedence order.
pub open spec fn spec_token_family(low: Seq<char>) -> CommandFamily {
    if casing_kw(low) {
        CommandFamily::Casing
    } else if encoding_kw(low) {
        CommandFamily::Encoding
    } else if format_kw(low) {
        CommandFamily::Format
    } else if text_util_kw(low) {
        CommandFamily::TextUtils
    } else if conversion_family_kw(low) {
        CommandFamily::Conversion
    } else {
        CommandFamily::Unknown
    }
}

/// The family of the first token whose lowered form matches any family's
/// keyword set; `Unknown` when no token matches.
pub open spec fn spec_family(args: Seq<Seq<char>>) -> CommandFamily
    decreases args.len(),
{
    if args.len() == 0 {
        CommandFamily::Unknown
    } else if spec_token_family(lower_of(args[0])) != CommandFamily::Unknown {
        spec_token_family(lower_of(args[0]))
    } else {
        spec_family(args.drop_first())
    }
}

/// Whether the lowered token is a casing keyword.
pub fn is_casing_kw(s: &str) -> (r: bool)
    ensures
        r == casing_kw(s@),
{
    str_eq(s, "upper") || str_eq(s, "lower") || str_eq(s, "title") || str_eq(s, "sponge")
        || str_eq(s, "snake") || str_eq(s, "camel") || str_eq(s, "kebab")
}

/// Whether the lowered token is an encoding keyword.
pub fn is_encoding_kw(s: &str) -> (r: bool)
    ensures
        r == encoding_kw(s@),
{
    str_eq(s, "rot13") || str_eq(s, "base64_encode") || str_eq(s, "base64_decode") || str_eq(
        s,
        "md5",
    ) || str_eq(s, "html_encode") || str_eq(s, "html_decode") || str_eq(s, "html_encode_all")
        || str_eq(s, "url_encode") || str_eq(s, "url_decode") || str_eq(s, "url_entity_encode")
        || str_eq(s, "url_entities_decode") || str_eq(s, "sha1") || str_eq(s, "sha256") || str_eq(
        s,
        "sha512",
    )
}

/// Whether the lowered token is a format keyword.
pub fn is_format_kw(s: &str) -> (r: bool)
    ensures
        r == format_kw(s@),
{
    str_eq(s, "add_slashes") || str_eq(s, "remove_slashes") || str_eq(s, "format_json") || str_eq(
        s,
        "format_sql",
    ) || str_eq(s, "format_css") || str_eq(s, "format_xml") || str_eq(s, "minify_json") || str_eq(
        s,
        "minify_sql",
    ) || str_eq(s, "minify_css") || str_eq(s, "minify_xml")
}

/// Whether the lowered token is a text-utility keyword.
pub fn is_text_util_kw(s: &str) -> (r: bool)
    ensures
        r == text_util_kw(s@),
{
    str_eq(s, "defang") || str_eq(s, "refang") || str_eq(s, "deburr") || str_eq(s, "shuffle")
        || str_eq(s, "sum") || str_eq(s, "count") || str_eq(s, "collapse") || str_eq(s, "dedup")
        || str_eq(s, "sort") || str_eq(s, "trim") || str_eq(s, "natural_sort") || str_eq(
        s,
        "reverse",
    ) || str_eq(s, "lorem_ipsum") || str_eq(s, "md_quote") || str_eq(s, "replace_smart_quotes")
}

/// Whether the lowered token is in the family table's conversion column.
pub fn is_conversion_family_kw(s: &str) -> (r: bool)
    ensures
        r == conversion_family_kw(s@),
{
    str_eq(s, "ascii_to_hex") || str_eq(s, "hex_to_ascii") || str_eq(s, "yaml_to_json") || str_eq(
        s,
        "json_to_yaml",
    ) || str_eq(s, "date_to_timestamp") || str_eq(s, "date_to_utc") || str_eq(
        s,
        "binary_to_decimal",
    ) || str_eq(s, "decimal_to_binary") || str_eq(s, "json_to_query_string") || str_eq(
        s,
        "query_string_to_json",
    ) || str_eq(s, "decimal_to_hex") || str_eq(s, "hex_to_decimal") || str_eq(s, "json_to_csv")
        || str_eq(s, "csv_to_json") || str_eq(s, "hex_to_rgb") || str_eq(s, "fish_path_hex_conv")
}

/// The family of one lowered token.
pub fn token_family(low: &str) -> (r: CommandFamily)
    ensures
        r == spec_token_family(low@),
{
    if is_casing_kw(low) {
        CommandFamily::Casing
    } else if is_encoding_kw(low) {
        CommandFamily::Encoding
    } else if is_format_kw(low) {
        CommandFamily::Format
    } else if is_text_util_kw(low) {
        CommandFamily::TextUtils
    } else if is_conversion_family_kw(low) {
        CommandFamily::Conversion
    } else {
        CommandFamily::Unknown
    }
}

/// Scans the arguments once, left to right, and returns the family of the
/// first token (lowered) found in any family's keyword set.
pub fn get_command_family(args: &Vec<String>) -> (r: CommandFamily)
    ensures
        r == spec_family(str_views(args@)),
{
    let ghost av = str_views(args@);
    let mut i: usize = 0;
    proof {
        assert(av.skip(0) =~= av);
    }
    while i < args.len()
        invariant
            av == str_views(args@),
            i <= args@.len(),
            spec_family(av) == spec_family(av.skip(i as int)),
        decreases args@.len() - i,
    {
        let low = lower_str(args[i].as_str());
        let fam = token_family(low.as_str());
        proof {
            assert(av.skip(i as int)[0] == av[i as int]);
            assert(av.skip(i as int).drop_first() =~= av.skip(i + 1));
        }
        if !matches!(fam, CommandFamily::Unknown) {
            return fam;
        }
        i = i + 1;
    }
    proof {
        assert(av.skip(args@.len() as int) =~= Seq::<Seq<char>>::empty());
    }
    CommandFamily::Unknown
}

// ------------------------------------------------------------------
// Input-path resolution and output-path rewriting
// ------------------------------------------------------------------

/// The first argument containing a dot, if any.
pub open spec fn spec_first_dotted(args: Seq<Seq<char>>) -> Option<Seq<char>>
    decreases args.len(),
{
    if args.len() == 0 {
        None
    } else if args[0].contains('.') {
        Some(args[0])
    } else {
        spec_first_dotted(args.drop_first())
    }
}

/// The resolved file path: the token after the first `-f` flag when one is
/// present (none when that position is past the end), else the first
/// argument containing a dot.
pub open spec fn spec_find_file_path(args: Seq<Seq<char>>) -> Option<Seq<char>> {
    let fl = spec_flags(args);
    if spec_flags_contains(fl, 'f') {
        let idx = first_flag_idx(fl, 'f') + 1;
        if idx < args.len() {
            Some(args[idx])
        } else {
            None
        }
    } else {
        spec_first_dotted(args)
    }
}

/// The first matching pair's index stays below any bound on all indices.
pub proof fn lemma_first_flag_idx_bound(fl: Seq<(usize, char)>, target: char, bound: int)
    requires
        spec_flags_contains(fl, target),
        forall|j: int| 0 <= j < fl.len() ==> (#[trigger] fl[j]).0 < bound,
    ensures
        first_flag_idx(fl, target) < bound,
    decreases fl.len(),
{
    if fl[0].1 == target {
    } else {
        let w = choose|k: int| 0 <= k < fl.len() && (#[trigger] fl[k]).1 == target;
        assert(fl.drop_first()[w - 1] == fl[w]);
        assert(spec_flags_contains(fl.drop_first(), target));
        assert(forall|j: int|
            0 <= j < fl.drop_first().len() ==> (#[trigger] fl.drop_first()[j]) == fl[j + 1]);
        lemma_first_flag_idx_bound(fl.drop_first(), target, bound);
    }
}

/// Resolves the file path among the arguments.
pub fn find_file_path(args: &Vec<String>) -> (r: Option<String>)
    ensures
        r is Some <==> spec_find_file_path(str_views(args@)) is Some,
        r is Some ==> r->0@ == spec_find_file_path(str_views(args@))->0,
{
    let ghost av = str_views(args@);
    let n = args.len();
    let flags = get_flags(args);
    if flags_contains(&flags, 'f') {
        proof {
            lemma_first_flag_idx_bound(flags@, 'f', args@.len() as int);
        }
        let idx = get_flag_idx(&flags, 'f');
        if idx < args.len() {
            return Some(args[idx].clone());
        }
        return None;
    }
    let mut i: usize = 0;
    proof {
        assert(av.skip(0) =~= av);
    }
    while i < args.len()
        invariant
            av == str_views(args@),
            i <= args@.len(),
            spec_first_dotted(av) == spec_first_dotted(av.skip(i as int)),
            !spec_flags_contains(spec_flags(av), 'f'),
        decreases args@.len() - i,
    {
        let tok = str_to_chars(&args[i]);
        proof {
            assert(av.skip(i as int)[0] == av[i as int]);
            assert(av.skip(i as int).drop_first() =~= av.skip(i + 1));
        }
        if crate::strkit::chars_contain(&tok, '.') {
            return Some(args[i].clone());
        }
        i = i + 1;
    }
    proof {
        assert(av.skip(args@.len() as int) =~= Seq::<Seq<char>>::empty());
    }
    None
}

/// Index just past the last dot, or one before the end when there is no
/// dot (the resolver's historical off-by-one), or zero for an empty path.
pub open spec fn spec_stem_end(s: Seq<char>) -> int {
    if s.contains('.') {
        last_dot(s)
    } else if s.len() > 0 {
        s.len() - 1
    } else {
        0
    }
}

/// The index of the last dot in `s` (meaningful only when one exists).
pub open spec fn last_dot(s: Seq<char>) -> int
    decreases s.len(),
{
    if s.len() == 0 {
        0
    } else if s.last() == '.' {
        s.len() - 1
    } else {
        last_dot(s.drop_last())
    }
}

pub proof fn lemma_last_dot(s: Seq<char>)
    requires
        s.contains('.'),
    ensures
        0 <= last_dot(s) < s.len(),
        s[last_dot(s)] == '.',
        forall|j: int| last_dot(s) < j < s.len() ==> s[j] != '.',
    decreases s.len(),
{
    if s.len() > 0 {
        if s.last() == '.' {
        } else {
            let w = choose|k: int| 0 <= k < s.len() && s[k] == '.';
            assert(s.drop_last()[w] == '.');
            assert(s.drop_last().contains('.'));
            lemma_last_dot(s.drop_last());
            assert(forall|j: int|
                0 <= j < s.drop_last().len() ==> s.drop_last()[j] == s[j]);
        }
    }
}

/// The extension the path gets for each format change.
pub open spec fn change_ext(change: PathChange) -> Seq<char> {
    match change {
        PathChange::JsonCsv => ".csv"@,
        PathChange::CsvJson => ".json"@,
        PathChange::JsonYaml => ".yaml"@,
        PathChange::YamlJson => ".json"@,
        PathChange::NoChange => Seq::empty(),
    }
}

/// The output path after a format change: the stem up to the last dot with
/// the new extension; an unchanged path for `NoChange`.
pub open spec fn spec_update_path(s: Seq<char>, change: PathChange) -> Seq<char> {
    match change {
        PathChange::NoChange => s,
        _ => s.take(spec_stem_end(s)) + change_ext(change),
    }
}

/// Index of the last dot in the character vector, as `str::rfind(".")`.
pub fn rfind_dot(cs: &Vec<char>) -> (r: Option<usize>)
    ensures
        r is Some <==> cs@.contains('.'),
        r is Some ==> r->0 == last_dot(cs@) && r->0 < cs@.len(),
{
    let mut end: usize = cs.len();
    proof {
        assert(cs@.skip(cs@.len() as int) =~= Seq::<char>::empty());
    }
    while end > 0
        invariant
            end <= cs@.len(),
            !cs@.skip(end as int).contains('.'),
        decreases end,
    {
        if cs[end - 1] == '.' {
            proof {
                assert(cs@.contains('.')) by {
                    assert(cs@[end - 1] == '.');
                }
                lemma_last_dot(cs@);
                assert forall|j: int| end - 1 < j < cs@.len() implies cs@[j] != '.' by {
                    assert(cs@.skip(end as int)[j - end] == cs@[j]);
                }
                assert(last_dot(cs@) == end - 1) by {
                    if last_dot(cs@) > end - 1 {
                        assert(cs@[last_dot(cs@)] != '.');
                    } else if last_dot(cs@) < end - 1 {
                        assert(cs@[end - 1] != '.');
                    }
                }
            }
            return Some(end - 1);
        }
        proof {
            assert forall|j: int| 0 <= j < cs@.skip(end - 1).len() implies #[trigger] cs@.skip(
                end - 1,
            )[j] != '.' by {
                if j == 0 {
                } else {
                    assert(cs@.skip(end - 1)[j] == cs@.skip(end as int)[j - 1]);
                }
            }
        }
        end = end - 1;
    }
    proof {
        assert(cs@.skip(0) =~= cs@);
    }
    None
}

/// Rewrites the path's extension for the four format-changing conversions.
pub fn update_path(path: &str, change: PathChange) -> (r: String)
    ensures
        r@ == spec_update_path(path@, change),
{
    let cs = str_to_chars(path);
    if matches!(change, PathChange::NoChange) {
        return crate::strkit::chars_to_string(&cs);
    }
    let dot = rfind_dot(&cs);
    let stem_end: usize = match dot {
        Some(d) => d,
        None => if cs.len() > 0 {
            cs.len() - 1
        } else {
            0
        },
    };
    proof {
        assert(stem_end as int == spec_stem_end(path@));
    }
    let mut out: Vec<char> = Vec::new();
    let mut i: usize = 0;
    while i < stem_end
        invariant
            stem_end <= cs@.len(),
            i <= stem_end,
            cs@ == path@,
            out@ =~= cs@.take(stem_end as int).take(i as int),
        decreases stem_end - i,
    {
        out.push(cs[i]);
        proof {
            assert(cs@.take(stem_end as int).take(i + 1) =~= cs@.take(stem_end as int).take(
                i as int,
            ).push(cs@[i as int]));
        }
        i = i + 1;
    }
    proof {
        assert(out@ =~= cs@.take(stem_end as int));
    }
    let ext: &str = match change {
        PathChange::JsonCsv => ".csv",
        PathChange::CsvJson => ".json",
        PathChange::JsonYaml => ".yaml",
        PathChange::YamlJson => ".json",
        PathChange::NoChange => "",
    };
    let ext_chars = str_to_chars(ext);
    crate::strkit::append_chars(&mut out, &ext_chars);
    proof {
        reveal_strlit(".csv");
        reveal_strlit(".json");
        reveal_strlit(".yaml");
        reveal_strlit("");
    }
    crate::strkit::chars_to_string(&out)
}

} // verus!
