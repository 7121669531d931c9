//! Formatting: slash escaping and whitespace-level minification, verified
//! exactly; the JSON, CSS, SQL and XML pretty-printers delegate to their
//! format libraries.
use vstd::prelude::*;

use quick_xml::events::Event;
use vstd::string::StrSliceExecFns;

use crate::strkit::{
    append_chars, chars1, chars_to_string, join_chars, lower_of, lower_str, spec_join,
    spec_lines, spec_replace, spec_trim, spec_words, split_lines, split_words, str_eq,
    str_to_chars, replace_chars, trim_chars, views_of,
};

verus! {

/// The format operations.
#[derive(Clone, Copy, Debug, PartialEq, Eq, Structural)]
pub enum FormatOp {
    AddSlashes,
    RemoveSlashes,
    FormatJson,
    FormatSql,
    FormatCss,
    FormatXml,
    MinifyJson,
    MinifySql,
    MinifyCss,
    MinifyXml,
    Unknown,
}

/// The operation a token selects, matched against the token as written.
pub open spec fn spec_format_op(s: Seq<char>) -> FormatOp {
    if s == "add_slashes"@ {
        FormatOp::AddSlashes
    } else if s == "remove_slashes"@ {
        FormatOp::RemoveSlashes
    } else if s == "format_json"@ {
        FormatOp::FormatJson
    } else if s == "format_sql"@ {
        FormatOp::FormatSql
    } else if s == "format_css"@ {
        FormatOp::FormatCss
    } else if s == "format_xml"@ {
        FormatOp::FormatXml
    } else if s == "minify_json"@ {
        FormatOp::MinifyJson
    } else if s == "minify_sql"@ {
        FormatOp::MinifySql
    } else if s == "minify_css"@ {
        FormatOp::MinifyCss
    } else if s == "minify_xml"@ {
        FormatOp::MinifyXml
    } else {
        FormatOp::Unknown
    }
}

/// Maps a token, as written, to its format operation.
pub fn str_to_format_op(arg: &str) -> (r: FormatOp)
    ensures
        r == spec_format_op(arg@),
{
    if str_eq(arg, "add_slashes") {
        FormatOp::AddSlashes
    } else if str_eq(arg, "remove_slashes") {
        FormatOp::RemoveSlashes
    } else if str_eq(arg, "format_json") {
        FormatOp::FormatJson
    } else if str_eq(arg, "format_sql") {
        FormatOp::FormatSql
    } else if str_eq(arg, "format_css") {
        FormatOp::FormatCss
    } else if str_eq(arg, "format_xml") {
        FormatOp::FormatXml
    } else if str_eq(arg, "minify_json") {
        FormatOp::MinifyJson
    } else if str_eq(arg, "minify_sql") {
        FormatOp::MinifySql
    } else if str_eq(arg, "minify_css") {
        FormatOp::MinifyCss
    } else if str_eq(arg, "minify_xml") {
        FormatOp::MinifyXml
    } else {
        FormatOp::Unknown
    }
}

/// The operation of the first token whose lowered form is a format
/// keyword, resolved against the token as written.
pub open spec fn spec_select_format(args: Seq<Seq<char>>) -> FormatOp
    decreases args.len(),
{
    if args.len() == 0 {
        FormatOp::Unknown
    } else if crate::utils::format_kw(lower_of(args[0])) {
        spec_format_op(args[0])
    } else {
        spec_select_format(args.drop_first())
    }
}

/// Scans the arguments for the first format keyword.
pub fn select_format_option(args: &Vec<String>) -> (r: FormatOp)
    ensures
        r == spec_select_format(crate::utils::str_views(args@)),
{
    let ghost av = crate::utils::str_views(args@);
    let mut i: usize = 0;
    proof {
        assert(av.skip(0) =~= av);
    }
    while i < args.len()
        invariant
            av == crate::utils::str_views(args@),
            i <= args@.len(),
            spec_select_format(av) == spec_select_format(av.skip(i as int)),
        decreases args@.len() - i,
    {
        let low = lower_str(args[i].as_str());
        proof {
            assert(av.skip(i as int)[0] == av[i as int]);
            assert(av.skip(i as int).drop_first() =~= av.skip(i + 1));
        }
        if crate::utils::is_format_kw(low.as_str()) {
            return str_to_format_op(args[i].as_str());
        }
        i = i + 1;
    }
    proof {
        assert(av.skip(args@.len() as int) =~= Seq::<Seq<char>>::empty());
    }
    FormatOp::Unknown
}

// ------------------------------------------------------------------
// Slashes and whitespace minification
// ------------------------------------------------------------------

/// A quote character preceded by a backslash; anything else unchanged.
pub open spec fn add_slash_char(c: char) -> Seq<char> {
    if c == '\'' || c == '"' {
        seq!['\\', c]
    } else {
        seq![c]
    }
}

/// The text with every quote escaped.
pub open spec fn spec_add_slashes(s: Seq<char>) -> Seq<char>
    decreases s.len(),
{
    if s.len() == 0 {
        Seq::empty()
    } else {
        add_slash_char(s[0]) + spec_add_slashes(s.drop_first())
    }
}

/// Escapes every single and double quote with a backslash.
pub fn add_slashes(text: &str) -> (r: String)
    ensures
        r@ == spec_add_slashes(text@),
{
    let cs = str_to_chars(text);
    let mut out: Vec<char> = Vec::new();
    let mut i: usize = 0;
    proof {
        assert(cs@.skip(0) =~= cs@);
        assert(out@ + spec_add_slashes(cs@) =~= spec_add_slashes(cs@));
    }
    while i < cs.len()
        invariant
            i <= cs@.len(),
            cs@ == text@,
            spec_add_slashes(text@) =~= out@ + spec_add_slashes(cs@.skip(i as int)),
        decreases cs@.len() - i,
    {
        let ghost rest = cs@.skip(i as int);
        let ghost out0 = out@;
        let c = cs[i];
        proof {
            assert(rest[0] == c);
            assert(rest.drop_first() =~= cs@.skip(i + 1));
        }
        if c == '\'' || c == '"' {
            out.push('\\');
            out.push(c);
            proof {
                assert(out@ =~= out0 + seq!['\\', c]);
            }
        } else {
            out.push(c);
            proof {
                assert(out@ =~= out0 + seq![c]);
            }
        }
        i = i + 1;
    }
    proof {
        assert(cs@.skip(cs@.len() as int) =~= Seq::<char>::empty());
        assert(out@ =~= spec_add_slashes(text@));
    }
    chars_to_string(&out)
}

/// The text with escaped double quotes unescaped, then escaped single
/// quotes unescaped.
pub open spec fn spec_remove_slashes(s: Seq<char>) -> Seq<char> {
    spec_replace(spec_replace(s, seq!['\\', '"'], seq!['"']), seq!['\\', '\''], seq!['\''])
}

/// Removes the backslashes before escaped quotes.
pub fn remove_slashes(text: &str) -> (r: String)
    ensures
        r@ == spec_remove_slashes(text@),
{
    let cs = str_to_chars(text);
    let mut p1: Vec<char> = Vec::new();
    p1.push('\\');
    p1.push('"');
    let mut p2: Vec<char> = Vec::new();
    p2.push('\\');
    p2.push('\'');
    let dq = chars1('"');
    let sq = chars1('\'');
    proof {
        assert(p1@ =~= seq!['\\', '"']);
        assert(p2@ =~= seq!['\\', '\'']);
    }
    let step1 = replace_chars(&cs, &p1, &dq);
    let step2 = replace_chars(&step1, &p2, &sq);
    chars_to_string(&step2)
}

/// The text's whitespace-separated words joined by single spaces.
pub fn minify_sql(sql: &str) -> (r: String)
    ensures
        r@ == spec_join(spec_words(sql@), seq![' ']),
{
    let cs = str_to_chars(sql);
    let words = split_words(&cs);
    let sp = chars1(' ');
    let out = join_chars(&words, &sp);
    chars_to_string(&out)
}

/// Each line trimmed, all lines run together with nothing between them.
pub open spec fn spec_clean_output(s: Seq<char>) -> Seq<char> {
    spec_join(spec_lines(s).map_values(|l: Seq<char>| spec_trim(l)), Seq::empty())
}

/// Trims every line and joins them with no separator.
pub fn clean_output(output: &str) -> (r: String)
    ensures
        r@ == spec_clean_output(output@),
{
    let cs = str_to_chars(output);
    let lines = split_lines(&cs);
    let ghost lv = views_of(lines@);
    let mut trimmed: Vec<Vec<char>> = Vec::new();
    let mut i: usize = 0;
    while i < lines.len()
        invariant
            i <= lines@.len(),
            lv == views_of(lines@),
            lv == spec_lines(output@),
            views_of(trimmed@).len() == i,
            forall|j: int| 0 <= j < i ==> views_of(trimmed@)[j] == spec_trim(lv[j]),
        decreases lines@.len() - i,
    {
        let t = trim_chars(&lines[i]);
        let ghost tv = t@;
        let ghost acc0 = trimmed@;
        trimmed.push(t);
        proof {
            assert(trimmed@.last()@ == tv);
            assert forall|j: int| 0 <= j < i implies #[trigger] views_of(trimmed@)[j]
                == spec_trim(lv[j]) by {
                assert(trimmed@[j] == acc0[j]);
                assert(views_of(acc0)[j] == spec_trim(lv[j]));
            }
            assert(views_of(trimmed@)[i as int] == spec_trim(lv[i as int]));
        }
        i = i + 1;
    }
    proof {
        assert(views_of(trimmed@) =~= spec_lines(output@).map_values(
            |l: Seq<char>| spec_trim(l),
        ));
    }
    let empty_sep: Vec<char> = Vec::new();
    let out = join_chars(&trimmed, &empty_sep);
    proof {
        assert(empty_sep@ =~= Seq::<char>::empty());
    }
    chars_to_string(&out)
}

} // verus!

verus! {

// ------------------------------------------------------------------
// SQL and JSON formatting
// ------------------------------------------------------------------

/// What `sqlformat::format` returns for the given characters, under the
/// default options.
pub uninterp spec fn sql_formatted_of(s: Seq<char>) -> Seq<char>;

/// Relies on `sqlformat::format` with no parameters and default options:
/// a function of the query text alone.
#[verifier::external_body]
fn sqlformat_str(s: &str) -> (r: String)
    ensures
        r@ == sql_formatted_of(s@),
{
    sqlformat::format(s, &sqlformat::QueryParams::None, &sqlformat::FormatOptions::default())
}

/// Formats the SQL query with the formatting library's defaults.
pub fn format_sql(sql: &str) -> (r: String)
    ensures
        r@ == sql_formatted_of(sql@),
{
    sqlformat_str(sql)
}

/// The pretty form of the text's JSON value, or nothing when the text is
/// not JSON.
pub uninterp spec fn json_pretty_of(s: Seq<char>) -> Option<Seq<char>>;

/// The compact form of the text's JSON value, or nothing when the text is
/// not JSON.
pub uninterp spec fn json_mini_of(s: Seq<char>) -> Option<Seq<char>>;

/// Relies on `serde_json::from_str::<Value>` and `to_string_pretty`: the
/// pretty form of the text's JSON value, a function of the text alone
/// (the default map keeps object keys sorted); `None` exactly when the
/// text does not parse.
#[verifier::external_body]
fn json_pretty(text: &str) -> (r: Option<String>)
    ensures
        r is Some <==> json_pretty_of(text@) is Some,
        r is Some ==> r->0@ == json_pretty_of(text@)->0,
{
    match serde_json::from_str::<serde_json::Value>(text) {
        Ok(v) => serde_json::to_string_pretty(&v).ok(),
        Err(_) => None,
    }
}

/// Relies on `serde_json::from_str::<Value>` and `to_string`: the compact
/// form of the text's JSON value, a function of the text alone; `None`
/// exactly when the text does not parse.
#[verifier::external_body]
fn json_compact(text: &str) -> (r: Option<String>)
    ensures
        r is Some <==> json_mini_of(text@) is Some,
        r is Some ==> r->0@ == json_mini_of(text@)->0,
{
    match serde_json::from_str::<serde_json::Value>(text) {
        Ok(v) => serde_json::to_string(&v).ok(),
        Err(_) => None,
    }
}

/// Pretty-prints the text's JSON value; fails exactly when it is not JSON.
pub fn format_json(text: &str) -> (r: Result<String, crate::OpError>)
    ensures
        r is Ok <==> json_pretty_of(text@) is Some,
        r is Ok ==> r->Ok_0@ == json_pretty_of(text@)->0,
        r is Err ==> r->Err_0 == crate::OpError::BadJson,
{
    match json_pretty(text) {
        Some(s) => Ok(s),
        None => Err(crate::OpError::BadJson),
    }
}

/// Compacts the text's JSON value; fails exactly when it is not JSON.
pub fn minify_json(text: &str) -> (r: Result<String, crate::OpError>)
    ensures
        r is Ok <==> json_mini_of(text@) is Some,
        r is Ok ==> r->Ok_0@ == json_mini_of(text@)->0,
        r is Err ==> r->Err_0 == crate::OpError::BadJson,
{
    match json_compact(text) {
        Some(s) => Ok(s),
        None => Err(crate::OpError::BadJson),
    }
}

// ------------------------------------------------------------------
// XML
// ------------------------------------------------------------------

/// The events the XML reader hands the renderer: element opens and closes
/// and text, each `None` where the reader's bytes were not readable, plus
/// the skipped, end-of-input and failure outcomes.
pub enum XmlEvent {
    Start(Option<String>),
    End(Option<String>),
    Text(Option<String>),
    Skip,
    Eof,
    Fail,
}

/// The events the reader yields for the text, in order, ending with the
/// event that stopped the read (end of input yields nothing after the
/// last event; a failure yields the failure marker): a function of the
/// text alone.
pub uninterp spec fn xml_events_of(s: Seq<char>) -> Seq<XmlEvent>;

/// Relies on `quick_xml::Reader::from_str`, `read_event` and
/// `BytesText::xml10_content`: all events up to the end of input or the
/// first failure, with tag names taken as given and text unescaped under
/// the XML 1.0 rules.
#[verifier::external_body]
fn xml_events(text: &str) -> (r: Vec<XmlEvent>)
    ensures
        r@ == xml_events_of(text@),
{
    let mut rdr = quick_xml::Reader::from_str(text);
    let mut out = Vec::new();
    loop {
        match rdr.read_event() {
            Ok(Event::Start(e)) => out.push(XmlEvent::Start(Some(e.name().as_ref().to_string()))),
            Ok(Event::End(e)) => out.push(XmlEvent::End(Some(e.name().as_ref().to_string()))),
            Ok(Event::Text(e)) => out.push(XmlEvent::Text(Some(e.xml10_content().into_owned()))),
            Ok(Event::Eof) => return out,
            Ok(_) => out.push(XmlEvent::Skip),
            Err(_) => { out.push(XmlEvent::Fail); return out; },
        }
    }
}

/// Two spaces of indentation per level.
pub open spec fn spec_indent(level: nat) -> Seq<char>
    decreases level,
{
    if level == 0 {
        Seq::empty()
    } else {
        seq![' ', ' '] + spec_indent((level - 1) as nat)
    }
}

pub proof fn lemma_indent(level: nat)
    ensures
        spec_indent(level).len() == 2 * level,
        forall|j: int| 0 <= j < spec_indent(level).len() ==> spec_indent(level)[j] == ' ',
    decreases level,
{
    if level > 0 {
        lemma_indent((level - 1) as nat);
    }
}

/// A tag name, or the reader's placeholder where it was unreadable.
pub open spec fn spec_tag_name(n: Option<String>) -> Seq<char> {
    match n {
        Some(s) => s@,
        None => "[invalid tag]"@,
    }
}

/// The text one event contributes at the given indent level.
pub open spec fn spec_event_out(e: XmlEvent, level: nat) -> Seq<char> {
    match e {
        XmlEvent::Start(n) => spec_indent(level) + seq!['<'] + spec_tag_name(n) + seq!['>', '\n'],
        XmlEvent::End(n) => spec_indent(if level == 0 {
            0
        } else {
            (level - 1) as nat
        }) + seq!['<', '/'] + spec_tag_name(n) + seq!['>', '\n'],
        XmlEvent::Text(t) => match t {
            Some(s) => if spec_trim(s@).len() == 0 {
                Seq::empty()
            } else {
                spec_indent(level) + spec_trim(s@) + seq!['\n']
            },
            None => spec_indent(level) + "[invalid text]"@ + seq!['\n'],
        },
        XmlEvent::Skip => Seq::empty(),
        XmlEvent::Eof => Seq::empty(),
        XmlEvent::Fail => "[error reading XML stream]"@ + seq!['\n'],
    }
}

/// The indent level after one event.
pub open spec fn spec_next_level(e: XmlEvent, level: nat) -> nat {
    match e {
        XmlEvent::Start(n) => level + 1,
        XmlEvent::End(n) => if level == 0 {
            0
        } else {
            (level - 1) as nat
        },
        _ => level,
    }
}

/// The rendering of an event sequence from the given indent level.
pub open spec fn spec_render(evs: Seq<XmlEvent>, level: nat) -> Seq<char>
    decreases evs.len(),
{
    if evs.len() == 0 {
        Seq::empty()
    } else {
        spec_event_out(evs[0], level) + spec_render(evs.drop_first(), spec_next_level(evs[0], level))
    }
}

/// The indentation, executable.
fn indent_chars(level: usize) -> (r: Vec<char>)
    ensures
        r@ == spec_indent(level as nat),
{
    let mut out: Vec<char> = Vec::new();
    let mut k: usize = 0;
    while k < level
        invariant
            k <= level,
            out@.len() == 2 * k,
            forall|j: int| 0 <= j < out@.len() ==> out@[j] == ' ',
        decreases level - k,
    {
        out.push(' ');
        out.push(' ');
        k = k + 1;
    }
    proof {
        lemma_indent(level as nat);
        assert(out@ =~= spec_indent(level as nat));
    }
    out
}

/// Renders the events: opens indent and descend, closes ascend, non-blank
/// text is trimmed and indented, unreadable pieces get placeholders, and a
/// read failure reports itself.
pub fn render_xml_events(events: &Vec<XmlEvent>) -> (r: String)
    ensures
        r@ == spec_render(events@, 0),
{
    let mut out: Vec<char> = Vec::new();
    let mut level: usize = 0;
    let mut i: usize = 0;
    proof {
        assert(events@.skip(0) =~= events@);
        assert(out@ + spec_render(events@, 0) =~= spec_render(events@, 0));
    }
    while i < events.len()
        invariant
            i <= events@.len(),
            level <= i,
            spec_render(events@, 0) =~= out@ + spec_render(
                events@.skip(i as int),
                level as nat,
            ),
        decreases events@.len() - i,
    {
        let ghost rest = events@.skip(i as int);
        let ghost out0 = out@;
        let ghost level0 = level as nat;
        proof {
            assert(rest[0] == events@[i as int]);
            assert(rest.drop_first() =~= events@.skip(i + 1));
        }
        match &events[i] {
            XmlEvent::Start(n) => {
                let ind = indent_chars(level);
                append_chars(&mut out, &ind);
                out.push('<');
                match n {
                    Some(name) => {
                        let nc = str_to_chars(name.as_str());
                        append_chars(&mut out, &nc);
                    },
                    None => {
                        let nc = str_to_chars("[invalid tag]");
                        append_chars(&mut out, &nc);
                    },
                }
                out.push('>');
                out.push('\n');
                level = level + 1;
                proof {
                    assert(out@ =~= out0 + spec_event_out(events@[i as int], level0));
                }
            },
            XmlEvent::End(n) => {
                if level > 0 {
                    level = level - 1;
                }
                let ind = indent_chars(level);
                append_chars(&mut out, &ind);
                out.push('<');
                out.push('/');
                match n {
                    Some(name) => {
                        let nc = str_to_chars(name.as_str());
                        append_chars(&mut out, &nc);
                    },
                    None => {
                        let nc = str_to_chars("[invalid tag]");
                        append_chars(&mut out, &nc);
                    },
                }
                out.push('>');
                out.push('\n');
                proof {
                    assert(out@ =~= out0 + spec_event_out(events@[i as int], level0));
                }
            },
            XmlEvent::Text(t) => {
                match t {
                    Some(s) => {
                        let sc = str_to_chars(s.as_str());
                        let trimmed = trim_chars(&sc);
                        if trimmed.len() > 0 {
                            let ind = indent_chars(level);
                            append_chars(&mut out, &ind);
                            append_chars(&mut out, &trimmed);
                            out.push('\n');
                        }
                    },
                    None => {
                        let ind = indent_chars(level);
                        append_chars(&mut out, &ind);
                        let ph = str_to_chars("[invalid text]");
                        append_chars(&mut out, &ph);
                        out.push('\n');
                    },
                }
                proof {
                    assert(out@ =~= out0 + spec_event_out(events@[i as int], level0));
                }
            },
            XmlEvent::Skip => {
                proof {
                    assert(out@ =~= out0 + spec_event_out(events@[i as int], level0));
                }
            },
            XmlEvent::Eof => {
                proof {
                    assert(out@ =~= out0 + spec_event_out(events@[i as int], level0));
                }
            },
            XmlEvent::Fail => {
                let ph = str_to_chars("[error reading XML stream]");
                append_chars(&mut out, &ph);
                out.push('\n');
                proof {
                    assert(out@ =~= out0 + spec_event_out(events@[i as int], level0));
                }
            },
        }
        i = i + 1;
    }
    proof {
        assert(events@.skip(events@.len() as int) =~= Seq::<XmlEvent>::empty());
        assert(out@ =~= spec_render(events@, 0));
    }
    chars_to_string(&out)
}

/// Pretty-prints the XML: the rendering of the text's event stream.
pub fn format_xml(input: &str) -> (r: String)
    ensures
        r@ == spec_render(xml_events_of(input@), 0),
{
    let events = xml_events(input);
    render_xml_events(&events)
}

/// Whether the text parses as an XML document.
pub uninterp spec fn xml_parses(s: Seq<char>) -> bool;

/// Relies on `xmltree::Element::parse` and `write`: the document written
/// back out; parsing succeeds as a function of the text alone, but the
/// written attribute order follows a hash map's iteration order, so
/// nothing is promised of which rendering comes back.
#[verifier::external_body]
fn xml_roundtrip(text: &str) -> (r: Option<String>)
    ensures
        r is Some <==> xml_parses(text@),
{
    match xmltree::Element::parse(text.as_bytes()) {
        Ok(root) => {
            let mut buf = Vec::new();
            let _ = root.write(&mut buf);
            String::from_utf8(buf).ok()
        },
        Err(_) => None,
    }
}

/// Minifies the XML: the document is parsed, written back out, and each
/// line trimmed and joined; fails exactly when the text does not parse.
/// (Which rendering the writer emits is not a function of the text — it
/// walks attributes in hash order — so the result is pinned only to the
/// cleaned form of some written document.)
pub fn minify_xml(input: &str) -> (r: Result<String, crate::OpError>)
    ensures
        r is Ok <==> xml_parses(input@),
        r is Ok ==> exists|doc: Seq<char>| r->Ok_0@ == spec_clean_output(doc),
        r is Err ==> r->Err_0 == crate::OpError::BadXml,
{
    match xml_roundtrip(input) {
        Some(s) => {
            let ghost doc = s@;
            let out = clean_output(s.as_str());
            proof {
                assert(out@ == spec_clean_output(doc));
            }
            Ok(out)
        },
        None => Err(crate::OpError::BadXml),
    }
}

/// Applies the selected format operation to the text. The CSS formatters
/// delegate to a stylesheet library that is not available to this build.
pub fn handle_format_operation(text: &str, op: FormatOp) -> (r: Result<String, crate::OpError>)
    requires
        !(op is Unknown),
        !(op is FormatCss),
        !(op is MinifyCss),
    ensures
        op is AddSlashes ==> r is Ok && r->Ok_0@ == spec_add_slashes(text@),
        op is RemoveSlashes ==> r is Ok && r->Ok_0@ == spec_remove_slashes(text@),
        op is FormatJson ==> ((r is Ok <==> json_pretty_of(text@) is Some) && (r is Ok
            ==> r->Ok_0@ == json_pretty_of(text@)->0) && (r is Err ==> r->Err_0
            == crate::OpError::BadJson)),
        op is MinifyJson ==> ((r is Ok <==> json_mini_of(text@) is Some) && (r is Ok ==> r->Ok_0@
            == json_mini_of(text@)->0) && (r is Err ==> r->Err_0 == crate::OpError::BadJson)),
        op is FormatSql ==> r is Ok && r->Ok_0@ == sql_formatted_of(text@),
        op is MinifySql ==> r is Ok && r->Ok_0@ == spec_join(spec_words(text@), seq![' ']),
        op is FormatXml ==> r is Ok && r->Ok_0@ == spec_render(xml_events_of(text@), 0),
        op is MinifyXml ==> ((r is Ok <==> xml_parses(text@)) && (r is Ok ==> exists|
            doc: Seq<char>,
        |
            r->Ok_0@ == spec_clean_output(doc)) && (r is Err ==> r->Err_0
            == crate::OpError::BadXml)),
{
    match op {
        FormatOp::AddSlashes => Ok(add_slashes(text)),
        FormatOp::RemoveSlashes => Ok(remove_slashes(text)),
        FormatOp::FormatJson => format_json(text),
        FormatOp::MinifyJson => minify_json(text),
        FormatOp::FormatSql => Ok(format_sql(text)),
        FormatOp::MinifySql => Ok(minify_sql(text)),
        FormatOp::FormatXml => Ok(format_xml(text)),
        FormatOp::MinifyXml => minify_xml(text),
        _ => vstd::pervasive::unreached(),
    }
}

} // verus!
