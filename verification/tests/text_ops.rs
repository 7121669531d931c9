use bdp::casing::{lower_case, title_case, upper_case};
use bdp::encoding::{
    html_decode, html_encode, html_encode_all, rot13, url_decode, url_encode, url_entities_decode,
    url_entity_encode,
};
use bdp::format::{add_slashes, clean_output, minify_sql, remove_slashes};
use bdp::text_utils::{
    collapse_lines, count_chars, dedup_lines, defang, md_quote, natural_sort_lines, refang,
    replace_smart_quotes, reverse_string, sort_lines, sum_tokens, trim_input,
};

#[test]
fn rot13_rotates_letters() {
    assert_eq!(rot13("Hello, World!"), "Uryyb, Jbeyq!");
}

#[test]
fn rot13_twice_is_identity() {
    let samples = ["", "abc", "The Quick Brown Fox!", "nums 123 stay"];
    for s in samples {
        assert_eq!(rot13(&rot13(s)), s);
    }
}

#[test]
fn dedup_keeps_first_occurrences_in_order() {
    assert_eq!(dedup_lines("a\nb\na\nc"), "a\nb\nc");
}

#[test]
fn sort_orders_lines() {
    assert_eq!(sort_lines("banana\napple\ncherry"), "apple\nbanana\ncherry");
}

#[test]
fn natural_sort_ignores_case_and_is_stable() {
    assert_eq!(natural_sort_lines("b\nA"), "A\nb");
    assert_eq!(natural_sort_lines("B\nb\na"), "a\nB\nb");
}

#[test]
fn trim_strips_surrounding_whitespace() {
    assert_eq!(trim_input("  hi there\t\n"), "hi there");
}

#[test]
fn reverse_reverses_characters() {
    assert_eq!(reverse_string("abc"), "cba");
    assert_eq!(reverse_string("héllo"), "olléh");
}

#[test]
fn md_quote_prefixes_each_line() {
    assert_eq!(md_quote("a\nb"), " > a\n > b");
}

#[test]
fn collapse_removes_newlines() {
    assert_eq!(collapse_lines("a\nb\nc\n"), "abc");
}

#[test]
fn count_counts_characters_not_bytes() {
    assert_eq!(count_chars("héllo"), "5");
    assert_eq!(count_chars(""), "0");
}

#[test]
fn smart_quotes_become_ascii() {
    assert_eq!(
        replace_smart_quotes("\u{201c}hi\u{201d} \u{2018}a\u{2019} \u{2013}\u{2014} \u{2026}"),
        "\"hi\" 'a' -- ...",
    );
}

#[test]
fn defang_brackets_dots_and_http() {
    assert_eq!(defang("http://a.example.com"), "hxxp://a[.]example[.]com");
}

#[test]
fn refang_undoes_defang_on_clean_input() {
    let s = "https://sub.example.com/path";
    assert_eq!(refang(&defang(s)), s);
}

#[test]
fn refang_alone() {
    assert_eq!(refang("hxxps://a[.]b"), "https://a.b");
}

#[test]
fn sum_tokens_split_on_delimiters() {
    assert_eq!(sum_tokens("1, 2;3 =4\n5"), vec!["1", "2", "3", "4", "5"]);
    assert!(sum_tokens("  ,;=  ").is_empty());
}

#[test]
fn minify_sql_collapses_whitespace() {
    assert_eq!(minify_sql("select  *\n from   t"), "select * from t");
}

#[test]
fn clean_output_trims_and_joins() {
    assert_eq!(clean_output(" a \n b \n"), "ab");
}

#[test]
fn slashes_added_and_removed() {
    assert_eq!(add_slashes("a'b\"c"), "a\\'b\\\"c");
    assert_eq!(remove_slashes("a\\'b\\\"c"), "a'b\"c");
}

#[test]
fn html_encode_maps_the_five_characters() {
    assert_eq!(html_encode("<a>"), "&#x3C;a&#x3E;");
    assert_eq!(html_encode("&"), "&#x26;");
    // The table maps the single quote to x22 and the double quote to x27.
    assert_eq!(html_encode("'"), "&#x22;");
    assert_eq!(html_encode("\""), "&#x27;");
}

#[test]
fn html_decode_maps_the_five_entities() {
    assert_eq!(html_decode("&#x3C;div&#x3E;"), "<div>");
    assert_eq!(html_decode("&#x22;"), "'");
    assert_eq!(html_decode("&#x27;"), "\"");
    assert_eq!(html_decode("&unknown;"), "&unknown;");
    assert_eq!(html_decode(html_encode("<a href='x'>").as_str()), "<a href='x'>");
}

#[test]
fn html_encode_all_uses_decimal_entities() {
    assert_eq!(html_encode_all("AB"), "&#65;&#66;");
    assert_eq!(html_encode_all("é"), "&#233;");
}

#[test]
fn url_encode_keeps_only_alphanumerics() {
    assert_eq!(url_encode("a b/c1"), "a%20b%2Fc1");
}

#[test]
fn url_entity_encode_encodes_every_byte() {
    assert_eq!(url_entity_encode("ab"), "%61%62");
}

#[test]
fn url_decode_inverts_url_encode() {
    let samples = ["hello world", "héllo wörld!", "a+b=c&d", ""];
    for s in samples {
        assert_eq!(url_decode(&url_encode(s)), s);
        assert_eq!(url_entities_decode(&url_entity_encode(s)), s);
    }
}

#[test]
fn casing_basics() {
    assert_eq!(lower_case("AbC"), "abc");
    assert_eq!(upper_case("abç"), "ABÇ");
    assert_eq!(title_case("hello wONDERful world"), "Hello Wonderful World");
    assert_eq!(title_case("one\ntwo words"), "One\nTwo Words");
    assert_eq!(title_case("  spaced   out  "), "Spaced Out");
}
