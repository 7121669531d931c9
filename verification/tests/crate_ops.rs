use bdp::casing::{
    camel_case, handle_case_operation, kebab_case, snake_case, sponge_case, CaseOp,
};
use bdp::conversion::{
    csv_to_json, date_to_timestamp, date_to_utc, handle_conversion_operation, json_to_csv,
    json_to_query_string, json_to_yaml, query_string_to_json, yaml_to_json, ConversionOp,
};
use bdp::encoding::{base64_decode, base64_encode, handle_encoding_operation, md5, sha1, sha256, sha512, EncodingOp};
use bdp::format::{format_json, format_sql, format_xml, handle_format_operation, minify_json, minify_xml, FormatOp};
use bdp::text_utils::{deburr, lorem_ipsum, lorem_text, shuffle_lines, TextUtilOp};

#[test]
fn base64_encodes_with_the_standard_alphabet() {
    assert_eq!(base64_encode("hello"), "aGVsbG8=");
    assert_eq!(base64_encode(""), "");
}

#[test]
fn base64_decode_inverts_encode() {
    let samples = ["", "hello", "héllo wörld", "a\nb\tc"];
    for s in samples {
        assert_eq!(base64_decode(&base64_encode(s)), s);
    }
}

#[test]
fn base64_decode_returns_the_text_when_it_is_not_base64() {
    assert_eq!(base64_decode("!!!"), "!!!");
}

#[test]
fn digests_have_known_values() {
    assert_eq!(md5(""), "d41d8cd98f00b204e9800998ecf8427e");
    assert_eq!(md5("hello"), "5d41402abc4b2a76b9719d911017c592");
    assert_eq!(sha1("hello"), "aaf4c61ddcc5e8a2dabede0f3b482cd9aea9434d");
    assert_eq!(
        sha256("hello"),
        "2cf24dba5fb0a30e26e83b2ac5b9e29e1b161e5c1fa7425e73043362938b9824",
    );
    assert_eq!(
        sha512("hello"),
        "9b71d224bd62f3785d96d46ad3ea3d73319bfbc2890caadae2dff72519673ca72323c3d99ba5c11d7c7acc6e14b8c5da0c4663475c2e5c3adef46f73bcdec043",
    );
}

#[test]
fn case_crate_conversions() {
    assert_eq!(camel_case("hello_world"), "HelloWorld");
    assert_eq!(snake_case("HelloWorld"), "hello_world");
    assert_eq!(kebab_case("HelloWorld"), "hello-world");
}

#[test]
fn deburr_transliterates() {
    assert_eq!(deburr("déjà vu"), "deja vu");
    assert_eq!(deburr("plain"), "plain");
}

#[test]
fn sponge_keeps_every_character_up_to_case() {
    let input = "Hello  World\n2 tabs\t\t!";
    let out = sponge_case(input);
    assert_eq!(out.chars().count(), input.chars().count());
    for (o, i) in out.chars().zip(input.chars()) {
        assert!(o == i.to_ascii_lowercase() || o == i.to_ascii_uppercase());
    }
}

#[test]
fn shuffle_keeps_the_multiset_of_lines() {
    let input = "a\nb\nc\nd\ne";
    let out = shuffle_lines(input);
    let mut got: Vec<&str> = out.lines().collect();
    let mut want: Vec<&str> = input.lines().collect();
    got.sort();
    want.sort();
    assert_eq!(got, want);
}

#[test]
fn lorem_is_one_of_the_catalog() {
    for _ in 0..12 {
        let out = lorem_ipsum();
        let mut found = false;
        for k in 0..6 {
            if out == lorem_text(k) {
                found = true;
            }
        }
        assert!(found);
    }
}

#[test]
fn dates_parse_rfc3339_only() {
    assert_eq!(date_to_timestamp("2021-01-01T00:00:00Z"), "1609459200");
    assert_eq!(date_to_utc("2021-01-01T05:30:00+05:30"), "2021-01-01T00:00:00+00:00");
    assert!(date_to_timestamp("yesterday").starts_with("Failed to parse date: "));
    assert!(date_to_utc("2021-01-01").starts_with("Failed to parse date: "));
}

#[test]
fn json_formatting_sorts_object_keys() {
    assert_eq!(format_json("{\"b\":1,\"a\":2}").unwrap(), "{\n  \"a\": 2,\n  \"b\": 1\n}");
    assert_eq!(minify_json(" [1, 2] ").unwrap(), "[1,2]");
    assert!(format_json("{oops").is_err());
    assert!(minify_json("{oops").is_err());
}

#[test]
fn sql_formatting_reformats() {
    let out = format_sql("select  *   from t");
    assert_ne!(out, "select  *   from t");
    assert!(out.to_lowercase().contains("select"));
    assert!(out.to_lowercase().contains("from"));
}

#[test]
fn xml_formatting_indents() {
    assert_eq!(format_xml("<a><b>t</b></a>"), "<a>\n  <b>\n    t\n  </b>\n</a>\n");
}

#[test]
fn xml_minifying_collapses_lines() {
    let out = minify_xml("<a>\n  <b>x</b>\n</a>").unwrap();
    assert!(out.contains("<a><b>x</b></a>"));
    assert!(minify_xml("<<not xml").is_err());
}

#[test]
fn yaml_and_json_convert() {
    assert_eq!(yaml_to_json("a: 1"), "{\n  \"a\": 1\n}");
    assert_eq!(json_to_yaml("{\"a\":1}"), "a: 1\n");
    assert!(yaml_to_json(": : :").starts_with("Failed to parse YAML: "));
    assert!(json_to_yaml("{oops").starts_with("Failed to parse JSON: "));
}

#[test]
fn query_strings_convert() {
    assert_eq!(json_to_query_string("{\"a\":\"1\",\"b\":\"x y\"}"), "a=1&b=x+y");
    assert_eq!(query_string_to_json("a=1"), "{\n  \"a\": \"1\"\n}");
    assert!(json_to_query_string("[1]").starts_with("Invalid JSON: "));
}

#[test]
fn json_to_csv_unions_and_sorts_the_header() {
    assert_eq!(json_to_csv("[{\"a\":1,\"b\":2},{\"a\":3}]"), "a,b\n1,2\n3,\n");
    assert_eq!(json_to_csv("{\"a\":1}"), "JSON must be an array of objects");
    assert_eq!(json_to_csv("[1]"), "Each item in the JSON array must be an object.");
    assert!(json_to_csv("{oops").starts_with("Invalid JSON: "));
}

#[test]
fn json_to_csv_quotes_fields_holding_csv_metacharacters() {
    // A key holding a comma, and one holding a carriage return, must come
    // out quoted in the header row.
    assert_eq!(json_to_csv("[{\"a,b\":1}]"), "\"a,b\"\n1\n");
    assert_eq!(json_to_csv("[{\"x\\ry\":1}]"), "\"x\ry\"\n1\n");
}

#[test]
fn csv_to_json_makes_string_valued_objects() {
    assert_eq!(
        csv_to_json("a,b\n1,2\n3,4"),
        "[\n  {\n    \"a\": \"1\",\n    \"b\": \"2\"\n  },\n  {\n    \"a\": \"3\",\n    \"b\": \"4\"\n  }\n]",
    );
}

#[test]
fn handlers_dispatch() {
    assert_eq!(handle_case_operation("two words", CaseOp::Title), "Two Words");
    assert_eq!(handle_encoding_operation("abc", EncodingOp::Rot13), "nop");
    assert_eq!(handle_format_operation("a  b", FormatOp::MinifySql).unwrap(), "a b");
    assert_eq!(
        bdp::text_utils::handle_text_util_operation("b\na", TextUtilOp::SortLines),
        "a\nb",
    );
    assert_eq!(
        handle_conversion_operation("10", &ConversionOp::DecimalToBinary).unwrap(),
        "1010",
    );
}
