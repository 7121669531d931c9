use bdp::casing::{select_case_option, str_to_case_op, CaseOp};
use bdp::conversion::{select_conversion_option, str_to_conversion_op, ConversionOp};
use bdp::encoding::{select_encoding_option, EncodingOp};
use bdp::format::{select_format_option, FormatOp};
use bdp::text_utils::{select_text_util_option, TextUtilOp};
use bdp::utils::{
    find_file_path, flags_contains, get_command_family, get_flag_idx, get_flags, update_path,
    CommandFamily, PathChange,
};

fn args(v: &[&str]) -> Vec<String> {
    v.iter().map(|s| s.to_string()).collect()
}

#[test]
fn combined_flags_share_one_index() {
    let a = args(&["bdp", "-sf", "text"]);
    let flags = get_flags(&a);
    assert_eq!(flags, vec![(1, 's'), (1, 'f')]);
    assert!(flags_contains(&flags, 's'));
    assert!(flags_contains(&flags, 'f'));
    assert!(!flags_contains(&flags, 'h'));
}

#[test]
fn flag_idx_points_past_the_token() {
    let a = args(&["bdp", "upper", "-s", "text"]);
    let flags = get_flags(&a);
    assert_eq!(get_flag_idx(&flags, 's'), 3);
}

#[test]
fn unrecognized_letters_are_dropped() {
    let a = args(&["bdp", "-xs", "-q"]);
    let flags = get_flags(&a);
    assert_eq!(flags, vec![(1, 's')]);
}

#[test]
fn non_dash_tokens_contribute_nothing() {
    let a = args(&["bdp", "sf", "h"]);
    let flags = get_flags(&a);
    assert!(flags.is_empty());
}

#[test]
fn family_of_first_matching_token() {
    assert!(matches!(get_command_family(&args(&["bdp", "upper"])), CommandFamily::Casing));
    assert!(matches!(get_command_family(&args(&["bdp", "rot13"])), CommandFamily::Encoding));
    assert!(matches!(get_command_family(&args(&["bdp", "minify_sql"])), CommandFamily::Format));
    assert!(matches!(get_command_family(&args(&["bdp", "dedup"])), CommandFamily::TextUtils));
    assert!(matches!(get_command_family(&args(&["bdp", "hex_to_rgb"])), CommandFamily::Conversion));
    assert!(matches!(get_command_family(&args(&["bdp", "nothing"])), CommandFamily::Unknown));
}

#[test]
fn family_matching_is_case_insensitive_but_op_matching_is_not() {
    let a = args(&["bdp", "UPPER"]);
    assert!(matches!(get_command_family(&a), CommandFamily::Casing));
    assert!(matches!(select_case_option(&a), CaseOp::Unknown));
    assert!(matches!(str_to_case_op("UPPER"), CaseOp::Unknown));
    assert!(matches!(str_to_case_op("upper"), CaseOp::Upper));
}

#[test]
fn earliest_token_wins_across_families() {
    let a = args(&["bdp", "sort", "upper"]);
    assert!(matches!(get_command_family(&a), CommandFamily::TextUtils));
    assert!(matches!(select_text_util_option(&a), TextUtilOp::SortLines));
}

#[test]
fn conversion_keywords_resolve() {
    let a = args(&["bdp", "decimal_to_hex", "hex_to_decimal"]);
    assert!(matches!(get_command_family(&a), CommandFamily::Conversion));
    assert!(matches!(select_conversion_option(&a), ConversionOp::DecimalToHex));
    let b = args(&["bdp", "query_string_to_json"]);
    assert!(matches!(get_command_family(&b), CommandFamily::Conversion));
    assert!(matches!(select_conversion_option(&b), ConversionOp::QueryStringToJson));
    assert!(matches!(str_to_conversion_op("binary_to_decimal"), ConversionOp::BinaryToDecimal));
    assert!(matches!(str_to_conversion_op("not_a_conversion"), ConversionOp::Unknown));
}

#[test]
fn select_encoding_and_format() {
    assert!(matches!(select_encoding_option(&args(&["bdp", "sha256"])), EncodingOp::Sha256));
    assert!(matches!(select_format_option(&args(&["bdp", "minify_sql"])), FormatOp::MinifySql));
    assert!(matches!(select_format_option(&args(&["bdp", "upper"])), FormatOp::Unknown));
}

#[test]
fn file_path_from_f_flag() {
    let a = args(&["bdp", "upper", "-f", "notes"]);
    assert_eq!(find_file_path(&a), Some("notes".to_string()));
}

#[test]
fn file_path_from_dotted_token() {
    let a = args(&["bdp", "upper", "notes.txt"]);
    assert_eq!(find_file_path(&a), Some("notes.txt".to_string()));
}

#[test]
fn no_file_path_resolved() {
    let a = args(&["bdp", "upper", "plain"]);
    assert_eq!(find_file_path(&a), None);
    let dangling = args(&["bdp", "-f"]);
    assert_eq!(find_file_path(&dangling), None);
}

#[test]
fn update_path_rewrites_the_extension() {
    assert_eq!(update_path("data.json", PathChange::JsonCsv), "data.csv");
    assert_eq!(update_path("data.csv", PathChange::CsvJson), "data.json");
    assert_eq!(update_path("data.json", PathChange::JsonYaml), "data.yaml");
    assert_eq!(update_path("data.yaml", PathChange::YamlJson), "data.json");
    assert_eq!(update_path("data.json", PathChange::NoChange), "data.json");
}

#[test]
fn update_path_without_a_dot_cuts_one_character() {
    assert_eq!(update_path("noext", PathChange::CsvJson), "noex.json");
}
