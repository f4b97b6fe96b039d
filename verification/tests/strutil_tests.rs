use cargo_rr::split_rr_opts;
use cargo_rr::traces_dir;
use cargo_rr::strutil::{contains_sub, eq_str, file_name, relative_to, starts_with, str_lex_lt,
    trim, u64_to_dec};

#[test]
fn split_rr_opts_of_nothing_is_empty() {
    assert!(split_rr_opts(None).is_empty());
}

#[test]
fn split_rr_opts_of_an_empty_string_is_empty() {
    assert!(split_rr_opts(Some("")).is_empty());
}

#[test]
fn split_rr_opts_splits_on_whitespace() {
    assert_eq!(split_rr_opts(Some("--chaos -M")), vec!["--chaos".to_string(), "-M".to_string()]);
}

#[test]
fn split_rr_opts_drops_extra_whitespace() {
    assert_eq!(split_rr_opts(Some("  a \t b \n")), vec!["a".to_string(), "b".to_string()]);
}

#[test]
fn traces_dir_is_under_the_target_dir() {
    assert_eq!(traces_dir("/ws/target"), "/ws/target/rr");
}

#[test]
fn trim_strips_both_ends() {
    assert_eq!(trim("  app-1 \n"), "app-1");
    assert_eq!(trim("app"), "app");
    assert_eq!(trim("   "), "");
    assert_eq!(trim(""), "");
}

#[test]
fn file_name_takes_the_last_component() {
    assert_eq!(file_name("/a/b/app"), "app");
    assert_eq!(file_name("app"), "app");
    assert_eq!(file_name("/a/b/"), "");
}

#[test]
fn relative_to_strips_the_root() {
    assert_eq!(relative_to("/ws/src/main.rs", "/ws"), "src/main.rs");
    assert_eq!(relative_to("/elsewhere/main.rs", "/ws"), "/elsewhere/main.rs");
}

#[test]
fn u64_to_dec_renders_decimal() {
    assert_eq!(u64_to_dec(0), "0");
    assert_eq!(u64_to_dec(7), "7");
    assert_eq!(u64_to_dec(907), "907");
    assert_eq!(u64_to_dec(18446744073709551615), "18446744073709551615");
}

#[test]
fn contains_sub_finds_substrings() {
    assert!(contains_sub("integration_test", "test"));
    assert!(contains_sub("abc", ""));
    assert!(!contains_sub("abc", "abcd"));
    assert!(!contains_sub("abc", "x"));
}

#[test]
fn eq_str_compares_by_contents() {
    assert!(eq_str("abc", "abc"));
    assert!(!eq_str("abc", "abd"));
    assert!(!eq_str("abc", "ab"));
}

#[test]
fn str_lex_lt_orders_lexicographically() {
    assert!(str_lex_lt("a", "b"));
    assert!(str_lex_lt("a", "ab"));
    assert!(!str_lex_lt("b", "a"));
    assert!(!str_lex_lt("a", "a"));
}

#[test]
fn starts_with_checks_prefixes() {
    assert!(starts_with("src/main.rs", "src/"));
    assert!(!starts_with("src", "src/"));
}
