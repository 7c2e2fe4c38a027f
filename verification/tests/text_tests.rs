use tarot_bot::tarot_info::entry_id;
use tarot_bot::text::{fmt_usize, json_escape, parse_usize, str_eq};

#[test]
fn fmt_small_and_large() {
    assert_eq!(fmt_usize(0), "0");
    assert_eq!(fmt_usize(7), "7");
    assert_eq!(fmt_usize(77), "77");
    assert_eq!(fmt_usize(12345), "12345");
    assert_eq!(fmt_usize(1000), "1000");
}

#[test]
fn parse_plain_numerals() {
    assert_eq!(parse_usize("0"), Some(0));
    assert_eq!(parse_usize("77"), Some(77));
    assert_eq!(parse_usize("078"), Some(78));
    assert_eq!(parse_usize("+5"), Some(5));
}

#[test]
fn parse_rejects_non_numerals() {
    assert_eq!(parse_usize(""), None);
    assert_eq!(parse_usize("+"), None);
    assert_eq!(parse_usize("abc"), None);
    assert_eq!(parse_usize("-1"), None);
    assert_eq!(parse_usize("1a"), None);
    assert_eq!(parse_usize("1 "), None);
    assert_eq!(parse_usize("４"), None);
}

#[test]
fn parse_handles_the_usize_bound() {
    let max = usize::MAX.to_string();
    assert_eq!(parse_usize(&max), Some(usize::MAX));
    let over = format!("{}0", usize::MAX);
    assert_eq!(parse_usize(&over), None);
}

#[test]
fn str_eq_by_characters() {
    assert!(str_eq("", ""));
    assert!(str_eq("抽卡", "抽卡"));
    assert!(!str_eq("抽卡", "抽 卡"));
    assert!(!str_eq("a", "ab"));
}

#[test]
fn escape_quotes_backslashes_and_controls() {
    assert_eq!(json_escape("plain"), "plain");
    assert_eq!(json_escape("a\"b"), "a\\\"b");
    assert_eq!(json_escape("a\\b"), "a\\\\b");
    assert_eq!(json_escape("a\nb\tc\rd"), "a\\nb\\tc\\rd");
    assert_eq!(json_escape("\u{8}\u{c}\u{1}\u{1f}"), "\\b\\f\\u0001\\u001f");
    assert_eq!(json_escape("塔羅"), "塔羅");
}

#[test]
fn entry_id_reads_the_filename() {
    assert_eq!(entry_id("0_fool.json"), Some(0));
    assert_eq!(entry_id("21_world.json"), Some(21));
    assert_eq!(entry_id("12_a_b.json"), Some(12));
    assert_eq!(entry_id("+3_x.json"), Some(3));
    assert_eq!(entry_id("7_.json"), Some(7));
}

#[test]
fn entry_id_skips_bad_names() {
    assert_eq!(entry_id("fool.json"), None);
    assert_eq!(entry_id("3.json"), None);
    assert_eq!(entry_id(".json"), None);
    assert_eq!(entry_id("_5.json"), None);
    assert_eq!(entry_id("5_card.txt"), None);
    assert_eq!(entry_id("5_card.JSON"), None);
    assert_eq!(entry_id(""), None);
}
