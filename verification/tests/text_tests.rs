use magic_pocket::digest::hash_bytes;
use magic_pocket::limits::normalize_limit;
use magic_pocket::text::chars_of;
use magic_pocket::text::decimal_string;
use magic_pocket::text::dedupe_tags;
use magic_pocket::text::hex_lower;
use magic_pocket::text::join_strings;
use magic_pocket::text::string_of;
use magic_pocket::text::summarize_text;
use magic_pocket::text::trim_chars;

fn strings(items: &[&str]) -> Vec<String> {
    items.iter().map(|s| s.to_string()).collect()
}

#[test]
fn normalize_limit_clamps_into_range() {
    assert_eq!(normalize_limit(0), 20);
    assert_eq!(normalize_limit(19), 20);
    assert_eq!(normalize_limit(20), 20);
    assert_eq!(normalize_limit(100), 100);
    assert_eq!(normalize_limit(500), 500);
    assert_eq!(normalize_limit(501), 500);
    assert_eq!(normalize_limit(usize::MAX), 500);
}

#[test]
fn normalize_limit_is_idempotent() {
    for limit in [0usize, 7, 20, 64, 500, 9000] {
        let once = normalize_limit(limit);
        assert_eq!(normalize_limit(once), once);
    }
}

#[test]
fn summarize_joins_lines_and_trims() {
    assert_eq!(summarize_text("  hello\nworld \r\n"), "hello world");
    assert_eq!(summarize_text("a\r\nb"), "a  b");
    assert_eq!(summarize_text("\n\r  \t"), "");
}

#[test]
fn summarize_keeps_text_of_exactly_the_limit() {
    let text: String = "x".repeat(180);
    assert_eq!(summarize_text(&text), text);
}

#[test]
fn summarize_cuts_long_text_with_ellipsis() {
    let text: String = "字".repeat(200);
    let summary = summarize_text(&text);
    let expected: String = "字".repeat(180) + "…";
    assert_eq!(summary, expected);
    assert_eq!(summary.chars().count(), 181);
}

#[test]
fn summary_has_no_line_breaks_and_is_bounded() {
    let text = format!("{}\n{}", "a".repeat(150), "b".repeat(150));
    let summary = summarize_text(&text);
    assert!(!summary.contains('\n'));
    assert!(!summary.contains('\r'));
    assert!(summary.chars().count() <= 181);
}

#[test]
fn trim_removes_unicode_white_space() {
    let chars = chars_of("\u{3000}\u{a0} tag\u{2003}\t");
    let trimmed = trim_chars(&chars);
    assert_eq!(string_of(&trimmed), "tag");
    assert_eq!(string_of(&trim_chars(&chars_of("   "))), "");
    assert_eq!(string_of(&trim_chars(&chars_of("a b"))), "a b");
}

#[test]
fn chars_and_string_round_trip() {
    let text = "剪贴板 ok";
    assert_eq!(string_of(&chars_of(text)), text);
    assert_eq!(chars_of(text).len(), 6);
}

#[test]
fn dedupe_tags_trims_drops_empty_and_repeats() {
    let tags = strings(&["work", " work ", "", "  ", "home", "Work", "home\n"]);
    assert_eq!(dedupe_tags(tags), strings(&["work", "home", "Work"]));
}

#[test]
fn dedupe_tags_is_idempotent() {
    let tags = strings(&[" a", "b ", "a", "", "c"]);
    let once = dedupe_tags(tags);
    let twice = dedupe_tags(once.clone());
    assert_eq!(once, twice);
    assert_eq!(once, strings(&["a", "b", "c"]));
}

#[test]
fn dedupe_tags_of_empty_list() {
    assert_eq!(dedupe_tags(Vec::new()), Vec::<String>::new());
}

#[test]
fn join_strings_puts_separator_between() {
    assert_eq!(join_strings(&strings(&["a", "b", "c"]), "|"), "a|b|c");
    assert_eq!(join_strings(&strings(&["only"]), "|"), "only");
    assert_eq!(join_strings(&Vec::new(), "|"), "");
}

#[test]
fn decimal_string_prints_integers() {
    assert_eq!(decimal_string(0), "0");
    assert_eq!(decimal_string(7), "7");
    assert_eq!(decimal_string(1920), "1920");
    assert_eq!(decimal_string(u64::MAX), u64::MAX.to_string());
}

#[test]
fn hex_lower_prints_two_digits_per_byte() {
    assert_eq!(hex_lower(&[10, 20, 30]), "0a141e");
    assert_eq!(hex_lower(&[0, 255]), "00ff");
    assert_eq!(hex_lower(&[]), "");
}

#[test]
fn hash_bytes_is_sha256_in_hex() {
    assert_eq!(
        hash_bytes(b""),
        "e3b0c44298fc1c149afbf4c8996fb92427ae41e4649b934ca495991b7852b855"
    );
    assert_eq!(
        hash_bytes(b"abc"),
        "ba7816bf8f01cfea414140de5dae2223b00361a396177a9cb410ff61f20015ad"
    );
    assert_eq!(hash_bytes(b"clipboard").len(), 64);
}

#[test]
fn summarizing_a_summary_changes_nothing() {
    for text in ["  short\ntext ", "", &"y".repeat(400), "\u{3000}x\r\n"] {
        let once = summarize_text(text);
        assert_eq!(summarize_text(&once), once);
    }
}
