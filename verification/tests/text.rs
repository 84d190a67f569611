use claux::api::lines::take_lines;
use claux::api::reasoning::append_reasoning_detail_chunk;
use claux::diff::generate_diff;
use claux::json::Json;
use claux::order::{at_most, dedup_texts, sort_texts};
use claux::path_map::PathMap;
use claux::paths::{absolute, below, expand_tilde, join, render_path, split_path};
use claux::text;

fn strings(items: &[&str]) -> Vec<String> {
    items.iter().map(|s| s.to_string()).collect()
}

#[test]
fn texts_are_trimmed_and_split() {
    assert_eq!(text::trim(" \t a b \u{2003}\n"), "a b");
    assert_eq!(text::split("a,,b", ","), ["a", "", "b"]);
    assert_eq!(text::split_once("k=v=w", "="), Some(("k".to_string(), "v=w".to_string())));
    assert_eq!(text::split_once("k", "="), None);
    assert_eq!(text::lines("a\r\nb\n\nc"), ["a", "b", "", "c"]);
    assert_eq!(text::words("  a  b\tc "), ["a", "b", "c"]);
    assert_eq!(text::join(&strings(&["a", "b"]), ", "), "a, b");
}

#[test]
fn texts_are_cut_between_characters() {
    assert_eq!(text::truncate_str("aé", 2), "a");
    assert_eq!(text::tail_str("éa", 2), "a");
    assert_eq!(text::truncate_str("abc", 9), "abc");
    assert_eq!(text::floor_char_boundary("é", 1), 0);
    assert_eq!(text::ceil_char_boundary("é", 1), 2);
}

#[test]
fn numbers_are_written() {
    assert_eq!(text::to_decimal(0), "0");
    assert_eq!(text::to_decimal(u64::MAX), u64::MAX.to_string());
    assert_eq!(text::to_signed_decimal(i64::MIN), i64::MIN.to_string());
    assert_eq!(text::to_signed_decimal(-7), "-7");
    assert_eq!(text::to_hex(&[0, 15, 255]), "000fff");
    let mut out = String::new();
    text::push_decimal_wide(&mut out, u128::MAX);
    assert_eq!(out, u128::MAX.to_string());
    let mut out = String::new();
    text::push_padded(&mut out, "ab", 4);
    text::push_right_aligned(&mut out, "c", 3);
    assert_eq!(out, "ab    c");
}

#[test]
fn control_characters_do_not_reach_the_terminal() {
    assert_eq!(text::sanitize_terminal_text("a\x1b[31mb\n\tc\u{7f}"), "a[31mb\n\tc");
}

#[test]
fn texts_are_compared_without_case() {
    assert!(text::same_ignoring_ascii_case("OpenRouter", "openrouter"));
    assert!(!text::same_ignoring_ascii_case("É", "é"));
    assert_eq!(text::to_ascii_lowercase("ÀB"), "Àb");
}

#[test]
fn sorting_is_by_bytes_and_keeps_every_text() {
    let sorted = sort_texts(&strings(&["b", "é", "a", "b", "Z"]));
    assert_eq!(sorted, ["Z", "a", "b", "b", "é"]);
    assert_eq!(dedup_texts(&sorted), ["Z", "a", "b", "é"]);
    assert!(at_most("a", "a"));
    assert!(!at_most("b", "a"));
}

#[test]
fn paths_are_joined_and_compared_by_components() {
    assert_eq!(join("/a/b", "c"), "/a/b/c");
    assert_eq!(join("/a/b", "/c"), "/c");
    assert!(absolute("/a"));
    assert!(!absolute("a"));
    assert_eq!(split_path("/a//b/./c"), ["a", "b", "c"]);
    assert!(below("/a/b", "/a"));
    assert!(!below("/ab", "/a"));
    assert_eq!(expand_tilde("~/x", Some("/h")), "/h/x");
    assert_eq!(render_path(true, &strings(&["a", "b"])), "/a/b");
}

#[test]
fn diffs_show_removed_and_added_lines() {
    let diff = generate_diff("a\nb\nc\n", "a\nB\nc\n", "f.txt");
    assert!(diff.contains("f.txt"));
    assert!(diff.contains("-b"));
    assert!(diff.contains("+B"));
    assert!(!diff.contains("-a"));
}

#[test]
fn lines_wait_for_their_end() {
    let mut buffer: Vec<u8> = Vec::new();
    assert!(take_lines(&mut buffer, b"par").is_empty());
    assert_eq!(take_lines(&mut buffer, b"tial\nnext"), [b"partial".to_vec()]);
    assert_eq!(buffer, b"next");
}

#[test]
fn reasoning_fragments_of_one_kind_are_joined() {
    let detail = |text: &str| {
        Json::parse(&format!(r#"{{"type":"reasoning.text","text":"{text}","index":0}}"#)).unwrap()
    };
    let mut accumulated = vec![detail("a")];
    append_reasoning_detail_chunk(&mut accumulated, &vec![detail("b")]);
    assert_eq!(accumulated.len(), 1);
    assert_eq!(accumulated[0].text_at("text"), Some("ab"));
}

#[test]
fn a_map_of_paths_is_in_order() {
    let map: PathMap<u8> = PathMap::new()
        .with(b"b".to_vec(), 1)
        .with(b"a/z".to_vec(), 2)
        .with(b"a.txt".to_vec(), 3)
        .with(b"b".to_vec(), 4);
    assert_eq!(map.len(), 3);
    assert_eq!(map.path_at(0), b"a/z");
    assert_eq!(map.path_at(1), b"a.txt");
    assert_eq!(map.get(b"b"), Some(&4));
    assert_eq!(map.get(b"c"), None);
}
