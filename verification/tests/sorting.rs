use subruster::sorted_set::sort_dedup;
use subruster::text::{chars_lt, chars_of, decimal, hex};

fn strings(items: &[&str]) -> Vec<String> {
    items.iter().map(|s| s.to_string()).collect()
}

#[test]
fn sort_dedup_sorts_and_drops_repeats() {
    let out = sort_dedup(strings(&["www.example.com", "a.example.com", "www.example.com", "mail.example.com"]));
    assert_eq!(out, strings(&["a.example.com", "mail.example.com", "www.example.com"]));
}

#[test]
fn sort_dedup_matches_std_sort_and_dedup() {
    let input = strings(&["b", "B", "a", "", "ab", "a", "é", "z9", "z10", "-x", "b"]);
    let mut expected = input.clone();
    expected.sort();
    expected.dedup();
    assert_eq!(sort_dedup(input), expected);
}

#[test]
fn sort_dedup_empty() {
    assert_eq!(sort_dedup(Vec::new()), Vec::<String>::new());
}

#[test]
fn sort_dedup_keeps_sorted_input() {
    let sorted = strings(&["alpha", "beta", "gamma"]);
    assert_eq!(sort_dedup(sorted.clone()), sorted);
}

#[test]
fn sort_dedup_is_idempotent() {
    let once = sort_dedup(strings(&["c", "a", "b", "a"]));
    assert_eq!(sort_dedup(once.clone()), once);
}

#[test]
fn chars_order_is_lexicographic() {
    assert!(chars_lt(&chars_of("abc"), &chars_of("abd")));
    assert!(chars_lt(&chars_of("ab"), &chars_of("abc")));
    assert!(!chars_lt(&chars_of("abc"), &chars_of("abc")));
    assert!(!chars_lt(&chars_of("b"), &chars_of("abc")));
    assert!(chars_lt(&chars_of(""), &chars_of("a")));
}

#[test]
fn chars_of_keeps_every_character() {
    assert_eq!(chars_of("héllo"), vec!['h', 'é', 'l', 'l', 'o']);
}

#[test]
fn decimal_and_hex_text() {
    assert_eq!(decimal(0), "0");
    assert_eq!(decimal(7), "7");
    assert_eq!(decimal(1234567890), "1234567890");
    assert_eq!(decimal(u64::MAX), u64::MAX.to_string());
    assert_eq!(hex(0), "0");
    assert_eq!(hex(0xffff), "ffff");
    assert_eq!(hex(0x20a), "20a");
}
