use kbism::text::{compare_str, decimal, replace, TextTable};

fn table(pairs: &[(&str, &str)]) -> TextTable {
    let mut t = TextTable::new();
    for (k, v) in pairs {
        t.entries.push((k.to_string(), v.to_string()));
    }
    t.sort();
    t
}

#[test]
fn compare_str_is_lexicographic() {
    assert_eq!(compare_str("abc", "abc"), 0);
    assert_eq!(compare_str("abc", "abd"), -1);
    assert_eq!(compare_str("abd", "abc"), 1);
    assert_eq!(compare_str("ab", "abc"), -1);
    assert_eq!(compare_str("", ""), 0);
    assert_eq!(compare_str("b", "abc"), 1);
    assert_eq!(compare_str("あ", "い"), -1);
    for (a, b) in [("x", "y"), ("kabaddi", "kabad"), ("", "z"), ("年", "月")] {
        assert_eq!(compare_str(a, b) < 0, a < b);
        assert_eq!(compare_str(a, b) > 0, a > b);
    }
}

#[test]
fn replace_every_occurrence() {
    assert_eq!(replace("a-b-c", "-", "+"), "a+b+c");
    assert_eq!(replace("{x} and {x}", "{x}", "y"), "y and y");
    assert_eq!(replace("aaa", "aa", "b"), "ba");
    assert_eq!(replace("none here", "zz", "q"), "none here");
    assert_eq!(replace("", "a", "b"), "");
    assert_eq!(replace("地区{place}で", "{place}", "東町"), "地区東町で");
}

#[test]
fn decimal_writes_numbers() {
    assert_eq!(decimal(0), "0");
    assert_eq!(decimal(7), "7");
    assert_eq!(decimal(10), "10");
    assert_eq!(decimal(360), "360");
    assert_eq!(decimal(u64::MAX), u64::MAX.to_string());
}

#[test]
fn sort_orders_entries_by_key() {
    let t = table(&[("c", "3"), ("a", "1"), ("b", "2")]);
    let keys: Vec<&str> = t.entries.iter().map(|(k, _)| k.as_str()).collect();
    assert_eq!(keys, vec!["a", "b", "c"]);
}

#[test]
fn sort_keeps_equal_keys_in_their_order() {
    let t = table(&[("b", "first"), ("a", "x"), ("b", "second")]);
    let values: Vec<&str> = t.entries.iter().map(|(_, v)| v.as_str()).collect();
    assert_eq!(values, vec!["x", "first", "second"]);
}

#[test]
fn get_finds_values_and_falls_back_to_the_key() {
    let t = table(&[("news.title", "ニュース"), ("cup.result", "{nation}は{rank}位"), ("a", "A")]);
    assert_eq!(t.get("news.title"), "ニュース");
    assert_eq!(t.get("a"), "A");
    assert_eq!(t.get("missing.key"), "missing.key");
    assert_eq!(TextTable::new().get("x"), "x");
}

#[test]
fn format_fills_placeholders_in_order() {
    let t = table(&[("cup.result", "{nation}は{rank}位"), ("plain", "no args")]);
    assert_eq!(t.format("cup.result", &[("rank", "2"), ("nation", "カバディ国")]), "カバディ国は2位");
    assert_eq!(t.format("plain", &[("x", "y")]), "no args");
    assert_eq!(t.format("unknown.{x}", &[("x", "1")]), "unknown.1");
    assert_eq!(t.format("cup.result", &[]), "{nation}は{rank}位");
}

#[test]
fn format_substitutes_into_earlier_values_too() {
    let t = table(&[("k", "{a}")]);
    assert_eq!(t.format("k", &[("a", "{b}"), ("b", "z")]), "z");
}
