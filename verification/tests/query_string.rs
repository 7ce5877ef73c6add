use minihttp::query_string::QueryString;
use minihttp::query_string::Value;

fn single(qs: &QueryString, key: &str) -> String {
    match qs.get(key) {
        Some(Value::Single(s)) => s.clone(),
        other => panic!("expected Single for key {:?}, got {:?}", key, other),
    }
}

fn multiple(qs: &QueryString, key: &str) -> Vec<String> {
    match qs.get(key) {
        Some(Value::Multiple(vs)) => vs.clone(),
        other => panic!("expected Multiple for key {:?}, got {:?}", key, other),
    }
}

#[test]
fn repeated_key_collapses_to_multiple() {
    let qs = QueryString::from("z=9&z=10");
    assert_eq!(multiple(&qs, "z"), vec!["9".to_string(), "10".to_string()]);
}

#[test]
fn single_key_stays_single() {
    let qs = QueryString::from("x=8");
    assert_eq!(single(&qs, "x"), "8");
}

#[test]
fn empty_value_is_kept_as_single() {
    let qs = QueryString::from("y=");
    assert_eq!(single(&qs, "y"), "");
}

#[test]
fn trailing_empty_duplicate_is_suppressed() {
    let qs = QueryString::from("z=10&z=");
    assert_eq!(single(&qs, "z"), "10");
}

#[test]
fn empty_duplicates_after_accumulation_are_noise() {
    // the first `=` splits the key, so "z===9" binds z to "==9"
    let qs = QueryString::from("z===9&z=10&z=");
    assert_eq!(multiple(&qs, "z"), vec!["==9".to_string(), "10".to_string()]);
}

#[test]
fn third_occurrence_appends() {
    let qs = QueryString::from("t=a&t=b&t=c");
    assert_eq!(
        multiple(&qs, "t"),
        vec!["a".to_string(), "b".to_string(), "c".to_string()]
    );
}

#[test]
fn plus_decodes_to_space() {
    let qs = QueryString::from("types=Tap+Water");
    assert_eq!(single(&qs, "types"), "Tap Water");
}

#[test]
fn percent_escape_decodes() {
    let qs = QueryString::from("a%20b=c%3D1");
    assert_eq!(single(&qs, "a b"), "c=1");
}

#[test]
fn malformed_percent_escape_passes_through() {
    let qs = QueryString::from("k=%zz");
    assert_eq!(single(&qs, "k"), "%zz");
}

#[test]
fn invalid_utf8_escape_degrades_lossily() {
    let qs = QueryString::from("k=%FF");
    assert_eq!(single(&qs, "k"), "\u{FFFD}");
}

#[test]
fn substring_without_equals_has_empty_value() {
    let qs = QueryString::from("flag");
    assert_eq!(single(&qs, "flag"), "");
}

#[test]
fn empty_substring_yields_empty_key() {
    let qs = QueryString::from("a=1&&b=2");
    assert_eq!(single(&qs, ""), "");
    assert_eq!(single(&qs, "a"), "1");
    assert_eq!(single(&qs, "b"), "2");
}

#[test]
fn missing_key_is_none() {
    let qs = QueryString::from("a=1");
    assert!(qs.get("b").is_none());
}

#[test]
fn value_may_contain_equals() {
    let qs = QueryString::from("e=1=2=3");
    assert_eq!(single(&qs, "e"), "1=2=3");
}

#[test]
fn empty_duplicate_of_empty_single_is_suppressed() {
    // the repeated empty value contributes no new entry even when the
    // existing accumulation is itself the empty string
    let qs = QueryString::from("y=&y=");
    assert_eq!(single(&qs, "y"), "");
}

#[test]
fn commas_do_not_split_a_value() {
    let qs = QueryString::from("a=1,2,3");
    assert_eq!(single(&qs, "a"), "1,2,3");
}

#[test]
fn empty_raw_query_yields_one_empty_key() {
    let qs = QueryString::from("");
    assert_eq!(single(&qs, ""), "");
}

#[test]
fn decode_is_pure() {
    let raw = "a=1&b=2&a=3&c=Tap+Water%21";
    let q1 = QueryString::from(raw);
    let q2 = QueryString::from(raw);
    assert_eq!(multiple(&q1, "a"), multiple(&q2, "a"));
    assert_eq!(single(&q1, "b"), single(&q2, "b"));
    assert_eq!(single(&q1, "c"), single(&q2, "c"));
    assert_eq!(single(&q1, "c"), "Tap Water!");
}
