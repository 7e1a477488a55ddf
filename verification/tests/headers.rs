use http_core::http_headers::{write_field, Headers};

fn text(value: Option<&String>) -> Option<&str> {
    value.map(|v| v.as_str())
}

#[test]
fn new_headers_are_empty() {
    let headers = Headers::new();
    assert_eq!(headers.len(), 0);
    assert_eq!(headers.get("Host"), None);
    assert_eq!(headers.get_ignore_case("Host"), None);
}

#[test]
fn insert_adds_new_names_at_the_end() {
    let mut headers = Headers::new();
    headers.insert("B".to_string(), "1".to_string());
    headers.insert("A".to_string(), "2".to_string());
    headers.insert("C".to_string(), "3".to_string());
    assert_eq!(headers.len(), 3);
    assert_eq!(headers.name_at(0), "B");
    assert_eq!(headers.value_at(0), "1");
    assert_eq!(headers.name_at(1), "A");
    assert_eq!(headers.value_at(1), "2");
    assert_eq!(headers.name_at(2), "C");
    assert_eq!(headers.value_at(2), "3");
}

#[test]
fn insert_replaces_the_value_of_a_present_name_in_place() {
    let mut headers = Headers::new();
    headers.insert("A".to_string(), "1".to_string());
    headers.insert("B".to_string(), "2".to_string());
    headers.insert("A".to_string(), "3".to_string());
    assert_eq!(headers.len(), 2);
    assert_eq!(headers.name_at(0), "A");
    assert_eq!(headers.value_at(0), "3");
    assert_eq!(headers.name_at(1), "B");
    assert_eq!(text(headers.get("A")), Some("3"));
    assert_eq!(text(headers.get("B")), Some("2"));
}

#[test]
fn get_matches_the_name_exactly() {
    let mut headers = Headers::new();
    headers.insert("Content-Type".to_string(), "text/plain".to_string());
    assert_eq!(text(headers.get("Content-Type")), Some("text/plain"));
    assert_eq!(headers.get("content-type"), None);
    assert_eq!(headers.get("Content-Typ"), None);
    assert_eq!(headers.get("Content-Type "), None);
    assert_eq!(headers.get(""), None);
}

#[test]
fn names_that_differ_in_case_are_different_names() {
    let mut headers = Headers::new();
    headers.insert("Host".to_string(), "a".to_string());
    headers.insert("host".to_string(), "b".to_string());
    assert_eq!(headers.len(), 2);
    assert_eq!(text(headers.get("Host")), Some("a"));
    assert_eq!(text(headers.get("host")), Some("b"));
}

#[test]
fn get_ignore_case_finds_the_last_name_that_matches() {
    let mut headers = Headers::new();
    headers.insert("Host".to_string(), "a".to_string());
    headers.insert("Other".to_string(), "x".to_string());
    headers.insert("HOST".to_string(), "b".to_string());
    assert_eq!(text(headers.get_ignore_case("host")), Some("b"));
    assert_eq!(text(headers.get_ignore_case("oTHER")), Some("x"));
    assert_eq!(headers.get_ignore_case("hos"), None);
}

#[test]
fn get_ignore_case_folds_ascii_letters_only() {
    let mut headers = Headers::new();
    headers.insert("\u{c4}".to_string(), "upper".to_string());
    headers.insert("K".to_string(), "latin".to_string());
    assert_eq!(headers.get_ignore_case("\u{e4}"), None);
    assert_eq!(headers.get_ignore_case("\u{212a}"), None);
    assert_eq!(text(headers.get_ignore_case("k")), Some("latin"));
    assert_eq!(text(headers.get_ignore_case("\u{c4}")), Some("upper"));
}

#[test]
fn get_ignore_case_tells_letters_from_their_neighbours() {
    let mut headers = Headers::new();
    headers.insert("@[`{".to_string(), "signs".to_string());
    assert_eq!(headers.get_ignore_case("`{@["), None);
    assert_eq!(text(headers.get_ignore_case("@[`{")), Some("signs"));
}

#[test]
fn write_field_writes_one_line() {
    let mut out = b">".to_vec();
    write_field(&mut out, "Host", "x");
    assert_eq!(out, b">Host: x\r\n");
    write_field(&mut out, "", "");
    assert_eq!(out, b">Host: x\r\n: \r\n");
    write_field(&mut out, "N\u{e9}", "\u{20ac}");
    assert_eq!(out, ">Host: x\r\n: \r\nN\u{e9}: \u{20ac}\r\n".as_bytes());
}
