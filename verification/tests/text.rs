use http_server::text::{
    chars_eq, chars_of, contains_chars, decimal_chars, find_from, last_segment_start,
    split_chars, trim_chars,
};

fn cs(s: &str) -> Vec<char> {
    s.chars().collect()
}

fn string_of(v: &Vec<char>) -> String {
    v.iter().collect()
}

#[test]
fn decimal_rendering() {
    assert_eq!(string_of(&decimal_chars(0)), "0");
    assert_eq!(string_of(&decimal_chars(7)), "7");
    assert_eq!(string_of(&decimal_chars(10)), "10");
    assert_eq!(string_of(&decimal_chars(404)), "404");
    assert_eq!(string_of(&decimal_chars(u64::MAX)), u64::MAX.to_string());
}

#[test]
fn trimming() {
    assert_eq!(string_of(&trim_chars(&cs("  a b \t"))), "a b");
    assert_eq!(string_of(&trim_chars(&cs("\u{3000}x\u{2028}"))), "x");
    assert_eq!(string_of(&trim_chars(&cs(" \n "))), "");
    assert_eq!(string_of(&trim_chars(&cs(""))), "");
    assert_eq!(string_of(&trim_chars(&cs("\u{200b}x"))), "\u{200b}x");
}

#[test]
fn splitting_and_joining() {
    let parts = split_chars(&cs("a::b::::c"), &cs("::"));
    let texts: Vec<String> = parts.iter().map(string_of).collect();
    assert_eq!(texts, vec!["a", "b", "", "c"]);
    assert_eq!(texts.join("::"), "a::b::::c");
    let parts = split_chars(&cs("abc"), &cs("x"));
    assert_eq!(parts.len(), 1);
    let parts = split_chars(&cs(":::"), &cs("::"));
    let texts: Vec<String> = parts.iter().map(string_of).collect();
    assert_eq!(texts, vec!["", ":"]);
}

#[test]
fn searching() {
    assert_eq!(find_from(&cs("abcabc"), &cs("bc"), 0), Some(1));
    assert_eq!(find_from(&cs("abcabc"), &cs("bc"), 2), Some(4));
    assert_eq!(find_from(&cs("abcabc"), &cs("bc"), 5), None);
    assert!(contains_chars(&cs("/api/echo/x"), &cs("/echo")));
    assert!(!contains_chars(&cs("/ech"), &cs("/echo")));
    assert!(chars_eq(&chars_of("ü/"), &cs("ü/")));
    assert!(!chars_eq(&cs("a"), &cs("ab")));
    assert_eq!(last_segment_start(&cs("/a/bc")), 3);
    assert_eq!(last_segment_start(&cs("abc")), 0);
}
