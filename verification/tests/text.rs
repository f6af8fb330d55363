use mcp_manager::text::{
    chars_of, decimal_chars, find_from, i64_text, occurs_at_exec, replace_all, string_of,
    u64_text,
};

fn chars(s: &str) -> Vec<char> {
    s.chars().collect()
}

fn replace(s: &str, pat: &str, with: &str) -> String {
    replace_all(&chars(s), &chars(pat), &chars(with)).into_iter().collect()
}

#[test]
fn characters_and_strings_convert() {
    assert_eq!(chars_of("héllo"), vec!['h', 'é', 'l', 'l', 'o']);
    assert_eq!(chars_of(""), Vec::<char>::new());
    assert_eq!(string_of(&chars("héllo"), 1, 4), "éll");
    assert_eq!(string_of(&chars("abc"), 0, 3), "abc");
    assert_eq!(string_of(&chars("abc"), 2, 2), "");
}

#[test]
fn the_first_occurrence_is_found() {
    let s = chars("abcabc");
    assert_eq!(find_from(&s, &chars("bc"), 0), Some(1));
    assert_eq!(find_from(&s, &chars("bc"), 1), Some(1));
    assert_eq!(find_from(&s, &chars("bc"), 2), Some(4));
    assert_eq!(find_from(&s, &chars("bc"), 5), None);
    assert_eq!(find_from(&s, &chars("bc"), 100), None);
    assert_eq!(find_from(&s, &chars("x"), 0), None);
    assert_eq!(find_from(&s, &chars("abcabcd"), 0), None);
    assert_eq!(find_from(&s, &chars(""), 0), Some(0));
    assert_eq!(find_from(&s, &chars(""), 6), Some(6));
    assert_eq!(find_from(&s, &chars(""), 7), None);
    assert!(occurs_at_exec(&s, &chars("abc"), 3));
    assert!(!occurs_at_exec(&s, &chars("abc"), 4));
    assert!(!occurs_at_exec(&s, &chars("abc"), 1));
}

#[test]
fn every_occurrence_is_replaced_from_the_left() {
    assert_eq!(replace("a-b-c", "-", "+"), "a+b+c");
    assert_eq!(replace("aaa", "aa", "b"), "ba");
    assert_eq!(replace("aaaa", "aa", "b"), "bb");
    assert_eq!(replace("abc", "abc", ""), "");
    assert_eq!(replace("abc", "x", "y"), "abc");
    assert_eq!(replace("", "x", "y"), "");
    assert_eq!(replace("abc", "", "y"), "abc");
    assert_eq!(replace("${d}/x/${d}", "${d}", "/opt"), "/opt/x//opt");
    assert_eq!(replace("ab", "abc", "y"), "ab");
}

#[test]
fn numbers_are_written_in_decimal() {
    assert_eq!(u64_text(0), "0");
    assert_eq!(u64_text(9), "9");
    assert_eq!(u64_text(10), "10");
    assert_eq!(u64_text(1234567890), "1234567890");
    assert_eq!(u64_text(u64::MAX), u64::MAX.to_string());
    assert_eq!(i64_text(0), "0");
    assert_eq!(i64_text(-1), "-1");
    assert_eq!(i64_text(42), "42");
    assert_eq!(i64_text(i64::MIN), i64::MIN.to_string());
    assert_eq!(i64_text(i64::MAX), i64::MAX.to_string());
    assert_eq!(decimal_chars(305), vec!['3', '0', '5']);
}
