use smol::order::compare_chars;

fn chars(s: &str) -> Vec<char> {
    s.chars().collect()
}

#[test]
fn compare_orders_by_character_then_length() {
    assert_eq!(compare_chars(&chars("abc"), &chars("abc")), 0);
    assert_eq!(compare_chars(&chars("abc"), &chars("abd")), -1);
    assert_eq!(compare_chars(&chars("abd"), &chars("abc")), 1);
    assert_eq!(compare_chars(&chars("ab"), &chars("abc")), -1);
    assert_eq!(compare_chars(&chars(""), &chars("")), 0);
    assert_eq!(compare_chars(&chars("Z"), &chars("a")), -1);
    assert_eq!(compare_chars(&chars("é"), &chars("z")), 1);
}
