use google_ddns::text::{escape, escape_quotes, push_decimal, push_signed_decimal};

#[test]
fn escape_backslashes_and_quotes() {
    assert_eq!(escape(r#"a"b\c"#), r#"a\"b\\c"#);
    assert_eq!(escape(""), "");
    assert_eq!(escape("2001:db8::1"), "2001:db8::1");
}

#[test]
fn escape_quotes_leaves_backslashes() {
    assert_eq!(escape_quotes(r#"a"b\c"#), r#"a\"b\c"#);
}

#[test]
fn decimal_numerals() {
    let mut s = String::from("n=");
    push_decimal(&mut s, 0);
    assert_eq!(s, "n=0");
    let mut s = String::new();
    push_decimal(&mut s, u64::MAX);
    assert_eq!(s, u64::MAX.to_string());
    let mut s = String::new();
    push_decimal(&mut s, 1700003600);
    assert_eq!(s, "1700003600");
}

#[test]
fn signed_decimal_numerals() {
    for n in [0i64, 7, -7, 300, -300, i64::MAX, i64::MIN] {
        let mut s = String::new();
        push_signed_decimal(&mut s, n);
        assert_eq!(s, n.to_string());
    }
}

#[test]
fn escaped_text_reads_back() {
    let plain = r#"he said "\o/""#;
    let escaped = escape(plain);
    let mut back = String::new();
    let mut chars = escaped.chars();
    while let Some(c) = chars.next() {
        if c == '\\' {
            back.push(chars.next().unwrap());
        } else {
            back.push(c);
        }
    }
    assert_eq!(back, plain);
}
