use sonar::text::{no_lines, push_decimal, push_hex, push_line, push_text};

#[test]
fn numbers_in_decimal() {
    for n in [0u64, 9, 10, 99, 100, 1234567890, u64::MAX] {
        let mut text = String::from("n=");
        push_decimal(&mut text, n);
        assert_eq!(text, format!("n={}", n));
    }
}

#[test]
fn numbers_in_hexadecimal() {
    for n in [0u32, 9, 10, 255, 0x0102_abcd, u32::MAX] {
        let mut text = String::new();
        push_hex(&mut text, n, 8);
        assert_eq!(text, format!("{:08X}", n));
    }
    let mut text = String::new();
    push_hex(&mut text, 0x1234, 2);
    assert_eq!(text, "34");
}

#[test]
fn lines_are_appended() {
    let mut lines = no_lines();
    push_text(&mut lines, "a");
    push_line(&mut lines, String::from("b"));
    assert_eq!(lines, vec!["a", "b"]);
}
