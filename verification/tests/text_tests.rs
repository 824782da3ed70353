use tf_rs::text::{chars_of, format_i32, lines_of, parse_u32, string_of, trim_chars};

#[test]
fn trims_unicode_whitespace() {
    let c = chars_of("\u{a0} \tab c\u{3000}\n");
    assert_eq!(string_of(&trim_chars(&c)), "ab c");
    assert_eq!(string_of(&trim_chars(&chars_of("   "))), "");
}

#[test]
fn lines_like_str_lines() {
    for s in ["", "a", "a\n", "a\n\n", "\n", "a\r\nb\r", "x\ry\nz"] {
        let got: Vec<String> = lines_of(&chars_of(s)).iter().map(|l| string_of(l)).collect();
        let want: Vec<String> = s.lines().map(|l| l.to_string()).collect();
        assert_eq!(got, want, "{:?}", s);
    }
}

#[test]
fn numbers() {
    assert_eq!(string_of(&format_i32(-7)), "-7");
    assert_eq!(parse_u32(&chars_of("0012")), Some(12));
    assert_eq!(parse_u32(&chars_of("1_0")), None);
}
