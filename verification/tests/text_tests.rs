use sad::text::{push_decimal, push_framed, split_lines};

fn std_lines(text: &str) -> Vec<String> {
    text.lines().map(|l| l.to_string()).collect()
}

#[test]
fn split_lines_agrees_with_the_standard_library() {
    let texts = [
        "",
        "\n",
        "\n\n",
        "a",
        "a\n",
        "a\nb",
        "a\nb\n",
        "a\r\nb\r\n",
        "a\rb\n",
        "a\r",
        "a\r\r\n",
        "\r\n",
        "\r",
        "\r\r",
        "a\n\r",
        "a\n\r\n",
        "foo\nbar\n\r\nbaz\r",
        "é\nü\r\n日本語",
        "\n\nx\n\n",
    ];
    for text in texts {
        assert_eq!(split_lines(text), std_lines(text), "{:?}", text);
    }
}

#[test]
fn split_lines_gives_the_lines() {
    assert_eq!(split_lines("one\ntwo\r\nthree"), vec!["one", "two", "three"]);
    assert_eq!(split_lines("one\n\ntwo\n"), vec!["one", "", "two"]);
    assert_eq!(split_lines("kept\r"), vec!["kept\r"]);
    assert_eq!(split_lines("x\r\r\n"), vec!["x\r"]);
    assert!(split_lines("").is_empty());
}

#[test]
fn push_decimal_writes_the_digits() {
    let cases: [(u128, &str); 9] = [
        (0, "0"),
        (7, "7"),
        (9, "9"),
        (10, "10"),
        (42, "42"),
        (100, "100"),
        (1234567890, "1234567890"),
        (18446744073709551615, "18446744073709551615"),
        (u128::MAX, "340282366920938463463374607431768211455"),
    ];
    for (n, text) in cases {
        let mut out = String::from("n=");
        push_decimal(&mut out, n);
        assert_eq!(out, format!("n={}", text));
    }
}

#[test]
fn push_framed_puts_each_line_between_prefix_and_suffix() {
    let lines: Vec<String> = vec!["a".into(), "b".into(), "c".into(), "d".into()];
    let mut out = String::from(">");
    push_framed(&mut out, "[", &lines, 1, 3, "]");
    assert_eq!(out, ">[b][c]");
    push_framed(&mut out, "", &lines, 0, 4, "\n");
    assert_eq!(out, ">[b][c]a\nb\nc\nd\n");
    push_framed(&mut out, "x", &lines, 2, 2, "y");
    assert_eq!(out, ">[b][c]a\nb\nc\nd\n");
}
