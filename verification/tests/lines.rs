use minigrep::split_first_line;

fn all_lines(text: &str) -> Vec<&str> {
    let mut lines = Vec::new();
    let mut rest = text;
    while let Some((line, tail)) = split_first_line(rest) {
        assert!(tail.len() < rest.len());
        lines.push(line);
        rest = tail;
    }
    assert!(rest.is_empty());
    lines
}

#[test]
fn empty_text_has_no_first_line() {
    assert_eq!(None, split_first_line(""));
}

#[test]
fn first_line_of_unterminated_text_is_the_text() {
    assert_eq!(Some(("only", "")), split_first_line("only"));
    assert_eq!(Some(("only\r", "")), split_first_line("only\r"));
}

#[test]
fn first_line_ends_at_the_first_line_feed() {
    assert_eq!(Some(("one", "two\nthree")), split_first_line("one\ntwo\nthree"));
    assert_eq!(Some(("one", "")), split_first_line("one\n"));
    assert_eq!(Some(("", "")), split_first_line("\n"));
    assert_eq!(Some(("", "\n")), split_first_line("\n\n"));
    assert_eq!(Some(("", "rest")), split_first_line("\nrest"));
}

#[test]
fn first_line_loses_one_carriage_return_before_the_line_feed() {
    assert_eq!(Some(("one", "two")), split_first_line("one\r\ntwo"));
    assert_eq!(Some(("", "two")), split_first_line("\r\ntwo"));
    assert_eq!(Some(("one\r", "two")), split_first_line("one\r\r\ntwo"));
    assert_eq!(Some(("on\re", "\rtwo")), split_first_line("on\re\n\rtwo"));
}

#[test]
fn first_line_with_wide_characters() {
    assert_eq!(Some(("é", "ü")), split_first_line("é\nü"));
    assert_eq!(Some(("日本", "語")), split_first_line("日本\r\n語"));
    assert_eq!(Some(("𝄞", "")), split_first_line("𝄞\n"));
}

#[test]
fn lines_agree_with_the_standard_library() {
    let texts = [
        "",
        "\n",
        "\r",
        "\r\n",
        "\n\n",
        "\n\r",
        "\r\r\n",
        "a",
        "a\n",
        "a\r\n",
        "a\r",
        "a\nb",
        "a\n\nb",
        "a\r\n\r\nb\r\n",
        "foo\nbar\n\r\nbaz\r",
        "foo\r\nbar\n\nbaz\n",
        "Rust:\nsafe, fast, productive.\nPick three.\nDuct tape.",
        "é\r\nü\nß",
        "日本語\nテキスト\n",
        "trailing spaces  \n  leading",
    ];
    for text in texts {
        let expected: Vec<&str> = text.lines().collect();
        assert_eq!(expected, all_lines(text), "{:?}", text);
    }
}
