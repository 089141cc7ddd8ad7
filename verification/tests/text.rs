use cooking_with_wasm::text::text_lines;

#[test]
fn splits_like_str_lines() {
    let text = "foo\r\nbar\n\nbaz\r";
    assert_eq!(text_lines(text), vec!["foo", "bar", "", "baz\r"]);
}

#[test]
fn empty_text_has_no_lines() {
    assert_eq!(text_lines(""), Vec::<&str>::new());
}

#[test]
fn lone_newline_is_one_empty_line() {
    assert_eq!(text_lines("\n"), vec![""]);
}

#[test]
fn final_newline_adds_no_line() {
    assert_eq!(text_lines("a\nb\n"), text_lines("a\nb"));
    assert_eq!(text_lines("a\nb\r\n"), text_lines("a\nb"));
    assert_eq!(text_lines("x\r\r\n"), text_lines("x\r"));
}

#[test]
fn lines_hold_no_newline() {
    let text = "one\ntwo\r\n\r\nthree\n\n";
    for line in text_lines(text) {
        assert!(!line.contains('\n'));
    }
}

#[test]
fn agrees_with_std_on_unicode_text() {
    let text = "=== FUZZING RESULTS ===\n📊 Total opcodes tested: 101\n✅ Successful executions: 101\r\n❌ Failed: 0\n...\n";
    let expected: Vec<&str> = text.lines().collect();
    assert_eq!(text_lines(text), expected);
}
