use termnav::commands::eza::{
    eza_arguments, has_layout_argument, hyperlink_argument, link_pattern, link_replacement,
    rewrite_stream, terminal_width, Rewriter,
};

#[test]
fn combined_short_layout_flags_are_detected() {
    assert!(has_layout_argument(&["-al".to_owned()]));
    assert!(!has_layout_argument(&["-a".to_owned(), "--".to_owned()]));
}

#[test]
fn hyperlink_rewrite_is_binary_safe_across_input_chunks() {
    let input = [b"a\x1b]8;;fi".to_vec(), b"le:///tmp/x\xff".to_vec()];
    let output = rewrite_stream(&input, b"\x1b]8;;file:///", b"\x1b]8;;file://host/");
    assert_eq!(output, b"a\x1b]8;;file://host/tmp/x\xff");
}

#[test]
fn rewriting_does_not_depend_on_the_chunks() {
    let text = b"xababx\x1b]8;;file:///abab";
    let whole = rewrite_stream(&[text.to_vec()], b"aba", b"<>");
    assert_eq!(whole, b"x<>bx\x1b]8;;file:///<>b");
    for cut in 0..=text.len() {
        let chunks = [text[..cut].to_vec(), text[cut..].to_vec()];
        assert_eq!(rewrite_stream(&chunks, b"aba", b"<>"), whole, "cut at {cut}");
    }
    let mut rewriter = Rewriter::new(b"aba", b"<>");
    let mut output = Vec::new();
    rewriter.push(b"xab", &mut output);
    assert_eq!(output, b"x");
    rewriter.finish(&mut output);
    assert_eq!(output, b"xab");
}

#[test]
fn listings_fit_the_terminal() {
    let arguments = ["-a".to_owned()];
    assert_eq!(
        eza_arguments("--hyperlink=always", true, Some(80), &arguments),
        vec!["--hyperlink=always", "--color=always", "--width", "80", "--grid", "-a"]
    );
    assert_eq!(
        eza_arguments("--hyperlink", false, None, &arguments),
        vec!["--hyperlink", "--color=always", "-a"]
    );
    assert_eq!(hyperlink_argument(true), "--hyperlink=always");
    assert_eq!(hyperlink_argument(false), "--hyperlink");
    assert_eq!(terminal_width(Some("120"), Some("80\n")), Some(120));
    assert_eq!(terminal_width(Some("x"), Some("80\n")), Some(80));
    assert_eq!(terminal_width(None, None), None);
    assert_eq!(link_pattern(), b"\x1b]8;;file:///".to_vec());
    assert_eq!(link_replacement("host"), b"\x1b]8;;file://host/".to_vec());
}
