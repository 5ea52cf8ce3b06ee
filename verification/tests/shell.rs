use termnav::shell::{escape_tmux_format, join, quote};

#[test]
fn quote_preserves_spaces_and_apostrophes() {
    assert_eq!(quote("a b's"), "'a b'\\''s'");
    assert_eq!(quote(""), "''");
}

#[test]
fn tmux_format_escape_blocks_interpolation_and_command_substitution() {
    assert_eq!(
        escape_tmux_format("/tmp/#{session_name}/#(printf unsafe)"),
        "/tmp/##{session_name}/##(printf unsafe)"
    );
}

#[test]
fn quoted_words_are_joined() {
    assert_eq!(join(&["a b".to_owned(), "c".to_owned()]), "'a b' 'c'");
    assert_eq!(join(&[]), "");
    assert_eq!(escape_tmux_format("##"), "####");
}
