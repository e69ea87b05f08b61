use redfoxtool::parse::{
    escape_xml, input_source, InputSource, parse_comma_separated, parse_inline, parse_multiline, parse_wordlist, split_on,
    vec_to_comma_separated, InputError,
};

#[test]
fn test_parse_comma_separated() {
    let input = "admin, user, test,guest";
    let result = parse_comma_separated(input);

    assert_eq!(result, vec!["admin", "user", "test", "guest"]);
}

#[test]
fn test_parse_multiline() {
    let input = "admin\nuser\ntest\n\nguest";
    let result = parse_multiline(input);

    assert_eq!(result, vec!["admin", "user", "test", "guest"]);
}

#[test]
fn test_parse_file() {
    let content = "admin\nuser\n# تعليق\ntest\n";
    let result = parse_wordlist(content).unwrap();

    assert_eq!(result, vec!["admin", "user", "test"]);
}

#[test]
fn test_parse_input_single() {
    let input = "admin";
    let result = parse_inline(input);

    assert_eq!(result, vec!["admin"]);
}

#[test]
fn inline_input_prefers_commas_over_newlines() {
    assert_eq!(parse_inline("a,b\nc"), vec!["a", "b\nc"]);
    assert_eq!(parse_inline("a\r\n b \n"), vec!["a", "b"]);
}

#[test]
fn split_keeps_empty_pieces() {
    assert_eq!(split_on("a,,b,", ','), vec!["a", "", "b", ""]);
    assert_eq!(split_on("", ','), vec![""]);
}

#[test]
fn comma_list_trims_unicode_whitespace() {
    assert_eq!(parse_comma_separated("\u{3000}root\t,  ,x"), vec!["root", "x"]);
}

#[test]
fn wordlist_without_entries_is_an_error() {
    assert_eq!(parse_wordlist("\n  \n# only a comment\n"), Err(InputError::EmptyList));
    assert_eq!(parse_wordlist(""), Err(InputError::EmptyList));
}

#[test]
fn wordlist_keeps_indented_hash_only_after_trim() {
    assert_eq!(parse_wordlist("  #x\npass#1\n").unwrap(), vec!["pass#1"]);
}

#[test]
fn join_with_commas() {
    let items = vec!["a".to_string(), "b c".to_string(), "".to_string()];
    assert_eq!(vec_to_comma_separated(&items), "a,b c,");
    assert_eq!(vec_to_comma_separated(&[]), "");
    assert_eq!(vec_to_comma_separated(&["x".to_string()]), "x");
}

#[test]
fn xml_special_characters_are_escaped() {
    assert_eq!(escape_xml("a&b<c>\"d'"), "a&amp;b&lt;c&gt;&quot;d&apos;");
    assert_eq!(escape_xml("plain é"), "plain é");
    assert_eq!(escape_xml("&amp;"), "&amp;amp;");
}

#[test]
fn input_sources_by_their_text() {
    assert_eq!(input_source("lists/*.txt"), InputSource::GlobPattern);
    assert_eq!(input_source("file://file:///tmp/a?"), InputSource::GlobPattern);
    assert_eq!(input_source("file://file:///tmp/users"), InputSource::FilePath("/tmp/users".to_string()));
    assert_eq!(input_source("https://example.com/list"), InputSource::Remote);
    assert_eq!(input_source("admin,root"), InputSource::Plain);
}
