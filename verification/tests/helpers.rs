use sorg::helpers::parse_file_link;

#[test]
fn test_parse_file_link() {
    let s = parse_file_link("[[file:test.org][linked blogpost]]");
    assert_eq!(s, Some("test.org".to_string()));
}

#[test]
fn plain_text_is_no_link() {
    assert_eq!(None, parse_file_link("this is not a link"));
    assert_eq!(None, parse_file_link("[[file:unclosed"));
    assert_eq!(None, parse_file_link("see [[file:x.org]] later"));
}

#[test]
fn bare_link_without_description() {
    assert_eq!(
        Some("notes.org".to_string()),
        parse_file_link("[[file:notes.org]]")
    );
    assert_eq!(
        Some("notes.org".to_string()),
        parse_file_link("[[file:notes.org][See notes]]")
    );
}
