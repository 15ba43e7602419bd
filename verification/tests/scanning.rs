use mdbook_github_authors::scanner::find_author_links;
use mdbook_github_authors::scanner::AuthorLink;
use mdbook_github_authors::scanner::AuthorLinkType;

fn simple_book_content() -> String {
    "Some random text with and more text ... {{#author foo}} {{#authors bar,baz  }}".to_string()
}

#[test]
fn test_find_links_no_author_links() {
    let s = "Some random text without link...";
    assert!(find_author_links(s) == vec![]);
}

#[test]
fn test_find_links_partial_link() {
    let s = "Some random text with {{#playground...";
    assert!(find_author_links(s) == vec![]);
    let s = "Some random text with {{#include...";
    assert!(find_author_links(s) == vec![]);
    let s = "Some random text with \\{{#include...";
    assert!(find_author_links(s) == vec![]);
}

#[test]
fn test_find_links_empty_link() {
    let s = "Some random text with {{#author  }} and {{#authors   }} {{}} {{#}}...";
    assert!(find_author_links(s) == vec![]);
}

#[test]
fn test_find_links_unknown_link_type() {
    let s = "Some random text with {{#my_author ar.rs}} and {{#auth}} {{baz}} {{#bar}}...";
    assert!(find_author_links(s) == vec![]);
}

#[test]
fn test_find_links_simple_author_links() {
    let content = simple_book_content();
    let res = find_author_links(&content[..]);

    assert_eq!(
        res,
        vec![
            AuthorLink {
                start_index: 40,
                end_index: 55,
                link_type: AuthorLinkType::SingleAuthor("foo".to_string()),
                link_text: "{{#author foo}}".to_string(),
            },
            AuthorLink {
                start_index: 56,
                end_index: 78,
                link_type: AuthorLinkType::MultipleAuthors("bar,baz".to_string()),
                link_text: "{{#authors bar,baz  }}".to_string(),
            },
        ]
    );
}

#[test]
fn whitespace_after_braces_is_allowed() {
    let res = find_author_links("{{   #author foo}}");
    assert_eq!(res.len(), 1);
    assert_eq!(res[0].start_index, 0);
    assert_eq!(res[0].end_index, 18);
    assert_eq!(
        res[0].link_type,
        AuthorLinkType::SingleAuthor("foo".to_string())
    );
}

#[test]
fn payload_is_trimmed_as_a_whole() {
    let res = find_author_links("{{#authors  bar, baz }}");
    assert_eq!(res.len(), 1);
    assert_eq!(
        res[0].link_type,
        AuthorLinkType::MultipleAuthors("bar, baz".to_string())
    );
}

#[test]
fn escaped_directive_swallows_rest_of_line() {
    // The escaped form extends greedily to the last `}}` on its line, so a
    // live directive after it on the same line is structurally consumed.
    let s = "\\{{#author x}} and {{#author y}}";
    assert!(find_author_links(s) == vec![]);
}

#[test]
fn escaped_directive_stops_at_line_end() {
    let s = "\\{{#author x}}\n{{#author y}}";
    let res = find_author_links(s);
    assert_eq!(res.len(), 1);
    assert_eq!(res[0].start_index, 15);
    assert_eq!(res[0].end_index, 28);
    assert_eq!(
        res[0].link_type,
        AuthorLinkType::SingleAuthor("y".to_string())
    );
}

#[test]
fn payload_may_not_contain_closing_brace() {
    assert!(find_author_links("{{#author fo}o}}") == vec![]);
}

#[test]
fn name_must_be_followed_by_whitespace() {
    assert!(find_author_links("{{#authorfoo}}") == vec![]);
}

#[test]
fn newline_may_separate_name_and_payload() {
    let res = find_author_links("{{#author\nfoo}}");
    assert_eq!(res.len(), 1);
    assert_eq!(
        res[0].link_type,
        AuthorLinkType::SingleAuthor("foo".to_string())
    );
}

#[test]
fn unicode_whitespace_separates_and_is_trimmed() {
    let res = find_author_links("{{#author\u{00A0}foo\u{3000}}}");
    assert_eq!(res.len(), 1);
    assert_eq!(
        res[0].link_type,
        AuthorLinkType::SingleAuthor("foo".to_string())
    );
}

#[test]
fn escape_needs_hash_right_after_braces() {
    // A backslash before `{{ #author ...}}` does not escape it: the escaped
    // form requires `#` immediately after the braces, while the live form
    // allows whitespace there, so the directive starting at the braces is
    // still recognized and the backslash stays in the text.
    let res = find_author_links("\\{{ #author x}}");
    assert_eq!(res.len(), 1);
    assert_eq!(res[0].start_index, 1);
    assert_eq!(res[0].end_index, 15);
    assert_eq!(
        res[0].link_type,
        AuthorLinkType::SingleAuthor("x".to_string())
    );
}

#[test]
fn single_space_before_closing_braces_is_no_match() {
    // `{{#author }}` leaves no room for both the separating whitespace and a
    // non-empty payload, so the directive alternative fails structurally.
    assert!(find_author_links("{{#author }}") == vec![]);
}
