use mdbook_github_authors::rewriter::remove_all_links;
use mdbook_github_authors::scanner::find_author_links;
use mdbook_github_authors::GithubAuthor;
use mdbook_github_authors::GithubAuthorsPreprocessor;

fn authors(names: &[&str]) -> Vec<GithubAuthor> {
    names
        .iter()
        .map(|n| GithubAuthor {
            username: n.to_string(),
        })
        .collect()
}

#[test]
fn test_remove_all_links() {
    let content =
        "Some random text with and more text ... {{#author foo}} {{#authors bar,baz  }}".to_string();
    let (c, found) = remove_all_links(&content[..]);

    assert_eq!(c, "Some random text with and more text ...  ");
    assert_eq!(found, authors(&["foo", "bar", "baz"]));
}

#[test]
fn no_op_on_clean_text() {
    let s = "Plain prose, no markup at all.";
    let (c, found) = remove_all_links(s);
    assert_eq!(c, s);
    assert!(found.is_empty());
}

#[test]
fn escape_inviolability() {
    let s = "Before \\{{#author x}} after";
    let (c, found) = remove_all_links(s);
    assert_eq!(c, s);
    assert!(found.is_empty());
}

#[test]
fn unknown_directive_name_is_ignored() {
    for s in ["{{#my_author x}}", "{{#auth}}", "{{bar}}"] {
        let (c, found) = remove_all_links(s);
        assert_eq!(c, s);
        assert!(found.is_empty());
    }
}

#[test]
fn empty_payload_is_ignored() {
    for s in ["{{#author   }}", "{{#authors   }}"] {
        let (c, found) = remove_all_links(s);
        assert_eq!(c, s);
        assert!(found.is_empty());
    }
}

#[test]
fn single_author_extraction() {
    let (c, found) = remove_all_links("A {{#author foo}} B");
    assert_eq!(c, "A  B");
    assert_eq!(found, authors(&["foo"]));
}

#[test]
fn multi_author_extraction_and_order() {
    let (c, found) = remove_all_links("{{#author foo}} {{#authors bar,baz  }}");
    assert_eq!(c, " ");
    assert_eq!(found, authors(&["foo", "bar", "baz"]));
}

#[test]
fn length_invariant_on_samples() {
    for s in [
        "",
        "A {{#author foo}} B",
        "{{#author foo}} {{#authors bar,baz  }}",
        "\\{{#author x}} {{#authors a,b}}",
        "text {{#authors one,two}} more {{#author three}} end",
    ] {
        let spans: usize = find_author_links(s)
            .iter()
            .map(|l| l.end_index - l.start_index)
            .sum();
        let (c, _) = remove_all_links(s);
        assert_eq!(c.len() + spans, s.len());
    }
}

#[test]
fn no_match_round_trip_is_idempotent() {
    let (once, _) = remove_all_links("A {{#author foo}} B");
    let (twice, found) = remove_all_links(&once);
    assert_eq!(twice, once);
    assert!(found.is_empty());
}

#[test]
fn determinism() {
    let s = "x {{#authors a, b}} y \\{{#author z}}";
    let first = remove_all_links(s);
    let second = remove_all_links(s);
    assert_eq!(first, second);
}

#[test]
fn empty_input() {
    let (c, found) = remove_all_links("");
    assert_eq!(c, "");
    assert!(found.is_empty());
}

#[test]
fn elements_of_a_list_are_not_retrimmed() {
    // The whole field is trimmed once; the pieces between commas are not,
    // so a space after a comma stays on the following identity.
    let (c, found) = remove_all_links("{{#authors bar, baz}}");
    assert_eq!(c, "");
    assert_eq!(found, authors(&["bar", " baz"]));
}

#[test]
fn consecutive_commas_yield_empty_identities() {
    let (_, found) = remove_all_links("{{#authors a,,b}}");
    assert_eq!(found, authors(&["a", "", "b"]));
}

#[test]
fn multibyte_text_around_directives_is_kept() {
    let (c, found) = remove_all_links("café {{#author münchen}} 日本語");
    assert_eq!(c, "café  日本語");
    assert_eq!(found, authors(&["münchen"]));
}

#[test]
fn preprocessor_name() {
    let pre = GithubAuthorsPreprocessor::new();
    assert_eq!(pre.name(), "github-author");
}
