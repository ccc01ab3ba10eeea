use normd::paths::{join_rel, path_prefix_matches, split_components, split_tokens};

#[test]
fn prefix_match_is_component_wise() {
    assert!(path_prefix_matches("sub", "sub/b.md"));
    assert!(path_prefix_matches("sub/b.md", "sub/b.md"));
    assert!(!path_prefix_matches("su", "sub/b.md"));
    assert!(!path_prefix_matches("sub/b.md", "sub"));
    assert!(!path_prefix_matches("b.md", "sub/b.md"));
}

#[test]
fn empty_prefix_matches_everything() {
    assert!(path_prefix_matches("", "a.md"));
    assert!(path_prefix_matches("", "sub/b.md"));
    assert!(path_prefix_matches("", ""));
}

#[test]
fn repeated_separators_do_not_change_components() {
    assert!(path_prefix_matches("/sub/", "sub/b.md"));
    assert!(path_prefix_matches("sub//", "sub/b.md"));
    assert_eq!(split_components("/a//b/"), vec!["a".to_string(), "b".to_string()]);
    assert_eq!(split_components(""), Vec::<String>::new());
}

#[test]
fn tokens_split_at_whitespace() {
    assert_eq!(
        split_tokens("GET /a.md HTTP/1.1\r\n"),
        vec!["GET".to_string(), "/a.md".to_string(), "HTTP/1.1".to_string()]
    );
    assert_eq!(split_tokens("  \t \r\n"), Vec::<String>::new());
}

#[test]
fn join_puts_names_under_directories() {
    assert_eq!(join_rel("", "a.md"), "a.md");
    assert_eq!(join_rel("sub", "b.md"), "sub/b.md");
    assert_eq!(join_rel("sub/deep", "c.md"), "sub/deep/c.md");
}
