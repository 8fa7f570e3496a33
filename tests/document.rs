use mdparser::article::{generate_body, hydrate_tags, split_lines, Article};
use mdparser::parse::{HtmlToken, TokenVariant};

fn tokens(lines: &[&str]) -> Vec<HtmlToken> {
    let a = Article::new(lines.join("\n"), vec![]);
    a.to_html_tokens().ok().unwrap()
}

fn texts(tags: &[HtmlToken]) -> Vec<String> {
    tags.iter().map(|t| t.token.clone()).collect()
}

#[test]
fn hydrate_wraps_unordered_items() {
    let mut tags = tokens(&["- a", "- b"]);
    hydrate_tags(&mut tags);
    assert_eq!(texts(&tags), vec!["<ul>", "<li>a</li>", "<li>b</li>", "</ul>"]);
    assert_eq!(tags[0].variant, TokenVariant::UnorderedListDecorator);
}

#[test]
fn hydrate_spans_a_break() {
    let mut tags = tokens(&["- a", "", "- b"]);
    hydrate_tags(&mut tags);
    assert_eq!(texts(&tags), vec!["<ul>", "<li>a</li>", "<br>", "<li>b</li>", "</ul>"]);
}

#[test]
fn hydrate_without_items_changes_nothing() {
    let mut tags = tokens(&["# T", "", "text"]);
    hydrate_tags(&mut tags);
    let once = texts(&tags);
    assert_eq!(once, vec!["<h1>T</h1>", "<br>", "text"]);
    hydrate_tags(&mut tags);
    assert_eq!(texts(&tags), once);
}

#[test]
fn hydrate_both_list_kinds() {
    let mut tags = tokens(&["1. a", "- b"]);
    hydrate_tags(&mut tags);
    assert_eq!(
        texts(&tags),
        vec!["<ol type=\"1\">", "<li>a</li>", "</ol>", "<ul>", "<li>b</li>", "</ul>"]
    );
}

#[test]
fn hydrate_empty() {
    let mut tags: Vec<HtmlToken> = vec![];
    hydrate_tags(&mut tags);
    assert!(tags.is_empty());
}

#[test]
fn lines_are_split() {
    assert_eq!(split_lines("a\r\nb\n"), vec!["a", "b"]);
    assert_eq!(split_lines("a\n\nb"), vec!["a", "", "b"]);
    assert!(split_lines("").is_empty());
}

#[test]
fn body_of_a_document() {
    let a = Article::new("# T\n- a\n- b\n".to_string(), vec![]);
    assert_eq!(
        generate_body(a).ok().unwrap(),
        "<h1>T</h1>\n<ul>\n<li>a</li>\n<li>b</li>\n</ul>\n"
    );
}

#[test]
fn body_with_images_and_quotes() {
    let a = Article::new(
        "> q\n![pic](p.png)\n**bold**".to_string(),
        vec!["./doc/p.png".to_string()],
    );
    assert_eq!(
        generate_body(a).ok().unwrap(),
        "<blockquote>q</blockquote>\n<img src=\"./doc/p.png\" alt=\"pic\">\n<b>bold</b>\n"
    );
}

#[test]
fn body_fails_on_a_malformed_line() {
    let a = Article::new("# T\n3 items\n".to_string(), vec![]);
    assert!(generate_body(a).is_err());
}

#[test]
fn image_file_names() {
    assert!(mdparser::page::is_image_file("a.png"));
    assert!(mdparser::page::is_image_file(".png"));
    assert!(!mdparser::page::is_image_file("a.PNG"));
    assert!(!mdparser::page::is_image_file("png"));
    assert!(!mdparser::page::is_image_file("a.jpg"));
}

#[test]
fn page_around_body() {
    let p = mdparser::page::html_document("t", "<br>\n");
    assert!(p.starts_with("\n<!DOCTYPE html>\n<html lang=\"en\">\n<head>\n"));
    assert!(p.contains("    <title>t</title>\n</head>\n<body>\n<br>\n\n</body>\n</html>\n"));
}
