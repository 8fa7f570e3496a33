use mdparser::parse::{classify, render_line, HtmlToken, ParseError, TokenVariant};

fn html(t: HtmlToken) -> String {
    t.token
}

#[test]
fn classify_by_first_character() {
    assert_eq!(classify(""), TokenVariant::Break);
    assert_eq!(classify("# a"), TokenVariant::Header);
    assert_eq!(classify("*a*"), TokenVariant::Formatting);
    assert_eq!(classify("> a"), TokenVariant::BlockQuote);
    assert_eq!(classify("![a](b)"), TokenVariant::Image);
    assert_eq!(classify("- a"), TokenVariant::UnorderedList);
    assert_eq!(classify("7. a"), TokenVariant::OrderedList);
    assert_eq!(classify("hello"), TokenVariant::Paragraph);
    assert_eq!(classify(" # not a header"), TokenVariant::Paragraph);
}

#[test]
fn header_levels() {
    assert_eq!(html(HtmlToken::header("# Title")), "<h1>Title</h1>");
    assert_eq!(html(HtmlToken::header("## Title")), "<h2>Title</h2>");
    assert_eq!(html(HtmlToken::header("### Title")), "<h3>Title</h3>");
    assert_eq!(HtmlToken::header("# Title").variant, TokenVariant::Header);
}

#[test]
fn header_level_is_capped_at_three() {
    assert_eq!(html(HtmlToken::header("#### Deep")), "<h3># Deep</h3>");
    assert_eq!(html(HtmlToken::header("##NoSpace")), "<h2>NoSpace</h2>");
}

#[test]
fn emphasis() {
    assert_eq!(html(HtmlToken::formatting("*word*").unwrap()), "<i>word</i>");
    assert_eq!(html(HtmlToken::formatting("**word**").unwrap()), "<b>word</b>");
    assert_eq!(html(HtmlToken::formatting("***word***").unwrap()), "");
    assert_eq!(html(HtmlToken::formatting("*äö*").unwrap()), "<i>äö</i>");
}

#[test]
fn emphasis_too_short_is_an_error() {
    assert!(HtmlToken::formatting("**a").is_err());
    assert!(HtmlToken::formatting("*").is_err());
}

#[test]
fn block_quote() {
    assert_eq!(html(HtmlToken::block_quote("> quoted")), "<blockquote>quoted</blockquote>");
    assert_eq!(html(HtmlToken::block_quote(">tight")), "<blockquote>tight</blockquote>");
}

#[test]
fn image_resolves_against_found_files() {
    let images = vec!["./dir/img.png".to_string()];
    assert_eq!(
        html(HtmlToken::image(&images, "![alt](img.png)")),
        "<img src=\"./dir/img.png\" alt=\"alt\">"
    );
}

#[test]
fn image_first_match_wins() {
    let images = vec!["./a/img.png".to_string(), "./b/img.png".to_string()];
    assert_eq!(
        html(HtmlToken::image(&images, "![x](img.png)")),
        "<img src=\"./a/img.png\" alt=\"x\">"
    );
}

#[test]
fn image_without_match_keeps_source() {
    let images = vec!["./dir/other.png".to_string()];
    assert_eq!(
        html(HtmlToken::image(&images, "![x](img.png)")),
        "<img src=\"img.png\" alt=\"x\">"
    );
}

#[test]
fn image_with_missing_delimiters() {
    let images: Vec<String> = vec![];
    assert_eq!(html(HtmlToken::image(&images, "!plain")), "<img src=\"\" alt=\"\">");
}

#[test]
fn list_items() {
    assert_eq!(html(HtmlToken::unordered_list("- a")), "<li>a</li>");
    assert_eq!(html(HtmlToken::ordered_list("1. first").unwrap()), "<li>first</li>");
    assert_eq!(html(HtmlToken::ordered_list("10. tenth").unwrap()), "<li>tenth</li>");
}

#[test]
fn ordered_item_without_point_is_an_error() {
    assert!(HtmlToken::ordered_list("1 first").is_err());
}

#[test]
fn paragraph_is_kept_as_is() {
    assert_eq!(html(HtmlToken::paragraph("plain text")), "plain text");
}

#[test]
fn render_line_dispatches() {
    let images: Vec<String> = vec![];
    assert_eq!(html(render_line(&images, "").ok().unwrap()), "<br>");
    assert_eq!(html(render_line(&images, "# T").ok().unwrap()), "<h1>T</h1>");
    assert_eq!(html(render_line(&images, "2. b").ok().unwrap()), "<li>b</li>");
    assert!(render_line(&images, "2 b").is_err());
}

#[test]
fn parse_error_text() {
    let e = ParseError::new("bad".to_string());
    assert_eq!(e.to_string(), "An Error occured during parsing: bad");
}

#[test]
fn error_messages_name_the_line() {
    let e = HtmlToken::formatting("**a").err().unwrap();
    assert_eq!(e.message, "unbalanced emphasis markers in `**a`");
    let e = HtmlToken::ordered_list("1 first").err().unwrap();
    assert_eq!(e.message, "ordered list item without a `.` in `1 first`");
}
