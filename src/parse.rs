use vstd::prelude::*;

use crate::text::{
    after_marker, chars_of, find_from, find_last, first_from, last_index_of, leading_run,
    lemma_first_from_bounds, occurs, occurs_in, run_end, skip_char, skip_past, skip_space, step,
    step_past, string_of,
};

verus! {

broadcast use vstd::string::group_string_axioms;

/// A line that could not be turned into markup, with a description naming the line.
#[derive(Debug)]
pub struct ParseError {
    pub message: String,
}

impl ParseError {
    pub fn new(message: String) -> (r: Self)
        ensures
            r.message@ == message@,
    {
        Self { message }
    }

    /// The full text reported for this error.
    pub fn to_string(&self) -> (r: String)
        ensures
            r@ == "An Error occured during parsing: "@ + self.message@,
    {
        let mut r = String::from_str("An Error occured during parsing: ");
        r.append(self.message.as_str());
        r
    }
}

/// The construct a line of markup stands for, or a list wrapper added around list items.
#[derive(PartialEq, Eq, Structural, Debug, Clone, Copy)]
pub enum TokenVariant {
    Paragraph,
    Header,
    Break,
    Formatting,
    BlockQuote,
    Image,
    UnorderedList,
    UnorderedListDecorator,
    OrderedList,
    OrderedListDecorator,
}

/// One rendered piece of HTML and the construct it came from.
#[derive(Debug)]
pub struct HtmlToken {
    pub token: String,
    pub variant: TokenVariant,
}

impl View for HtmlToken {
    type V = (Seq<char>, TokenVariant);

    open spec fn view(&self) -> (Seq<char>, TokenVariant) {
        (self.token@, self.variant)
    }
}

/// The construct a single source line stands for.
pub open spec fn classify_spec(s: Seq<char>) -> TokenVariant {
    if s.len() == 0 {
        TokenVariant::Break
    } else if s[0] == '#' {
        TokenVariant::Header
    } else if s[0] == '*' {
        TokenVariant::Formatting
    } else if s[0] == '>' {
        TokenVariant::BlockQuote
    } else if s[0] == '!' {
        TokenVariant::Image
    } else if s[0] == '-' {
        TokenVariant::UnorderedList
    } else if '0' <= s[0] <= '9' {
        TokenVariant::OrderedList
    } else {
        TokenVariant::Paragraph
    }
}

/// The variants that stand for a construct of the source, not for a list wrapper.
pub open spec fn is_construct(k: TokenVariant) -> bool {
    k != TokenVariant::UnorderedListDecorator && k != TokenVariant::OrderedListDecorator
}

/// Header level: the leading `#` characters, counted up to three.
pub open spec fn header_level(s: Seq<char>) -> nat {
    if leading_run(s, '#') < 3 {
        leading_run(s, '#')
    } else {
        3
    }
}

pub open spec fn header_open(level: nat) -> Seq<char> {
    if level == 1 {
        "<h1>"@
    } else if level == 2 {
        "<h2>"@
    } else if level == 3 {
        "<h3>"@
    } else {
        "<h0>"@
    }
}

pub open spec fn header_close(level: nat) -> Seq<char> {
    if level == 1 {
        "</h1>"@
    } else if level == 2 {
        "</h2>"@
    } else if level == 3 {
        "</h3>"@
    } else {
        "</h0>"@
    }
}

/// A header line: the counted `#` characters and one space after them give way to the tag.
pub open spec fn header_html(s: Seq<char>) -> Seq<char> {
    let level = header_level(s);
    header_open(level) + s.subrange(skip_space(s, level as int), s.len() as int) + header_close(
        level,
    )
}

/// Emphasis: `n` leading stars and `n` trailing characters are stripped; one star makes
/// italics, two make bold, any other count renders nothing. `None` where the line is
/// shorter than `2n`.
pub open spec fn formatting_html(s: Seq<char>) -> Option<Seq<char>> {
    let n = leading_run(s, '*') as int;
    if s.len() < 2 * n {
        None
    } else {
        let content = s.subrange(n, s.len() - n);
        if n == 1 {
            Some("<i>"@ + content + "</i>"@)
        } else if n == 2 {
            Some("<b>"@ + content + "</b>"@)
        } else {
            Some(Seq::empty())
        }
    }
}

pub open spec fn block_quote_html(s: Seq<char>) -> Seq<char> {
    "<blockquote>"@ + after_marker(s, '>') + "</blockquote>"@
}

pub open spec fn list_item_html(content: Seq<char>) -> Seq<char> {
    "<li>"@ + content + "</li>"@
}

pub open spec fn unordered_item_html(s: Seq<char>) -> Seq<char> {
    list_item_html(after_marker(s, '-'))
}

/// An ordered item: what follows the last `.` and one optional space. `None` without a `.`.
pub open spec fn ordered_item_html(s: Seq<char>) -> Option<Seq<char>> {
    let p = last_index_of(s, '.');
    if p < 0 {
        None
    } else {
        Some(list_item_html(s.subrange(skip_space(s, p + 1), s.len() as int)))
    }
}

/// Position of the first `[`.
pub open spec fn alt_open(s: Seq<char>) -> int {
    first_from(s, '[', 0)
}

/// Position of the first `]` after the first `[`.
pub open spec fn alt_close(s: Seq<char>) -> int {
    first_from(s, ']', step(s, alt_open(s)))
}

/// Position of the first `(` after that `]`.
pub open spec fn src_open(s: Seq<char>) -> int {
    first_from(s, '(', step(s, alt_close(s)))
}

/// Position of the first `)` after that `(`.
pub open spec fn src_close(s: Seq<char>) -> int {
    first_from(s, ')', step(s, src_open(s)))
}

/// The text between the brackets of `![alt](src)`; empty pieces where delimiters are missing.
pub open spec fn image_alt(s: Seq<char>) -> Seq<char> {
    s.subrange(step(s, alt_open(s)), alt_close(s))
}

/// The text between the parentheses of `![alt](src)`.
pub open spec fn image_src(s: Seq<char>) -> Seq<char> {
    s.subrange(step(s, src_open(s)), src_close(s))
}

/// The first image path from position `i` on that holds `src`, or `src` itself.
pub open spec fn resolve_from(images: Seq<Seq<char>>, src: Seq<char>, i: int) -> Seq<char>
    decreases images.len() - i,
{
    if 0 <= i < images.len() {
        if occurs_in(src, images[i]) {
            images[i]
        } else {
            resolve_from(images, src, i + 1)
        }
    } else {
        src
    }
}

pub open spec fn resolve(images: Seq<Seq<char>>, src: Seq<char>) -> Seq<char> {
    resolve_from(images, src, 0)
}

pub open spec fn image_html(images: Seq<Seq<char>>, s: Seq<char>) -> Seq<char> {
    "<img src=\""@ + resolve(images, image_src(s)) + "\" alt=\""@ + image_alt(s) + "\">"@
}

/// The paths of a list of image files, as character sequences.
pub open spec fn paths(images: Seq<String>) -> Seq<Seq<char>> {
    images.map_values(|p: String| p@)
}

/// What one source line renders to, or `None` where it is malformed.
pub open spec fn render_spec(images: Seq<Seq<char>>, s: Seq<char>) -> Option<
    (Seq<char>, TokenVariant),
> {
    let k = classify_spec(s);
    match k {
        TokenVariant::Break => Some(("<br>"@, k)),
        TokenVariant::Header => Some((header_html(s), k)),
        TokenVariant::Formatting => match formatting_html(s) {
            Some(h) => Some((h, k)),
            None => None,
        },
        TokenVariant::BlockQuote => Some((block_quote_html(s), k)),
        TokenVariant::Image => Some((image_html(images, s), k)),
        TokenVariant::UnorderedList => Some((unordered_item_html(s), k)),
        TokenVariant::OrderedList => match ordered_item_html(s) {
            Some(h) => Some((h, k)),
            None => None,
        },
        _ => Some((s, TokenVariant::Paragraph)),
    }
}

/// The construct that `line` stands for, decided by its first character.
pub fn classify(line: &str) -> (r: TokenVariant)
    ensures
        r == classify_spec(line@),
        is_construct(r),
        r == TokenVariant::Break <==> line@.len() == 0,
{
    let n = line.unicode_len();
    if n == 0 {
        return TokenVariant::Break;
    }
    let c = line.get_char(0);
    if c == '#' {
        TokenVariant::Header
    } else if c == '*' {
        TokenVariant::Formatting
    } else if c == '>' {
        TokenVariant::BlockQuote
    } else if c == '!' {
        TokenVariant::Image
    } else if c == '-' {
        TokenVariant::UnorderedList
    } else if '0' <= c && c <= '9' {
        TokenVariant::OrderedList
    } else {
        TokenVariant::Paragraph
    }
}

/// `a` followed by the characters of `v` from `from` to `to`, followed by `b`.
fn wrap(a: &str, v: &Vec<char>, from: usize, to: usize, b: &str) -> (r: String)
    requires
        from <= to <= v.len(),
    ensures
        r@ == a@ + v@.subrange(from as int, to as int) + b@,
{
    let mut r = String::from_str(a);
    let content = string_of(v, from, to);
    r.append(content.as_str());
    r.append(b);
    r
}

/// The description of an error: what is wrong, then the offending line in backquotes.
pub open spec fn malformed_message(what: Seq<char>, line: Seq<char>) -> Seq<char> {
    what + " in `"@ + line + "`"@
}

/// An error naming what is wrong and the line that could not be read.
fn malformed(what: &str, token: &str) -> (r: ParseError)
    ensures
        r.message@ == malformed_message(what@, token@),
{
    let mut m = String::from_str(what);
    m.append(" in `");
    m.append(token);
    m.append("`");
    ParseError::new(m)
}

impl HtmlToken {
    /// A line of plain text, kept as it is.
    pub fn paragraph(token: &str) -> (r: Self)
        ensures
            r@ == (token@, TokenVariant::Paragraph),
    {
        Self { token: String::from_str(token), variant: TokenVariant::Paragraph }
    }

    /// A header line, `#`, `##` or `###` followed by the title.
    pub fn header(token: &str) -> (r: Self)
        ensures
            r@ == (header_html(token@), TokenVariant::Header),
    {
        let v = chars_of(token);
        let level = run_end(&v, '#', 0, 3);
        let start = skip_past(&v, ' ', level);
        let html = if level == 1 {
            wrap("<h1>", &v, start, v.len(), "</h1>")
        } else if level == 2 {
            wrap("<h2>", &v, start, v.len(), "</h2>")
        } else if level == 3 {
            wrap("<h3>", &v, start, v.len(), "</h3>")
        } else {
            wrap("<h0>", &v, start, v.len(), "</h0>")
        };
        Self { token: html, variant: TokenVariant::Header }
    }

    /// An emphasised line, `*text*` for italics or `**text**` for bold.
    pub fn formatting(token: &str) -> (r: Result<Self, ParseError>)
        ensures
            match formatting_html(token@) {
                Some(h) => r is Ok && r->Ok_0@ == (h, TokenVariant::Formatting),
                None => r is Err && r->Err_0.message@ == malformed_message(
                    "unbalanced emphasis markers"@,
                    token@,
                ),
            },
    {
        let v = chars_of(token);
        let n = run_end(&v, '*', 0, v.len());
        if v.len() - n < n {
            return Err(malformed("unbalanced emphasis markers", token));
        }
        let html = if n == 1 {
            wrap("<i>", &v, n, v.len() - n, "</i>")
        } else if n == 2 {
            wrap("<b>", &v, n, v.len() - n, "</b>")
        } else {
            String::new()
        };
        Ok(Self { token: html, variant: TokenVariant::Formatting })
    }

    /// A quoted line, `> text`.
    pub fn block_quote(token: &str) -> (r: Self)
        ensures
            r@ == (block_quote_html(token@), TokenVariant::BlockQuote),
    {
        let v = chars_of(token);
        let start = skip_past(&v, ' ', skip_past(&v, '>', 0));
        let html = wrap("<blockquote>", &v, start, v.len(), "</blockquote>");
        Self { token: html, variant: TokenVariant::BlockQuote }
    }

    /// An image line, `![alt](src)`; `src` becomes the first of `images` that holds it.
    pub fn image(images: &Vec<String>, token: &str) -> (r: Self)
        ensures
            r@ == (image_html(paths(images@), token@), TokenVariant::Image),
    {
        let v = chars_of(token);
        proof {
            lemma_first_from_bounds(v@, '[', 0);
        }
        let alt_open = find_from(&v, '[', 0);
        let alt_start = step_past(&v, alt_open);
        proof {
            lemma_first_from_bounds(v@, ']', alt_start as int);
        }
        let alt_close = find_from(&v, ']', alt_start);
        let src_open = find_from(&v, '(', step_past(&v, alt_close));
        proof {
            lemma_first_from_bounds(v@, '(', step(v@, alt_close as int));
        }
        let src_start = step_past(&v, src_open);
        proof {
            lemma_first_from_bounds(v@, ')', src_start as int);
        }
        let src_close = find_from(&v, ')', src_start);
        let alt = string_of(&v, alt_start, alt_close);
        let src_chars = chars_of(string_of(&v, src_start, src_close).as_str());
        let src = resolve_image(images, &src_chars);
        let mut html = String::from_str("<img src=\"");
        html.append(src.as_str());
        html.append("\" alt=\"");
        html.append(alt.as_str());
        html.append("\">");
        Self { token: html, variant: TokenVariant::Image }
    }

    /// An unordered list item, `- text`.
    pub fn unordered_list(token: &str) -> (r: Self)
        ensures
            r@ == (unordered_item_html(token@), TokenVariant::UnorderedList),
    {
        let v = chars_of(token);
        let start = skip_past(&v, ' ', skip_past(&v, '-', 0));
        let html = wrap("<li>", &v, start, v.len(), "</li>");
        Self { token: html, variant: TokenVariant::UnorderedList }
    }

    /// An ordered list item, `1. text`: the text follows the last `.` of the line.
    pub fn ordered_list(token: &str) -> (r: Result<Self, ParseError>)
        ensures
            match ordered_item_html(token@) {
                Some(h) => r is Ok && r->Ok_0@ == (h, TokenVariant::OrderedList),
                None => r is Err && r->Err_0.message@ == malformed_message(
                    "ordered list item without a `.`"@,
                    token@,
                ),
            },
    {
        let v = chars_of(token);
        match find_last(&v, '.') {
            None => Err(malformed("ordered list item without a `.`", token)),
            Some(p) => {
                let start = skip_past(&v, ' ', p + 1);
                let html = wrap("<li>", &v, start, v.len(), "</li>");
                Ok(Self { token: html, variant: TokenVariant::OrderedList })
            },
        }
    }
}

/// The first of `images` whose path holds `src`, or `src` itself where none does.
fn resolve_image(images: &Vec<String>, src: &Vec<char>) -> (r: String)
    ensures
        r@ == resolve(paths(images@), src@),
{
    let mut i: usize = 0;
    while i < images.len()
        invariant
            i <= images.len(),
            resolve(paths(images@), src@) == resolve_from(paths(images@), src@, i as int),
        decreases images.len() - i,
    {
        let candidate = chars_of(images[i].as_str());
        if occurs(src, &candidate) {
            return images[i].clone();
        }
        i = i + 1;
    }
    string_of(src, 0, src.len())
}

/// Renders one source line to its token, or reports why the line is malformed.
pub fn render_line(images: &Vec<String>, line: &str) -> (r: Result<HtmlToken, ParseError>)
    ensures
        match render_spec(paths(images@), line@) {
            Some(t) => r is Ok && r->Ok_0@ == t,
            None => r is Err,
        },
{
    match classify(line) {
        TokenVariant::Break => Ok(HtmlToken { token: String::from_str("<br>"), variant: TokenVariant::Break }),
        TokenVariant::Header => Ok(HtmlToken::header(line)),
        TokenVariant::Formatting => HtmlToken::formatting(line),
        TokenVariant::BlockQuote => Ok(HtmlToken::block_quote(line)),
        TokenVariant::Image => Ok(HtmlToken::image(images, line)),
        TokenVariant::UnorderedList => Ok(HtmlToken::unordered_list(line)),
        TokenVariant::OrderedList => HtmlToken::ordered_list(line),
        _ => Ok(HtmlToken::paragraph(line)),
    }
}

} // verus!
