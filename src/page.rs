use vstd::prelude::*;

use crate::text::chars_of;

verus! {

broadcast use vstd::string::group_string_axioms;

/// The suffix that marks an image file.
pub open spec fn image_suffix() -> Seq<char> {
    seq!['.', 'p', 'n', 'g']
}

/// A file name ends in `.png`, case counting.
pub open spec fn is_image_name(name: Seq<char>) -> bool {
    name.len() >= 4 && name.subrange(name.len() - 4, name.len() as int) == image_suffix()
}

/// Whether the file called `name` is an image to resolve references against.
pub fn is_image_file(name: &str) -> (r: bool)
    ensures
        r == is_image_name(name@),
{
    let v = chars_of(name);
    let n = v.len();
    if n < 4 {
        return false;
    }
    let r = v[n - 4] == '.' && v[n - 3] == 'p' && v[n - 2] == 'n' && v[n - 1] == 'g';
    assert(r == (v@.subrange(n - 4, n as int) =~= image_suffix()));
    r
}

pub open spec fn page_head() -> Seq<char> {
    "\n<!DOCTYPE html>\n<html lang=\"en\">\n<head>\n    <meta charset=\"UTF-8\">\n    <meta name=\"viewport\" content=\"width=device-width, initial-scale=1.0\">\n    <link rel=\"stylesheet\" href=\"styles.css\">\n    <title>"@
}

pub open spec fn page_middle() -> Seq<char> {
    "</title>\n</head>\n<body>\n"@
}

pub open spec fn page_tail() -> Seq<char> {
    "\n</body>\n</html>\n"@
}

/// A complete HTML page with the given title around the given body.
pub fn html_document(title: &str, body: &str) -> (r: String)
    ensures
        r@ == page_head() + title@ + page_middle() + body@ + page_tail(),
{
    let mut r = String::from_str(
        "\n<!DOCTYPE html>\n<html lang=\"en\">\n<head>\n    <meta charset=\"UTF-8\">\n    <meta name=\"viewport\" content=\"width=device-width, initial-scale=1.0\">\n    <link rel=\"stylesheet\" href=\"styles.css\">\n    <title>",
    );
    r.append(title);
    r.append("</title>\n</head>\n<body>\n");
    r.append(body);
    r.append("\n</body>\n</html>\n");
    r
}

} // verus!
