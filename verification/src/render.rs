//! Rendering: Markdown source to HTML through an outside renderer, and the
//! fixed page markup that wraps a rendered document or a generated listing.

use vstd::prelude::*;
use vstd::string::*;

verus! {

/// The HTML that the Markdown renderer produces for a given source text.
pub uninterp spec fn html_of(source: Seq<char>) -> Seq<char>;

/// Relies on `markdown::to_html`: a pure Markdown-to-HTML conversion whose
/// result depends on the source text alone; with the default options it
/// always returns.
#[verifier::external_body]
pub(crate) fn render_markdown(source: &str) -> (r: String)
    ensures
        r@ == html_of(source@),
{
    markdown::to_html(source)
}

/// The markup around a single rendered document.
pub open spec fn document_page(content: Seq<char>) -> Seq<char> {
    "<!DOCTYPE html>\n<html>\n<body>\n"@ + content + "\n</body>\n</html>\n"@
}

/// The markup around the links of a listing page.
pub open spec fn listing_page(content: Seq<char>) -> Seq<char> {
    "<!DOCTYPE html>\n<html>\n<body>\n<h1>Files</h1>\n"@ + content + "\n</body>\n</html>\n"@
}

/// One listing link: href and link text are both the path's display string.
pub open spec fn link_of(path: Seq<char>) -> Seq<char> {
    "<a href='"@ + path + "'>"@ + path + "</a><br>"@
}

/// The page around one rendered document.
pub struct MarkdownTemplate {
    pub content: String,
}

impl MarkdownTemplate {
    /// Wrap the rendered document in the document-page markup.
    pub fn render(&self) -> (r: String)
        ensures
            r@ == document_page(self.content@),
    {
        let mut r = String::from_str("<!DOCTYPE html>\n<html>\n<body>\n");
        r.append(self.content.as_str());
        r.append("\n</body>\n</html>\n");
        r
    }
}

/// The page around the links of a directory listing.
pub struct FilesTemplate {
    pub content: String,
}

impl FilesTemplate {
    /// Wrap the generated links in the listing-page markup.
    pub fn render(&self) -> (r: String)
        ensures
            r@ == listing_page(self.content@),
    {
        let mut r = String::from_str("<!DOCTYPE html>\n<html>\n<body>\n<h1>Files</h1>\n");
        r.append(self.content.as_str());
        r.append("\n</body>\n</html>\n");
        r
    }
}

/// Append one listing link for `path` to `out`.
pub fn push_link(out: &mut String, path: &str)
    ensures
        final(out)@ == old(out)@ + link_of(path@),
{
    out.append("<a href='");
    out.append(path);
    out.append("'>");
    out.append(path);
    out.append("</a><br>");
    proof {
        assert(out@ =~= old(out)@ + link_of(path@));
    }
}

} // verus!
