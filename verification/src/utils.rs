//! Rendering of Markdown text.

use vstd::prelude::*;

verus! {

/// The HTML that pulldown-cmark writes for a Markdown text when strikethrough
/// is switched on and every other extension is off.
pub uninterp spec fn markdown_html(text: Seq<char>) -> Seq<char>;

/// Renders Markdown as HTML. Calls `pulldown_cmark::Parser::new_ext` with the
/// option `ENABLE_STRIKETHROUGH` and hands the parser to
/// `pulldown_cmark::html::push_html`. Trusted: the result is `markdown_html`
/// of the text, and nothing more is claimed of it.
#[verifier::external_body]
pub fn render_markdown(text: String) -> (html: String)
    ensures
        html@ == markdown_html(text@),
{
    let mut options = pulldown_cmark::Options::empty();
    options.insert(pulldown_cmark::Options::ENABLE_STRIKETHROUGH);
    let parser = pulldown_cmark::Parser::new_ext(&text, options);
    let mut html_output = String::new();
    pulldown_cmark::html::push_html(&mut html_output, parser);
    html_output
}

/// The slug that the crate `slug` makes of a text: lower-case ASCII letters
/// and digits, with single dashes where anything else stood.
pub uninterp spec fn slug_of(text: Seq<char>) -> Seq<char>;

/// Makes the slug of a text. Calls `slug::slugify`. Trusted: the result is
/// `slug_of` of the text, and nothing more is claimed of it.
#[verifier::external_body]
pub(crate) fn slugify(text: &str) -> (slug: String)
    ensures
        slug@ == slug_of(text@),
{
    slug::slugify(text)
}

} // verus!
