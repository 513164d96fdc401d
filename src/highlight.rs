//! The syntax highlighter that code blocks are fed through.
use vstd::prelude::*;
use syntect::html::ClassedHTMLGenerator;
use syntect::parsing::SyntaxSet;

verus! {

/// What syntect makes of `lines` in the language registered for the file
/// extension `lang` among its bundled syntaxes: `None` where no syntax is
/// registered for it.
pub uninterp spec fn highlighted(lang: Seq<char>, lines: Seq<Seq<char>>) -> Option<Seq<char>>;

/// Relies on syntect: `SyntaxSet::load_defaults_nonewlines` for the bundled
/// syntaxes, `find_syntax_by_extension` to pick one by `lang`, and
/// `ClassedHTMLGenerator` to turn the lines into classed HTML spans.
#[verifier::external_body]
#[allow(deprecated)]
pub(crate) fn highlight(lang: &str, lines: &Vec<String>) -> (r: Option<String>)
    ensures
        match r {
            Some(h) => highlighted(lang@, lines@.map_values(|l: String| l@)) == Some(h@),
            None => highlighted(lang@, lines@.map_values(|l: String| l@)).is_none(),
        },
{
    let ss = SyntaxSet::load_defaults_nonewlines();
    let sr = ss.find_syntax_by_extension(lang)?;
    let mut generator = ClassedHTMLGenerator::new(sr, &ss);
    for line in lines {
        generator.parse_html_for_line(line);
    }
    Some(generator.finalize())
}

} // verus!
