use vstd::prelude::*;
use crate::error::ConvertError;

verus! {

/// The pretty-printed form that xmlem gives of the XML text `s`, with indent width `indent`,
/// `end_pad` padding lines and soft line limit `max_line`; `None` where `s` does not parse.
pub uninterp spec fn canonical_xml(s: Seq<char>, indent: usize, end_pad: usize, max_line: usize) -> Option<Seq<char>>;

/// Indent width of the canonical form.
pub const INDENT: usize = 2;

/// Blank padding lines at the end of the canonical form.
pub const END_PAD: usize = 1;

/// Soft line-length limit of the canonical form.
pub const MAX_LINE: usize = 128;

/// Relies on xmlem's `Document::from_str`, which fails on text that is not well-formed XML,
/// and `Document::to_string_pretty_with_config`; text nodes are not re-indented. Both depend
/// on their arguments alone.
#[verifier::external_body]
fn format_markup(xml: &str, indent: usize, end_pad: usize, max_line: usize) -> (r: Option<String>)
    ensures
        r is Some <==> canonical_xml(xml@, indent, end_pad, max_line) is Some,
        r is Some ==> r->Some_0@ == canonical_xml(xml@, indent, end_pad, max_line)->Some_0,
{
    let config = xmlem::display::Config::default_pretty()
        .indent(indent)
        .end_pad(end_pad)
        .max_line_length(max_line)
        .indent_text_nodes(false);
    match <xmlem::Document as std::str::FromStr>::from_str(xml) {
        Ok(doc) => Some(doc.to_string_pretty_with_config(&config)),
        Err(_) => None,
    }
}

/// Re-serialises XML text in canonical pretty-printed form: indent width 2, one padding
/// line at the end, soft line limit 128, text nodes kept as they are.
pub fn nice_xml(xml: String) -> (r: Result<String, ConvertError>)
    ensures
        canonical_xml(xml@, INDENT, END_PAD, MAX_LINE) is Some ==> r is Ok && r->Ok_0@
            == canonical_xml(xml@, INDENT, END_PAD, MAX_LINE)->Some_0,
        canonical_xml(xml@, INDENT, END_PAD, MAX_LINE) is None ==> r is Err && r->Err_0 is MalformedMarkup,
{
    match format_markup(xml.as_str(), INDENT, END_PAD, MAX_LINE) {
        Some(text) => Ok(text),
        None => Err(ConvertError::MalformedMarkup),
    }
}

} // verus!
