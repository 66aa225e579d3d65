use vstd::prelude::*;

verus! {

/// Which required piece of the markup was absent.
#[derive(Debug, Clone, Copy, PartialEq, Eq, Structural)]
pub enum Missing {
    Body,
    BeginAttribute,
    TextContent,
}

/// Why a conversion did not produce output.
#[derive(Debug)]
pub enum ConvertError {
    /// The input is not well-formed XML.
    MalformedMarkup,
    /// A `begin` value matches no accepted timestamp layout; holds that value.
    MalformedTimestamp(String),
    /// A required element, attribute or text node is absent.
    StructureError(Missing),
    /// Word-level timing spans were found inside a paragraph.
    UnsupportedFeature,
    /// A metadata entry or a line cannot be written in the line-lyric format.
    ValidationError,
}

} // verus!
