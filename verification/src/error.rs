//! Decode failures.
//!
//! A record either decodes fully or the whole call fails with one of these
//! errors.  Unknown child elements and unknown attributes are not errors:
//! they are skipped for forward compatibility.

use vstd::prelude::*;

verus! {

/// Mathematical model of a decode failure, over character sequences.
pub enum XmlErrorV {
    /// The cursor stood on a start tag whose name is not the declared tag.
    TagMismatch { expected: Seq<char>, found: Seq<char> },
    /// A required attribute was absent from the start tag.
    MissingAttribute { name: Seq<char> },
    /// The matching end tag was absent, or the stream ended inside an element.
    UnbalancedTag,
    /// An entity reference other than the four recognized ones.
    UnrecognizedEntity,
}

/// A failure while decoding a record from a token stream.
#[derive(Debug, Clone, PartialEq)]
pub enum XmlError {
    /// The cursor stood on a start tag whose name is not the declared tag.
    TagMismatch { expected: String, found: String },
    /// A required attribute was absent from the start tag.
    MissingAttribute { name: String },
    /// The matching end tag was absent, or the stream ended inside an element.
    UnbalancedTag,
    /// An entity reference other than the four recognized ones.
    UnrecognizedEntity,
}

impl View for XmlError {
    type V = XmlErrorV;

    open spec fn view(&self) -> XmlErrorV {
        match self {
            XmlError::TagMismatch { expected, found } => XmlErrorV::TagMismatch {
                expected: expected@,
                found: found@,
            },
            XmlError::MissingAttribute { name } => XmlErrorV::MissingAttribute { name: name@ },
            XmlError::UnbalancedTag => XmlErrorV::UnbalancedTag,
            XmlError::UnrecognizedEntity => XmlErrorV::UnrecognizedEntity,
        }
    }
}

} // verus!
