//! The error taxonomy for opening RSIs.
use vstd::prelude::*;

verus! {

/// A spec-level picture of an [`RsiError`]. Messages that merely relay what
/// an outside library reported (JSON syntax errors, image decode errors) are
/// not part of it; the messages of `Metadata` errors are this library's own
/// and are retained exactly.
pub enum RsiErrorView {
    /// Filesystem-level failure while reading the manifest.
    Io,
    /// The manifest text is not well-formed JSON.
    Json,
    /// A schema violation, with the message naming the defect.
    Metadata(Seq<char>),
    /// The manifest's version lies outside the supported range.
    Version,
    /// The atlas image is missing or does not decode.
    Image,
}

/// Represents an error while parsing an RSI.
#[derive(Debug)]
pub enum RsiError {
    /// If an error occurred during the IO of a file.
    Io,
    /// If an error occurred during the parsing of the JSON metadata. Carries
    /// the parser's description of the syntax error.
    Json(String),
    /// If some part of the metadata is corrupt. Carries a human-readable
    /// message naming the offending field.
    Metadata(String),
    /// If the version of the RSI can't be handled by this version of the module.
    Version,
    /// If the image library throws an error loading one of the PNG files.
    /// Carries the decoder's description of the failure.
    ImageError(String),
}

impl View for RsiError {
    type V = RsiErrorView;

    open spec fn view(&self) -> RsiErrorView {
        match self {
            RsiError::Io => RsiErrorView::Io,
            RsiError::Json(_) => RsiErrorView::Json,
            RsiError::Metadata(m) => RsiErrorView::Metadata(m@),
            RsiError::Version => RsiErrorView::Version,
            RsiError::ImageError(_) => RsiErrorView::Image,
        }
    }
}

} // verus!
