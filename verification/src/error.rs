//! The errors of the reader.
use vstd::prelude::*;
use crate::text::{concat, decimal_text, push_decimal};

verus! {

/// What went wrong while opening or reading a book. Paths are held as
/// strings.
#[derive(Debug)]
pub enum GachoError {
    /// A file does not exist: the message and the path.
    FileNotFound(String, String),
    /// A file could not be read: the message and the path.
    FileError(String, String),
    /// An archive could not be read.
    ArchiveError(String),
    /// The version text of a release is not a version.
    InvalidVersion,
    /// A page index is out of range.
    IndexError(usize),
}

/// The views of the parts of an error.
pub ghost enum GachoErrorView {
    FileNotFound(Seq<char>, Seq<char>),
    FileError(Seq<char>, Seq<char>),
    ArchiveError(Seq<char>),
    InvalidVersion,
    IndexError(usize),
}

impl View for GachoError {
    type V = GachoErrorView;

    open spec fn view(&self) -> GachoErrorView {
        match self {
            GachoError::FileNotFound(m, p) => GachoErrorView::FileNotFound(m@, p@),
            GachoError::FileError(m, p) => GachoErrorView::FileError(m@, p@),
            GachoError::ArchiveError(m) => GachoErrorView::ArchiveError(m@),
            GachoError::InvalidVersion => GachoErrorView::InvalidVersion,
            GachoError::IndexError(i) => GachoErrorView::IndexError(*i),
        }
    }
}

/// The text shown for an error.
pub open spec fn error_message(e: GachoErrorView) -> Seq<char> {
    match e {
        GachoErrorView::FileNotFound(m, p) => "File does not exist: "@ + m + "\n\n"@ + p,
        GachoErrorView::FileError(m, p) => "File error: "@ + m + "\n\n"@ + p,
        GachoErrorView::ArchiveError(m) => "Archive error: "@ + m,
        GachoErrorView::InvalidVersion => "Invalid version"@,
        GachoErrorView::IndexError(i) => "Index error: "@ + decimal_text(i as nat),
    }
}

impl GachoError {
    /// The text shown for the error.
    pub fn message(&self) -> (res: String)
        ensures
            res@ == error_message(self@),
    {
        match self {
            GachoError::FileNotFound(m, p) => {
                let head = concat("File does not exist: ", m.as_str());
                let head = concat(head.as_str(), "\n\n");
                concat(head.as_str(), p.as_str())
            },
            GachoError::FileError(m, p) => {
                let head = concat("File error: ", m.as_str());
                let head = concat(head.as_str(), "\n\n");
                concat(head.as_str(), p.as_str())
            },
            GachoError::ArchiveError(m) => concat("Archive error: ", m.as_str()),
            GachoError::InvalidVersion => String::from_str("Invalid version"),
            GachoError::IndexError(i) => {
                let mut s = String::from_str("Index error: ");
                push_decimal(&mut s, *i);
                s
            },
        }
    }
}

} // verus!
