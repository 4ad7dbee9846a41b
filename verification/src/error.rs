//! What can go wrong.

use vstd::prelude::*;

verus! {

/// An error, with the message that explains it.
#[derive(Debug, PartialEq, Eq)]
pub enum DominoError {
    /// An error of no special kind.
    Other(String),
    /// A text that is not in the format it should be in.
    Parse(String),
    /// A file that the workspace does not hold.
    FileNotFound(String),
    /// A file that cannot be read as text.
    Unreadable(String),
}

/// The view of a [`DominoError`].
pub enum ErrorView {
    Other(Seq<char>),
    Parse(Seq<char>),
    FileNotFound(Seq<char>),
    Unreadable(Seq<char>),
}

impl DeepView for DominoError {
    type V = ErrorView;

    open spec fn deep_view(&self) -> ErrorView {
        match self {
            DominoError::Other(m) => ErrorView::Other(m@),
            DominoError::Parse(m) => ErrorView::Parse(m@),
            DominoError::FileNotFound(m) => ErrorView::FileNotFound(m@),
            DominoError::Unreadable(m) => ErrorView::Unreadable(m@),
        }
    }
}

impl DominoError {
    /// The message.
    pub fn message(&self) -> (r: &str)
        ensures
            r@ == match self {
                DominoError::Other(m) => m@,
                DominoError::Parse(m) => m@,
                DominoError::FileNotFound(m) => m@,
                DominoError::Unreadable(m) => m@,
            },
    {
        match self {
            DominoError::Other(m) => m.as_str(),
            DominoError::Parse(m) => m.as_str(),
            DominoError::FileNotFound(m) => m.as_str(),
            DominoError::Unreadable(m) => m.as_str(),
        }
    }
}

} // verus!
