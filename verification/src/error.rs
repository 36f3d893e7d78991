//! The failures that loading a catalog and parsing arguments can report.

use vstd::prelude::*;

verus! {

/// A failure of this library. Each one is a value that the caller can report;
/// none ends the process.
#[derive(Debug)]
pub enum Error {
    /// A prefix tag of the metadata is none of `-`, `--`, `-?`, `/`, `/?`.
    UnrecognizedArgumentPrefix(String),
    /// The metadata is not well-formed JSON; the text is the reader's message.
    Json(String),
    /// The metadata is JSON of the wrong shape; the text names the field.
    JsonParse(String),
    /// The named option needs a value and the arguments ended before it.
    ParseNoArgumentValue(String),
    /// The named option expected so many values and only so many were left.
    ParseMultipleValuesMissing(String, usize, usize),
    /// The first option is an alias for the second, which the catalog lacks.
    AliasMissing(String, String),
}

/// What an [`Error`] says, with text as sequences of characters. The wording
/// of the JSON reader's message is not part of it.
pub enum ErrorView {
    UnrecognizedArgumentPrefix(Seq<char>),
    Json,
    JsonParse(Seq<char>),
    ParseNoArgumentValue(Seq<char>),
    ParseMultipleValuesMissing(Seq<char>, usize, usize),
    AliasMissing(Seq<char>, Seq<char>),
}

impl View for Error {
    type V = ErrorView;

    open spec fn view(&self) -> ErrorView {
        match self {
            Error::UnrecognizedArgumentPrefix(tag) => ErrorView::UnrecognizedArgumentPrefix(tag@),
            Error::Json(_) => ErrorView::Json,
            Error::JsonParse(what) => ErrorView::JsonParse(what@),
            Error::ParseNoArgumentValue(option) => ErrorView::ParseNoArgumentValue(option@),
            Error::ParseMultipleValuesMissing(option, expected, got) => {
                ErrorView::ParseMultipleValuesMissing(option@, *expected, *got)
            },
            Error::AliasMissing(alias, target) => ErrorView::AliasMissing(alias@, target@),
        }
    }
}

} // verus!
