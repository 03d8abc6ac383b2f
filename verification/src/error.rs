//! What can go wrong inside the library.

use vstd::prelude::*;
use crate::path::ProjectPath;

verus! {

/// A failure of one of the library's operations.
#[derive(Debug)]
pub enum Error {
    /// The system could not read this directory.
    SystemError(ProjectPath),
    /// The path has no text to display: its bytes are not valid UTF-8.
    PathUnicodeError(ProjectPath),
    /// The workspace of this name holds this directory, which does not start
    /// at the root.
    RelativeDirectoryError(String, ProjectPath),
}

/// An [`Error`] with its paths as bytes and its names as characters.
pub enum ErrorView {
    SystemError(Seq<u8>),
    PathUnicodeError(Seq<u8>),
    RelativeDirectoryError(Seq<char>, Seq<u8>),
}

impl View for Error {
    type V = ErrorView;

    open spec fn view(&self) -> ErrorView {
        match *self {
            Error::SystemError(path) => ErrorView::SystemError(path@),
            Error::PathUnicodeError(path) => ErrorView::PathUnicodeError(path@),
            Error::RelativeDirectoryError(name, path) => ErrorView::RelativeDirectoryError(
                name@,
                path@,
            ),
        }
    }
}

} // verus!
