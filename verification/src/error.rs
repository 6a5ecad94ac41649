//! What can go wrong.

use vstd::prelude::*;

verus! {

/// The kind of a failure that the file system reported.
#[derive(Clone, Copy, Debug, PartialEq, Eq, Structural)]
pub enum IoKind {
    /// The entry does not exist.
    NotFound,
    /// The entry exists already.
    AlreadyExists,
    /// The caller may not do this.
    PermissionDenied,
    /// Any other failure.
    Other,
}

/// A failure that the file system reported to the caller, as the caller hands it to the library.
#[derive(Clone, Debug, PartialEq, Eq)]
pub struct IoFailure {
    pub kind: IoKind,
    pub message: String,
}

/// The library's errors. A path is held as text.
#[derive(Clone, Debug, PartialEq, Eq)]
pub enum Error {
    /// The mailbox at this path cannot be read.
    ReadMaildirError(String),
    /// A message was written to this path and is not there.
    FindNewMaildirEntryError(String),
    /// The path of an entry has no file name.
    GetMaildirEntryFileNameError(String),
    /// The file name of the entry at the path (second) is not text, for the reason given (first).
    GetInvalidMaildirEntryFileNameError(String, String),
    /// No mailbox of this name exists.
    GetMaildirByNameNotFoundError(String),
    /// What lies at the path (first) under the name (second) is no mailbox.
    GetMaildirByNameInvalidError(String, String),
    /// The path of a mailbox has no file name.
    GetMaildirNameError(String),
    /// No mailbox of this name exists to be removed.
    RemoveMaildirByNameNotFoundError(String),
    /// The mailbox holds no message with this identifier.
    GetMaildirEntryNotFoundError(String),
    /// The mailbox holds no message with this identifier.
    FindEmailError(String),
    /// A message would be copied onto itself at this path.
    CopyEmailSamePathError(String),
    /// The path has no parent directory.
    NoParentError(String),
    /// The text cannot be an identifier.
    InvalidIdError(String),
    /// The text cannot be a folder's name.
    InvalidFolderError(String),
    /// The character is no flag's letter.
    InvalidFlagError(char),
    /// An entry exists already at this path.
    AlreadyExistsError(String),
    /// Text was expected and something else was found; the text is what could be read of it.
    Utf8Error(String),
    /// The file system reported a failure.
    IoError(IoFailure),
    /// The clock could not be read as a time after the epoch.
    SystemTimeError(String),
}

/// A reported failure, with its message as text.
pub struct IoFailureView {
    pub kind: IoKind,
    pub message: Seq<char>,
}

impl View for IoFailure {
    type V = IoFailureView;

    open spec fn view(&self) -> IoFailureView {
        IoFailureView { kind: self.kind, message: self.message@ }
    }
}

/// An error, with what it holds as text.
pub enum ErrorView {
    ReadMaildirError(Seq<char>),
    FindNewMaildirEntryError(Seq<char>),
    GetMaildirEntryFileNameError(Seq<char>),
    GetInvalidMaildirEntryFileNameError(Seq<char>, Seq<char>),
    GetMaildirByNameNotFoundError(Seq<char>),
    GetMaildirByNameInvalidError(Seq<char>, Seq<char>),
    GetMaildirNameError(Seq<char>),
    RemoveMaildirByNameNotFoundError(Seq<char>),
    GetMaildirEntryNotFoundError(Seq<char>),
    FindEmailError(Seq<char>),
    CopyEmailSamePathError(Seq<char>),
    NoParentError(Seq<char>),
    InvalidIdError(Seq<char>),
    InvalidFolderError(Seq<char>),
    InvalidFlagError(char),
    AlreadyExistsError(Seq<char>),
    Utf8Error(Seq<char>),
    IoError(IoFailureView),
    SystemTimeError(Seq<char>),
}

impl View for Error {
    type V = ErrorView;

    open spec fn view(&self) -> ErrorView {
        match self {
            Error::ReadMaildirError(p) => ErrorView::ReadMaildirError(p@),
            Error::FindNewMaildirEntryError(p) => ErrorView::FindNewMaildirEntryError(p@),
            Error::GetMaildirEntryFileNameError(p) => ErrorView::GetMaildirEntryFileNameError(p@),
            Error::GetInvalidMaildirEntryFileNameError(why, p) => {
                ErrorView::GetInvalidMaildirEntryFileNameError(why@, p@)
            },
            Error::GetMaildirByNameNotFoundError(n) => ErrorView::GetMaildirByNameNotFoundError(n@),
            Error::GetMaildirByNameInvalidError(p, n) => ErrorView::GetMaildirByNameInvalidError(
                p@,
                n@,
            ),
            Error::GetMaildirNameError(p) => ErrorView::GetMaildirNameError(p@),
            Error::RemoveMaildirByNameNotFoundError(n) => {
                ErrorView::RemoveMaildirByNameNotFoundError(n@)
            },
            Error::GetMaildirEntryNotFoundError(id) => ErrorView::GetMaildirEntryNotFoundError(id@),
            Error::FindEmailError(id) => ErrorView::FindEmailError(id@),
            Error::CopyEmailSamePathError(p) => ErrorView::CopyEmailSamePathError(p@),
            Error::NoParentError(p) => ErrorView::NoParentError(p@),
            Error::InvalidIdError(id) => ErrorView::InvalidIdError(id@),
            Error::InvalidFolderError(n) => ErrorView::InvalidFolderError(n@),
            Error::InvalidFlagError(c) => ErrorView::InvalidFlagError(*c),
            Error::AlreadyExistsError(p) => ErrorView::AlreadyExistsError(p@),
            Error::Utf8Error(raw) => ErrorView::Utf8Error(raw@),
            Error::IoError(f) => ErrorView::IoError(f@),
            Error::SystemTimeError(why) => ErrorView::SystemTimeError(why@),
        }
    }
}

impl IoFailure {
    /// A copy of the failure.
    pub fn duplicate(&self) -> (r: IoFailure)
        ensures
            r@ == self@,
    {
        IoFailure { kind: self.kind, message: self.message.clone() }
    }
}

impl Error {
    /// A copy of the error.
    pub fn duplicate(&self) -> (r: Error)
        ensures
            r@ == self@,
    {
        match self {
            Error::ReadMaildirError(p) => Error::ReadMaildirError(p.clone()),
            Error::FindNewMaildirEntryError(p) => Error::FindNewMaildirEntryError(p.clone()),
            Error::GetMaildirEntryFileNameError(p) => Error::GetMaildirEntryFileNameError(
                p.clone(),
            ),
            Error::GetInvalidMaildirEntryFileNameError(why, p) => {
                Error::GetInvalidMaildirEntryFileNameError(why.clone(), p.clone())
            },
            Error::GetMaildirByNameNotFoundError(n) => Error::GetMaildirByNameNotFoundError(
                n.clone(),
            ),
            Error::GetMaildirByNameInvalidError(p, n) => Error::GetMaildirByNameInvalidError(
                p.clone(),
                n.clone(),
            ),
            Error::GetMaildirNameError(p) => Error::GetMaildirNameError(p.clone()),
            Error::RemoveMaildirByNameNotFoundError(n) => Error::RemoveMaildirByNameNotFoundError(
                n.clone(),
            ),
            Error::GetMaildirEntryNotFoundError(id) => Error::GetMaildirEntryNotFoundError(
                id.clone(),
            ),
            Error::FindEmailError(id) => Error::FindEmailError(id.clone()),
            Error::CopyEmailSamePathError(p) => Error::CopyEmailSamePathError(p.clone()),
            Error::NoParentError(p) => Error::NoParentError(p.clone()),
            Error::InvalidIdError(id) => Error::InvalidIdError(id.clone()),
            Error::InvalidFolderError(n) => Error::InvalidFolderError(n.clone()),
            Error::InvalidFlagError(c) => Error::InvalidFlagError(*c),
            Error::AlreadyExistsError(p) => Error::AlreadyExistsError(p.clone()),
            Error::Utf8Error(raw) => Error::Utf8Error(raw.clone()),
            Error::IoError(f) => Error::IoError(f.duplicate()),
            Error::SystemTimeError(why) => Error::SystemTimeError(why.clone()),
        }
    }
}

} // verus!
