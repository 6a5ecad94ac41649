//! Which texts can be identifiers and names of folders.

use crate::error::{Error, ErrorView};
use crate::text::{has_char, to_chars};
use vstd::prelude::*;

verus! {

/// Whether a text can stand as one segment of a path: it holds no `/`.
pub open spec fn is_valid(text: Seq<char>) -> bool {
    !text.contains('/')
}

/// The identifier `id` itself, if it holds no `/`.
pub fn validate_id(id: String) -> (r: Result<String, Error>)
    ensures
        match r {
            Ok(same) => is_valid(id@) && same@ == id@,
            Err(e) => !is_valid(id@) && e@ == ErrorView::InvalidIdError(id@),
        },
{
    let chars = to_chars(id.as_str());
    if has_char(chars.as_slice(), '/') {
        Err(Error::InvalidIdError(id))
    } else {
        Ok(id)
    }
}

/// Nothing, if the name `folder` holds no `/`.
pub fn validate_folder(folder: &str) -> (r: Result<(), Error>)
    ensures
        match r {
            Ok(_) => is_valid(folder@),
            Err(e) => !is_valid(folder@) && e@ == ErrorView::InvalidFolderError(folder@),
        },
{
    let chars = to_chars(folder);
    if has_char(chars.as_slice(), '/') {
        Err(Error::InvalidFolderError(folder.to_owned()))
    } else {
        Ok(())
    }
}

} // verus!
