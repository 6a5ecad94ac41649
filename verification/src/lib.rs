//! A Maildir storage engine without I/O of its own.
//!
//! A mailbox in the Maildir format is a directory with `cur`, `new` and `tmp`
//! below it. A message is one file; its flags stand in its name. This library
//! holds the rules of the format, each with a proved contract, and leaves the
//! file system to its caller: the caller lists directories and hands the
//! entries over, the library answers with requests, and the caller performs
//! them.
//!
//! - [`name`] encodes and decodes file names, [`flag`] holds the flags.
//! - [`ident`] makes the identifiers of messages.
//! - [`maildir`] is one mailbox, [`entry`] and [`mail_entry`] are handles on
//!   its messages, [`maildirs`] is a collection of mailboxes.
//! - [`delivery`] writes a message, step by step.
//! - [`headers`] cuts the header block out of a message.
//! - [`listing`] holds what goes between caller and library; [`path`] and
//!   [`text`] work on paths and strings.

pub mod delivery;
pub mod entry;
pub mod error;
pub mod flag;
pub mod headers;
pub mod ident;
pub mod listing;
pub mod mail_entry;
pub mod maildir;
pub mod maildirs;
pub mod name;
pub mod path;
pub mod text;
pub mod validate;

pub use delivery::{Delivery, Stage, WriteAction, WriteEvent};
pub use entry::MaildirEntry;
pub use error::{Error, IoFailure, IoKind};
pub use flag::{Flag, FlagSet};
pub use ident::{IdGenerator, Timestamp};
pub use listing::{DirItem, FsOp, Kind};
pub use mail_entry::{Change, MailEntry};
pub use maildir::{Maildir, MaildirBuilder};
pub use maildirs::{Maildirs, MaildirsEntry};
