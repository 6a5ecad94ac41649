//! The delivery of one message, step by step.
//!
//! A message is written into `tmp` under a fresh name, synced, and renamed into
//! `new` or `cur` in one step, so that whoever reads the mailbox sees the whole
//! message or none. The library decides each step; the caller performs it and
//! reports what happened. From the moment the file in `tmp` exists, every
//! failure is followed by the removal of that file before it is reported.
//!
//! A name that is taken in `tmp` is tried again under another name after a
//! wait, as often as it takes. A caller that wants to give up does so between
//! two steps, by not taking the next one.

use crate::entry::{EntryView, MaildirEntry};
use crate::error::{Error, ErrorView, IoFailure, IoFailureView, IoKind};
use crate::flag::{Flag, FlagSet};
use crate::ident::{IdGenerator, IdGeneratorView, Timestamp};
use crate::listing::{DirItem, FsOp, is_listed, listed, requests};
use crate::maildir::{Maildir, missing};
use crate::name::{encode, encoded};
use crate::path::{canonical, is_canonical, join, joined, normalize};
use vstd::prelude::*;

verus! {

/// The seconds to wait before another name is tried in `tmp`.
pub const BACKOFF: u64 = 2;

/// Where a delivery stands: what the caller was last asked to do.
#[derive(Clone, Copy, Debug, PartialEq, Eq, Structural)]
pub enum Stage {
    /// To create the file in `tmp`.
    Creating,
    /// To wait, because the name was taken.
    Waiting,
    /// To write the message and sync it.
    Writing,
    /// To tell the device and the inode of the written file.
    Stating,
    /// To rename the file to where it is delivered.
    Renaming,
    /// To list the directory that the message was delivered into.
    Locating,
    /// To remove the file in `tmp` after a failure.
    Cleaning,
    /// Nothing: the delivery is over.
    Finished,
}

/// What the caller is asked to do next.
#[derive(Debug, PartialEq, Eq)]
pub enum WriteAction {
    /// Create the file and open it for writing; fail if it exists.
    CreateExclusive(String),
    /// Wait for so many seconds.
    Wait(u64),
    /// Write the whole message to the file and sync it to the disk.
    WriteAndSync(String),
    /// Tell the device number and the inode of the file.
    Stat(String),
    /// Rename the file at `from` to `to` in one step.
    Rename { from: String, to: String },
    /// List the entries of the directory.
    List(String),
    /// Remove the file; whether that works does not matter.
    Remove(String),
    /// Nothing more: the message is delivered, and this is the handle on it.
    Done(MaildirEntry),
    /// Nothing more: the delivery has failed.
    Fail(Error),
}

/// What the caller is asked to do next, with its paths as text.
pub enum Step {
    CreateExclusive(Seq<char>),
    Wait(u64),
    WriteAndSync(Seq<char>),
    Stat(Seq<char>),
    Rename { from: Seq<char>, to: Seq<char> },
    List(Seq<char>),
    Remove(Seq<char>),
    Done(EntryView),
    Fail(ErrorView),
}

impl View for WriteAction {
    type V = Step;

    open spec fn view(&self) -> Step {
        match self {
            WriteAction::CreateExclusive(p) => Step::CreateExclusive(p@),
            WriteAction::Wait(secs) => Step::Wait(*secs),
            WriteAction::WriteAndSync(p) => Step::WriteAndSync(p@),
            WriteAction::Stat(p) => Step::Stat(p@),
            WriteAction::Rename { from, to } => Step::Rename { from: from@, to: to@ },
            WriteAction::List(p) => Step::List(p@),
            WriteAction::Remove(p) => Step::Remove(p@),
            WriteAction::Done(entry) => Step::Done(entry@),
            WriteAction::Fail(e) => Step::Fail(e@),
        }
    }
}

/// What happened when the caller did what it was asked to do.
#[derive(Debug, PartialEq, Eq)]
pub enum WriteEvent {
    /// It is done.
    Done,
    /// The file has this device number and this inode.
    Stat { dev: u64, ino: u64 },
    /// The directory holds these entries.
    Listed(Vec<DirItem>),
    /// It failed.
    Failed(IoFailure),
}

/// What happened, with its texts as text.
pub enum Outcome {
    Done,
    Stat { dev: u64, ino: u64 },
    Listed(Seq<DirItem>),
    Failed(IoFailureView),
}

impl View for WriteEvent {
    type V = Outcome;

    open spec fn view(&self) -> Outcome {
        match self {
            WriteEvent::Done => Outcome::Done,
            WriteEvent::Stat { dev, ino } => Outcome::Stat { dev: *dev, ino: *ino },
            WriteEvent::Listed(items) => Outcome::Listed(items@),
            WriteEvent::Failed(f) => Outcome::Failed(f@),
        }
    }
}

/// A delivery under way.
#[derive(Debug, PartialEq, Eq)]
pub struct Delivery {
    stage: Stage,
    tmp_dir: String,
    target_dir: String,
    flags: Option<FlagSet>,
    info_separator: &'static str,
    tmp_path: String,
    dest: String,
    failure: Option<Error>,
}

/// What a delivery is.
pub struct DeliveryView {
    /// What the caller was last asked to do.
    pub stage: Stage,
    /// The directory in which the message is written.
    pub tmp_dir: Seq<char>,
    /// The directory into which the message is delivered.
    pub target_dir: Seq<char>,
    /// The flags that the delivered message carries; none for a delivery into `new`.
    pub flags: Option<FlagSet>,
    /// The separator between identifier and flags.
    pub separator: Seq<char>,
    /// The path of the file in `tmp`.
    pub tmp_path: Seq<char>,
    /// The path under which the message is delivered, once it is known.
    pub dest: Seq<char>,
    /// The failure that is reported once the file in `tmp` has been removed.
    pub failure: Option<ErrorView>,
}

impl View for Delivery {
    type V = DeliveryView;

    closed spec fn view(&self) -> DeliveryView {
        DeliveryView {
            stage: self.stage,
            tmp_dir: self.tmp_dir@,
            target_dir: self.target_dir@,
            flags: self.flags,
            separator: self.info_separator@,
            tmp_path: self.tmp_path@,
            dest: self.dest@,
            failure: match self.failure {
                Some(e) => Some(e@),
                None => None,
            },
        }
    }
}

/// The failure that answers an event that does not fit what the caller was asked to do.
pub open spec fn out_of_turn() -> ErrorView {
    ErrorView::IoError(IoFailureView { kind: IoKind::Other, message: "event out of turn"@ })
}

impl DeliveryView {
    /// The delivery as it starts: the caller is asked to create `tmp_path`.
    pub open spec fn starting(
        tmp_dir: Seq<char>,
        target_dir: Seq<char>,
        flags: Option<FlagSet>,
        separator: Seq<char>,
        tmp_path: Seq<char>,
    ) -> DeliveryView {
        DeliveryView {
            stage: Stage::Creating,
            tmp_dir,
            target_dir,
            flags,
            separator,
            tmp_path,
            dest: Seq::empty(),
            failure: None,
        }
    }

    /// Whether the file in `tmp` exists, so that a failure has to remove it.
    pub open spec fn armed(self) -> bool {
        self.stage == Stage::Writing || self.stage == Stage::Stating || self.stage
            == Stage::Renaming || self.stage == Stage::Locating
    }

    /// The file name under which the message `id` is delivered: the identifier alone in `new`,
    /// the identifier with the flags in `cur`.
    pub open spec fn file_name(self, id: Seq<char>) -> Seq<char> {
        match self.flags {
            Some(flags) => encoded(id, flags, self.separator),
            None => id,
        }
    }

    /// The failure `e`, where no file in `tmp` has to be removed: the delivery is over.
    pub open spec fn end(self, e: ErrorView, ids: IdGeneratorView) -> (
        DeliveryView,
        Step,
        IdGeneratorView,
    ) {
        (DeliveryView { stage: Stage::Finished, failure: None, ..self }, Step::Fail(e), ids)
    }

    /// The failure `e`, where the file in `tmp` has to be removed first.
    pub open spec fn clean(self, e: ErrorView, ids: IdGeneratorView) -> (
        DeliveryView,
        Step,
        IdGeneratorView,
    ) {
        (
            DeliveryView { stage: Stage::Cleaning, failure: Some(e), ..self },
            Step::Remove(self.tmp_path),
            ids,
        )
    }

    /// The next stage `stage` with the request `step`.
    pub open spec fn go(self, stage: Stage, step: Step, ids: IdGeneratorView) -> (
        DeliveryView,
        Step,
        IdGeneratorView,
    ) {
        (DeliveryView { stage, ..self }, step, ids)
    }

    /// What follows when `event` is reported at the time `now`: the delivery after it, the
    /// next request, and the generator after it.
    pub open spec fn next(self, event: Outcome, ids: IdGeneratorView, now: Timestamp) -> (
        DeliveryView,
        Step,
        IdGeneratorView,
    ) {
        match self.stage {
            Stage::Creating => match event {
                Outcome::Done => self.go(Stage::Writing, Step::WriteAndSync(self.tmp_path), ids),
                Outcome::Failed(f) => if f.kind == IoKind::AlreadyExists {
                    self.go(Stage::Waiting, Step::Wait(BACKOFF), ids)
                } else {
                    self.end(ErrorView::IoError(f), ids)
                },
                _ => self.end(out_of_turn(), ids),
            },
            Stage::Waiting => match event {
                Outcome::Done => {
                    let tmp_path = joined(self.tmp_dir, ids.tmp_id(now));
                    (
                        DeliveryView { stage: Stage::Creating, tmp_path, ..self },
                        Step::CreateExclusive(tmp_path),
                        ids.advanced(),
                    )
                },
                Outcome::Failed(f) => self.end(ErrorView::IoError(f), ids),
                _ => self.end(out_of_turn(), ids),
            },
            Stage::Writing => match event {
                Outcome::Done => self.go(Stage::Stating, Step::Stat(self.tmp_path), ids),
                Outcome::Failed(f) => self.clean(ErrorView::IoError(f), ids),
                _ => self.clean(out_of_turn(), ids),
            },
            Stage::Stating => match event {
                Outcome::Stat { dev, ino } => match ids.host {
                    Ok(_) => {
                        let id = ids.id(now, dev, ino).unwrap();
                        let dest = canonical(joined(self.target_dir, self.file_name(id)));
                        (
                            DeliveryView { stage: Stage::Renaming, dest, ..self },
                            Step::Rename { from: self.tmp_path, to: dest },
                            ids.advanced(),
                        )
                    },
                    Err(raw) => self.clean(ErrorView::Utf8Error(raw), ids),
                },
                Outcome::Failed(f) => self.clean(ErrorView::IoError(f), ids),
                _ => self.clean(out_of_turn(), ids),
            },
            Stage::Renaming => match event {
                Outcome::Done => self.go(Stage::Locating, Step::List(self.target_dir), ids),
                Outcome::Failed(f) => self.clean(ErrorView::IoError(f), ids),
                _ => self.clean(out_of_turn(), ids),
            },
            Stage::Locating => match event {
                Outcome::Listed(items) => if listed(items, canonical(self.dest)) {
                    self.go(
                        Stage::Finished,
                        Step::Done(
                            EntryView { path: canonical(self.dest), separator: self.separator },
                        ),
                        ids,
                    )
                } else {
                    self.clean(ErrorView::FindNewMaildirEntryError(self.dest), ids)
                },
                Outcome::Failed(f) => self.clean(ErrorView::IoError(f), ids),
                _ => self.clean(out_of_turn(), ids),
            },
            Stage::Cleaning => match self.failure {
                Some(e) => self.end(e, ids),
                None => self.end(out_of_turn(), ids),
            },
            Stage::Finished => self.end(out_of_turn(), ids),
        }
    }
}

/// A message is renamed into the mailbox only once it is written: the renaming is asked for
/// only when the caller has told the device and inode of the file, which it is asked for only
/// when it has reported that the message is written and synced. The renaming takes the file
/// from `tmp` to a path in the directory of the delivery.
pub proof fn lemma_renamed_when_written(
    s: DeliveryView,
    event: Outcome,
    ids: IdGeneratorView,
    now: Timestamp,
)
    ensures
        s.next(event, ids, now).1 is Rename ==> s.stage == Stage::Stating && event is Stat
            && s.next(event, ids, now).1 == (Step::Rename {
            from: s.tmp_path,
            to: s.next(event, ids, now).0.dest,
        }),
        s.next(event, ids, now).0.stage == Stage::Stating ==> s.stage == Stage::Writing
            && event is Done,
        s.next(event, ids, now).0.stage == Stage::Writing ==> s.stage == Stage::Creating
            && event is Done,
{
}

/// From the moment the file in `tmp` exists, no failure is reported before the caller was
/// asked to remove that file: a step that does not go on with the delivery asks for the
/// removal and keeps the failure, and the step after the removal reports that failure and
/// ends the delivery.
pub proof fn lemma_failure_cleans(
    s: DeliveryView,
    event: Outcome,
    ids: IdGeneratorView,
    now: Timestamp,
)
    requires
        s.armed(),
    ensures
        !(s.next(event, ids, now).1 is Fail),
        s.next(event, ids, now).0.stage == Stage::Cleaning <==> s.next(event, ids, now).1
            == Step::Remove(s.tmp_path),
        s.next(event, ids, now).0.stage == Stage::Cleaning ==> {
            let cleaning = s.next(event, ids, now).0;
            &&& cleaning.failure.is_some()
            &&& forall|after: Outcome, later: Timestamp|
                (#[trigger] cleaning.next(after, ids, later)).1 == Step::Fail(
                    cleaning.failure.unwrap(),
                ) && cleaning.next(after, ids, later).0.stage == Stage::Finished
        },
{
}

/// A delivery ends with a handle only on a path that the caller has found in the directory
/// of the delivery after the renaming, and the handle is on the path that the message was
/// renamed to.
pub proof fn lemma_done_when_found(
    s: DeliveryView,
    event: Outcome,
    ids: IdGeneratorView,
    now: Timestamp,
)
    requires
        s.next(event, ids, now).1 is Done,
    ensures
        s.stage == Stage::Locating,
        event matches Outcome::Listed(items) && listed(items, canonical(s.dest)),
        s.next(event, ids, now).1 == Step::Done(
            EntryView { path: canonical(s.dest), separator: s.separator },
        ),
        s.next(event, ids, now).0.stage == Stage::Finished,
{
}

/// A delivered message is what was asked for: the path that the file is renamed to lies in the
/// directory of the delivery, and a handle on it gives the identifier that was generated and
/// exactly the flags that the delivery was started with, none for a delivery into `new`. This
/// holds where the host's name holds neither `/` nor a comma, the separator holds no `/`, and
/// the directory has a name that does not end in `/`.
pub proof fn lemma_delivered_message(
    s: DeliveryView,
    dev: u64,
    ino: u64,
    ids: IdGeneratorView,
    now: Timestamp,
)
    requires
        s.stage == Stage::Stating,
        ids.host matches Ok(host) && !host.contains('/') && !host.contains(','),
        !s.separator.contains('/'),
        is_canonical(s.target_dir),
        s.target_dir.len() > 0,
        s.target_dir.last() != '/',
    ensures
        ({
            let after = s.next(Outcome::Stat { dev, ino }, ids, now);
            let entry = EntryView { path: after.0.dest, separator: s.separator };
            &&& after.1 == Step::Rename { from: s.tmp_path, to: after.0.dest }
            &&& entry.lies_in(s.target_dir)
            &&& entry.id() == ids.id(now, dev, ino)
            &&& entry.flags() == Some(
                match s.flags {
                    Some(flags) => flags@,
                    None => Set::empty(),
                },
            )
        }),
{
    let sep = s.separator;
    let host = ids.host->Ok_0;
    let id = ids.id(now, dev, ino).unwrap();
    let name = s.file_name(id);
    let tmp = ids.tmp_id(now);
    crate::ident::lemma_full_id_chars(
        now.secs as nat,
        now.nanos as nat,
        ids.counter,
        ids.pid,
        dev as nat,
        ino as nat,
        host,
        '/',
    );
    crate::ident::lemma_full_id_chars(
        now.secs as nat,
        now.nanos as nat,
        ids.counter,
        ids.pid,
        dev as nat,
        ino as nat,
        host,
        ',',
    );
    assert(id[tmp.len() as int] == 'V');
    match s.flags {
        None => {
            crate::name::lemma_name_without_comma(id, sep);
            assert(id != seq!['.']) by {
                if id == seq!['.'] {
                    assert(seq!['.'].len() == 1 && seq!['.'][0] == '.');
                }
            }
            assert(id != seq!['.', '.']) by {
                if id == seq!['.', '.'] {
                    assert(seq!['.', '.'].len() == 2 && seq!['.', '.'][0] == '.' && seq![
                        '.',
                        '.',
                    ][1] == '.');
                }
            }
        },
        Some(flags) => {
            let m = crate::name::marker(sep);
            crate::flag::lemma_digitless(flags);
            crate::name::lemma_round_trip(id, flags, sep);
            assert forall|j: int| 0 <= j < name.len() implies name[j] != '/' by {
                if j < id.len() {
                    assert(name[j] == id[j]);
                    assert(id.contains(id[j]));
                } else if j < id.len() + sep.len() {
                    assert(name[j] == sep[j - id.len()]);
                    assert(sep.contains(name[j]));
                } else if j >= id.len() + m.len() {
                    assert(name[j] == flags.letters()[j - id.len() - m.len()]);
                }
            }
            assert(name[tmp.len() as int] == 'V');
            assert(name != seq!['.']) by {
                if name == seq!['.'] {
                    assert(seq!['.'].len() == 1 && seq!['.'][0] == '.');
                }
            }
            assert(name != seq!['.', '.']) by {
                if name == seq!['.', '.'] {
                    assert(seq!['.', '.'].len() == 2 && seq!['.', '.'][0] == '.' && seq![
                        '.',
                        '.',
                    ][1] == '.');
                }
            }
        },
    }
    assert(!name.contains('/'));
    assert(name != seq!['.']);
    crate::path::lemma_joined_canonical(s.target_dir, name);
    crate::path::lemma_joined_splits(s.target_dir, name);
}

/// A name that is taken in `tmp` is no failure: the caller is asked to wait, and then to
/// create a file under another name, made with the next value of the counter.
pub proof fn lemma_collision_retries(
    s: DeliveryView,
    f: IoFailureView,
    ids: IdGeneratorView,
    now: Timestamp,
    later: Timestamp,
)
    requires
        s.stage == Stage::Creating,
        f.kind == IoKind::AlreadyExists,
    ensures
        s.next(Outcome::Failed(f), ids, now).1 == Step::Wait(BACKOFF),
        s.next(Outcome::Failed(f), ids, now).2 == ids,
        ({
            let waiting = s.next(Outcome::Failed(f), ids, now).0;
            let again = waiting.next(Outcome::Done, ids, later);
            &&& again.0.stage == Stage::Creating
            &&& again.1 == Step::CreateExclusive(joined(s.tmp_dir, ids.tmp_id(later)))
            &&& again.2 == ids.advanced()
        }),
{
}

/// The failure that answers an event that does not fit what the caller was asked to do.
fn misuse() -> (e: Error)
    ensures
        e@ == out_of_turn(),
{
    Error::IoError(IoFailure { kind: IoKind::Other, message: "event out of turn".to_owned() })
}

impl Delivery {
    /// Starts a delivery: the first request is to create a file in `tmp_dir` under a fresh
    /// name.
    pub fn start(
        tmp_dir: &str,
        target_dir: &str,
        flags: Option<FlagSet>,
        info_separator: &'static str,
        ids: &mut IdGenerator,
        now: Timestamp,
    ) -> (r: (Delivery, WriteAction))
        ensures
            r.0@ == DeliveryView::starting(
                tmp_dir@,
                target_dir@,
                flags,
                info_separator@,
                joined(tmp_dir@, old(ids)@.tmp_id(now)),
            ),
            r.1@ == Step::CreateExclusive(joined(tmp_dir@, old(ids)@.tmp_id(now))),
            final(ids)@ == old(ids)@.advanced(),
    {
        let id = ids.generate_tmp_id(now);
        let tmp_path = join(tmp_dir, id.as_str());
        let delivery = Delivery {
            stage: Stage::Creating,
            tmp_dir: tmp_dir.to_owned(),
            target_dir: target_dir.to_owned(),
            flags,
            info_separator,
            tmp_path: tmp_path.clone(),
            dest: String::new(),
            failure: None,
        };
        (delivery, WriteAction::CreateExclusive(tmp_path))
    }

    /// Where the delivery stands.
    pub fn stage(&self) -> (r: Stage)
        ensures
            r == self@.stage,
    {
        self.stage
    }

    /// Whether the delivery is over.
    pub fn is_finished(&self) -> (r: bool)
        ensures
            r == (self@.stage == Stage::Finished),
    {
        self.stage == Stage::Finished
    }

    /// The path of the file in `tmp`.
    pub fn tmp_path(&self) -> (r: &str)
        ensures
            r@ == self@.tmp_path,
    {
        self.tmp_path.as_str()
    }

    /// Ends the delivery with the failure `e`.
    fn end(&mut self, e: Error) -> (action: WriteAction)
        ensures
            final(self)@ == (DeliveryView { stage: Stage::Finished, failure: None, ..old(self)@ }),
            action@ == Step::Fail(e@),
    {
        self.stage = Stage::Finished;
        self.failure = None;
        WriteAction::Fail(e)
    }

    /// Asks for the removal of the file in `tmp`, and keeps the failure `e` for afterwards.
    fn clean(&mut self, e: Error) -> (action: WriteAction)
        ensures
            final(self)@ == (DeliveryView {
                stage: Stage::Cleaning,
                failure: Some(e@),
                ..old(self)@
            }),
            action@ == Step::Remove(old(self)@.tmp_path),
    {
        self.stage = Stage::Cleaning;
        self.failure = Some(e);
        WriteAction::Remove(self.tmp_path.clone())
    }

    /// Takes what happened when the caller did what it was last asked to do, at the time
    /// `now`, and gives the next request.
    pub fn step(&mut self, event: WriteEvent, ids: &mut IdGenerator, now: Timestamp) -> (action:
        WriteAction)
        ensures
            (final(self)@, action@, final(ids)@) == old(self)@.next(event@, old(ids)@, now),
    {
        match self.stage {
            Stage::Creating => match event {
                WriteEvent::Done => {
                    self.stage = Stage::Writing;
                    WriteAction::WriteAndSync(self.tmp_path.clone())
                },
                WriteEvent::Failed(f) => {
                    if f.kind == IoKind::AlreadyExists {
                        self.stage = Stage::Waiting;
                        WriteAction::Wait(BACKOFF)
                    } else {
                        self.end(Error::IoError(f))
                    }
                },
                _ => self.end(misuse()),
            },
            Stage::Waiting => match event {
                WriteEvent::Done => {
                    let id = ids.generate_tmp_id(now);
                    let tmp_path = join(self.tmp_dir.as_str(), id.as_str());
                    self.stage = Stage::Creating;
                    self.tmp_path = tmp_path.clone();
                    WriteAction::CreateExclusive(tmp_path)
                },
                WriteEvent::Failed(f) => self.end(Error::IoError(f)),
                _ => self.end(misuse()),
            },
            Stage::Writing => match event {
                WriteEvent::Done => {
                    self.stage = Stage::Stating;
                    WriteAction::Stat(self.tmp_path.clone())
                },
                WriteEvent::Failed(f) => self.clean(Error::IoError(f)),
                _ => self.clean(misuse()),
            },
            Stage::Stating => match event {
                WriteEvent::Stat { dev, ino } => match ids.generate_id(now, dev, ino) {
                    Ok(id) => {
                        let name = match &self.flags {
                            Some(flags) => encode(id.as_str(), flags, self.info_separator),
                            None => id,
                        };
                        let joined = join(self.target_dir.as_str(), name.as_str());
                        let dest = normalize(joined.as_str());
                        self.stage = Stage::Renaming;
                        self.dest = dest.clone();
                        WriteAction::Rename { from: self.tmp_path.clone(), to: dest }
                    },
                    Err(e) => self.clean(e),
                },
                WriteEvent::Failed(f) => self.clean(Error::IoError(f)),
                _ => self.clean(misuse()),
            },
            Stage::Renaming => match event {
                WriteEvent::Done => {
                    self.stage = Stage::Locating;
                    WriteAction::List(self.target_dir.clone())
                },
                WriteEvent::Failed(f) => self.clean(Error::IoError(f)),
                _ => self.clean(misuse()),
            },
            Stage::Locating => match event {
                WriteEvent::Listed(items) => {
                    if is_listed(items.as_slice(), self.dest.as_str()) {
                        self.stage = Stage::Finished;
                        WriteAction::Done(
                            MaildirEntry::new(self.dest.as_str()).with_info_separator(
                                self.info_separator,
                            ),
                        )
                    } else {
                        let e = Error::FindNewMaildirEntryError(self.dest.clone());
                        self.clean(e)
                    }
                },
                WriteEvent::Failed(f) => self.clean(Error::IoError(f)),
                _ => self.clean(misuse()),
            },
            Stage::Cleaning => {
                let kept = self.failure.take();
                match kept {
                    Some(e) => self.end(e),
                    None => self.end(misuse()),
                }
            },
            Stage::Finished => self.end(misuse()),
        }
    }
}

impl Maildir {
    /// Starts the delivery of a message into `new`, without flags.
    pub fn write_new(&self, ids: &mut IdGenerator, now: Timestamp) -> (r: (Delivery, WriteAction))
        ensures
            r.0@ == DeliveryView::starting(
                self@.tmp(),
                self@.new(),
                None,
                self@.separator,
                joined(self@.tmp(), old(ids)@.tmp_id(now)),
            ),
            r.1@ == Step::CreateExclusive(joined(self@.tmp(), old(ids)@.tmp_id(now))),
            final(ids)@ == old(ids)@.advanced(),
    {
        Delivery::start(self.tmp(), self.new(), None, self.info_separator(), ids, now)
    }

    /// The creation of each of `cur`, `new` and `tmp` that is not in what the caller has listed,
    /// and the start of the delivery of a message into `new`. The creations come first: the
    /// first request of the delivery is to be performed once they are done.
    pub fn store_new(&self, items: &[DirItem], ids: &mut IdGenerator, now: Timestamp) -> (r: (
        Vec<FsOp>,
        Delivery,
        WriteAction,
    ))
        ensures
            requests(r.0@) == missing(items@, seq![self@.cur(), self@.new(), self@.tmp()]),
            r.1@ == DeliveryView::starting(
                self@.tmp(),
                self@.new(),
                None,
                self@.separator,
                joined(self@.tmp(), old(ids)@.tmp_id(now)),
            ),
            r.2@ == Step::CreateExclusive(joined(self@.tmp(), old(ids)@.tmp_id(now))),
            final(ids)@ == old(ids)@.advanced(),
    {
        let ops = self.ensure_dirs(items);
        let (delivery, action) = self.write_new(ids, now);
        (ops, delivery, action)
    }

    /// The creation of each of `cur`, `new` and `tmp` that is not in what the caller has listed,
    /// and the start of the delivery of a message into `cur`, without flags. The creations
    /// come first.
    pub fn store_cur(&self, items: &[DirItem], ids: &mut IdGenerator, now: Timestamp) -> (r: (
        Vec<FsOp>,
        Delivery,
        WriteAction,
    ))
        ensures
            requests(r.0@) == missing(items@, seq![self@.cur(), self@.new(), self@.tmp()]),
            r.1@ == DeliveryView::starting(
                self@.tmp(),
                self@.cur(),
                Some(FlagSet::from_set(Set::empty())),
                self@.separator,
                joined(self@.tmp(), old(ids)@.tmp_id(now)),
            ),
            r.2@ == Step::CreateExclusive(joined(self@.tmp(), old(ids)@.tmp_id(now))),
            final(ids)@ == old(ids)@.advanced(),
    {
        let ops = self.ensure_dirs(items);
        let none: [Flag; 0] = [];
        assert(none@.to_set() =~= Set::<Flag>::empty());
        let (delivery, action) = self.write_cur(none.as_slice(), ids, now);
        (ops, delivery, action)
    }

    /// Starts the delivery of a message into `cur`, with the flags `flags`.
    pub fn write_cur(&self, flags: &[Flag], ids: &mut IdGenerator, now: Timestamp) -> (r: (
        Delivery,
        WriteAction,
    ))
        ensures
            r.0@ == DeliveryView::starting(
                self@.tmp(),
                self@.cur(),
                Some(FlagSet::from_set(flags@.to_set())),
                self@.separator,
                joined(self@.tmp(), old(ids)@.tmp_id(now)),
            ),
            r.1@ == Step::CreateExclusive(joined(self@.tmp(), old(ids)@.tmp_id(now))),
            final(ids)@ == old(ids)@.advanced(),
    {
        let set = FlagSet::from_flags(flags);
        proof {
            crate::flag::lemma_from_set(flags@.to_set(), set);
        }
        Delivery::start(self.tmp(), self.cur(), Some(set), self.info_separator(), ids, now)
    }
}

} // verus!
