//! Copies of single files between the device and the local disk: what to do next.

use vstd::prelude::*;
use crate::lockdown::error::Error;
use super::afc::{READ_CHUNK, WRITE_CHUNK};

verus! {

/// Where a copy from the device stands.
#[derive(Debug)]
pub enum FetchState {
    Start,
    /// The file on the device is being opened.
    Opening,
    /// The local file is being created.
    Creating(u64),
    Reading(u64),
    /// So many bytes are being saved.
    Saving(u64, usize),
    /// The progress is being reported.
    Reporting(u64),
    /// The file on the device is being closed, after a failure or after all was read.
    Closing(Option<Error>),
    Ended,
}

/// What happened to the last step.
#[derive(Debug)]
pub enum FetchEvent {
    Begin,
    Opened(u64),
    Succeeded,
    /// So many bytes came: none at the end of the file.
    Got(usize),
    Failed(Error),
}

/// What to do next.
#[derive(Debug)]
pub enum FetchAction {
    Open,
    Create,
    /// Ask for the next bytes.
    Read { handle: u64, size: usize },
    /// Append the bytes that came to the local file.
    Save,
    /// Report how many bytes are saved.
    Report(u64),
    Close(u64),
    Finish(Result<(), Error>),
}

/// Whether an event can come in a state.
pub open spec fn fetch_expects(state: FetchState, event: FetchEvent) -> bool {
    match (state, event) {
        (FetchState::Start, FetchEvent::Begin) => true,
        (FetchState::Opening, FetchEvent::Opened(_)) => true,
        (FetchState::Opening, FetchEvent::Failed(_)) => true,
        (FetchState::Creating(_), FetchEvent::Succeeded) => true,
        (FetchState::Creating(_), FetchEvent::Failed(_)) => true,
        (FetchState::Reading(_), FetchEvent::Got(_)) => true,
        (FetchState::Reading(_), FetchEvent::Failed(_)) => true,
        (FetchState::Saving(_, _), FetchEvent::Succeeded) => true,
        (FetchState::Saving(_, _), FetchEvent::Failed(_)) => true,
        (FetchState::Reporting(_), FetchEvent::Succeeded) => true,
        (FetchState::Closing(_), FetchEvent::Succeeded) => true,
        (FetchState::Closing(_), FetchEvent::Failed(_)) => true,
        _ => false,
    }
}

/// What follows an event: the next state, how many bytes are saved, and what to do. The
/// file on the device is closed after it was read, or after a read failed; a failure of
/// the local disk ends the copy at once.
pub open spec fn fetch_step(state: FetchState, done: u64, event: FetchEvent) -> (
    FetchState,
    u64,
    FetchAction,
) {
    match (state, event) {
        (FetchState::Start, _) => (FetchState::Opening, done, FetchAction::Open),
        (FetchState::Opening, FetchEvent::Opened(handle)) => (
            FetchState::Creating(handle),
            done,
            FetchAction::Create,
        ),
        (FetchState::Creating(handle), FetchEvent::Succeeded) => (
            FetchState::Reading(handle),
            done,
            FetchAction::Read { handle, size: READ_CHUNK },
        ),
        (FetchState::Reading(handle), FetchEvent::Got(n)) => if n == 0 {
            (FetchState::Closing(None), done, FetchAction::Close(handle))
        } else {
            (FetchState::Saving(handle, n), done, FetchAction::Save)
        },
        (FetchState::Reading(handle), FetchEvent::Failed(e)) => (
            FetchState::Closing(Some(e)),
            done,
            FetchAction::Close(handle),
        ),
        (FetchState::Saving(handle, n), FetchEvent::Succeeded) => (
            FetchState::Reporting(handle),
            (done + n) as u64,
            FetchAction::Report((done + n) as u64),
        ),
        (FetchState::Reporting(handle), _) => (
            FetchState::Reading(handle),
            done,
            FetchAction::Read { handle, size: READ_CHUNK },
        ),
        (FetchState::Closing(Some(e)), _) => (
            FetchState::Ended,
            done,
            FetchAction::Finish(Err(e)),
        ),
        (_, FetchEvent::Failed(e)) => (FetchState::Ended, done, FetchAction::Finish(Err(e))),
        _ => (FetchState::Ended, done, FetchAction::Finish(Ok(()))),
    }
}

/// A copy of a file from the device.
#[derive(Debug)]
pub struct Fetch {
    /// How many bytes are saved.
    pub done: u64,
    pub state: FetchState,
}

impl Fetch {
    pub fn new() -> (f: Fetch)
        ensures
            f.done == 0,
            f.state == FetchState::Start,
    {
        Fetch { done: 0, state: FetchState::Start }
    }

    /// What to do next. The number of bytes has to stay countable.
    pub fn next(&mut self, event: FetchEvent) -> (action: FetchAction)
        requires
            fetch_expects(old(self).state, event),
            old(self).state matches FetchState::Saving(_, n) ==> old(self).done + n <= u64::MAX,
        ensures
            (final(self).state, final(self).done, action) == fetch_step(
                old(self).state,
                old(self).done,
                event,
            ),
    {
        let mut state: FetchState = FetchState::Ended;
        core::mem::swap(&mut state, &mut self.state);
        match (state, event) {
            (FetchState::Start, _) => {
                self.state = FetchState::Opening;
                FetchAction::Open
            },
            (FetchState::Opening, FetchEvent::Opened(handle)) => {
                self.state = FetchState::Creating(handle);
                FetchAction::Create
            },
            (FetchState::Creating(handle), FetchEvent::Succeeded) => {
                self.state = FetchState::Reading(handle);
                FetchAction::Read { handle, size: READ_CHUNK }
            },
            (FetchState::Reading(handle), FetchEvent::Got(n)) => if n == 0 {
                self.state = FetchState::Closing(None);
                FetchAction::Close(handle)
            } else {
                self.state = FetchState::Saving(handle, n);
                FetchAction::Save
            },
            (FetchState::Reading(handle), FetchEvent::Failed(e)) => {
                self.state = FetchState::Closing(Some(e));
                FetchAction::Close(handle)
            },
            (FetchState::Saving(handle, n), FetchEvent::Succeeded) => {
                self.done = self.done + n as u64;
                self.state = FetchState::Reporting(handle);
                FetchAction::Report(self.done)
            },
            (FetchState::Reporting(handle), _) => {
                self.state = FetchState::Reading(handle);
                FetchAction::Read { handle, size: READ_CHUNK }
            },
            (FetchState::Closing(Some(e)), _) => FetchAction::Finish(Err(e)),
            (_, FetchEvent::Failed(e)) => FetchAction::Finish(Err(e)),
            _ => FetchAction::Finish(Ok(())),
        }
    }
}

/// Where a copy to the device stands.
#[derive(Debug)]
pub enum StoreState {
    Start,
    /// The local file is being opened.
    Finding,
    /// The file on the device is being opened.
    Opening,
    /// The next bytes of the local file are being read.
    Reading(u64),
    Writing(u64),
    /// The file on the device is being closed, after a failure or after all was written.
    Closing(Option<Error>),
    Ended,
}

/// What happened to the last step.
#[derive(Debug)]
pub enum StoreEvent {
    Begin,
    Succeeded,
    Opened(u64),
    /// So many bytes were read: none at the end of the file.
    Got(usize),
    Failed(Error),
}

/// What to do next.
#[derive(Debug)]
pub enum StoreAction {
    /// Open the local file.
    Find,
    /// Open the file on the device.
    Open,
    /// Read so many bytes of the local file at most.
    Read(usize),
    /// Send the bytes that were read.
    Write(u64),
    Close(u64),
    Finish(Result<(), Error>),
}

/// Whether an event can come in a state.
pub open spec fn store_expects(state: StoreState, event: StoreEvent) -> bool {
    match (state, event) {
        (StoreState::Start, StoreEvent::Begin) => true,
        (StoreState::Finding, StoreEvent::Succeeded) => true,
        (StoreState::Finding, StoreEvent::Failed(_)) => true,
        (StoreState::Opening, StoreEvent::Opened(_)) => true,
        (StoreState::Opening, StoreEvent::Failed(_)) => true,
        (StoreState::Reading(_), StoreEvent::Got(_)) => true,
        (StoreState::Reading(_), StoreEvent::Failed(_)) => true,
        (StoreState::Writing(_), StoreEvent::Succeeded) => true,
        (StoreState::Writing(_), StoreEvent::Failed(_)) => true,
        (StoreState::Closing(_), StoreEvent::Succeeded) => true,
        (StoreState::Closing(_), StoreEvent::Failed(_)) => true,
        _ => false,
    }
}

/// What follows an event: the next state, and what to do. The file on the device is
/// closed after all was written, or after a write failed; a failure of the local disk
/// ends the copy at once.
pub open spec fn store_step(state: StoreState, event: StoreEvent) -> (StoreState, StoreAction) {
    match (state, event) {
        (StoreState::Start, _) => (StoreState::Finding, StoreAction::Find),
        (StoreState::Finding, StoreEvent::Succeeded) => (StoreState::Opening, StoreAction::Open),
        (StoreState::Opening, StoreEvent::Opened(handle)) => (
            StoreState::Reading(handle),
            StoreAction::Read(WRITE_CHUNK),
        ),
        (StoreState::Reading(handle), StoreEvent::Got(n)) => if n == 0 {
            (StoreState::Closing(None), StoreAction::Close(handle))
        } else {
            (StoreState::Writing(handle), StoreAction::Write(handle))
        },
        (StoreState::Writing(handle), StoreEvent::Succeeded) => (
            StoreState::Reading(handle),
            StoreAction::Read(WRITE_CHUNK),
        ),
        (StoreState::Writing(handle), StoreEvent::Failed(e)) => (
            StoreState::Closing(Some(e)),
            StoreAction::Close(handle),
        ),
        (StoreState::Closing(Some(e)), _) => (StoreState::Ended, StoreAction::Finish(Err(e))),
        (_, StoreEvent::Failed(e)) => (StoreState::Ended, StoreAction::Finish(Err(e))),
        _ => (StoreState::Ended, StoreAction::Finish(Ok(()))),
    }
}

/// A copy of a local file to the device.
#[derive(Debug)]
pub struct Store {
    pub state: StoreState,
}

impl Store {
    pub fn new() -> (s: Store)
        ensures
            s.state == StoreState::Start,
    {
        Store { state: StoreState::Start }
    }

    /// What to do next.
    pub fn next(&mut self, event: StoreEvent) -> (action: StoreAction)
        requires
            store_expects(old(self).state, event),
        ensures
            (final(self).state, action) == store_step(old(self).state, event),
    {
        let mut state: StoreState = StoreState::Ended;
        core::mem::swap(&mut state, &mut self.state);
        match (state, event) {
            (StoreState::Start, _) => {
                self.state = StoreState::Finding;
                StoreAction::Find
            },
            (StoreState::Finding, StoreEvent::Succeeded) => {
                self.state = StoreState::Opening;
                StoreAction::Open
            },
            (StoreState::Opening, StoreEvent::Opened(handle)) => {
                self.state = StoreState::Reading(handle);
                StoreAction::Read(WRITE_CHUNK)
            },
            (StoreState::Reading(handle), StoreEvent::Got(n)) => if n == 0 {
                self.state = StoreState::Closing(None);
                StoreAction::Close(handle)
            } else {
                self.state = StoreState::Writing(handle);
                StoreAction::Write(handle)
            },
            (StoreState::Writing(handle), StoreEvent::Succeeded) => {
                self.state = StoreState::Reading(handle);
                StoreAction::Read(WRITE_CHUNK)
            },
            (StoreState::Writing(handle), StoreEvent::Failed(e)) => {
                self.state = StoreState::Closing(Some(e));
                StoreAction::Close(handle)
            },
            (StoreState::Closing(Some(e)), _) => StoreAction::Finish(Err(e)),
            (_, StoreEvent::Failed(e)) => StoreAction::Finish(Err(e)),
            _ => StoreAction::Finish(Ok(())),
        }
    }
}

/// The sum of what came.
pub open spec fn total(sizes: Seq<usize>) -> nat
    decreases sizes.len(),
{
    if sizes.len() == 0 {
        0
    } else {
        total(sizes.drop_last()) + sizes.last() as nat
    }
}

/// How a copy stands that was reading an open file, after chunks of these sizes came and
/// were all saved.
pub open spec fn fetched(handle: u64, done: u64, sizes: Seq<usize>) -> (FetchState, u64)
    decreases sizes.len(),
{
    if sizes.len() == 0 {
        (FetchState::Reading(handle), done)
    } else {
        let (s0, d0) = fetched(handle, done, sizes.drop_last());
        let (s1, d1, _) = fetch_step(s0, d0, FetchEvent::Got(sizes.last()));
        let (s2, d2, _) = fetch_step(s1, d1, FetchEvent::Succeeded);
        let (s3, d3, _) = fetch_step(s2, d2, FetchEvent::Succeeded);
        (s3, d3)
    }
}

/// A copy from the device counts every byte that it saves, and reads on until nothing
/// more comes; then it closes the file and is done.
pub proof fn lemma_fetch_counts(handle: u64, done: u64, sizes: Seq<usize>)
    requires
        forall|i: int| 0 <= i < sizes.len() ==> sizes[i] > 0,
        done + total(sizes) <= u64::MAX,
    ensures
        fetched(handle, done, sizes) == (FetchState::Reading(handle), (done + total(sizes)) as u64),
        fetch_step(FetchState::Reading(handle), done, FetchEvent::Got(0)) == (
            FetchState::Closing(None),
            done,
            FetchAction::Close(handle),
        ),
        fetch_step(FetchState::Closing(None), done, FetchEvent::Succeeded).2
            == FetchAction::Finish(Ok(())),
    decreases sizes.len(),
{
    if sizes.len() > 0 {
        let rest = sizes.drop_last();
        assert forall|i: int| 0 <= i < rest.len() implies rest[i] > 0 by {
            assert(rest[i] == sizes[i]);
        }
        lemma_fetch_counts(handle, done, rest);
        assert(sizes.last() > 0);
    }
}

/// A transfer that fails on the device closes the file there, and then fails as it did,
/// whatever comes of closing it.
pub proof fn lemma_failure_closes(
    handle: u64,
    done: u64,
    e: Error,
    after: FetchEvent,
    last: StoreEvent,
)
    requires
        fetch_expects(FetchState::Closing(Some(e)), after),
        store_expects(StoreState::Closing(Some(e)), last),
    ensures
        fetch_step(FetchState::Reading(handle), done, FetchEvent::Failed(e)) == (
            FetchState::Closing(Some(e)),
            done,
            FetchAction::Close(handle),
        ),
        fetch_step(FetchState::Closing(Some(e)), done, after).2 == FetchAction::Finish(Err(e)),
        store_step(StoreState::Writing(handle), StoreEvent::Failed(e)) == (
            StoreState::Closing(Some(e)),
            StoreAction::Close(handle),
        ),
        store_step(StoreState::Closing(Some(e)), last).1 == StoreAction::Finish(Err(e)),
{
}

/// The way of a copy from the device on which nothing fails, and what each step asks for;
/// a failure before the file is read, or of the local disk, ends the copy at once.
pub proof fn lemma_fetch_way(handle: u64, done: u64, n: usize, e: Error)
    requires
        0 < n,
        done + n <= u64::MAX,
    ensures
        fetch_step(FetchState::Start, done, FetchEvent::Begin) == (
            FetchState::Opening,
            done,
            FetchAction::Open,
        ),
        fetch_step(FetchState::Opening, done, FetchEvent::Opened(handle)) == (
            FetchState::Creating(handle),
            done,
            FetchAction::Create,
        ),
        fetch_step(FetchState::Creating(handle), done, FetchEvent::Succeeded) == (
            FetchState::Reading(handle),
            done,
            FetchAction::Read { handle, size: 4194304 },
        ),
        fetch_step(FetchState::Reading(handle), done, FetchEvent::Got(n)) == (
            FetchState::Saving(handle, n),
            done,
            FetchAction::Save,
        ),
        fetch_step(FetchState::Saving(handle, n), done, FetchEvent::Succeeded) == (
            FetchState::Reporting(handle),
            (done + n) as u64,
            FetchAction::Report((done + n) as u64),
        ),
        fetch_step(FetchState::Reporting(handle), done, FetchEvent::Succeeded) == (
            FetchState::Reading(handle),
            done,
            FetchAction::Read { handle, size: 4194304 },
        ),
        fetch_step(FetchState::Opening, done, FetchEvent::Failed(e)).2 == FetchAction::Finish(
            Err(e),
        ),
        fetch_step(FetchState::Creating(handle), done, FetchEvent::Failed(e)).2
            == FetchAction::Finish(Err(e)),
        fetch_step(FetchState::Saving(handle, n), done, FetchEvent::Failed(e)).2
            == FetchAction::Finish(Err(e)),
        fetch_step(FetchState::Closing(None), done, FetchEvent::Failed(e)).2
            == FetchAction::Finish(Err(e)),
{
}

/// The way of a copy to the device on which nothing fails: the local file is opened before
/// the one on the device, and what is read is written until nothing is read; a failure of
/// the local disk, or before the file on the device is open, ends the copy at once.
pub proof fn lemma_store_way(handle: u64, n: usize, e: Error)
    requires
        0 < n,
    ensures
        store_step(StoreState::Start, StoreEvent::Begin) == (
            StoreState::Finding,
            StoreAction::Find,
        ),
        store_step(StoreState::Finding, StoreEvent::Succeeded) == (
            StoreState::Opening,
            StoreAction::Open,
        ),
        store_step(StoreState::Opening, StoreEvent::Opened(handle)) == (
            StoreState::Reading(handle),
            StoreAction::Read(262144),
        ),
        store_step(StoreState::Reading(handle), StoreEvent::Got(n)) == (
            StoreState::Writing(handle),
            StoreAction::Write(handle),
        ),
        store_step(StoreState::Writing(handle), StoreEvent::Succeeded) == (
            StoreState::Reading(handle),
            StoreAction::Read(262144),
        ),
        store_step(StoreState::Reading(handle), StoreEvent::Got(0)) == (
            StoreState::Closing(None),
            StoreAction::Close(handle),
        ),
        store_step(StoreState::Closing(None), StoreEvent::Succeeded).1 == StoreAction::Finish(
            Ok(()),
        ),
        store_step(StoreState::Finding, StoreEvent::Failed(e)).1 == StoreAction::Finish(Err(e)),
        store_step(StoreState::Opening, StoreEvent::Failed(e)).1 == StoreAction::Finish(Err(e)),
        store_step(StoreState::Reading(handle), StoreEvent::Failed(e)).1 == StoreAction::Finish(
            Err(e),
        ),
        store_step(StoreState::Closing(None), StoreEvent::Failed(e)).1 == StoreAction::Finish(
            Err(e),
        ),
{
}

/// Whatever is to be done next in a copy from the device can be answered, by what it yields
/// and by a failure, but for a report, which cannot fail; after the end nothing is
/// expected.
pub proof fn lemma_fetch_answered(
    state: FetchState,
    done: u64,
    event: FetchEvent,
    other: FetchEvent,
    handle: u64,
    n: usize,
    e: Error,
)
    ensures
        fetch_expects(FetchState::Start, FetchEvent::Begin),
        ({
            let (next, _, action) = fetch_step(state, done, event);
            match action {
                FetchAction::Open => fetch_expects(next, FetchEvent::Opened(handle))
                    && fetch_expects(next, FetchEvent::Failed(e)),
                FetchAction::Create | FetchAction::Save | FetchAction::Close(_) => fetch_expects(
                    next,
                    FetchEvent::Succeeded,
                ) && fetch_expects(next, FetchEvent::Failed(e)),
                FetchAction::Read { .. } => fetch_expects(next, FetchEvent::Got(n))
                    && fetch_expects(next, FetchEvent::Failed(e)),
                FetchAction::Report(_) => fetch_expects(next, FetchEvent::Succeeded),
                FetchAction::Finish(_) => !fetch_expects(next, other),
            }
        }),
{
}

/// Whatever is to be done next in a copy to the device can be answered, by what it yields
/// and by a failure; after the end nothing is expected.
pub proof fn lemma_store_answered(
    state: StoreState,
    event: StoreEvent,
    other: StoreEvent,
    handle: u64,
    n: usize,
    e: Error,
)
    ensures
        store_expects(StoreState::Start, StoreEvent::Begin),
        ({
            let (next, action) = store_step(state, event);
            match action {
                StoreAction::Open => store_expects(next, StoreEvent::Opened(handle))
                    && store_expects(next, StoreEvent::Failed(e)),
                StoreAction::Find | StoreAction::Write(_) | StoreAction::Close(_) => store_expects(
                    next,
                    StoreEvent::Succeeded,
                ) && store_expects(next, StoreEvent::Failed(e)),
                StoreAction::Read(_) => store_expects(next, StoreEvent::Got(n)) && store_expects(
                    next,
                    StoreEvent::Failed(e),
                ),
                StoreAction::Finish(_) => !store_expects(next, other),
            }
        }),
{
}

} // verus!
