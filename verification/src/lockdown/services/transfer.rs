//! Transfers of whole files: what to ask of the file service next.

use vstd::prelude::*;
use crate::bytes::put_slice;
use crate::lockdown::error::Error;
use crate::text::{chars_of, join3, string_of, trim_end, without_end};
use super::afc::{READ_CHUNK, WRITE_CHUNK};

verus! {

/// What stands before the last `c` of a text.
pub open spec fn before_last(s: Seq<char>, c: char) -> Option<Seq<char>>
    decreases s.len(),
{
    if s.len() == 0 {
        None
    } else if s.last() == c {
        Some(s.drop_last())
    } else {
        before_last(s.drop_last(), c)
    }
}

/// The directory of a path, unless that is the root or not given.
pub open spec fn directory_of(path: Seq<char>) -> Option<Seq<char>> {
    match before_last(path, '/') {
        Some(d) => if d.len() > 0 {
            Some(d)
        } else {
            None
        },
        None => None,
    }
}

/// The directory that has to be there before a file is written.
pub fn parent_dir(path: &str) -> (dir: Option<String>)
    ensures
        match dir {
            Some(d) => directory_of(path@) == Some(d@),
            None => directory_of(path@) is None,
        },
{
    let chars: Vec<char> = chars_of(path);
    let mut n: usize = chars.len();
    assert(path@.take(n as int) =~= path@);
    while n > 0
        invariant
            chars@ == path@,
            n <= chars@.len(),
            before_last(path@, '/') == before_last(path@.take(n as int), '/'),
        decreases n,
    {
        assert(path@.take(n as int).drop_last() =~= path@.take(n - 1));
        n -= 1;
        if chars[n] == '/' {
            if n == 0 {
                return None;
            }
            let mut dir: Vec<char> = Vec::new();
            let mut i: usize = 0;
            while i < n
                invariant
                    i <= n <= chars@.len(),
                    chars@ == path@,
                    dir@ == path@.take(i as int),
                decreases n - i,
            {
                dir.push(chars[i]);
                i += 1;
                assert(dir@ =~= path@.take(i as int));
            }
            return Some(string_of(dir.as_slice()));
        }
    }
    None
}

/// The path of an entry of a directory.
pub fn child_path(dir: &str, name: &str) -> (path: String)
    ensures
        path@ == without_end(dir@, "/"@) + "/"@ + name@,
{
    join3(trim_end(dir, "/").as_str(), "/", name)
}

/// Where the chunk that starts at `at` ends.
pub open spec fn chunk_end(at: nat, len: nat) -> nat {
    if len - at > WRITE_CHUNK {
        at + WRITE_CHUNK as nat
    } else {
        len
    }
}

/// Where an upload stands.
#[derive(Debug)]
pub enum UploadState {
    Start,
    /// The directory is being made.
    Making,
    Opening,
    /// The bytes before `at` were sent.
    Writing { handle: u64, at: usize },
    /// The file is being closed, after a failure or after all was sent.
    Closing(Option<Error>),
    Ended,
}

/// What happened to the last request.
#[derive(Debug)]
pub enum UploadEvent {
    Begin,
    Succeeded,
    Opened(u64),
    Failed(Error),
}

/// What to do next.
#[derive(Debug)]
pub enum UploadAction {
    MakeDir(String),
    Open,
    /// Send the bytes from `from` up to `to`.
    Write { handle: u64, from: usize, to: usize },
    Close(u64),
    Finish(Result<(), Error>),
}

/// Whether an event can come in a state.
pub open spec fn upload_expects(state: UploadState, event: UploadEvent) -> bool {
    match (state, event) {
        (UploadState::Start, UploadEvent::Begin) => true,
        (UploadState::Making, UploadEvent::Succeeded) => true,
        (UploadState::Making, UploadEvent::Failed(_)) => true,
        (UploadState::Opening, UploadEvent::Opened(_)) => true,
        (UploadState::Opening, UploadEvent::Failed(_)) => true,
        (UploadState::Writing { .. }, UploadEvent::Succeeded) => true,
        (UploadState::Writing { .. }, UploadEvent::Failed(_)) => true,
        (UploadState::Closing(_), UploadEvent::Succeeded) => true,
        (UploadState::Closing(_), UploadEvent::Failed(_)) => true,
        _ => false,
    }
}

/// The content of an [`UploadAction`].
pub enum UploadMove {
    MakeDir(Seq<char>),
    Open,
    Write { handle: u64, from: usize, to: usize },
    Close(u64),
    Finish(Result<(), Error>),
}

impl View for UploadAction {
    type V = UploadMove;

    open spec fn view(&self) -> UploadMove {
        match self {
            UploadAction::MakeDir(d) => UploadMove::MakeDir(d@),
            UploadAction::Open => UploadMove::Open,
            UploadAction::Write { handle, from, to } => UploadMove::Write {
                handle: *handle,
                from: *from,
                to: *to,
            },
            UploadAction::Close(handle) => UploadMove::Close(*handle),
            UploadAction::Finish(result) => UploadMove::Finish(*result),
        }
    }
}

/// What follows when the bytes before `at` were sent.
pub open spec fn goes_on(handle: u64, at: usize, len: usize) -> (UploadState, UploadMove) {
    if at < len {
        let end = chunk_end(at as nat, len as nat) as usize;
        (UploadState::Writing { handle, at: end }, UploadMove::Write { handle, from: at, to: end })
    } else {
        (UploadState::Closing(None), UploadMove::Close(handle))
    }
}

/// The step of an upload of so many bytes to a path. The directory is made first, if there
/// is one to make. A write that fails ends the upload, but the file is closed before.
pub open spec fn upload_step(
    path: Seq<char>,
    len: usize,
    state: UploadState,
    event: UploadEvent,
) -> (UploadState, UploadMove) {
    match (state, event) {
        (UploadState::Start, _) => match directory_of(path) {
            Some(d) => (UploadState::Making, UploadMove::MakeDir(d)),
            None => (UploadState::Opening, UploadMove::Open),
        },
        (UploadState::Making, UploadEvent::Succeeded) => (UploadState::Opening, UploadMove::Open),
        (UploadState::Opening, UploadEvent::Opened(handle)) => goes_on(handle, 0, len),
        (UploadState::Writing { handle, at }, UploadEvent::Succeeded) => goes_on(handle, at, len),
        (UploadState::Writing { handle, .. }, UploadEvent::Failed(e)) => (
            UploadState::Closing(Some(e)),
            UploadMove::Close(handle),
        ),
        (UploadState::Closing(Some(e)), _) => (UploadState::Ended, UploadMove::Finish(Err(e))),
        (_, UploadEvent::Failed(e)) => (UploadState::Ended, UploadMove::Finish(Err(e))),
        _ => (UploadState::Ended, UploadMove::Finish(Ok(()))),
    }
}

/// An upload of some bytes to a path.
#[derive(Debug)]
pub struct Upload {
    pub path: String,
    pub len: usize,
    pub state: UploadState,
}

impl Upload {
    pub fn new(path: String, len: usize) -> (u: Upload)
        ensures
            u.path == path,
            u.len == len,
            u.state == UploadState::Start,
    {
        Upload { path, len, state: UploadState::Start }
    }

    fn go_on(&mut self, handle: u64, at: usize) -> (action: UploadAction)
        requires
            at <= old(self).len,
        ensures
            final(self).path == old(self).path,
            final(self).len == old(self).len,
            (final(self).state, action@) == goes_on(handle, at, old(self).len),
    {
        if at < self.len {
            let end: usize = if self.len - at > WRITE_CHUNK {
                at + WRITE_CHUNK
            } else {
                self.len
            };
            self.state = UploadState::Writing { handle, at: end };
            UploadAction::Write { handle, from: at, to: end }
        } else {
            self.state = UploadState::Closing(None);
            UploadAction::Close(handle)
        }
    }

    /// Whether no more bytes were sent than there are.
    pub open spec fn valid(self) -> bool {
        self.state matches UploadState::Writing { at, .. } ==> at <= self.len
    }

    /// What to do next.
    pub fn next(&mut self, event: UploadEvent) -> (action: UploadAction)
        requires
            old(self).valid(),
            upload_expects(old(self).state, event),
        ensures
            final(self).valid(),
            final(self).path == old(self).path,
            final(self).len == old(self).len,
            (final(self).state, action@) == upload_step(
                old(self).path@,
                old(self).len,
                old(self).state,
                event,
            ),
    {
        let mut state: UploadState = UploadState::Ended;
        core::mem::swap(&mut state, &mut self.state);
        match (state, event) {
            (UploadState::Start, _) => match parent_dir(self.path.as_str()) {
                Some(d) => {
                    self.state = UploadState::Making;
                    UploadAction::MakeDir(d)
                },
                None => {
                    self.state = UploadState::Opening;
                    UploadAction::Open
                },
            },
            (UploadState::Making, UploadEvent::Succeeded) => {
                self.state = UploadState::Opening;
                UploadAction::Open
            },
            (UploadState::Opening, UploadEvent::Opened(handle)) => self.go_on(handle, 0),
            (UploadState::Writing { handle, at }, UploadEvent::Succeeded) => self.go_on(
                handle,
                at,
            ),
            (UploadState::Writing { handle, .. }, UploadEvent::Failed(e)) => {
                self.state = UploadState::Closing(Some(e));
                UploadAction::Close(handle)
            },
            (UploadState::Closing(Some(e)), _) => UploadAction::Finish(Err(e)),
            (_, UploadEvent::Failed(e)) => UploadAction::Finish(Err(e)),
            _ => UploadAction::Finish(Ok(())),
        }
    }
}

/// How many kinds of states are still ahead of an upload.
pub open spec fn upload_rank(state: UploadState) -> nat {
    match state {
        UploadState::Start => 5,
        UploadState::Making => 4,
        UploadState::Opening => 3,
        UploadState::Writing { .. } => 2,
        UploadState::Closing(_) => 1,
        UploadState::Ended => 0,
    }
}

/// The bytes that an upload sends from an event on, and its result, where every request
/// succeeds and the file is opened under a handle.
pub open spec fn uploaded(
    path: Seq<char>,
    data: Seq<u8>,
    handle: u64,
    state: UploadState,
    event: UploadEvent,
) -> (Seq<u8>, Result<(), Error>)
    decreases
            upload_rank(state),
            match state {
                UploadState::Writing { at, .. } => data.len() - at,
                _ => 0,
            },
{
    let (after, action) = upload_step(path, data.len() as usize, state, event);
    if data.len() > usize::MAX || !upload_expects(state, event) {
        (Seq::empty(), Ok(()))
    } else {
        match action {
            UploadMove::Finish(result) => (Seq::empty(), result),
            UploadMove::Write { from, to, .. } => {
                let (rest, result) = uploaded(path, data, handle, after, UploadEvent::Succeeded);
                (data.subrange(from as int, to as int) + rest, result)
            },
            UploadMove::Open => uploaded(path, data, handle, after, UploadEvent::Opened(handle)),
            _ => uploaded(path, data, handle, after, UploadEvent::Succeeded),
        }
    }
}

proof fn lemma_uploads_rest(path: Seq<char>, data: Seq<u8>, handle: u64, at: usize)
    requires
        at <= data.len() <= usize::MAX,
    ensures
        uploaded(
            path,
            data,
            handle,
            UploadState::Writing { handle, at },
            UploadEvent::Succeeded,
        ) == (data.skip(at as int), Ok::<(), Error>(())),
    decreases data.len() - at,
{
    let len = data.len() as usize;
    let closing = uploaded(
        path,
        data,
        handle,
        UploadState::Closing(None),
        UploadEvent::Succeeded,
    );
    assert(closing == (Seq::<u8>::empty(), Ok::<(), Error>(())));
    if at < len {
        let end = chunk_end(at as nat, len as nat) as usize;
        lemma_uploads_rest(path, data, handle, end);
        assert(data.subrange(at as int, end as int) + data.skip(end as int) =~= data.skip(
            at as int,
        ));
    } else {
        assert(data.skip(at as int) =~= Seq::<u8>::empty());
    }
}

/// An upload of which no request fails sends all of the data, in order and once, and
/// succeeds.
pub proof fn lemma_upload_sends_all(path: Seq<char>, data: Seq<u8>, handle: u64)
    requires
        data.len() <= usize::MAX,
    ensures
        uploaded(path, data, handle, UploadState::Start, UploadEvent::Begin) == (
            data,
            Ok::<(), Error>(()),
        ),
{
    let len = data.len() as usize;
    let end = chunk_end(0, len as nat) as usize;
    let closing = uploaded(
        path,
        data,
        handle,
        UploadState::Closing(None),
        UploadEvent::Succeeded,
    );
    assert(closing == (Seq::<u8>::empty(), Ok::<(), Error>(())));
    if 0 < len {
        lemma_uploads_rest(path, data, handle, end);
        assert(data.subrange(0, end as int) + data.skip(end as int) =~= data);
    } else {
        assert(data =~= Seq::<u8>::empty());
    }
    let opened = uploaded(
        path,
        data,
        handle,
        UploadState::Opening,
        UploadEvent::Opened(handle),
    );
    assert(opened == (data, Ok::<(), Error>(())));
    assert(uploaded(path, data, handle, UploadState::Making, UploadEvent::Succeeded) == opened);
}

/// Where a download stands.
#[derive(Debug)]
pub enum DownloadState {
    Start,
    Opening,
    Reading(u64),
    /// The file is being closed, after a failure or after all was read.
    Closing(Option<Error>),
    Ended,
}

/// What happened to the last request.
#[derive(Debug)]
pub enum DownloadEvent {
    Begin,
    Opened(u64),
    /// The next bytes: none at the end of the file.
    Chunk(Vec<u8>),
    Succeeded,
    Failed(Error),
}

/// What to do next.
#[derive(Debug)]
pub enum DownloadAction {
    Open,
    /// Ask for the next bytes.
    Read { handle: u64, size: usize },
    Close(u64),
    Finish(Result<Vec<u8>, Error>),
}

/// Whether an event can come in a state.
pub open spec fn download_expects(state: DownloadState, event: DownloadEvent) -> bool {
    match (state, event) {
        (DownloadState::Start, DownloadEvent::Begin) => true,
        (DownloadState::Opening, DownloadEvent::Opened(_)) => true,
        (DownloadState::Opening, DownloadEvent::Failed(_)) => true,
        (DownloadState::Reading(_), DownloadEvent::Chunk(_)) => true,
        (DownloadState::Reading(_), DownloadEvent::Failed(_)) => true,
        (DownloadState::Closing(_), DownloadEvent::Succeeded) => true,
        (DownloadState::Closing(_), DownloadEvent::Failed(_)) => true,
        _ => false,
    }
}

/// The content of a [`DownloadEvent`].
pub enum DownloadNews {
    Begin,
    Opened(u64),
    Chunk(Seq<u8>),
    Succeeded,
    Failed(Error),
}

impl View for DownloadEvent {
    type V = DownloadNews;

    open spec fn view(&self) -> DownloadNews {
        match self {
            DownloadEvent::Begin => DownloadNews::Begin,
            DownloadEvent::Opened(handle) => DownloadNews::Opened(*handle),
            DownloadEvent::Chunk(c) => DownloadNews::Chunk(c@),
            DownloadEvent::Succeeded => DownloadNews::Succeeded,
            DownloadEvent::Failed(e) => DownloadNews::Failed(*e),
        }
    }
}

/// The content of a [`DownloadAction`].
pub enum DownloadMove {
    Open,
    Read { handle: u64, size: usize },
    Close(u64),
    Finish(Result<Seq<u8>, Error>),
}

impl View for DownloadAction {
    type V = DownloadMove;

    open spec fn view(&self) -> DownloadMove {
        match self {
            DownloadAction::Open => DownloadMove::Open,
            DownloadAction::Read { handle, size } => DownloadMove::Read {
                handle: *handle,
                size: *size,
            },
            DownloadAction::Close(handle) => DownloadMove::Close(*handle),
            DownloadAction::Finish(Ok(data)) => DownloadMove::Finish(Ok(data@)),
            DownloadAction::Finish(Err(e)) => DownloadMove::Finish(Err(*e)),
        }
    }
}

/// The step of a download that has read some data. The file is read until nothing more
/// comes. A read that fails ends the download, but the file is closed before.
pub open spec fn download_step(data: Seq<u8>, state: DownloadState, event: DownloadNews) -> (
    Seq<u8>,
    DownloadState,
    DownloadMove,
) {
    match (state, event) {
        (DownloadState::Start, _) => (data, DownloadState::Opening, DownloadMove::Open),
        (DownloadState::Opening, DownloadNews::Opened(handle)) => (
            data,
            DownloadState::Reading(handle),
            DownloadMove::Read { handle, size: READ_CHUNK },
        ),
        (DownloadState::Reading(handle), DownloadNews::Chunk(c)) => if c.len() == 0 {
            (data, DownloadState::Closing(None), DownloadMove::Close(handle))
        } else {
            (
                data + c,
                DownloadState::Reading(handle),
                DownloadMove::Read { handle, size: READ_CHUNK },
            )
        },
        (DownloadState::Reading(handle), DownloadNews::Failed(e)) => (
            data,
            DownloadState::Closing(Some(e)),
            DownloadMove::Close(handle),
        ),
        (DownloadState::Closing(Some(e)), _) => (
            data,
            DownloadState::Ended,
            DownloadMove::Finish(Err(e)),
        ),
        (_, DownloadNews::Failed(e)) => (data, DownloadState::Ended, DownloadMove::Finish(Err(e))),
        _ => (Seq::empty(), DownloadState::Ended, DownloadMove::Finish(Ok(data))),
    }
}

/// A download of a whole file.
#[derive(Debug)]
pub struct Download {
    pub data: Vec<u8>,
    pub state: DownloadState,
}

impl Download {
    pub fn new() -> (d: Download)
        ensures
            d.data@ == Seq::<u8>::empty(),
            d.state == DownloadState::Start,
    {
        let data: Vec<u8> = Vec::new();
        assert(data@ =~= Seq::<u8>::empty());
        Download { data, state: DownloadState::Start }
    }

    /// What to do next.
    pub fn next(&mut self, event: DownloadEvent) -> (action: DownloadAction)
        requires
            download_expects(old(self).state, event),
        ensures
            (final(self).data@, final(self).state, action@) == download_step(
                old(self).data@,
                old(self).state,
                event@,
            ),
    {
        let mut state: DownloadState = DownloadState::Ended;
        core::mem::swap(&mut state, &mut self.state);
        match (state, event) {
            (DownloadState::Start, _) => {
                self.state = DownloadState::Opening;
                DownloadAction::Open
            },
            (DownloadState::Opening, DownloadEvent::Opened(handle)) => {
                self.state = DownloadState::Reading(handle);
                DownloadAction::Read { handle, size: READ_CHUNK }
            },
            (DownloadState::Reading(handle), DownloadEvent::Chunk(c)) => {
                put_slice(&mut self.data, c.as_slice());
                if c.len() == 0 {
                    self.state = DownloadState::Closing(None);
                    DownloadAction::Close(handle)
                } else {
                    self.state = DownloadState::Reading(handle);
                    DownloadAction::Read { handle, size: READ_CHUNK }
                }
            },
            (DownloadState::Reading(handle), DownloadEvent::Failed(e)) => {
                self.state = DownloadState::Closing(Some(e));
                DownloadAction::Close(handle)
            },
            (DownloadState::Closing(Some(e)), _) => DownloadAction::Finish(Err(e)),
            (_, DownloadEvent::Failed(e)) => DownloadAction::Finish(Err(e)),
            _ => {
                let mut data: Vec<u8> = Vec::new();
                assert(data@ =~= Seq::<u8>::empty());
                core::mem::swap(&mut data, &mut self.data);
                DownloadAction::Finish(Ok(data))
            },
        }
    }
}

/// What a download comes to from an event on, where every request succeeds, the file is
/// opened under a handle, and the chunks are what is still read before nothing more comes.
pub open spec fn downloaded(
    data: Seq<u8>,
    handle: u64,
    chunks: Seq<Seq<u8>>,
    state: DownloadState,
    event: DownloadNews,
) -> Result<Seq<u8>, Error>
    decreases
            chunks.len(),
            match (state, event) {
                (DownloadState::Start, _) => 4int,
                (DownloadState::Opening, DownloadNews::Opened(_)) => 3,
                (DownloadState::Reading(_), DownloadNews::Chunk(c)) => if c.len() == 0 {
                    2
                } else {
                    3
                },
                (DownloadState::Reading(_), _) => 2,
                (DownloadState::Opening, _) => 1,
                (DownloadState::Closing(_), _) => 1,
                (DownloadState::Ended, _) => 0,
            },
{
    let (now, after, action) = download_step(data, state, event);
    match action {
        DownloadMove::Finish(result) => result,
        DownloadMove::Open => downloaded(now, handle, chunks, after, DownloadNews::Opened(handle)),
        DownloadMove::Read { .. } => if chunks.len() == 0 {
            downloaded(now, handle, chunks, after, DownloadNews::Chunk(Seq::empty()))
        } else {
            downloaded(
                now,
                handle,
                chunks.drop_first(),
                after,
                DownloadNews::Chunk(chunks[0]),
            )
        },
        DownloadMove::Close(_) => downloaded(now, handle, chunks, after, DownloadNews::Succeeded),
    }
}

proof fn lemma_downloads_rest(
    data: Seq<u8>,
    handle: u64,
    chunks: Seq<Seq<u8>>,
    state: DownloadState,
    event: DownloadNews,
)
    requires
        forall|i: int| 0 <= i < chunks.len() ==> (#[trigger] chunks[i]).len() > 0,
        download_step(data, state, event).1 == DownloadState::Reading(handle),
    ensures
        downloaded(data, handle, chunks, state, event) == Ok::<Seq<u8>, Error>(
            download_step(data, state, event).0 + chunks.flatten(),
        ),
    decreases chunks.len(),
{
    let (now, after, action) = download_step(data, state, event);
    if chunks.len() == 0 {
        let nothing = DownloadNews::Chunk(Seq::empty());
        let closing = DownloadState::Closing(None);
        assert(chunks.flatten() =~= Seq::<u8>::empty());
        assert(now + chunks.flatten() =~= now);
        assert(downloaded(now, handle, chunks, closing, DownloadNews::Succeeded) == Ok::<
            Seq<u8>,
            Error,
        >(now));
        assert(downloaded(now, handle, chunks, after, nothing) == Ok::<Seq<u8>, Error>(now));
    } else {
        let rest = chunks.drop_first();
        assert forall|i: int| 0 <= i < rest.len() implies (#[trigger] rest[i]).len() > 0 by {
            assert(rest[i] == chunks[i + 1]);
        }
        lemma_downloads_rest(now, handle, rest, after, DownloadNews::Chunk(chunks[0]));
        assert(chunks.flatten() =~= chunks[0] + rest.flatten());
        assert((now + chunks[0]) + rest.flatten() =~= now + chunks.flatten());
    }
}

/// A download of which no request fails gives all that is read, in order, however the
/// file is cut into chunks.
pub proof fn lemma_download_reads_all(handle: u64, chunks: Seq<Seq<u8>>)
    requires
        forall|i: int| 0 <= i < chunks.len() ==> (#[trigger] chunks[i]).len() > 0,
    ensures
        downloaded(Seq::empty(), handle, chunks, DownloadState::Start, DownloadNews::Begin) == Ok::<
            Seq<u8>,
            Error,
        >(chunks.flatten()),
{
    let none = Seq::<u8>::empty();
    let opened = DownloadNews::Opened(handle);
    lemma_downloads_rest(none, handle, chunks, DownloadState::Opening, opened);
    assert(none + chunks.flatten() =~= chunks.flatten());
}

/// What a download reads is what an upload wrote, where the file holds what was sent.
pub proof fn lemma_download_gives_back_upload(
    path: Seq<char>,
    data: Seq<u8>,
    handle: u64,
    chunks: Seq<Seq<u8>>,
)
    requires
        data.len() <= usize::MAX,
        forall|i: int| 0 <= i < chunks.len() ==> (#[trigger] chunks[i]).len() > 0,
        chunks.flatten() == uploaded(
            path,
            data,
            handle,
            UploadState::Start,
            UploadEvent::Begin,
        ).0,
    ensures
        downloaded(Seq::empty(), handle, chunks, DownloadState::Start, DownloadNews::Begin) == Ok::<
            Seq<u8>,
            Error,
        >(data),
{
    lemma_upload_sends_all(path, data, handle);
    lemma_download_reads_all(handle, chunks);
}

/// The directory of a path is what stands before its last slash: behind it stands a slash
/// and no other. There is none without a slash, or where the only slash is in front.
pub proof fn lemma_directory(path: Seq<char>)
    ensures
        match directory_of(path) {
            Some(d) => {
                &&& 0 < d.len() < path.len()
                &&& path.take(d.len() as int) == d
                &&& path[d.len() as int] == '/'
                &&& forall|i: int| d.len() < i < path.len() ==> #[trigger] path[i] != '/'
            },
            None => forall|i: int| 0 < i < path.len() ==> #[trigger] path[i] != '/',
        },
{
    lemma_before_last(path, '/');
}

proof fn lemma_before_last(s: Seq<char>, c: char)
    ensures
        match before_last(s, c) {
            Some(d) => {
                &&& d.len() < s.len()
                &&& s.take(d.len() as int) == d
                &&& s[d.len() as int] == c
                &&& forall|i: int| d.len() < i < s.len() ==> #[trigger] s[i] != c
            },
            None => forall|i: int| 0 <= i < s.len() ==> #[trigger] s[i] != c,
        },
    decreases s.len(),
{
    if s.len() > 0 {
        let front = s.drop_last();
        if s.last() == c {
            assert(s.take(front.len() as int) =~= front);
        } else {
            lemma_before_last(front, c);
            match before_last(front, c) {
                Some(d) => {
                    assert(s.take(d.len() as int) =~= front.take(d.len() as int));
                    assert forall|i: int| d.len() < i < s.len() implies #[trigger] s[i] != c by {
                        if i < front.len() {
                            assert(front[i] == s[i]);
                        }
                    }
                },
                None => {
                    assert forall|i: int| 0 <= i < s.len() implies #[trigger] s[i] != c by {
                        if i < front.len() {
                            assert(front[i] == s[i]);
                        }
                    }
                },
            }
        }
    }
}

/// A chunk is 262144 bytes long, or ends where the data ends.
pub proof fn lemma_chunks(at: nat, len: nat)
    requires
        at <= len,
    ensures
        at <= chunk_end(at, len) <= len,
        chunk_end(at, len) - at <= 262144,
        chunk_end(at, len) == len || chunk_end(at, len) - at == 262144,
{
}

/// The steps of an upload: first the directory, if the path has one, and else the file is
/// opened; what failed before the file was open ends the upload; a write that fails closes
/// the file; closing ends the upload as it stood.
pub proof fn lemma_upload_steps(
    path: Seq<char>,
    len: usize,
    state: UploadState,
    event: UploadEvent,
)
    requires
        upload_expects(state, event),
        state matches UploadState::Writing { at, .. } ==> at <= len,
    ensures
        ({
            let (after, action) = upload_step(path, len, state, event);
            match (state, event) {
                (UploadState::Start, _) => match directory_of(path) {
                    Some(d) => after is Making && (action matches UploadMove::MakeDir(made) && made
                        == d),
                    None => after is Opening && action is Open,
                },
                (UploadState::Making, UploadEvent::Succeeded) => after is Opening && action is Open,
                (UploadState::Opening, UploadEvent::Opened(handle)) => {
                    &&& len == 0 ==> after == UploadState::Closing(None) && action
                        == UploadMove::Close(handle)
                    &&& len > 0 ==> (action matches UploadMove::Write { handle: h, from, to } && h
                        == handle && from == 0 && to == chunk_end(0, len as nat) && after == (
                    UploadState::Writing { handle, at: to }))
                },
                (UploadState::Writing { handle, at }, UploadEvent::Succeeded) => {
                    &&& at == len ==> after == UploadState::Closing(None) && action
                        == UploadMove::Close(handle)
                    &&& at < len ==> (action matches UploadMove::Write { handle: h, from, to } && h
                        == handle && from == at && to == chunk_end(at as nat, len as nat) && after == (
                    UploadState::Writing { handle, at: to }))
                },
                (UploadState::Writing { handle, .. }, UploadEvent::Failed(e)) => after
                    == UploadState::Closing(Some(e)) && action == UploadMove::Close(handle),
                (UploadState::Closing(Some(e)), _) => after is Ended && action
                    == UploadMove::Finish(Err(e)),
                (UploadState::Closing(None), UploadEvent::Succeeded) => after is Ended && action
                    == UploadMove::Finish(Ok(())),
                (_, UploadEvent::Failed(e)) => after is Ended && action == UploadMove::Finish(
                    Err(e),
                ),
                _ => true,
            }
        }),
{
}

/// The steps of a download: the file is opened and read in pieces of at most 4194304 bytes
/// until none come; a read that fails closes the file, and closing ends the download as it
/// stood, with all that was read or with the failure.
pub proof fn lemma_download_steps(data: Seq<u8>, handle: u64, c: Seq<u8>, e: Error, last: DownloadNews)
    ensures
        download_step(data, DownloadState::Start, DownloadNews::Begin) == (
            data,
            DownloadState::Opening,
            DownloadMove::Open,
        ),
        download_step(data, DownloadState::Opening, DownloadNews::Opened(handle)) == (
            data,
            DownloadState::Reading(handle),
            DownloadMove::Read { handle, size: 4194304 },
        ),
        c.len() > 0 ==> download_step(data, DownloadState::Reading(handle), DownloadNews::Chunk(c))
            == (data + c, DownloadState::Reading(handle), DownloadMove::Read { handle, size: 4194304 }),
        c.len() == 0 ==> download_step(data, DownloadState::Reading(handle), DownloadNews::Chunk(c))
            == (data, DownloadState::Closing(None), DownloadMove::Close(handle)),
        download_step(data, DownloadState::Reading(handle), DownloadNews::Failed(e)) == (
            data,
            DownloadState::Closing(Some(e)),
            DownloadMove::Close(handle),
        ),
        download_step(data, DownloadState::Opening, DownloadNews::Failed(e)).2
            == DownloadMove::Finish(Err(e)),
        download_step(data, DownloadState::Closing(Some(e)), last).2 == DownloadMove::Finish(Err(e)),
        download_step(data, DownloadState::Closing(None), DownloadNews::Failed(e)).2
            == DownloadMove::Finish(Err(e)),
        download_step(data, DownloadState::Closing(None), DownloadNews::Succeeded).2
            == DownloadMove::Finish(Ok(data)),
{
}

} // verus!
