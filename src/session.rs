//! The decisions of one record write: which system call comes next, and what
//! each outcome means. The caller performs the calls and hands back what they
//! returned; the session never touches a file itself.
use vstd::prelude::*;

use crate::error::IoError;
use crate::image::{lemma_write_exact, lemma_write_in_pieces, lemma_write_untouched, write_at};

verus! {

/// The largest file position a positional write can name (`off_t` is signed).
pub const MAX_FILE_POSITION: u64 = 0x7fff_ffff_ffff_ffff;

/// How a platform class writes a record.
#[derive(Clone, Copy, Debug, PartialEq, Eq, Structural)]
pub enum Strategy {
    /// One positional vectored write of header and payload together.
    VectoredAtomic,
    /// A positional write of the header, then one of the payload.
    SequentialPositional,
    /// Under a process-wide lock: duplicate the handle, seek it to the offset,
    /// then write the header and the payload through it.
    SerializedFallback,
}

/// Which of the two buffers a single-buffer write takes its bytes from.
#[derive(Clone, Copy, Debug, PartialEq, Eq, Structural)]
pub enum Part {
    Header,
    Data,
}

/// Where a session stands.
#[derive(Clone, Copy, Debug, PartialEq, Eq, Structural)]
pub enum Stage {
    Duplicate,
    Seek,
    Write,
    Finished,
}

/// The next thing the caller does.
#[derive(Clone, Copy, Debug, PartialEq, Eq, Structural)]
pub enum Action {
    /// Duplicate the file handle.
    Duplicate,
    /// Seek the duplicate to `position`.
    Seek { position: u64 },
    /// One positional vectored write at `position` of the whole header
    /// followed by the whole payload.
    WriteVectored { position: u64 },
    /// One positional write at `position` of the whole of `part`.
    WriteAt { part: Part, position: u64 },
    /// One write of `part[from..]` through the duplicate, at its cursor.
    Write { part: Part, from: usize },
    /// The record is in place: report success.
    Finished,
}

/// What the call that an [`Action`] asked for returned.
pub enum Event {
    /// The handle was duplicated.
    Duplicated,
    /// The duplicate now stands at the position asked for.
    Sought,
    /// A write stored this many bytes, counted from the start of what it was
    /// handed.
    Wrote(usize),
    /// A positional write failed.
    WriteFailed(nix::errno::Errno),
    /// A call through std's file handle failed.
    IoFailed(std::io::Error),
}

/// The mathematical state of a [`WriteSession`].
pub struct SessionState {
    pub strategy: Strategy,
    pub offset: int,
    pub header_len: int,
    pub data_len: int,
    pub stage: Stage,
    /// How many bytes of header-then-payload are known to be in place.
    pub progress: int,
}

/// The bytes of a record: the header, then the payload.
pub open spec fn record(header: Seq<u8>, data: Seq<u8>) -> Seq<u8> {
    header + data
}

/// How many bytes the record of a session has.
pub open spec fn record_len(v: SessionState) -> int {
    v.header_len + v.data_len
}

/// A session is well formed: the whole record lies within the positions a
/// write can name, progress stays within the record, and the stage agrees
/// with the strategy and the progress.
pub open spec fn well_formed(v: SessionState) -> bool {
    &&& 0 <= v.offset
    &&& 0 <= v.header_len
    &&& 0 <= v.data_len
    &&& v.offset + record_len(v) <= MAX_FILE_POSITION
    &&& record_len(v) <= usize::MAX
    &&& 0 <= v.progress <= record_len(v)
    &&& (v.stage == Stage::Finished <==> v.progress == record_len(v))
    &&& (v.stage == Stage::Duplicate || v.stage == Stage::Seek) ==> (v.strategy
        == Strategy::SerializedFallback && v.progress == 0)
    &&& v.strategy == Strategy::VectoredAtomic ==> (v.progress == 0 || v.progress == record_len(
        v,
    ))
    &&& v.strategy == Strategy::SequentialPositional ==> (v.progress == 0 || v.progress
        == v.header_len || v.progress == record_len(v))
}

/// Where the bytes of the next write end in the record: the vectored
/// strategy writes the record in one call, the others write the (rest of
/// the) header first, then the (rest of the) payload. An empty part is never
/// written.
pub open spec fn segment_end(v: SessionState) -> int {
    if v.strategy == Strategy::VectoredAtomic || v.progress >= v.header_len {
        record_len(v)
    } else {
        v.header_len
    }
}

/// The bytes that the next write is asked to store.
pub open spec fn pending(v: SessionState, header: Seq<u8>, data: Seq<u8>) -> Seq<u8> {
    record(header, data).subrange(v.progress, segment_end(v))
}

/// The buffer that the next single-buffer write takes its bytes from.
pub open spec fn part_at(v: SessionState) -> Part {
    if v.progress < v.header_len {
        Part::Header
    } else {
        Part::Data
    }
}

/// Where in that buffer the next single-buffer write starts.
pub open spec fn from_in_part(v: SessionState) -> int {
    if v.progress < v.header_len {
        v.progress
    } else {
        v.progress - v.header_len
    }
}

/// The action that a session in state `v` asks for.
pub open spec fn next_action(v: SessionState) -> Action {
    match v.stage {
        Stage::Duplicate => Action::Duplicate,
        Stage::Seek => Action::Seek { position: v.offset as u64 },
        Stage::Finished => Action::Finished,
        Stage::Write => match v.strategy {
            Strategy::VectoredAtomic => Action::WriteVectored { position: v.offset as u64 },
            Strategy::SequentialPositional => Action::WriteAt {
                part: part_at(v),
                position: (v.offset + v.progress) as u64,
            },
            Strategy::SerializedFallback => Action::Write {
                part: part_at(v),
                from: from_in_part(v) as usize,
            },
        },
    }
}

/// The bytes of buffer `part`.
pub open spec fn part_bytes(part: Part, header: Seq<u8>, data: Seq<u8>) -> Seq<u8> {
    match part {
        Part::Header => header,
        Part::Data => data,
    }
}

/// The bytes that action `a` hands to its write call.
pub open spec fn action_bytes(a: Action, header: Seq<u8>, data: Seq<u8>) -> Seq<u8> {
    match a {
        Action::WriteVectored { .. } => header + data,
        Action::WriteAt { part, .. } => part_bytes(part, header, data),
        Action::Write { part, from } => part_bytes(part, header, data).subrange(
            from as int,
            part_bytes(part, header, data).len() as int,
        ),
        _ => Seq::empty(),
    }
}

/// Whether `e` can be the outcome of the action that state `v` asks for. A
/// positional write counts only when it stored all it was handed: the
/// request is made once, and a short one is a failure. Only a write through
/// the duplicate may store part of its bytes and be followed by another.
pub open spec fn accepts(v: SessionState, e: Event) -> bool {
    match e {
        Event::Duplicated => v.stage == Stage::Duplicate,
        Event::Sought => v.stage == Stage::Seek,
        Event::Wrote(n) => v.stage == Stage::Write && 0 < n <= segment_end(v) - v.progress && (
        v.strategy == Strategy::SerializedFallback || n == segment_end(v) - v.progress),
        Event::WriteFailed(_) => v.stage == Stage::Write && v.strategy
            != Strategy::SerializedFallback,
        Event::IoFailed(_) => v.strategy == Strategy::SerializedFallback && v.stage
            != Stage::Finished,
    }
}

/// The state after `n` more bytes are in place.
pub open spec fn advanced_by(v: SessionState, n: int) -> SessionState {
    SessionState {
        progress: v.progress + n,
        stage: if v.progress + n == record_len(v) {
            Stage::Finished
        } else {
            Stage::Write
        },
        ..v
    }
}

/// What outcome `e` of the action asked for in state `v` leads to: the next
/// state, or the error that ends the write. No failure is retried.
pub open spec fn outcome(v: SessionState, e: Event) -> Result<SessionState, IoError> {
    match e {
        Event::Duplicated => Ok(SessionState { stage: Stage::Seek, ..v }),
        Event::Sought => Ok(SessionState { stage: Stage::Write, ..v }),
        Event::Wrote(n) => Ok(advanced_by(v, n as int)),
        Event::WriteFailed(source) => Err(IoError::FailedToWriteDataUnix { source }),
        Event::IoFailed(source) => Err(
            match v.stage {
                Stage::Duplicate => IoError::FailedToCloneFile { source },
                Stage::Seek => IoError::FailedToSeek { source },
                _ => IoError::FailedToWriteDataOther { source },
            },
        ),
    }
}

/// One write of a record, from its first system call to its result.
pub struct WriteSession {
    strategy: Strategy,
    offset: u64,
    header_len: usize,
    data_len: usize,
    stage: Stage,
    progress: usize,
}

impl View for WriteSession {
    type V = SessionState;

    closed spec fn view(&self) -> SessionState {
        SessionState {
            strategy: self.strategy,
            offset: self.offset as int,
            header_len: self.header_len as int,
            data_len: self.data_len as int,
            stage: self.stage,
            progress: self.progress as int,
        }
    }
}

impl WriteSession {
    /// Starts the write of a record of `header_len` header bytes and
    /// `data_len` payload bytes at `offset`. `None` where the record would
    /// reach past [`MAX_FILE_POSITION`], or where its length does not fit in
    /// a `usize` (it then cannot be held in memory either). A record with no bytes is finished
    /// at once; otherwise the fallback strategy first duplicates the handle
    /// and the others write straight away.
    pub fn new(strategy: Strategy, offset: u64, header_len: usize, data_len: usize) -> (r: Option<
        WriteSession,
    >)
        ensures
            r is Some <==> offset + header_len + data_len <= MAX_FILE_POSITION && header_len
                + data_len <= usize::MAX,
            r matches Some(s) ==> {
                &&& well_formed(s@)
                &&& s@.strategy == strategy
                &&& s@.offset == offset
                &&& s@.header_len == header_len
                &&& s@.data_len == data_len
                &&& s@.progress == 0
                &&& s@.stage == (if header_len + data_len == 0 {
                    Stage::Finished
                } else if strategy == Strategy::SerializedFallback {
                    Stage::Duplicate
                } else {
                    Stage::Write
                })
            },
    {
        if offset > MAX_FILE_POSITION {
            return None;
        }
        let room = MAX_FILE_POSITION - offset;
        if header_len as u64 > room || data_len as u64 > room - header_len as u64 {
            return None;
        }
        if data_len > usize::MAX - header_len {
            return None;
        }
        let stage = if header_len == 0 && data_len == 0 {
            Stage::Finished
        } else if strategy == Strategy::SerializedFallback {
            Stage::Duplicate
        } else {
            Stage::Write
        };
        Some(WriteSession { strategy, offset, header_len, data_len, stage, progress: 0 })
    }

    /// The strategy this session writes with.
    pub fn strategy(&self) -> (r: Strategy)
        ensures
            r == self@.strategy,
    {
        self.strategy
    }

    /// The action that comes next.
    pub fn next(&self) -> (r: Action)
        requires
            well_formed(self@),
        ensures
            r == next_action(self@),
    {
        match self.stage {
            Stage::Duplicate => Action::Duplicate,
            Stage::Seek => Action::Seek { position: self.offset },
            Stage::Finished => Action::Finished,
            Stage::Write => {
                let in_header = self.progress < self.header_len;
                let part = if in_header {
                    Part::Header
                } else {
                    Part::Data
                };
                let from = if in_header {
                    self.progress
                } else {
                    self.progress - self.header_len
                };
                match self.strategy {
                    Strategy::VectoredAtomic => Action::WriteVectored { position: self.offset },
                    Strategy::SequentialPositional => Action::WriteAt {
                        part,
                        position: self.offset + self.progress as u64,
                    },
                    Strategy::SerializedFallback => Action::Write { part, from },
                }
            },
        }
    }

    /// Whether `event` can be the outcome of the action that comes next.
    pub fn accepts(&self, event: &Event) -> (r: bool)
        requires
            well_formed(self@),
        ensures
            r == accepts(self@, *event),
    {
        match event {
            Event::Duplicated => self.stage == Stage::Duplicate,
            Event::Sought => self.stage == Stage::Seek,
            Event::Wrote(n) => {
                let end = if self.strategy == Strategy::VectoredAtomic || self.progress
                    >= self.header_len {
                    self.header_len + self.data_len
                } else {
                    self.header_len
                };
                self.stage == Stage::Write && 0 < *n && *n <= end - self.progress && (
                self.strategy == Strategy::SerializedFallback || *n == end - self.progress)
            },
            Event::WriteFailed(_) => self.stage == Stage::Write && self.strategy
                != Strategy::SerializedFallback,
            Event::IoFailed(_) => self.strategy == Strategy::SerializedFallback && self.stage
                != Stage::Finished,
        }
    }

    /// Takes in the outcome of the action that came next: the session moves
    /// on, or the write ends with the error that names the failed step.
    pub fn advance(self, event: Event) -> (r: Result<WriteSession, IoError>)
        requires
            well_formed(self@),
            accepts(self@, event),
        ensures
            r matches Ok(s) ==> well_formed(s@) && outcome(self@, event) == Ok::<
                SessionState,
                IoError,
            >(s@),
            r matches Err(e) ==> outcome(self@, event) == Err::<SessionState, IoError>(e),
    {
        match event {
            Event::Duplicated => Ok(WriteSession { stage: Stage::Seek, ..self }),
            Event::Sought => Ok(WriteSession { stage: Stage::Write, ..self }),
            Event::Wrote(n) => {
                let progress = self.progress + n;
                let stage = if progress == self.header_len + self.data_len {
                    Stage::Finished
                } else {
                    Stage::Write
                };
                Ok(WriteSession { progress, stage, ..self })
            },
            Event::WriteFailed(source) => Err(IoError::FailedToWriteDataUnix { source }),
            Event::IoFailed(source) => Err(
                match self.stage {
                    Stage::Duplicate => IoError::FailedToCloneFile { source },
                    Stage::Seek => IoError::FailedToSeek { source },
                    _ => IoError::FailedToWriteDataOther { source },
                },
            ),
        }
    }
}

/// The bytes of the record already in place in a file that held `file`
/// before the session began.
pub open spec fn image(v: SessionState, file: Seq<u8>, header: Seq<u8>, data: Seq<u8>) -> Seq<u8> {
    write_at(file, v.offset, record(header, data).take(v.progress))
}

/// Each write that a session asks for hands over exactly the bytes still
/// pending in its segment, never none, and a positional one names the place
/// where they belong: the offset plus what is already in place. (A write
/// through the duplicate lands at its cursor, which the seek put at the
/// offset and each write moved on by what it stored: the same place.)
pub proof fn lemma_next_writes_pending(v: SessionState, header: Seq<u8>, data: Seq<u8>)
    requires
        well_formed(v),
        v.stage == Stage::Write,
        header.len() == v.header_len,
        data.len() == v.data_len,
    ensures
        action_bytes(next_action(v), header, data) == pending(v, header, data),
        pending(v, header, data).len() > 0,
        next_action(v) matches Action::WriteVectored { position } ==> position == v.offset
            + v.progress,
        next_action(v) matches Action::WriteAt { position, .. } ==> position == v.offset
            + v.progress,
{
    let r = record(header, data);
    assert(action_bytes(next_action(v), header, data) =~= r.subrange(v.progress, segment_end(v)));
}

/// A write that stored the first `n` pending bytes at their place leaves the
/// file as the state after those `n` bytes describes: writing a record in
/// several calls, each taking up where the last stopped, gives the same bytes
/// as writing it in one.
pub proof fn lemma_write_advances_image(
    v: SessionState,
    file: Seq<u8>,
    header: Seq<u8>,
    data: Seq<u8>,
    n: int,
)
    requires
        well_formed(v),
        v.stage == Stage::Write,
        header.len() == v.header_len,
        data.len() == v.data_len,
        0 < n <= segment_end(v) - v.progress,
        v.strategy == Strategy::SerializedFallback || n == segment_end(v) - v.progress,
    ensures
        write_at(image(v, file, header, data), v.offset + v.progress, pending(v, header, data).take(n))
            == image(advanced_by(v, n), file, header, data),
        well_formed(advanced_by(v, n)),
{
    let r = record(header, data);
    let done = r.take(v.progress);
    let more = pending(v, header, data).take(n);
    lemma_write_in_pieces(file, v.offset, done, more);
    assert(done + more =~= r.take(v.progress + n));
}

/// Once a session has finished, the file holds the header at the offset and
/// the payload right after it, and every byte outside that range is what it
/// was before. A record of no bytes leaves the file as it was.
pub proof fn lemma_finished_record_in_place(
    v: SessionState,
    file: Seq<u8>,
    header: Seq<u8>,
    data: Seq<u8>,
)
    requires
        well_formed(v),
        v.stage == Stage::Finished,
        header.len() == v.header_len,
        data.len() == v.data_len,
    ensures
        header.len() + data.len() > 0 ==> {
            &&& image(v, file, header, data).len() >= v.offset + header.len() + data.len()
            &&& image(v, file, header, data).subrange(v.offset, v.offset + header.len())
                == header
            &&& image(v, file, header, data).subrange(
                v.offset + header.len(),
                v.offset + header.len() + data.len(),
            ) == data
        },
        header.len() + data.len() == 0 ==> image(v, file, header, data) == file,
        image(v, file, header, data).len() >= file.len(),
        forall|i: int|
            0 <= i < file.len() && !(v.offset <= i < v.offset + header.len() + data.len())
                ==> #[trigger] image(v, file, header, data)[i] == file[i],
{
    let r = record(header, data);
    assert(r.take(v.progress) =~= r);
    let img = image(v, file, header, data);
    if r.len() > 0 {
        lemma_write_exact(file, v.offset, r);
        assert(img.subrange(v.offset, v.offset + header.len()) =~= r.subrange(
            0,
            header.len() as int,
        ));
        assert(img.subrange(v.offset + header.len(), v.offset + header.len() + data.len())
            =~= r.subrange(header.len() as int, r.len() as int));
    } else {
        assert(img =~= file);
    }
    assert forall|i: int|
        0 <= i < file.len() && !(v.offset <= i < v.offset + header.len() + data.len()) implies #[trigger] img[i]
            == file[i] by {
        lemma_write_untouched(file, v.offset, r, i);
    }
}

/// The file after the outcome `e` of the action that state `v` asks for: a
/// write that stored `n` bytes put the first `n` bytes it was handed where
/// the record has reached; nothing else touches the file.
pub open spec fn file_after(v: SessionState, file: Seq<u8>, header: Seq<u8>, data: Seq<u8>, e: Event) -> Seq<u8> {
    match e {
        Event::Wrote(n) => write_at(
            file,
            v.offset + v.progress,
            action_bytes(next_action(v), header, data).take(n as int),
        ),
        _ => file,
    }
}

/// Whether each of `events` is an outcome that the state it meets accepts,
/// and none of them but perhaps the last ends the write.
pub open spec fn accepted_run(v: SessionState, events: Seq<Event>) -> bool
    decreases events.len(),
{
    events.len() == 0 || (accepts(v, events[0]) && match outcome(v, events[0]) {
        Ok(w) => accepted_run(w, events.drop_first()),
        Err(_) => events.len() == 1,
    })
}

/// The state and the file contents after the outcomes `events`, taken in
/// turn from state `v` and contents `file`. A failure leaves both as they
/// were before the failed call.
pub open spec fn replay(
    v: SessionState,
    file: Seq<u8>,
    header: Seq<u8>,
    data: Seq<u8>,
    events: Seq<Event>,
) -> (SessionState, Seq<u8>)
    decreases events.len(),
{
    if events.len() == 0 {
        (v, file)
    } else {
        match outcome(v, events[0]) {
            Ok(w) => replay(
                w,
                file_after(v, file, header, data, events[0]),
                header,
                data,
                events.drop_first(),
            ),
            Err(_) => (v, file),
        }
    }
}

/// Along any accepted run, finished or ended by a failure, the file holds
/// exactly the part of the record that the session counts as in place, laid
/// over what it held before.
pub proof fn lemma_replay_keeps_image(
    v: SessionState,
    file: Seq<u8>,
    header: Seq<u8>,
    data: Seq<u8>,
    events: Seq<Event>,
)
    requires
        well_formed(v),
        header.len() == v.header_len,
        data.len() == v.data_len,
        accepted_run(v, events),
    ensures
        well_formed(replay(v, image(v, file, header, data), header, data, events).0),
        replay(v, image(v, file, header, data), header, data, events).1 == image(
            replay(v, image(v, file, header, data), header, data, events).0,
            file,
            header,
            data,
        ),
        replay(v, image(v, file, header, data), header, data, events).0.offset == v.offset,
        replay(v, image(v, file, header, data), header, data, events).0.header_len
            == v.header_len,
        replay(v, image(v, file, header, data), header, data, events).0.data_len == v.data_len,
    decreases events.len(),
{
    if events.len() > 0 {
        let e = events[0];
        if let Ok(w) = outcome(v, e) {
            if let Event::Wrote(n) = e {
                lemma_next_writes_pending(v, header, data);
                lemma_write_advances_image(v, file, header, data, n as int);
            }
            assert(file_after(v, image(v, file, header, data), header, data, e) == image(
                w,
                file,
                header,
                data,
            ));
            lemma_replay_keeps_image(w, file, header, data, events.drop_first());
        }
    }
}

/// Any accepted run of a new session, whether it finished or a call failed,
/// leaves the file as the record's first `progress` bytes written at the
/// offset: no byte outside the record's range changes, and the file never
/// shrinks.
pub proof fn lemma_any_run_in_range(
    v: SessionState,
    file: Seq<u8>,
    header: Seq<u8>,
    data: Seq<u8>,
    events: Seq<Event>,
)
    requires
        well_formed(v),
        v.progress == 0,
        header.len() == v.header_len,
        data.len() == v.data_len,
        accepted_run(v, events),
    ensures
        ({
            let (w, after) = replay(v, file, header, data, events);
            &&& well_formed(w)
            &&& w.offset == v.offset && w.header_len == v.header_len && w.data_len == v.data_len
            &&& after == write_at(file, v.offset, record(header, data).take(w.progress))
            &&& after.len() >= file.len()
            &&& forall|i: int|
                0 <= i < file.len() && !(v.offset <= i < v.offset + header.len() + data.len())
                    ==> #[trigger] after[i] == file[i]
        }),
{
    assert(record(header, data).take(0) =~= Seq::<u8>::empty());
    assert(image(v, file, header, data) =~= file);
    lemma_replay_keeps_image(v, file, header, data, events);
    let (w, after) = replay(v, file, header, data, events);
    let done = record(header, data).take(w.progress);
    assert forall|i: int|
        0 <= i < file.len() && !(v.offset <= i < v.offset + header.len() + data.len()) implies #[trigger] after[i]
            == file[i] by {
        lemma_write_untouched(file, v.offset, done, i);
    }
}

/// A write that runs from a new session to its end, each call's outcome
/// accepted, leaves the file as `header + data` written at the offset: the
/// header at the offset, the payload right after it, every other byte as it
/// was, and the file as long as the longer of its old length and the
/// record's end (a record of no bytes changes nothing).
pub proof fn lemma_successful_run_in_place(
    v: SessionState,
    file: Seq<u8>,
    header: Seq<u8>,
    data: Seq<u8>,
    events: Seq<Event>,
)
    requires
        well_formed(v),
        v.progress == 0,
        header.len() == v.header_len,
        data.len() == v.data_len,
        accepted_run(v, events),
        replay(v, file, header, data, events).0.stage == Stage::Finished,
    ensures
        ({
            let after = replay(v, file, header, data, events).1;
            let end = v.offset + header.len() + data.len();
            &&& after == write_at(file, v.offset, header + data)
            &&& forall|i: int| 0 <= i < header.len() ==> #[trigger] after[v.offset + i] == header[i]
            &&& forall|i: int|
                0 <= i < data.len() ==> #[trigger] after[v.offset + header.len() + i] == data[i]
            &&& forall|i: int|
                0 <= i < file.len() && !(v.offset <= i < end) ==> #[trigger] after[i] == file[i]
            &&& header.len() + data.len() > 0 ==> {
                &&& after.len() == (if end > file.len() {
                    end
                } else {
                    file.len() as int
                })
                &&& after.subrange(v.offset, v.offset + header.len()) == header
                &&& after.subrange(v.offset + header.len(), end) == data
            }
            &&& header.len() + data.len() == 0 ==> after == file
        }),
{
    lemma_any_run_in_range(v, file, header, data, events);
    let w = replay(v, file, header, data, events).0;
    assert(record(header, data).take(w.progress) =~= header + data);
    lemma_finished_record_in_place(w, file, header, data);
}

/// With an empty payload only the header is written: no single-buffer write
/// of the payload is asked for, and a vectored write hands over the header
/// alone.
pub proof fn lemma_empty_payload_writes_header_only(v: SessionState, header: Seq<u8>, data: Seq<u8>)
    requires
        well_formed(v),
        v.data_len == 0,
        v.stage == Stage::Write,
        header.len() == v.header_len,
        data.len() == 0,
    ensures
        next_action(v) matches Action::WriteAt { part, .. } ==> part == Part::Header,
        next_action(v) matches Action::Write { part, .. } ==> part == Part::Header,
        next_action(v) is WriteVectored ==> action_bytes(next_action(v), header, data) == header,
        pending(v, header, data) == header.subrange(v.progress, header.len() as int),
        advanced_by(v, header.len() - v.progress).stage == Stage::Finished,
{
    assert(pending(v, header, data) =~= header.subrange(v.progress, header.len() as int));
    assert(header + data =~= header);
}

/// The positional strategies make each request once, with whole buffers:
/// the vectored one writes header and payload in one call at the offset, and
/// the sequential one writes the header at the offset and then the payload at
/// the offset plus the header's length. Only a call that stored all it was
/// handed counts, and a failed call ends the write.
pub proof fn lemma_positional_calls(v: SessionState, e: nix::errno::Errno)
    requires
        well_formed(v),
        v.progress == 0,
        v.stage == Stage::Write,
        v.strategy != Strategy::SerializedFallback,
    ensures
        outcome(v, Event::WriteFailed(e)) is Err,
        v.strategy == Strategy::VectoredAtomic ==> {
            &&& next_action(v) == Action::WriteVectored { position: v.offset as u64 }
            &&& forall|n: usize|
                #[trigger] accepts(v, Event::Wrote(n)) ==> n == record_len(v) && advanced_by(
                    v,
                    n as int,
                ).stage == Stage::Finished
        },
        v.strategy == Strategy::SequentialPositional && v.header_len > 0 ==> {
            &&& next_action(v) == Action::WriteAt { part: Part::Header, position: v.offset as u64 }
            &&& forall|n: usize| #[trigger]
                accepts(v, Event::Wrote(n)) ==> {
                    let w = advanced_by(v, n as int);
                    &&& n == v.header_len
                    &&& v.data_len == 0 ==> w.stage == Stage::Finished
                    &&& v.data_len > 0 ==> next_action(w) == Action::WriteAt {
                        part: Part::Data,
                        position: (v.offset + v.header_len) as u64,
                    }
                    &&& v.data_len > 0 ==> forall|m: usize| #[trigger]
                        accepts(w, Event::Wrote(m)) ==> m == v.data_len && advanced_by(
                            w,
                            m as int,
                        ).stage == Stage::Finished
                }
        },
        v.strategy == Strategy::SequentialPositional && v.header_len == 0 ==> {
            &&& next_action(v) == Action::WriteAt { part: Part::Data, position: v.offset as u64 }
            &&& forall|n: usize| #[trigger]
                accepts(v, Event::Wrote(n)) ==> n == v.data_len && advanced_by(
                    v,
                    n as int,
                ).stage == Stage::Finished
        },
{
}

} // verus!
