use wal_io::session::{Action, Event, Part, Strategy, WriteSession, MAX_FILE_POSITION};
use wal_io::IoError;

const ALL: [Strategy; 3] = [
    Strategy::VectoredAtomic,
    Strategy::SequentialPositional,
    Strategy::SerializedFallback,
];

/// A file held in memory, with the cursor of a duplicated handle.
struct MemFile {
    bytes: Vec<u8>,
    cursor: u64,
    /// The most bytes one write call stores (a short write stores fewer).
    max_chunk: usize,
    log: Vec<Action>,
}

impl MemFile {
    fn new(bytes: Vec<u8>, max_chunk: usize) -> MemFile {
        MemFile { bytes, cursor: 0, max_chunk, log: Vec::new() }
    }

    fn put(&mut self, position: u64, buf: &[u8]) -> usize {
        let n = buf.len().min(self.max_chunk);
        let end = position as usize + n;
        if self.bytes.len() < end {
            self.bytes.resize(end, 0);
        }
        self.bytes[position as usize..end].copy_from_slice(&buf[..n]);
        n
    }

    fn perform(&mut self, action: Action, header: &[u8], data: &[u8]) -> Event {
        self.log.push(action);
        let pick = |part: Part| match part {
            Part::Header => header,
            Part::Data => data,
        };
        match action {
            Action::Duplicate => Event::Duplicated,
            Action::Seek { position } => {
                self.cursor = position;
                Event::Sought
            }
            Action::WriteVectored { position } => {
                let mut joined = header.to_vec();
                joined.extend_from_slice(data);
                Event::Wrote(self.put(position, &joined))
            }
            Action::WriteAt { part, position } => Event::Wrote(self.put(position, pick(part))),
            Action::Write { part, from } => {
                let n = self.put(self.cursor, &pick(part)[from..]);
                self.cursor += n as u64;
                Event::Wrote(n)
            }
            Action::Finished => panic!("a finished session asks for nothing"),
        }
    }
}

/// Runs a whole session against `file`, one call at a time.
fn run(
    file: &mut MemFile,
    strategy: Strategy,
    header: &[u8],
    data: &[u8],
    offset: u64,
) -> Result<(), IoError> {
    let mut session = WriteSession::new(strategy, offset, header.len(), data.len()).unwrap();
    loop {
        let action = session.next();
        if action == Action::Finished {
            return Ok(());
        }
        let event = file.perform(action, header, data);
        assert!(session.accepts(&event));
        session = session.advance(event)?;
    }
}

fn io_error() -> std::io::Error {
    std::io::Error::new(std::io::ErrorKind::Other, "device gone")
}

#[test]
fn scenario_header_then_hello_wal_at_4096() {
    let header = [0xAAu8; 16];
    let data = b"hello-wal";
    for strategy in ALL {
        let before: Vec<u8> = (0..5000u32).map(|i| (i % 251) as u8).collect();
        let mut file = MemFile::new(before.clone(), usize::MAX);
        run(&mut file, strategy, &header, data, 4096).unwrap();
        assert!(file.bytes[4096..4112].iter().all(|b| *b == 0xAA));
        assert_eq!(&file.bytes[4112..4121], b"hello-wal");
        assert_eq!(file.bytes[4121], before[4121]);
        assert_eq!(&file.bytes[..4096], &before[..4096]);
        assert_eq!(&file.bytes[4121..], &before[4121..]);
    }
}

#[test]
fn exact_bytes_and_nothing_else_under_short_writes() {
    let header: Vec<u8> = (1..=8).collect();
    let data: Vec<u8> = (100..131).collect();
    for strategy in [Strategy::SerializedFallback] {
        for chunk in [1usize, 3, 7, 64] {
            let before = vec![0x5Cu8; 100];
            let mut file = MemFile::new(before.clone(), chunk);
            run(&mut file, strategy, &header, &data, 20).unwrap();
            assert_eq!(&file.bytes[20..28], &header[..]);
            assert_eq!(&file.bytes[28..59], &data[..]);
            assert_eq!(&file.bytes[..20], &before[..20]);
            assert_eq!(&file.bytes[59..], &before[59..]);
        }
    }
}

#[test]
fn write_past_the_end_leaves_a_zero_hole() {
    let mut file = MemFile::new(vec![7u8; 4], usize::MAX);
    run(&mut file, Strategy::SequentialPositional, &[1, 2], &[3], 10).unwrap();
    assert_eq!(file.bytes, vec![7, 7, 7, 7, 0, 0, 0, 0, 0, 0, 1, 2, 3]);
}

#[test]
fn vectored_writes_the_record_in_one_call() {
    let mut file = MemFile::new(vec![0u8; 64], usize::MAX);
    run(&mut file, Strategy::VectoredAtomic, &[9; 16], b"payload", 8).unwrap();
    assert_eq!(
        file.log,
        vec![Action::WriteVectored { position: 8 }]
    );
}

#[test]
fn sequential_writes_header_then_payload_after_it() {
    let mut file = MemFile::new(vec![0u8; 64], usize::MAX);
    run(&mut file, Strategy::SequentialPositional, &[9; 16], b"payload", 8).unwrap();
    assert_eq!(
        file.log,
        vec![
            Action::WriteAt { part: Part::Header, position: 8 },
            Action::WriteAt { part: Part::Data, position: 24 },
        ]
    );
}

#[test]
fn fallback_duplicates_seeks_then_writes_twice() {
    let mut file = MemFile::new(vec![0u8; 64], usize::MAX);
    run(&mut file, Strategy::SerializedFallback, &[9; 16], b"payload", 8).unwrap();
    assert_eq!(
        file.log,
        vec![
            Action::Duplicate,
            Action::Seek { position: 8 },
            Action::Write { part: Part::Header, from: 0 },
            Action::Write { part: Part::Data, from: 0 },
        ]
    );
}

#[test]
fn short_positional_write_is_not_taken_as_progress() {
    let vectored = WriteSession::new(Strategy::VectoredAtomic, 0, 3, 6).unwrap();
    assert_eq!(vectored.next(), Action::WriteVectored { position: 0 });
    for n in 1..9 {
        assert!(!vectored.accepts(&Event::Wrote(n)));
    }
    assert!(vectored.accepts(&Event::Wrote(9)));
    let done = vectored.advance(Event::Wrote(9)).unwrap();
    assert_eq!(done.next(), Action::Finished);

    let sequential = WriteSession::new(Strategy::SequentialPositional, 0, 3, 6).unwrap();
    assert!(!sequential.accepts(&Event::Wrote(2)));
    let after_header = sequential.advance(Event::Wrote(3)).unwrap();
    assert_eq!(after_header.next(), Action::WriteAt { part: Part::Data, position: 3 });
    assert!(!after_header.accepts(&Event::Wrote(5)));
    assert!(after_header.accepts(&Event::Wrote(6)));
}

#[test]
fn short_fallback_write_resumes_where_it_stopped() {
    let mut file = MemFile::new(Vec::new(), 2);
    run(&mut file, Strategy::SerializedFallback, &[1, 2, 3], &[4, 5, 6], 0).unwrap();
    assert_eq!(
        file.log,
        vec![
            Action::Duplicate,
            Action::Seek { position: 0 },
            Action::Write { part: Part::Header, from: 0 },
            Action::Write { part: Part::Header, from: 2 },
            Action::Write { part: Part::Data, from: 0 },
            Action::Write { part: Part::Data, from: 2 },
        ]
    );
    assert_eq!(file.bytes, vec![1, 2, 3, 4, 5, 6]);
}

#[test]
fn empty_payload_writes_the_header_only() {
    let header = [0x42u8; 16];
    for strategy in ALL {
        let mut file = MemFile::new(vec![1u8; 40], usize::MAX);
        run(&mut file, strategy, &header, &[], 4).unwrap();
        assert_eq!(&file.bytes[4..20], &header[..]);
        assert_eq!(&file.bytes[20..], &[1u8; 20][..]);
        assert!(!file.log.iter().any(|a| matches!(
            a,
            Action::WriteAt { part: Part::Data, .. } | Action::Write { part: Part::Data, .. }
        )));
    }
}

#[test]
fn empty_header_writes_the_payload_only() {
    let mut file = MemFile::new(vec![1u8; 8], usize::MAX);
    run(&mut file, Strategy::SequentialPositional, &[], &[5, 6], 2).unwrap();
    assert_eq!(file.log, vec![Action::WriteAt { part: Part::Data, position: 2 }]);
    assert_eq!(file.bytes, vec![1, 1, 5, 6, 1, 1, 1, 1]);
}

#[test]
fn empty_record_needs_no_call() {
    for strategy in ALL {
        let session = WriteSession::new(strategy, 100, 0, 0).unwrap();
        assert_eq!(session.next(), Action::Finished);
    }
}

#[test]
fn record_past_the_largest_position_is_refused() {
    assert!(WriteSession::new(Strategy::VectoredAtomic, MAX_FILE_POSITION - 10, 6, 4).is_some());
    assert!(WriteSession::new(Strategy::VectoredAtomic, MAX_FILE_POSITION - 10, 6, 5).is_none());
    assert!(WriteSession::new(Strategy::SerializedFallback, MAX_FILE_POSITION + 1, 0, 0).is_none());
    assert!(WriteSession::new(Strategy::SequentialPositional, u64::MAX, 16, 9).is_none());
}

#[test]
fn disjoint_writers_interleaved_each_land_whole() {
    let records: Vec<(u64, Vec<u8>, Vec<u8>)> = (0..4u8)
        .map(|w| (w as u64 * 20, vec![w; 6], vec![0xF0 | w; 9]))
        .collect();
    for strategy in [Strategy::VectoredAtomic, Strategy::SequentialPositional] {
        let mut file = MemFile::new(vec![0xEE; 100], usize::MAX);
        let mut sessions: Vec<Option<WriteSession>> = records
            .iter()
            .map(|(o, h, d)| WriteSession::new(strategy, *o, h.len(), d.len()))
            .collect();
        // One call of each writer in turn until all are done.
        while sessions.iter().any(|s| s.is_some()) {
            for (w, slot) in sessions.iter_mut().enumerate() {
                if let Some(session) = slot.take() {
                    let action = session.next();
                    if action != Action::Finished {
                        let (_, h, d) = &records[w];
                        let event = file.perform(action, h, d);
                        *slot = Some(session.advance(event).unwrap());
                    }
                }
            }
        }
        for (o, h, d) in &records {
            let o = *o as usize;
            assert_eq!(&file.bytes[o..o + 6], &h[..]);
            assert_eq!(&file.bytes[o + 6..o + 15], &d[..]);
            assert_eq!(&file.bytes[o + 15..o + 20], &[0xEE; 5][..]);
        }
    }
}

#[test]
fn serialized_fallback_writers_keep_header_and_payload_together() {
    let mut file = MemFile::new(vec![0u8; 60], 2);
    for w in 0..3u8 {
        let header = [0x10 + w; 4];
        let data = [0x20 + w; 6];
        run(&mut file, Strategy::SerializedFallback, &header, &data, (2 - w as u64) * 20).unwrap();
    }
    for w in 0..3u8 {
        let o = (2 - w as usize) * 20;
        assert_eq!(&file.bytes[o..o + 4], &[0x10 + w; 4][..]);
        assert_eq!(&file.bytes[o + 4..o + 10], &[0x20 + w; 6][..]);
    }
}

#[test]
fn failed_positional_write_is_reported_unix() {
    for strategy in [Strategy::VectoredAtomic, Strategy::SequentialPositional] {
        let session = WriteSession::new(strategy, 0, 16, 9).unwrap();
        let event = Event::WriteFailed(nix::errno::Errno::ENOSPC);
        assert!(session.accepts(&event));
        match session.advance(event) {
            Err(IoError::FailedToWriteDataUnix { source }) => {
                assert_eq!(source, nix::errno::Errno::ENOSPC)
            }
            other => panic!("unexpected {:?}", other.map(|s| s.next())),
        }
    }
}

#[test]
fn failed_payload_write_after_header_is_reported_unix() {
    let session = WriteSession::new(Strategy::SequentialPositional, 0, 16, 9).unwrap();
    let session = session.advance(Event::Wrote(16)).unwrap();
    assert_eq!(session.next(), Action::WriteAt { part: Part::Data, position: 16 });
    assert!(matches!(
        session.advance(Event::WriteFailed(nix::errno::Errno::EIO)),
        Err(IoError::FailedToWriteDataUnix { source: nix::errno::Errno::EIO })
    ));
}

#[test]
fn failed_duplicate_is_reported_clone() {
    let session = WriteSession::new(Strategy::SerializedFallback, 0, 16, 9).unwrap();
    assert!(matches!(
        session.advance(Event::IoFailed(io_error())),
        Err(IoError::FailedToCloneFile { .. })
    ));
}

#[test]
fn failed_seek_is_reported_seek() {
    let session = WriteSession::new(Strategy::SerializedFallback, 0, 16, 9).unwrap();
    let session = session.advance(Event::Duplicated).unwrap();
    assert!(matches!(
        session.advance(Event::IoFailed(io_error())),
        Err(IoError::FailedToSeek { .. })
    ));
}

#[test]
fn failed_fallback_write_is_reported_other() {
    for header_written in [false, true] {
        let session = WriteSession::new(Strategy::SerializedFallback, 0, 16, 9).unwrap();
        let mut session =
            session.advance(Event::Duplicated).unwrap().advance(Event::Sought).unwrap();
        if header_written {
            session = session.advance(Event::Wrote(16)).unwrap();
        }
        assert!(matches!(
            session.advance(Event::IoFailed(io_error())),
            Err(IoError::FailedToWriteDataOther { .. })
        ));
    }
}

#[test]
fn outcomes_that_do_not_fit_the_action_are_not_accepted() {
    let session = WriteSession::new(Strategy::SequentialPositional, 0, 16, 9).unwrap();
    assert!(!session.accepts(&Event::Wrote(0)));
    assert!(!session.accepts(&Event::Wrote(17)));
    assert!(session.accepts(&Event::Wrote(16)));
    assert!(!session.accepts(&Event::Duplicated));
    assert!(!session.accepts(&Event::Sought));
    assert!(!session.accepts(&Event::IoFailed(io_error())));
    let vectored = WriteSession::new(Strategy::VectoredAtomic, 0, 16, 9).unwrap();
    assert!(vectored.accepts(&Event::Wrote(25)));
    assert!(!vectored.accepts(&Event::Wrote(26)));
    let fallback = WriteSession::new(Strategy::SerializedFallback, 0, 16, 9).unwrap();
    assert!(!fallback.accepts(&Event::Wrote(1)));
    assert!(!fallback.accepts(&Event::WriteFailed(nix::errno::Errno::EIO)));
    assert_eq!(fallback.strategy(), Strategy::SerializedFallback);
}

#[test]
fn disjoint_records_in_any_order_give_one_file() {
    let records: Vec<(u64, Vec<u8>, Vec<u8>)> =
        vec![(0, vec![1; 4], vec![2; 3]), (30, vec![3; 4], vec![4; 5]), (12, vec![5; 4], vec![])];
    let mut results = Vec::new();
    for order in [[0usize, 1, 2], [2, 0, 1], [1, 2, 0]] {
        let mut file = MemFile::new(vec![0x77; 20], usize::MAX);
        for k in order {
            let (o, h, d) = &records[k];
            run(&mut file, Strategy::SequentialPositional, h, d, *o).unwrap();
        }
        results.push(file.bytes);
    }
    assert_eq!(results[0], results[1]);
    assert_eq!(results[0], results[2]);
    assert_eq!(results[0].len(), 39);
    assert_eq!(&results[0][16..30], &[0x77, 0x77, 0x77, 0x77, 0, 0, 0, 0, 0, 0, 0, 0, 0, 0][..]);
}
