use libsql_replication::frame::{encode, Frame, FrameHeader, FRAME_SIZE, PAGE_SIZE};
use libsql_replication::injector::{
    applied_outcome, flushed_outcome, Error, LibsqlInjector, WalApplier,
};

#[derive(Default)]
struct MemWal {
    applied: Vec<(u64, u32, u32)>,
    rollbacks: usize,
    flushes: usize,
    durable: Vec<u64>,
    fail_apply: bool,
    fail_flush: bool,
}

impl WalApplier for MemWal {
    fn apply_frame(&mut self, frame: Frame) -> Result<(), String> {
        if self.fail_apply {
            return Err("checksum mismatch".to_string());
        }
        self.applied.push((frame.header.frame_no, frame.header.page_no, frame.header.size_after));
        Ok(())
    }

    fn rollback(&mut self) {
        self.rollbacks += 1;
    }

    fn flush(&mut self) -> Result<(), String> {
        if self.fail_flush {
            return Err("disk full".to_string());
        }
        self.flushes += 1;
        Ok(())
    }

    fn set_durable(&mut self, frame_no: u64) {
        self.durable.push(frame_no);
    }
}

fn frame_bytes(frame_no: u64, page_no: u32, size_after: u32) -> Vec<u8> {
    encode(&Frame::new(FrameHeader { frame_no, page_no, size_after }, vec![1u8; PAGE_SIZE]))
}

#[test]
fn commit_frame_closes_transaction() {
    let mut inj = LibsqlInjector::new(MemWal::default());
    assert_eq!(inj.inject_frame(&frame_bytes(10, 1, 0)).unwrap(), None);
    assert_eq!(inj.inject_frame(&frame_bytes(11, 2, 3)).unwrap(), Some(11));
    let wal = inj.into_inner();
    assert_eq!(wal.applied, vec![(10, 1, 0), (11, 2, 3)]);
}

#[test]
fn durable_mark_never_decreases() {
    let mut inj = LibsqlInjector::new(MemWal::default());
    inj.durable_frame_no(5);
    inj.durable_frame_no(3);
    assert_eq!(inj.durable_mark(), 5);
    inj.durable_frame_no(5);
    assert_eq!(inj.durable_mark(), 5);
    inj.durable_frame_no(8);
    assert_eq!(inj.durable_mark(), 8);
    assert_eq!(inj.into_inner().durable, vec![5, 8]);
}

#[test]
fn invalid_frame_size_is_rejected_without_applying() {
    let mut inj = LibsqlInjector::new(MemWal::default());
    let short = vec![0u8; FRAME_SIZE - 2];
    assert!(matches!(inj.inject_frame(&short), Err(Error::InvalidFrameSize)));
    assert_eq!(inj.inject_frame(&frame_bytes(1, 1, 1)).unwrap(), Some(1));
    assert_eq!(inj.into_inner().applied, vec![(1, 1, 1)]);
}

#[test]
fn refused_frame_is_fatal() {
    let wal = MemWal { fail_apply: true, ..MemWal::default() };
    let mut inj = LibsqlInjector::new(wal);
    match inj.inject_frame(&frame_bytes(1, 1, 1)) {
        Err(Error::FatalInjectError(cause)) => assert_eq!(cause, "checksum mismatch"),
        other => panic!("unexpected {:?}", other),
    }
}

#[test]
fn flush_reports_last_commit_once() {
    let mut inj = LibsqlInjector::new(MemWal::default());
    assert_eq!(inj.flush().unwrap(), None);
    inj.inject_frame(&frame_bytes(4, 1, 0)).unwrap();
    inj.inject_frame(&frame_bytes(5, 2, 2)).unwrap();
    inj.inject_frame(&frame_bytes(6, 3, 0)).unwrap();
    inj.inject_frame(&frame_bytes(7, 1, 3)).unwrap();
    assert_eq!(inj.flush().unwrap(), Some(7));
    assert_eq!(inj.flush().unwrap(), None);
    assert_eq!(inj.into_inner().flushes, 3);
}

#[test]
fn failed_flush_is_fatal() {
    let wal = MemWal { fail_flush: true, ..MemWal::default() };
    let mut inj = LibsqlInjector::new(wal);
    match inj.flush() {
        Err(Error::FatalInjectError(cause)) => assert_eq!(cause, "disk full"),
        other => panic!("unexpected {:?}", other),
    }
}

#[test]
fn flushed_outcome_for_each_answer() {
    assert!(matches!(flushed_outcome(None, Ok(())), Ok(None)));
    assert!(matches!(flushed_outcome(Some(9), Ok(())), Ok(Some(9))));
    match flushed_outcome(Some(9), Err("io".to_string())) {
        Err(Error::FatalInjectError(cause)) => assert_eq!(cause, "io"),
        other => panic!("unexpected {:?}", other),
    }
}

#[test]
fn applied_outcome_for_each_answer() {
    assert!(matches!(applied_outcome(4, false, Ok(())), Ok(None)));
    assert!(matches!(applied_outcome(4, true, Ok(())), Ok(Some(4))));
    match applied_outcome(4, true, Err("bad page".to_string())) {
        Err(Error::FatalInjectError(cause)) => assert_eq!(cause, "bad page"),
        other => panic!("unexpected {:?}", other),
    }
}

#[test]
fn rollback_reaches_the_log() {
    let mut inj = LibsqlInjector::new(MemWal::default());
    inj.inject_frame(&frame_bytes(3, 1, 0)).unwrap();
    inj.rollback();
    assert_eq!(inj.flush().unwrap(), None);
    assert_eq!(inj.into_inner().rollbacks, 1);
}
