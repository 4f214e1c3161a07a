use crate::frame::{decode, frame_of, Frame, FrameError, FrameNo, FRAME_SIZE};
use vstd::prelude::*;

verus! {

/// Errors of the injector adapter.
#[derive(Clone, Debug)]
pub enum Error {
    /// The inbound buffer is not exactly one frame long; nothing was applied.
    InvalidFrameSize,
    /// The local log refused or failed to apply a frame. The session cannot
    /// go on without a fresh resync.
    FatalInjectError(String),
}

/// The local write-ahead log that frames are applied to.
pub trait WalApplier {
    /// Appends one frame; a frame with a nonzero `size_after` commits the
    /// transaction it closes. Returns the cause on failure.
    fn apply_frame(&mut self, frame: Frame) -> Result<(), String>;

    /// Drops the frames appended since the last commit.
    fn rollback(&mut self);

    /// Makes the committed frames durable. Returns the cause on failure.
    fn flush(&mut self) -> Result<(), String>;

    /// Records that frames up to `frame_no` are already durable elsewhere.
    fn set_durable(&mut self, frame_no: FrameNo);
}

/// What the adapter knows of the log it feeds.
pub struct InjectorState {
    /// Highest frame known to be durable upstream.
    pub durable: u64,
    /// Highest commit frame applied since the last flush.
    pub committed: Option<u64>,
    /// Whether frames have been applied since the last commit boundary.
    pub open_txn: bool,
}

/// The commit frame number that an applied frame yields: its own number when
/// it closes a transaction.
pub open spec fn commit_of(frame: (crate::frame::FrameHeader, Seq<u8>)) -> Option<u64> {
    if frame.0.size_after != 0 {
        Some(frame.0.frame_no)
    } else {
        None
    }
}

/// Validates inbound frames and applies them to a local log, keeping track of
/// commit boundaries and of the durable mark.
pub struct LibsqlInjector<W> {
    injector: W,
    durable: u64,
    committed: Option<u64>,
    open_txn: bool,
}

impl<W: WalApplier> LibsqlInjector<W> {
    pub closed spec fn state(&self) -> InjectorState {
        InjectorState { durable: self.durable, committed: self.committed, open_txn: self.open_txn }
    }

    pub closed spec fn applier(&self) -> W {
        self.injector
    }

    pub fn new(injector: W) -> (r: Self)
        ensures
            r.state() == (InjectorState { durable: 0, committed: None, open_txn: false }),
            r.applier() == injector,
    {
        LibsqlInjector { injector, durable: 0, committed: None, open_txn: false }
    }

    /// Decodes one inbound frame and applies it. Returns the frame number when
    /// the frame closes a transaction, `None` while the transaction is open.
    /// A buffer of the wrong size is rejected and changes nothing.
    pub fn inject_frame(&mut self, bytes: &[u8]) -> (r: Result<Option<FrameNo>, Error>)
        ensures
            bytes@.len() != FRAME_SIZE <==> r matches Err(Error::InvalidFrameSize),
            bytes@.len() != FRAME_SIZE ==> *final(self) == *old(self),
            bytes@.len() == FRAME_SIZE && r is Err ==> (r matches Err(Error::FatalInjectError(_))),
            r is Err ==> final(self).state() == old(self).state(),
            r matches Ok(c) ==> c == commit_of(frame_of(bytes@)) && final(self).state() == (
            InjectorState {
                durable: old(self).state().durable,
                committed: if c is Some {
                    c
                } else {
                    old(self).state().committed
                },
                open_txn: c is None,
            }),
    {
        let frame = match decode(bytes) {
            Ok(f) => f,
            Err(FrameError::InvalidFrameSize) => {
                return Err(Error::InvalidFrameSize);
            },
        };
        let frame_no = frame.header.frame_no;
        let commit = frame.header.size_after != 0;
        let applied = self.injector.apply_frame(frame);
        let r = applied_outcome(frame_no, commit, applied);
        if let Ok(c) = r {
            if commit {
                self.committed = c;
            }
            self.open_txn = !commit;
        }
        r
    }

    /// Drops the frames applied since the last commit boundary.
    pub fn rollback(&mut self)
        ensures
            final(self).state() == (InjectorState { open_txn: false, ..old(self).state() }),
    {
        self.injector.rollback();
        self.open_txn = false;
    }

    /// Makes the applied frames durable. Returns the highest commit frame that
    /// this made durable, or `None` when no commit was pending.
    pub fn flush(&mut self) -> (r: Result<Option<FrameNo>, Error>)
        ensures
            r matches Ok(c) ==> c == old(self).state().committed && final(self).state() == (
            InjectorState { committed: None, ..old(self).state() }),
            r is Err ==> (r matches Err(Error::FatalInjectError(_))),
            r is Err ==> final(self).state() == old(self).state(),
    {
        let flushed = self.injector.flush();
        let r = flushed_outcome(self.committed, flushed);
        if r.is_ok() {
            self.committed = None;
        }
        r
    }

    /// Notes that frames up to `frame_no` are durable upstream. The mark only
    /// moves up: a value at or below it changes nothing.
    pub fn durable_frame_no(&mut self, frame_no: FrameNo)
        ensures
            final(self).state() == (InjectorState {
                durable: if frame_no > old(self).state().durable {
                    frame_no
                } else {
                    old(self).state().durable
                },
                ..old(self).state()
            }),
            frame_no <= old(self).state().durable ==> *final(self) == *old(self),
    {
        if frame_no > self.durable {
            self.durable = frame_no;
            self.injector.set_durable(frame_no);
        }
    }

    /// The highest frame number known to be durable upstream.
    pub fn durable_mark(&self) -> (r: FrameNo)
        ensures
            r == self.state().durable,
    {
        self.durable
    }

    pub fn into_inner(self) -> (r: W)
        ensures
            r == self.applier(),
    {
        self.injector
    }
}

/// The result of a flush, given the commit that was pending and what the
/// local log answered.
pub fn flushed_outcome(committed: Option<FrameNo>, flushed: Result<(), String>) -> (r: Result<
    Option<FrameNo>,
    Error,
>)
    ensures
        flushed is Ok ==> r == Ok::<Option<FrameNo>, Error>(committed),
        flushed matches Err(e) ==> (r matches Err(Error::FatalInjectError(d)) && d == e),
{
    match flushed {
        Ok(()) => Ok(committed),
        Err(cause) => Err(Error::FatalInjectError(cause)),
    }
}

/// The result of injecting a frame, given what the local log answered.
pub fn applied_outcome(frame_no: FrameNo, commit: bool, applied: Result<(), String>) -> (r: Result<
    Option<FrameNo>,
    Error,
>)
    ensures
        applied is Ok ==> r == Ok::<Option<FrameNo>, Error>(
            if commit {
                Some(frame_no)
            } else {
                None
            },
        ),
        applied matches Err(c) ==> (r matches Err(Error::FatalInjectError(d)) && d == c),
{
    match applied {
        Ok(()) => Ok(
            if commit {
                Some(frame_no)
            } else {
                None
            },
        ),
        Err(cause) => Err(Error::FatalInjectError(cause)),
    }
}

} // verus!
