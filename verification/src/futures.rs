//! Asynchronous reads.
use crate::error::{DDSError, ReaderError};
use crate::match_watch::MatchWatch;
use crate::time::Nanos;
use vstd::prelude::*;

verus! {

/// What the asynchronous reads of one reader share.
#[derive(Debug, Clone, Copy, PartialEq, Eq, Structural)]
pub struct ReaderShared {
    /// An error that the next read is to report.
    pub pending_error: Option<ReaderError>,
    /// Watches for writers, where the reader was told to.
    pub watch: Option<MatchWatch>,
}

/// Whether a reader can be read asynchronously.
#[derive(Debug, Clone, Copy, PartialEq, Eq, Structural)]
pub enum ReaderType {
    Async(ReaderShared),
    Sync,
}

/// What a poll of an asynchronous read gives.
#[derive(Debug, Clone, Copy, PartialEq, Eq)]
pub enum ReadPoll {
    Ready(Result<usize, ReaderError>),
    Pending,
}

impl ReaderShared {
    /// The error of a reader that has waited for a writer for too long.
    pub open spec fn absence_error(self, now: Nanos) -> Option<ReaderError> {
        if self.watch is Some && self.watch->0.absent(now) {
            Some(ReaderError::NoMatchedWriter { timeout: self.watch->0.timeout })
        } else {
            None
        }
    }

    /// What a poll gives after a read was tried.
    pub open spec fn poll_result(self, read: Result<usize, DDSError>, now: Nanos) -> ReadPoll {
        match read {
            Ok(len) => ReadPoll::Ready(Ok(len)),
            Err(DDSError::NoData) => match self.absence_error(now) {
                Some(error) => ReadPoll::Ready(Err(error)),
                None => ReadPoll::Pending,
            },
            Err(error) => ReadPoll::Ready(Err(ReaderError::DdsError(error))),
        }
    }

    pub fn new(watch: Option<MatchWatch>) -> (r: Self)
        ensures
            r == (ReaderShared { pending_error: None, watch }),
    {
        ReaderShared { pending_error: None, watch }
    }

    /// The error to report, which is then reported.
    pub fn take_pending_error(&mut self) -> (r: Option<ReaderError>)
        ensures
            r == old(self).pending_error,
            *final(self) == (ReaderShared { pending_error: None, ..*old(self) }),
    {
        let error = self.pending_error;
        self.pending_error = None;
        error
    }

    /// The error of a reader that has waited for a writer for too long.
    pub fn absent_writer_error(&self, now: Nanos) -> (r: Option<ReaderError>)
        ensures
            r == self.absence_error(now),
    {
        match self.watch {
            Some(watch) => if watch.is_absent_at(now) {
                Some(ReaderError::NoMatchedWriter { timeout: watch.timeout() })
            } else {
                None
            },
            None => None,
        }
    }

    /// Whether the writers count as gone.
    pub fn is_writer_absent(&self, now: Nanos) -> (r: bool)
        ensures
            r == (self.watch is Some && self.watch->0.absent(now)),
    {
        match self.watch {
            Some(watch) => watch.is_absent_at(now),
            None => false,
        }
    }

    /// When the absence of writers is to be reported.
    pub fn absence_deadline(&self) -> (r: Option<Nanos>)
        ensures
            r == match self.watch {
                Some(watch) => watch.deadline(),
                None => None,
            },
    {
        match self.watch {
            Some(watch) => watch.absence_deadline(),
            None => None,
        }
    }

    /// Notes that the absence of writers was reported.
    pub fn notify_absence(&mut self)
        ensures
            *final(self) == (ReaderShared {
                watch: match old(self).watch {
                    Some(watch) => Some(watch.marked()),
                    None => None,
                },
                ..*old(self)
            }),
    {
        if let Some(watch) = self.watch {
            let mut watch = watch;
            watch.mark_notified();
            self.watch = Some(watch);
        }
    }

    /// Notes that a deadline was missed, for the next read to report.
    pub fn note_deadline_missed(&mut self)
        ensures
            *final(self) == (ReaderShared {
                pending_error: Some(ReaderError::RequestedDeadLineMissed),
                ..*old(self)
            }),
    {
        self.pending_error = Some(ReaderError::RequestedDeadLineMissed);
    }

    /// Takes the number of writers that are matched now.
    pub fn note_matched(&mut self, current_count: u32, now: Nanos)
        ensures
            *final(self) == (ReaderShared {
                watch: match old(self).watch {
                    Some(watch) => Some(watch.updated(current_count, now)),
                    None => None,
                },
                ..*old(self)
            }),
    {
        if let Some(watch) = self.watch {
            let mut watch = watch;
            watch.update_at(current_count, now);
            self.watch = Some(watch);
        }
    }

    /// What a poll gives after a read was tried.
    pub fn after_read(&self, read: Result<usize, DDSError>, now: Nanos) -> (r: ReadPoll)
        ensures
            r == self.poll_result(read, now),
    {
        match read {
            Ok(len) => ReadPoll::Ready(Ok(len)),
            Err(DDSError::NoData) => match self.absent_writer_error(now) {
                Some(error) => ReadPoll::Ready(Err(error)),
                None => ReadPoll::Pending,
            },
            Err(error) => ReadPoll::Ready(Err(ReaderError::DdsError(error))),
        }
    }
}

impl ReaderType {
    /// Whether a poll reads: it does where the reader is asynchronous and has no
    /// error to report.
    pub open spec fn will_read(self) -> bool {
        self matches ReaderType::Async(shared) && shared.pending_error is None
    }

    /// Whether the writers count as gone.
    pub fn is_writer_absent(&self, now: Nanos) -> (r: bool)
        ensures
            r == match *self {
                ReaderType::Async(shared) => shared.watch is Some && shared.watch->0.absent(now),
                ReaderType::Sync => false,
            },
    {
        match self {
            ReaderType::Async(shared) => shared.is_writer_absent(now),
            ReaderType::Sync => false,
        }
    }

    /// What a poll gives before anything is read, where it gives something: an
    /// error that is to be reported, which is then reported.
    pub fn before_read(&mut self) -> (r: Option<ReadPoll>)
        ensures
            match *old(self) {
                ReaderType::Sync => {
                    &&& r == Some(ReadPoll::Ready(Err(ReaderError::ReaderNotAsync)))
                    &&& *final(self) == *old(self)
                },
                ReaderType::Async(shared) => {
                    &&& r == match shared.pending_error {
                        Some(error) => Some(ReadPoll::Ready(Err(error))),
                        None => None,
                    }
                    &&& *final(self) == ReaderType::Async(
                        ReaderShared { pending_error: None, ..shared },
                    )
                },
            },
    {
        match self {
            ReaderType::Sync => Some(ReadPoll::Ready(Err(ReaderError::ReaderNotAsync))),
            ReaderType::Async(shared) => match shared.take_pending_error() {
                Some(error) => Some(ReadPoll::Ready(Err(error))),
                None => None,
            },
        }
    }

    /// What a poll gives after a read was tried.
    pub fn after_read(&self, read: Result<usize, DDSError>, now: Nanos) -> (r: ReadPoll)
        ensures
            r == match *self {
                ReaderType::Async(shared) => shared.poll_result(read, now),
                ReaderType::Sync => ReadPoll::Ready(Err(ReaderError::ReaderNotAsync)),
            },
    {
        match self {
            ReaderType::Async(shared) => shared.after_read(read, now),
            ReaderType::Sync => ReadPoll::Ready(Err(ReaderError::ReaderNotAsync)),
        }
    }
}

/// One poll of an asynchronous read. A pending error comes before anything is
/// read, and nothing is read while there is one. Where there is nothing to
/// read, the poll waits on, until the writers count as gone.
pub fn read<F, C>(reader_type: &mut ReaderType, read_now: F, clock: C) -> (r: ReadPoll) where
    F: FnOnce() -> Result<usize, DDSError>,
    C: FnOnce() -> Nanos,

    requires
        old(reader_type).will_read() ==> call_requires(read_now, ()),
        old(reader_type).will_read() ==> call_requires(clock, ()),
    ensures
        match *old(reader_type) {
            ReaderType::Sync => {
                &&& r == ReadPoll::Ready(Err(ReaderError::ReaderNotAsync))
                &&& *final(reader_type) == *old(reader_type)
            },
            ReaderType::Async(shared) => match shared.pending_error {
                Some(error) => {
                    &&& r == ReadPoll::Ready(Err(error))
                    &&& *final(reader_type) == ReaderType::Async(
                        ReaderShared { pending_error: None, ..shared },
                    )
                },
                None => {
                    &&& *final(reader_type) == *old(reader_type)
                    &&& exists|read: Result<usize, DDSError>, now: Nanos|
                        call_ensures(read_now, (), read) && call_ensures(clock, (), now) && r
                            == #[trigger] shared.poll_result(read, now)
                },
            },
        },
{
    match reader_type.before_read() {
        Some(poll) => poll,
        None => {
            let read = read_now();
            let now: Nanos = clock();
            reader_type.after_read(read, now)
        },
    }
}

/// A missed deadline is reported by one read only: the next one does not report
/// it, whatever it reads.
pub proof fn law_pending_error_is_reported_once(
    shared: ReaderShared,
    read: Result<usize, DDSError>,
    now: Nanos,
)
    ensures
        (ReaderShared { pending_error: None, ..shared }).poll_result(
            read,
            now,
        ) matches ReadPoll::Ready(Err(error)) ==> error !is RequestedDeadLineMissed,
{
}

/// What has come is read, though the writers count as gone.
pub proof fn law_data_comes_before_absence(shared: ReaderShared, len: usize, now: Nanos)
    ensures
        shared.poll_result(Ok(len), now) == ReadPoll::Ready(Ok(len)),
{
}

/// A read that waits is not left waiting: either there is no watch, or it goes
/// on as long as writers are there or have not been gone for the timeout.
pub proof fn law_read_ends_when_writers_are_gone(shared: ReaderShared, now: Nanos)
    ensures
        shared.poll_result(Err(DDSError::NoData), now) is Pending <==> !(shared.watch is Some
            && shared.watch->0.absent(now)),
{
}

/// A failed read ends with what DDS answered, unless there is just no data. Where
/// there is none and the writers count as gone, it ends with the timeout for which
/// they were waited for.
pub proof fn law_failed_read_says_why(shared: ReaderShared, error: DDSError, now: Nanos)
    ensures
        error !is NoData ==> shared.poll_result(Err(error), now) == ReadPoll::Ready(
            Err(ReaderError::DdsError(error)),
        ),
        shared.watch matches Some(watch) ==> (watch.absent(now) ==> shared.poll_result(
            Err(DDSError::NoData),
            now,
        ) == ReadPoll::Ready(Err(ReaderError::NoMatchedWriter { timeout: watch.timeout }))),
        shared.watch matches Some(watch) ==> (!watch.absent(now) ==> shared.absence_error(
            now,
        ) is None),
        shared.watch is None ==> shared.absence_error(now) is None,
{
}

/// A poll reads where the reader can wait and no error is to be reported first.
pub proof fn law_which_polls_read(shared: ReaderShared)
    ensures
        ReaderType::Async(shared).will_read() <==> shared.pending_error is None,
        !ReaderType::Sync.will_read(),
{
}

} // verus!
