//! Writing samples.
use crate::dds_listener::{DdsListener, DdsListenerBuilder, Event};
use crate::dds_qos::DdsQos;
use crate::error::{check_not_negative, check_ok, DDSError};
use crate::match_watch::{MatchState, MatchWatch};
use crate::time::Nanos;
use vstd::prelude::*;

verus! {

/// How a writer is to be made.
#[derive(Debug)]
pub struct WriterBuilder<C> {
    pub maybe_qos: Option<DdsQos>,
    pub maybe_listener: Option<DdsListener<C>>,
    pub maybe_listener_builder: Option<DdsListenerBuilder<C>>,
    pub watch_timeout: Option<Nanos>,
}

/// What is to be made.
#[derive(Debug)]
pub enum WriterPlan<C> {
    /// A writer that notices when there is no reader for that long.
    Watching { qos: Option<DdsQos>, listener_builder: DdsListenerBuilder<C>, timeout: Nanos },
    Plain { qos: Option<DdsQos>, listener: Option<DdsListener<C>> },
}

impl<C> WriterBuilder<C> {
    /// What was handed over can be used.
    pub open spec fn wf(&self) -> bool {
        self.maybe_listener_builder matches Some(builder) ==> builder.wf()
    }

    pub fn new() -> (r: Self)
        ensures
            r.wf(),
            r.maybe_qos is None,
            r.maybe_listener is None,
            r.maybe_listener_builder is None,
            r.watch_timeout is None,
    {
        WriterBuilder {
            maybe_qos: None,
            maybe_listener: None,
            maybe_listener_builder: None,
            watch_timeout: None,
        }
    }

    pub fn with_qos(self, qos: DdsQos) -> (r: Self)
        ensures
            r == (WriterBuilder { maybe_qos: Some(qos), ..self }),
    {
        let mut builder = self;
        builder.maybe_qos = Some(qos);
        builder
    }

    /// A writer that notices when there is no reader for that long.
    pub fn watch_reader_absence(self, timeout: Nanos) -> (r: Self)
        ensures
            r == (WriterBuilder { watch_timeout: Some(timeout), ..self }),
    {
        let mut builder = self;
        builder.watch_timeout = Some(timeout);
        builder
    }

    pub fn with_listener(self, listener: DdsListener<C>) -> (r: Self)
        ensures
            r == (WriterBuilder { maybe_listener: Some(listener), ..self }),
    {
        let mut builder = self;
        builder.maybe_listener = Some(listener);
        builder
    }

    pub fn with_listener_builder(self, listener_builder: DdsListenerBuilder<C>) -> (r: Self)
        ensures
            r == (WriterBuilder { maybe_listener_builder: Some(listener_builder), ..self }),
    {
        let mut builder = self;
        builder.maybe_listener_builder = Some(listener_builder);
        builder
    }

    /// What is to be made. A writer that watches for readers takes its calls
    /// from the listener builder alone; for any other a listener comes before a
    /// listener builder.
    pub fn create(self) -> (r: WriterPlan<C>)
        requires
            self.wf(),
        ensures
            match self.watch_timeout {
                Some(given) => r matches WriterPlan::Watching { qos, listener_builder, timeout }
                    && {
                    &&& qos == self.maybe_qos
                    &&& timeout == given
                    &&& listener_builder.wf()
                    &&& match self.maybe_listener_builder {
                        Some(builder) => listener_builder == builder,
                        None => forall|e: Event| #[trigger]
                            listener_builder.calls_for(e) == Seq::<C>::empty(),
                    }
                },
                None => r matches WriterPlan::Plain { qos, listener } && {
                    &&& qos == self.maybe_qos
                    &&& match (self.maybe_listener, self.maybe_listener_builder) {
                        (Some(given), _) => listener == Some(given),
                        (None, Some(builder)) => listener matches Some(built) && built.wf()
                            && built.is_hooked() && forall|e: Event| #[trigger]
                            built.calls_for(e) == builder.calls_for(e),
                        (None, None) => listener is None,
                    }
                },
            },
    {
        if let Some(timeout) = self.watch_timeout {
            WriterPlan::Watching {
                qos: self.maybe_qos,
                listener_builder: match self.maybe_listener_builder {
                    Some(builder) => builder,
                    None => DdsListenerBuilder::default(),
                },
                timeout,
            }
        } else if let Some(listener) = self.maybe_listener {
            WriterPlan::Plain { qos: self.maybe_qos, listener: Some(listener) }
        } else if let Some(builder) = self.maybe_listener_builder {
            WriterPlan::Plain { qos: self.maybe_qos, listener: Some(builder.build()) }
        } else {
            WriterPlan::Plain { qos: self.maybe_qos, listener: None }
        }
    }
}

impl<C> Default for WriterBuilder<C> {
    fn default() -> (r: Self)
        ensures
            r.wf(),
            r.maybe_qos is None,
            r.maybe_listener is None,
            r.maybe_listener_builder is None,
            r.watch_timeout is None,
    {
        WriterBuilder::new()
    }
}

/// The listener of a writer that watches for readers: before anything that was
/// set up, `matched` is called when their number changes.
pub fn watching_listener<C>(listener_builder: DdsListenerBuilder<C>, matched: C) -> (r: DdsListener<
    C,
>)
    requires
        listener_builder.wf(),
    ensures
        r.wf(),
        r.is_hooked(),
        forall|e: Event| #[trigger]
            r.calls_for(e) == if e is PublicationMatched {
                seq![matched] + listener_builder.calls_for(e)
            } else {
                listener_builder.calls_for(e)
            },
{
    listener_builder.chain_publication_matched(matched).build()
}

#[derive(Debug, Clone, Copy, PartialEq, Eq, Default, Structural)]
pub struct PublicationMatchedStatus {
    pub total_count: u32,
    pub total_count_change: i32,
    pub current_count: u32,
    pub current_count_change: i32,
}

/// A change that is worth a line in the log.
#[derive(Debug, Clone, Copy, PartialEq, Eq, Structural)]
pub enum AbsenceChange {
    Gone,
    Recovered,
}

/// Watches for readers, and remembers what was last said of them.
#[derive(Debug, Clone, Copy, PartialEq, Eq, Structural)]
pub struct AbsenceWatch {
    pub watch: MatchWatch,
    pub last_absent: bool,
}

impl AbsenceWatch {
    pub fn new(timeout: Nanos, now: Nanos) -> (r: Self)
        ensures
            r == (AbsenceWatch {
                watch: MatchWatch {
                    timeout,
                    state: MatchState::Absent { since: now, notified: false },
                },
                last_absent: false,
            }),
    {
        AbsenceWatch { watch: MatchWatch::new_at(timeout, now), last_absent: false }
    }

    /// Whether the readers count as gone, and whether that is news.
    pub fn is_reader_absent(&mut self, now: Nanos) -> (r: (bool, Option<AbsenceChange>))
        ensures
            r.0 == old(self).watch.absent(now),
            r.1 == if r.0 == old(self).last_absent {
                None
            } else if r.0 {
                Some(AbsenceChange::Gone)
            } else {
                Some(AbsenceChange::Recovered)
            },
            *final(self) == (AbsenceWatch { last_absent: r.0, ..*old(self) }),
    {
        let absent = self.watch.is_absent_at(now);
        let was_absent = self.last_absent;
        self.last_absent = absent;
        if absent == was_absent {
            (absent, None)
        } else if absent {
            (absent, Some(AbsenceChange::Gone))
        } else {
            (absent, Some(AbsenceChange::Recovered))
        }
    }
}

/// Whether the readers count as gone; never, where they are not watched.
pub fn is_reader_absent(watch: &mut Option<AbsenceWatch>, now: Nanos) -> (r: (
    bool,
    Option<AbsenceChange>,
))
    ensures
        match *old(watch) {
            Some(before) => {
                &&& r.0 == before.watch.absent(now)
                &&& r.1 == if r.0 == before.last_absent {
                    None
                } else if r.0 {
                    Some(AbsenceChange::Gone)
                } else {
                    Some(AbsenceChange::Recovered)
                }
                &&& *final(watch) == Some(AbsenceWatch { last_absent: r.0, ..before })
            },
            None => r == (false, None::<AbsenceChange>) && *final(watch) == *old(watch),
        },
{
    match watch {
        Some(inner) => inner.is_reader_absent(now),
        None => (false, None),
    }
}

/// What a write gives, where DDS answers with `ret`.
pub open spec fn write_outcome(ret: i32) -> Result<(), DDSError> {
    if ret >= 0 {
        Ok(())
    } else {
        Err(DDSError::of_code(ret))
    }
}

/// Writes a sample: `write` hands it to DDS. What DDS answers decides alone; no
/// watch for readers has a say in it.
pub fn write_to_entity<E, M, F>(entity: E, message: M, write: F) -> (r: Result<(), DDSError>) where
    F: FnOnce(E, M) -> i32,

    requires
        call_requires(write, (entity, message)),
    ensures
        exists|ret: i32| #[trigger]
            call_ensures(write, (entity, message), ret) && r == write_outcome(ret),
{
    let ret: i32 = write(entity, message);
    check_not_negative(ret)
}

/// A write goes on succeeding while the readers count as gone: that is told, and
/// nothing is refused for it.
pub proof fn law_absence_stops_no_write(watch: AbsenceWatch, now: Nanos, ret: i32)
    requires
        watch.watch.absent(now),
        ret >= 0,
    ensures
        write_outcome(ret) is Ok,
{
}

/// The memory of a sample that was lent by a writer.
#[derive(Debug, Clone, Copy, PartialEq, Eq)]
pub enum LoanedInner<P, E> {
    Uninitialized(P, E),
    Initialized(P, E),
    Empty,
}

/// What is to be done with memory that was lent.
#[derive(Debug, Clone, Copy, PartialEq, Eq)]
pub enum LoanAction<P, E> {
    /// Give it back unused.
    Return(P, E),
    /// Write the sample that it holds.
    Write(P, E),
    Nothing,
}

/// The memory of a sample that was lent by a writer: `P` is where it is, `E`
/// the writer.
#[derive(Debug)]
pub struct Loaned<P, E> {
    pub inner: LoanedInner<P, E>,
}

impl<P: Copy, E: Copy> Loaned<P, E> {
    /// What is to be done with memory that is handed back: a sample in it is
    /// written.
    pub open spec fn returning(&self) -> LoanAction<P, E> {
        match self.inner {
            LoanedInner::Uninitialized(p, e) => LoanAction::Return(p, e),
            LoanedInner::Initialized(p, e) => LoanAction::Write(p, e),
            LoanedInner::Empty => LoanAction::Nothing,
        }
    }

    /// Where the memory is.
    pub fn as_mut_ptr(&self) -> (r: Option<P>)
        ensures
            r == match self.inner {
                LoanedInner::Uninitialized(p, _) => Some(p),
                LoanedInner::Initialized(p, _) => Some(p),
                LoanedInner::Empty => None,
            },
    {
        match self.inner {
            LoanedInner::Uninitialized(p, _) => Some(p),
            LoanedInner::Initialized(p, _) => Some(p),
            LoanedInner::Empty => None,
        }
    }

    /// Says that the memory holds a sample.
    pub fn assume_init(self) -> (r: Self)
        ensures
            r.inner == match self.inner {
                LoanedInner::Uninitialized(p, e) => LoanedInner::Initialized(p, e),
                other => other,
            },
    {
        match self.inner {
            LoanedInner::Uninitialized(p, e) => Loaned { inner: LoanedInner::Initialized(p, e) },
            LoanedInner::Initialized(p, e) => Loaned { inner: LoanedInner::Initialized(p, e) },
            LoanedInner::Empty => Loaned { inner: LoanedInner::Empty },
        }
    }

    /// What is to be done with memory that is not needed any more.
    pub fn on_drop(&self) -> (r: LoanAction<P, E>)
        ensures
            r == match self.inner {
                LoanedInner::Uninitialized(p, e) => LoanAction::Return(p, e),
                LoanedInner::Initialized(p, e) => LoanAction::Return(p, e),
                LoanedInner::Empty => LoanAction::Nothing,
            },
    {
        match self.inner {
            LoanedInner::Uninitialized(p, e) => LoanAction::Return(p, e),
            LoanedInner::Initialized(p, e) => LoanAction::Return(p, e),
            LoanedInner::Empty => LoanAction::Nothing,
        }
    }

    /// What is to be done with memory that is handed back.
    pub fn on_return(&self) -> (r: LoanAction<P, E>)
        ensures
            r == self.returning(),
    {
        match self.inner {
            LoanedInner::Uninitialized(p, e) => LoanAction::Return(p, e),
            LoanedInner::Initialized(p, e) => LoanAction::Write(p, e),
            LoanedInner::Empty => LoanAction::Nothing,
        }
    }
}

/// Takes memory that a writer was asked for. `res` is the answer, and `place`
/// where the memory is.
pub fn loan<P: Copy, E: Copy>(res: i32, place: Option<P>, writer: E) -> (r: Result<
    Loaned<P, E>,
    DDSError,
>)
    requires
        res == 0 ==> place is Some,
    ensures
        match r {
            Ok(loaned) => res == 0 && loaned.inner == LoanedInner::Uninitialized(place->0, writer),
            Err(error) => res != 0 && error == DDSError::of_code(res),
        },
{
    if res != 0 {
        return Err(DDSError::from(res));
    }
    match place {
        Some(place) => Ok(Loaned { inner: LoanedInner::Uninitialized(place, writer) }),
        None => Err(DDSError::from(res)),
    }
}

/// Takes a listener into use, where the answer says that it is.
pub fn set_listener<C>(
    current: &mut Option<DdsListener<C>>,
    listener: DdsListener<C>,
    rc: i32,
) -> (r: Result<(), DDSError>)
    ensures
        r == if rc == 0 {
            Ok::<(), DDSError>(())
        } else {
            Err(DDSError::of_code(rc))
        },
        *final(current) == if rc == 0 {
            Some(listener)
        } else {
            *old(current)
        },
{
    if rc == 0 {
        *current = Some(listener);
        Ok(())
    } else {
        Err(DDSError::from(rc))
    }
}

/// Hands memory back that was lent. `act` does what is to be done and answers
/// with a return code.
pub fn return_loan<P: Copy, E: Copy, F>(buffer: Loaned<P, E>, act: F) -> (r: Result<
    (),
    DDSError,
>) where F: FnOnce(LoanAction<P, E>) -> i32
    requires
        buffer.returning() !is Nothing ==> call_requires(act, (buffer.returning(),)),
    ensures
        if buffer.returning() is Nothing {
            r is Ok
        } else {
            exists|ret: i32| #[trigger]
                call_ensures(act, (buffer.returning(),), ret) && r == if ret == 0 {
                    Ok::<(), DDSError>(())
                } else {
                    Err(DDSError::of_code(ret))
                }
        },
{
    match buffer.on_return() {
        LoanAction::Nothing => Ok(()),
        action => check_ok(act(action)),
    }
}

/// The name of a topic for the log; empty where it could not be read.
pub fn topic_name_for_log(ret: i32, name: String) -> (r: String)
    ensures
        r@ == if ret >= 0 {
            name@
        } else {
            Seq::empty()
        },
{
    if ret >= 0 {
        name
    } else {
        String::new()
    }
}

/// A write fails just where the answer is negative, and with what it names.
pub proof fn law_what_a_write_gives(ret: i32)
    ensures
        ret < 0 <==> write_outcome(ret) is Err,
        ret < 0 ==> write_outcome(ret) == Err::<(), DDSError>(DDSError::of_code(ret)),
{
}

/// Memory that is handed back is written where it holds a sample, and given back
/// where it does not: the very same memory, to the writer that lent it.
pub proof fn law_memory_goes_back_to_its_writer<P: Copy, E: Copy>(place: P, writer: E)
    ensures
        (Loaned { inner: LoanedInner::Initialized(place, writer) }).returning()
            == LoanAction::Write(place, writer),
        (Loaned { inner: LoanedInner::Uninitialized(place, writer) }).returning()
            == LoanAction::Return(place, writer),
        (Loaned { inner: LoanedInner::<P, E>::Empty }).returning() is Nothing,
{
}

} // verus!
