//! Reading samples.
use crate::dds_listener::{data_reader_listener, DdsListener, DdsListenerBuilder, Event};
use crate::dds_qos::DdsQos;
use crate::error::DDSError;
use crate::futures::{ReaderShared, ReaderType};
use crate::match_watch::{MatchState, MatchWatch};
use crate::time::Nanos;
use vstd::prelude::*;

verus! {

/// How a reader is to be made.
#[derive(Debug)]
pub struct ReaderBuilder<C> {
    pub maybe_qos: Option<DdsQos>,
    pub maybe_listener: Option<DdsListener<C>>,
    pub maybe_listener_builder: Option<DdsListenerBuilder<C>>,
    pub is_async: bool,
    pub absence_timeout: Option<Nanos>,
}

/// What is to be made.
#[derive(Debug)]
pub enum ReaderPlan<C> {
    /// A reader that can wait for data, and perhaps stops waiting when there is
    /// no writer.
    Async {
        qos: Option<DdsQos>,
        listener_builder: DdsListenerBuilder<C>,
        absence_timeout: Option<Nanos>,
    },
    Sync { qos: Option<DdsQos>, listener: Option<DdsListener<C>> },
}

impl<C> ReaderBuilder<C> {
    /// What was handed over can be used.
    pub open spec fn wf(&self) -> bool {
        self.maybe_listener_builder matches Some(builder) ==> builder.wf()
    }

    pub fn new() -> (r: Self)
        ensures
            r.wf(),
            r.maybe_qos is None,
            r.maybe_listener is None,
            r.maybe_listener_builder is None,
            !r.is_async,
            r.absence_timeout is None,
    {
        ReaderBuilder {
            maybe_qos: None,
            maybe_listener: None,
            maybe_listener_builder: None,
            is_async: false,
            absence_timeout: None,
        }
    }

    /// A reader that can wait for data.
    pub fn as_async(self) -> (r: Self)
        ensures
            r == (ReaderBuilder { is_async: true, ..self }),
    {
        let mut builder = self;
        builder.is_async = true;
        builder
    }

    /// A reader that waits for data, and stops when there was no writer for
    /// that long.
    pub fn stop_when_no_writer(self, timeout: Nanos) -> (r: Self)
        ensures
            r == (ReaderBuilder { is_async: true, absence_timeout: Some(timeout), ..self }),
    {
        let mut builder = self;
        builder.is_async = true;
        builder.absence_timeout = Some(timeout);
        builder
    }

    pub fn with_qos(self, qos: DdsQos) -> (r: Self)
        ensures
            r == (ReaderBuilder { maybe_qos: Some(qos), ..self }),
    {
        let mut builder = self;
        builder.maybe_qos = Some(qos);
        builder
    }

    pub fn with_listener(self, listener: DdsListener<C>) -> (r: Self)
        ensures
            r == (ReaderBuilder { maybe_listener: Some(listener), ..self }),
    {
        let mut builder = self;
        builder.maybe_listener = Some(listener);
        builder
    }

    pub fn with_listener_builder(self, listener_builder: DdsListenerBuilder<C>) -> (r: Self)
        ensures
            r == (ReaderBuilder { maybe_listener_builder: Some(listener_builder), ..self }),
    {
        let mut builder = self;
        builder.maybe_listener_builder = Some(listener_builder);
        builder
    }

    /// What is to be made. A reader that can wait takes its calls from the
    /// listener builder alone; for any other a listener comes before a listener
    /// builder.
    pub fn create(self) -> (r: ReaderPlan<C>)
        requires
            self.wf(),
        ensures
            if self.is_async {
                r matches ReaderPlan::Async { qos, listener_builder, absence_timeout } && {
                    &&& qos == self.maybe_qos
                    &&& absence_timeout == self.absence_timeout
                    &&& listener_builder.wf()
                    &&& match self.maybe_listener_builder {
                        Some(builder) => listener_builder == builder,
                        None => forall|e: Event| #[trigger]
                            listener_builder.calls_for(e) == Seq::<C>::empty(),
                    }
                }
            } else {
                r matches ReaderPlan::Sync { qos, listener } && {
                    &&& qos == self.maybe_qos
                    &&& match (self.maybe_listener, self.maybe_listener_builder) {
                        (Some(given), _) => listener == Some(given),
                        (None, Some(builder)) => listener matches Some(built) && built.wf()
                            && built.is_hooked() && forall|e: Event| #[trigger]
                            built.calls_for(e) == builder.calls_for(e),
                        (None, None) => listener is None,
                    }
                }
            },
    {
        if self.is_async {
            ReaderPlan::Async {
                qos: self.maybe_qos,
                listener_builder: match self.maybe_listener_builder {
                    Some(builder) => builder,
                    None => DdsListenerBuilder::default(),
                },
                absence_timeout: self.absence_timeout,
            }
        } else if let Some(listener) = self.maybe_listener {
            ReaderPlan::Sync { qos: self.maybe_qos, listener: Some(listener) }
        } else if let Some(builder) = self.maybe_listener_builder {
            ReaderPlan::Sync { qos: self.maybe_qos, listener: Some(builder.build()) }
        } else {
            ReaderPlan::Sync { qos: self.maybe_qos, listener: None }
        }
    }
}

impl<C> Default for ReaderBuilder<C> {
    fn default() -> (r: Self)
        ensures
            r.wf(),
            r.maybe_qos is None,
            r.maybe_listener is None,
            r.maybe_listener_builder is None,
            !r.is_async,
            r.absence_timeout is None,
    {
        ReaderBuilder::new()
    }
}

/// The state that an asynchronous reader starts with. Writers are watched for
/// only where there is a timeout, and none is there at first.
pub open spec fn fresh_shared(absence_timeout: Option<Nanos>, now: Nanos) -> ReaderShared {
    ReaderShared {
        pending_error: None,
        watch: match absence_timeout {
            Some(timeout) => Some(
                MatchWatch { timeout, state: MatchState::Absent { since: now, notified: false } },
            ),
            None => None,
        },
    }
}

/// What an asynchronous reader is made with: its listener and its state. Before
/// anything that was set up, `wake` is called when data comes, `missed` when a
/// deadline is missed, and `matched`, where writers are watched for, when their
/// number changes.
pub fn create_async_with_watch<C>(
    listener_builder: DdsListenerBuilder<C>,
    absence_timeout: Option<Nanos>,
    now: Nanos,
    wake: C,
    missed: C,
    matched: C,
) -> (r: (DdsListener<C>, ReaderType))
    requires
        listener_builder.wf(),
    ensures
        r.0.wf(),
        r.0.is_hooked(),
        forall|e: Event| #[trigger]
            r.0.calls_for(e) == if e is DataAvailable {
                seq![wake] + listener_builder.calls_for(e)
            } else if e is RequestedDeadlineMissed {
                seq![missed] + listener_builder.calls_for(e)
            } else if e is SubscriptionMatched && absence_timeout is Some {
                seq![matched] + listener_builder.calls_for(e)
            } else {
                listener_builder.calls_for(e)
            },
        r.1 == ReaderType::Async(fresh_shared(absence_timeout, now)),
{
    match absence_timeout {
        Some(timeout) => {
            let listener = data_reader_listener(listener_builder, wake, missed, Some(matched));
            let watch = MatchWatch::new_at(timeout, now);
            (listener, ReaderType::Async(ReaderShared::new(Some(watch))))
        },
        None => {
            let listener = data_reader_listener(listener_builder, wake, missed, None);
            (listener, ReaderType::Async(ReaderShared::new(None)))
        },
    }
}

#[derive(Debug, Clone, Copy, PartialEq, Eq, Default, Structural)]
pub struct LivelinessChangedStatus {
    pub alive_count: u32,
    pub not_alive_count: u32,
    pub alive_count_change: i32,
    pub not_alive_count_change: i32,
}

#[derive(Debug, Clone, Copy, PartialEq, Eq, Default, Structural)]
pub struct RequestedDeadlineMissedStatus {
    pub total_count: u32,
    pub total_count_change: i32,
}

#[derive(Debug, Clone, Copy, PartialEq, Eq, Default, Structural)]
pub struct SubscriptionMatchedStatus {
    pub total_count: u32,
    pub total_count_change: i32,
    pub current_count: u32,
    pub current_count_change: i32,
}

/// A status that was asked for, where the answer says that it is there.
pub fn status_or_error<S>(ret: i32, status: S) -> (r: Result<S, DDSError>)
    ensures
        r == if ret == 0 {
            Ok::<S, DDSError>(status)
        } else {
            Err(DDSError::of_code(ret))
        },
{
    if ret == 0 {
        Ok(status)
    } else {
        Err(DDSError::from(ret))
    }
}

/// Which samples a read of encodings gets. Instances that have ended are left
/// out in any case.
#[derive(Debug, Clone, Copy, PartialEq, Eq, Structural)]
pub enum SampleStates {
    Any,
    NotRead,
}

/// What a buffer for samples holds: room for `capacity`, of which `size` are
/// filled.
#[derive(Debug, Clone, Copy, PartialEq, Eq, Structural)]
pub struct BufferState {
    pub capacity: usize,
    pub size: usize,
}

/// The number of samples that a read gave, where it gave any. The code of a
/// read is negative where it failed.
pub open spec fn count_or_error(ret: i32) -> Result<usize, DDSError> {
    if ret < 0 {
        Err(DDSError::of_code(ret))
    } else if ret == 0 {
        Err(DDSError::NoData)
    } else {
        Ok(ret as usize)
    }
}

/// The number of samples that a read gave.
pub fn read_count(ret: i32) -> (r: Result<usize, DDSError>)
    ensures
        r == count_or_error(ret),
{
    if ret < 0 {
        Err(DDSError::from(ret))
    } else if ret == 0 {
        Err(DDSError::NoData)
    } else {
        Ok(ret as usize)
    }
}

/// What a read of values gives: it counts only where the first sample is valid.
pub open spec fn values_or_error(ret: i32, first_valid: bool) -> Result<usize, DDSError> {
    if ret > 0 && !first_valid {
        Err(DDSError::NoData)
    } else {
        count_or_error(ret)
    }
}

/// Reads values into a buffer. `read` is given how many samples there is room
/// for and whether they are to be taken away; `first_valid` tells whether the
/// first sample that came is valid. The buffer is filled only by a read that
/// gives samples.
pub fn readn_from_entity_now<F, V>(buffer: &mut BufferState, take: bool, read: F, first_valid: V) -> (r:
    Result<usize, DDSError>) where F: FnOnce(usize, bool) -> i32, V: FnOnce() -> bool
    requires
        old(buffer).capacity > 0 ==> call_requires(read, (old(buffer).capacity, take)),
        old(buffer).capacity > 0 ==> forall|ret: i32| #[trigger]
            call_ensures(read, (old(buffer).capacity, take), ret) && ret > 0 ==> call_requires(
                first_valid,
                (),
            ),
    ensures
        if old(buffer).capacity == 0 {
            r == Err::<usize, DDSError>(DDSError::BadParameter)
        } else {
            exists|ret: i32| #[trigger]
                call_ensures(read, (old(buffer).capacity, take), ret) && if ret <= 0 {
                    r == count_or_error(ret)
                } else {
                    exists|valid: bool| #[trigger]
                        call_ensures(first_valid, (), valid) && r == values_or_error(ret, valid)
                }
        },
        *final(buffer) == (BufferState {
            size: match r {
                Ok(n) => n,
                Err(_) => 0,
            },
            ..*old(buffer)
        }),
{
    buffer.size = 0;
    let capacity: usize = buffer.capacity;
    if capacity == 0 {
        return Err(DDSError::BadParameter);
    }
    let ret: i32 = read(capacity, take);
    if ret <= 0 {
        return read_count(ret);
    }
    if first_valid() {
        buffer.size = ret as usize;
        Ok(ret as usize)
    } else {
        Err(DDSError::NoData)
    }
}

/// Which samples a read of encodings asks for: one that takes them away gets
/// only those that were not read.
pub open spec fn states_for(take: bool) -> SampleStates {
    if take {
        SampleStates::NotRead
    } else {
        SampleStates::Any
    }
}

/// Which samples a read of encodings asks for.
pub fn cdr_states(take: bool) -> (r: SampleStates)
    ensures
        r == states_for(take),
{
    if take {
        SampleStates::NotRead
    } else {
        SampleStates::Any
    }
}

/// Reads encodings into a buffer. `read` is given how many samples there is
/// room for, whether they are to be taken away, and which are asked for.
pub fn readcdrn_from_entity_now<F>(buffer: &mut BufferState, take: bool, read: F) -> (r: Result<
    usize,
    DDSError,
>) where F: FnOnce(usize, bool, SampleStates) -> i32
    requires
        old(buffer).capacity > 0 ==> call_requires(
            read,
            (old(buffer).capacity, take, states_for(take)),
        ),
    ensures
        if old(buffer).capacity == 0 {
            r == Err::<usize, DDSError>(DDSError::BadParameter)
        } else {
            exists|ret: i32| #[trigger]
                call_ensures(read, (old(buffer).capacity, take, states_for(take)), ret) && r
                    == count_or_error(ret)
        },
        *final(buffer) == (BufferState {
            size: match r {
                Ok(n) => n,
                Err(_) => 0,
            },
            ..*old(buffer)
        }),
{
    buffer.size = 0;
    let capacity: usize = buffer.capacity;
    if capacity == 0 {
        return Err(DDSError::BadParameter);
    }
    let ret: i32 = read(capacity, take, cdr_states(take));
    let r = read_count(ret);
    if let Ok(n) = r {
        buffer.size = n;
    }
    r
}

/// A read that gives samples gives their number; one that gives none has no data,
/// and neither has a read of values whose first sample is not valid. A negative
/// answer names the failure.
pub proof fn law_what_a_read_gives(ret: i32, first_valid: bool)
    ensures
        ret > 0 ==> count_or_error(ret) is Ok && count_or_error(ret)->Ok_0 == ret,
        ret == 0 ==> count_or_error(ret) == Err::<usize, DDSError>(DDSError::NoData),
        ret < 0 ==> count_or_error(ret) == Err::<usize, DDSError>(DDSError::of_code(ret)),
        ret > 0 && first_valid ==> values_or_error(ret, first_valid) is Ok && values_or_error(
            ret,
            first_valid,
        )->Ok_0 == ret,
        ret > 0 && !first_valid ==> values_or_error(ret, first_valid) == Err::<usize, DDSError>(
            DDSError::NoData,
        ),
        ret <= 0 ==> values_or_error(ret, first_valid) == count_or_error(ret),
{
}

/// Encodings that are taken away are asked for only where they were not read yet;
/// those that stay in any case.
pub proof fn law_taken_encodings_were_not_read(take: bool)
    ensures
        states_for(take) is NotRead <==> take,
        states_for(take) is Any <==> !take,
{
}

/// An asynchronous reader starts without an error. It watches for writers where it
/// has a timeout, with just that timeout, and counts them as away from now on.
pub proof fn law_asynchronous_reader_starts_alone(absence_timeout: Option<Nanos>, now: Nanos)
    ensures
        fresh_shared(absence_timeout, now).pending_error is None,
        fresh_shared(absence_timeout, now).watch is Some <==> absence_timeout is Some,
        absence_timeout matches Some(timeout) ==> fresh_shared(absence_timeout, now).watch->0.timeout
            == timeout,
        absence_timeout is Some ==> fresh_shared(absence_timeout, now).watch->0.state == (
        MatchState::Absent { since: now, notified: false }),
{
}

} // verus!
