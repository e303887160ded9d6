//! Quality of service.
use crate::error::DDSError;
use crate::text;
use crate::time::Nanos;
use crate::util::{push_all, same_bytes};
use vstd::prelude::*;

verus! {

/// The time span that never ends.
pub const DDS_INFINITY: i64 = i64::MAX;

#[derive(Debug, Clone, Copy, PartialEq, Eq, Structural)]
pub enum DurabilityKind {
    Volatile,
    TransientLocal,
    Transient,
    Persistent,
}

#[derive(Debug, Clone, Copy, PartialEq, Eq, Structural)]
pub enum HistoryKind {
    KeepLast,
    KeepAll,
}

#[derive(Debug, Clone, Copy, PartialEq, Eq, Structural)]
pub enum PresentationScope {
    Instance,
    Topic,
    Group,
}

#[derive(Debug, Clone, Copy, PartialEq, Eq, Structural)]
pub enum OwnershipKind {
    Shared,
    Exclusive,
}

#[derive(Debug, Clone, Copy, PartialEq, Eq, Structural)]
pub enum LivelinessKind {
    Automatic,
    ManualByParticipant,
    ManualByTopic,
}

#[derive(Debug, Clone, Copy, PartialEq, Eq, Structural)]
pub enum ReliabilityKind {
    BestEffort,
    Reliable,
}

#[derive(Debug, Clone, Copy, PartialEq, Eq, Structural)]
pub enum DestinationOrderKind {
    ByReceptionTimestamp,
    BySourceTimestamp,
}

#[derive(Debug, Clone, Copy, PartialEq, Eq, Structural)]
pub enum IgnoreLocalKind {
    Nothing,
    Participant,
    Process,
}

/// What is kept for readers that come late.
#[derive(Debug, Clone, Copy, PartialEq, Eq, Structural)]
pub struct DurabilityService {
    pub service_cleanup_delay: i64,
    pub history_kind: HistoryKind,
    pub history_depth: i32,
    pub max_samples: i32,
    pub max_instances: i32,
    pub max_samples_per_instance: i32,
}

/// A time span as DDS takes it.
pub open spec fn dds_duration(span: Nanos) -> i64 {
    if span <= DDS_INFINITY {
        span as i64
    } else {
        DDS_INFINITY
    }
}

/// A time span as DDS takes it: one that is too long never ends.
pub fn to_dds_duration(span: Nanos) -> (r: i64)
    ensures
        r == dds_duration(span),
{
    if span <= DDS_INFINITY as u128 {
        span as i64
    } else {
        DDS_INFINITY
    }
}

/// The time span that DDS gives.
pub open spec fn span_of(duration: i64) -> Nanos {
    if duration > 0 {
        duration as Nanos
    } else {
        0
    }
}

/// The time span that DDS gives; a negative one is empty.
pub fn from_dds_duration(duration: i64) -> (r: Nanos)
    ensures
        r == span_of(duration),
{
    if duration > 0 {
        duration as u128
    } else {
        0
    }
}

/// Whether a history can be kept: one that keeps the last samples keeps at
/// least one.
pub open spec fn valid_history(history: HistoryKind, depth: i32) -> bool {
    history is KeepLast ==> depth > 0
}

/// Whether a history can be kept.
pub fn validate_history(history: HistoryKind, depth: i32) -> (r: Result<(), DDSError>)
    ensures
        r == if valid_history(history, depth) {
            Ok::<(), DDSError>(())
        } else {
            Err(DDSError::BadParameter)
        },
{
    match history {
        HistoryKind::KeepLast => if depth <= 0 {
            Err(DDSError::BadParameter)
        } else {
            Ok(())
        },
        HistoryKind::KeepAll => Ok(()),
    }
}

/// The policies that are set, of those that there are. Time spans are in
/// nanoseconds.
#[derive(Debug)]
pub struct DdsQos {
    pub durability: Option<DurabilityKind>,
    pub history: Option<(HistoryKind, i32)>,
    pub resource_limits: Option<(i32, i32, i32)>,
    pub presentation: Option<(PresentationScope, bool, bool)>,
    pub lifespan: Option<i64>,
    pub deadline: Option<i64>,
    pub latency_budget: Option<i64>,
    pub ownership: Option<OwnershipKind>,
    pub ownership_strength: Option<i32>,
    pub liveliness: Option<(LivelinessKind, i64)>,
    pub time_based_filter: Option<i64>,
    pub reliability: Option<(ReliabilityKind, i64)>,
    pub transport_priority: Option<i32>,
    pub destination_order: Option<DestinationOrderKind>,
    pub writer_data_lifecycle: Option<bool>,
    pub reader_data_lifecycle: Option<(i64, i64)>,
    pub durability_service: Option<DurabilityService>,
    pub ignorelocal: Option<IgnoreLocalKind>,
    pub partition: Option<String>,
    pub userdata: Option<Vec<u8>>,
}

/// The policies as a value.
#[verifier::ext_equal]
pub struct QosView {
    pub durability: Option<DurabilityKind>,
    pub history: Option<(HistoryKind, i32)>,
    pub resource_limits: Option<(i32, i32, i32)>,
    pub presentation: Option<(PresentationScope, bool, bool)>,
    pub lifespan: Option<i64>,
    pub deadline: Option<i64>,
    pub latency_budget: Option<i64>,
    pub ownership: Option<OwnershipKind>,
    pub ownership_strength: Option<i32>,
    pub liveliness: Option<(LivelinessKind, i64)>,
    pub time_based_filter: Option<i64>,
    pub reliability: Option<(ReliabilityKind, i64)>,
    pub transport_priority: Option<i32>,
    pub destination_order: Option<DestinationOrderKind>,
    pub writer_data_lifecycle: Option<bool>,
    pub reader_data_lifecycle: Option<(i64, i64)>,
    pub durability_service: Option<DurabilityService>,
    pub ignorelocal: Option<IgnoreLocalKind>,
    pub partition: Option<Seq<char>>,
    pub userdata: Option<Seq<u8>>,
}

/// The bytes of an optional row.
pub open spec fn bytes_of(bytes: Option<Vec<u8>>) -> Option<Seq<u8>> {
    match bytes {
        Some(bytes) => Some(bytes@),
        None => None,
    }
}

impl View for DdsQos {
    type V = QosView;

    open spec fn view(&self) -> QosView {
        QosView {
            durability: self.durability,
            history: self.history,
            resource_limits: self.resource_limits,
            presentation: self.presentation,
            lifespan: self.lifespan,
            deadline: self.deadline,
            latency_budget: self.latency_budget,
            ownership: self.ownership,
            ownership_strength: self.ownership_strength,
            liveliness: self.liveliness,
            time_based_filter: self.time_based_filter,
            reliability: self.reliability,
            transport_priority: self.transport_priority,
            destination_order: self.destination_order,
            writer_data_lifecycle: self.writer_data_lifecycle,
            reader_data_lifecycle: self.reader_data_lifecycle,
            durability_service: self.durability_service,
            ignorelocal: self.ignorelocal,
            partition: text::text_of(self.partition),
            userdata: bytes_of(self.userdata),
        }
    }
}

/// The first where it is set, and else the second.
pub open spec fn or<A>(first: Option<A>, second: Option<A>) -> Option<A> {
    if first is Some {
        first
    } else {
        second
    }
}

impl QosView {
    /// No policy is set.
    pub open spec fn unset() -> Self {
        QosView {
            durability: None,
            history: None,
            resource_limits: None,
            presentation: None,
            lifespan: None,
            deadline: None,
            latency_budget: None,
            ownership: None,
            ownership_strength: None,
            liveliness: None,
            time_based_filter: None,
            reliability: None,
            transport_priority: None,
            destination_order: None,
            writer_data_lifecycle: None,
            reader_data_lifecycle: None,
            durability_service: None,
            ignorelocal: None,
            partition: None,
            userdata: None,
        }
    }

    /// These policies, and those of `src` that are not set here.
    pub open spec fn merged(self, src: Self) -> Self {
        QosView {
            durability: or(self.durability, src.durability),
            history: or(self.history, src.history),
            resource_limits: or(self.resource_limits, src.resource_limits),
            presentation: or(self.presentation, src.presentation),
            lifespan: or(self.lifespan, src.lifespan),
            deadline: or(self.deadline, src.deadline),
            latency_budget: or(self.latency_budget, src.latency_budget),
            ownership: or(self.ownership, src.ownership),
            ownership_strength: or(self.ownership_strength, src.ownership_strength),
            liveliness: or(self.liveliness, src.liveliness),
            time_based_filter: or(self.time_based_filter, src.time_based_filter),
            reliability: or(self.reliability, src.reliability),
            transport_priority: or(self.transport_priority, src.transport_priority),
            destination_order: or(self.destination_order, src.destination_order),
            writer_data_lifecycle: or(self.writer_data_lifecycle, src.writer_data_lifecycle),
            reader_data_lifecycle: or(self.reader_data_lifecycle, src.reader_data_lifecycle),
            durability_service: or(self.durability_service, src.durability_service),
            ignorelocal: or(self.ignorelocal, src.ignorelocal),
            partition: or(self.partition, src.partition),
            userdata: or(self.userdata, src.userdata),
        }
    }
}

fn first_set<A: Copy>(first: Option<A>, second: Option<A>) -> (r: Option<A>)
    ensures
        r == or(first, second),
{
    match first {
        Some(_) => first,
        None => second,
    }
}

fn copied_text(s: &Option<String>) -> (r: Option<String>)
    ensures
        text::text_of(r) == text::text_of(*s),
{
    match s {
        Some(s) => Some(s.clone()),
        None => None,
    }
}

fn copied_bytes(s: &Option<Vec<u8>>) -> (r: Option<Vec<u8>>)
    ensures
        bytes_of(r) == bytes_of(*s),
{
    match s {
        Some(s) => {
            let mut bytes: Vec<u8> = Vec::new();
            push_all(&mut bytes, s.as_slice());
            assert(bytes@ =~= s@);
            Some(bytes)
        },
        None => None,
    }
}

impl Clone for DdsQos {
    fn clone(&self) -> (r: Self)
        ensures
            r@ == self@,
    {
        DdsQos {
            durability: self.durability,
            history: self.history,
            resource_limits: self.resource_limits,
            presentation: self.presentation,
            lifespan: self.lifespan,
            deadline: self.deadline,
            latency_budget: self.latency_budget,
            ownership: self.ownership,
            ownership_strength: self.ownership_strength,
            liveliness: self.liveliness,
            time_based_filter: self.time_based_filter,
            reliability: self.reliability,
            transport_priority: self.transport_priority,
            destination_order: self.destination_order,
            writer_data_lifecycle: self.writer_data_lifecycle,
            reader_data_lifecycle: self.reader_data_lifecycle,
            durability_service: self.durability_service,
            ignorelocal: self.ignorelocal,
            partition: copied_text(&self.partition),
            userdata: copied_bytes(&self.userdata),
        }
    }
}

impl Default for DdsQos {
    fn default() -> (r: Self)
        ensures
            r@ == QosView::unset(),
    {
        DdsQos {
            durability: None,
            history: None,
            resource_limits: None,
            presentation: None,
            lifespan: None,
            deadline: None,
            latency_budget: None,
            ownership: None,
            ownership_strength: None,
            liveliness: None,
            time_based_filter: None,
            reliability: None,
            transport_priority: None,
            destination_order: None,
            writer_data_lifecycle: None,
            reader_data_lifecycle: None,
            durability_service: None,
            ignorelocal: None,
            partition: None,
            userdata: None,
        }
    }
}

fn same_optional_text(a: &Option<String>, b: &Option<String>) -> (r: bool)
    ensures
        r == (text::text_of(*a) == text::text_of(*b)),
{
    match (a, b) {
        (Some(a), Some(b)) => text::same_text(a.as_str(), b.as_str()),
        (None, None) => true,
        _ => false,
    }
}

fn same_optional_bytes(a: &Option<Vec<u8>>, b: &Option<Vec<u8>>) -> (r: bool)
    ensures
        r == (bytes_of(*a) == bytes_of(*b)),
{
    match (a, b) {
        (Some(a), Some(b)) => same_bytes(a, b),
        (None, None) => true,
        _ => false,
    }
}

fn same_history(a: Option<(HistoryKind, i32)>, b: Option<(HistoryKind, i32)>) -> (r: bool)
    ensures
        r == (a == b),
{
    match (a, b) {
        (Some(a), Some(b)) => a.0 == b.0 && a.1 == b.1,
        (None, None) => true,
        _ => false,
    }
}

fn same_resource_limits(a: Option<(i32, i32, i32)>, b: Option<(i32, i32, i32)>) -> (r: bool)
    ensures
        r == (a == b),
{
    match (a, b) {
        (Some(a), Some(b)) => a.0 == b.0 && a.1 == b.1 && a.2 == b.2,
        (None, None) => true,
        _ => false,
    }
}

fn same_presentation(a: Option<(PresentationScope, bool, bool)>, b: Option<(PresentationScope, bool, bool)>) -> (r: bool)
    ensures
        r == (a == b),
{
    match (a, b) {
        (Some(a), Some(b)) => a.0 == b.0 && a.1 == b.1 && a.2 == b.2,
        (None, None) => true,
        _ => false,
    }
}

fn same_liveliness(a: Option<(LivelinessKind, i64)>, b: Option<(LivelinessKind, i64)>) -> (r: bool)
    ensures
        r == (a == b),
{
    match (a, b) {
        (Some(a), Some(b)) => a.0 == b.0 && a.1 == b.1,
        (None, None) => true,
        _ => false,
    }
}

fn same_reliability(a: Option<(ReliabilityKind, i64)>, b: Option<(ReliabilityKind, i64)>) -> (r: bool)
    ensures
        r == (a == b),
{
    match (a, b) {
        (Some(a), Some(b)) => a.0 == b.0 && a.1 == b.1,
        (None, None) => true,
        _ => false,
    }
}

fn same_reader_data_lifecycle(a: Option<(i64, i64)>, b: Option<(i64, i64)>) -> (r: bool)
    ensures
        r == (a == b),
{
    match (a, b) {
        (Some(a), Some(b)) => a.0 == b.0 && a.1 == b.1,
        (None, None) => true,
        _ => false,
    }
}

impl PartialEq for DdsQos {
    fn eq(&self, other: &Self) -> (r: bool) {
        self.durability == other.durability
            && same_history(self.history, other.history)
            && same_resource_limits(self.resource_limits, other.resource_limits)
            && same_presentation(self.presentation, other.presentation)
            && self.lifespan == other.lifespan
            && self.deadline == other.deadline
            && self.latency_budget == other.latency_budget
            && self.ownership == other.ownership
            && self.ownership_strength == other.ownership_strength
            && same_liveliness(self.liveliness, other.liveliness)
            && self.time_based_filter == other.time_based_filter
            && same_reliability(self.reliability, other.reliability)
            && self.transport_priority == other.transport_priority
            && self.destination_order == other.destination_order
            && self.writer_data_lifecycle == other.writer_data_lifecycle
            && same_reader_data_lifecycle(self.reader_data_lifecycle, other.reader_data_lifecycle)
            && self.durability_service == other.durability_service
            && self.ignorelocal == other.ignorelocal
            && same_optional_text(&self.partition, &other.partition)
            && same_optional_bytes(&self.userdata, &other.userdata)
    }
}

impl vstd::std_specs::cmp::PartialEqSpecImpl for DdsQos {
    open spec fn obeys_eq_spec() -> bool {
        true
    }

    open spec fn eq_spec(&self, other: &Self) -> bool {
        self@ == other@
    }
}

impl DdsQos {
    /// A set of policies of which none is set.
    pub fn create() -> (r: Result<Self, DDSError>)
        ensures
            r matches Ok(qos) && qos@ == QosView::unset(),
    {
        Ok(DdsQos::default())
    }

    /// Takes over the policies of `src` that are not set here.
    pub fn merge(&mut self, src: &Self)
        ensures
            final(self)@ == old(self)@.merged(src@),
    {
        self.durability = first_set(self.durability, src.durability);
        self.history = first_set(self.history, src.history);
        self.resource_limits = first_set(self.resource_limits, src.resource_limits);
        self.presentation = first_set(self.presentation, src.presentation);
        self.lifespan = first_set(self.lifespan, src.lifespan);
        self.deadline = first_set(self.deadline, src.deadline);
        self.latency_budget = first_set(self.latency_budget, src.latency_budget);
        self.ownership = first_set(self.ownership, src.ownership);
        self.ownership_strength = first_set(self.ownership_strength, src.ownership_strength);
        self.liveliness = first_set(self.liveliness, src.liveliness);
        self.time_based_filter = first_set(self.time_based_filter, src.time_based_filter);
        self.reliability = first_set(self.reliability, src.reliability);
        self.transport_priority = first_set(self.transport_priority, src.transport_priority);
        self.destination_order = first_set(self.destination_order, src.destination_order);
        self.writer_data_lifecycle = first_set(self.writer_data_lifecycle, src.writer_data_lifecycle);
        self.reader_data_lifecycle = first_set(self.reader_data_lifecycle, src.reader_data_lifecycle);
        self.durability_service = first_set(self.durability_service, src.durability_service);
        self.ignorelocal = first_set(self.ignorelocal, src.ignorelocal);
        if self.partition.is_none() {
            self.partition = copied_text(&src.partition);
        }
        if self.userdata.is_none() {
            self.userdata = copied_bytes(&src.userdata);
        }
        assert(self@ =~= old(self)@.merged(src@));
    }

    /// For how long samples are kept.
    pub fn set_durability(&mut self, durability: DurabilityKind) -> (r: &mut Self)
        ensures
            *r == (DdsQos { durability: Some(durability), ..*old(self) }),
            *final(self) == *final(r),
    {
        self.durability = Some(durability);
        self
    }

    /// How many samples are kept. One that keeps the last samples keeps at least
    /// one; nothing is set otherwise.
    pub fn set_history(&mut self, history: HistoryKind, depth: i32) -> (r: Result<
        &mut Self,
        DDSError,
    >)
        ensures
            match r {
                Ok(qos) => {
                    &&& valid_history(history, depth)
                    &&& *qos == (DdsQos { history: Some((history, depth)), ..*old(self) })
                    &&& *final(self) == *final(qos)
                },
                Err(error) => {
                    &&& !valid_history(history, depth)
                    &&& error == DDSError::BadParameter
                    &&& *final(self) == *old(self)
                },
            },
    {
        match validate_history(history, depth) {
            Ok(_) => {},
            Err(error) => {
                return Err(error);
            },
        }
        self.history = Some((history, depth));
        Ok(self)
    }

    /// How many samples and instances are held.
    pub fn set_resource_limits(&mut self, max_samples: i32, max_instances: i32, max_samples_per_instance: i32) -> (r: &mut Self)
        ensures
            *r == (DdsQos { resource_limits: Some((max_samples, max_instances, max_samples_per_instance)), ..*old(self) }),
            *final(self) == *final(r),
    {
        self.resource_limits = Some((max_samples, max_instances, max_samples_per_instance));
        self
    }

    /// How changes that belong together are presented.
    pub fn set_presentation(&mut self, access_scope: PresentationScope, coherent_access: bool, ordered_access: bool) -> (r: &mut Self)
        ensures
            *r == (DdsQos { presentation: Some((access_scope, coherent_access, ordered_access)), ..*old(self) }),
            *final(self) == *final(r),
    {
        self.presentation = Some((access_scope, coherent_access, ordered_access));
        self
    }

    /// For how long a sample is valid.
    pub fn set_lifespan(&mut self, lifespan: Nanos) -> (r: &mut Self)
        ensures
            *r == (DdsQos { lifespan: Some(dds_duration(lifespan)), ..*old(self) }),
            *final(self) == *final(r),
    {
        self.lifespan = Some(to_dds_duration(lifespan));
        self
    }

    /// Within what time a new sample is expected.
    pub fn set_deadline(&mut self, deadline: Nanos) -> (r: &mut Self)
        ensures
            *r == (DdsQos { deadline: Some(dds_duration(deadline)), ..*old(self) }),
            *final(self) == *final(r),
    {
        self.deadline = Some(to_dds_duration(deadline));
        self
    }

    /// How long a delivery may be put off.
    pub fn set_latency_budget(&mut self, duration: i64) -> (r: &mut Self)
        ensures
            *r == (DdsQos { latency_budget: Some(duration), ..*old(self) }),
            *final(self) == *final(r),
    {
        self.latency_budget = Some(duration);
        self
    }

    /// Whether several writers may write one instance.
    pub fn set_ownership(&mut self, kind: OwnershipKind) -> (r: &mut Self)
        ensures
            *r == (DdsQos { ownership: Some(kind), ..*old(self) }),
            *final(self) == *final(r),
    {
        self.ownership = Some(kind);
        self
    }

    /// Which writer owns an instance.
    pub fn set_ownership_strength(&mut self, value: i32) -> (r: &mut Self)
        ensures
            *r == (DdsQos { ownership_strength: Some(value), ..*old(self) }),
            *final(self) == *final(r),
    {
        self.ownership_strength = Some(value);
        self
    }

    /// How it is noticed that a writer is alive.
    pub fn set_liveliness(&mut self, kind: LivelinessKind, lease_duration: i64) -> (r: &mut Self)
        ensures
            *r == (DdsQos { liveliness: Some((kind, lease_duration)), ..*old(self) }),
            *final(self) == *final(r),
    {
        self.liveliness = Some((kind, lease_duration));
        self
    }

    /// How far apart samples are at least.
    pub fn set_time_based_filter(&mut self, minimum_separation: i64) -> (r: &mut Self)
        ensures
            *r == (DdsQos { time_based_filter: Some(minimum_separation), ..*old(self) }),
            *final(self) == *final(r),
    {
        self.time_based_filter = Some(minimum_separation);
        self
    }

    /// Whether samples may be lost.
    pub fn set_reliability(&mut self, kind: ReliabilityKind, max_blocking_time: Nanos) -> (r: &mut Self)
        ensures
            *r == (DdsQos { reliability: Some((kind, dds_duration(max_blocking_time))), ..*old(self) }),
            *final(self) == *final(r),
    {
        self.reliability = Some((kind, to_dds_duration(max_blocking_time)));
        self
    }

    /// How urgent samples are.
    pub fn set_transport_priority(&mut self, value: i32) -> (r: &mut Self)
        ensures
            *r == (DdsQos { transport_priority: Some(value), ..*old(self) }),
            *final(self) == *final(r),
    {
        self.transport_priority = Some(value);
        self
    }

    /// By which time samples are ordered.
    pub fn set_destination_order(&mut self, kind: DestinationOrderKind) -> (r: &mut Self)
        ensures
            *r == (DdsQos { destination_order: Some(kind), ..*old(self) }),
            *final(self) == *final(r),
    {
        self.destination_order = Some(kind);
        self
    }

    /// Whether an instance ends with its writer.
    pub fn set_writer_data_lifecycle(&mut self, autodispose: bool) -> (r: &mut Self)
        ensures
            *r == (DdsQos { writer_data_lifecycle: Some(autodispose), ..*old(self) }),
            *final(self) == *final(r),
    {
        self.writer_data_lifecycle = Some(autodispose);
        self
    }

    /// For how long a reader keeps samples that have ended.
    pub fn set_reader_data_lifecycle(&mut self, autopurge_nowriter_samples_delay: i64, autopurge_disposed_samples_delay: i64) -> (r: &mut Self)
        ensures
            *r == (DdsQos { reader_data_lifecycle: Some((autopurge_nowriter_samples_delay, autopurge_disposed_samples_delay)), ..*old(self) }),
            *final(self) == *final(r),
    {
        self.reader_data_lifecycle = Some((autopurge_nowriter_samples_delay, autopurge_disposed_samples_delay));
        self
    }

    /// What is kept for readers that come late. A history that keeps the last
    /// samples keeps at least one; nothing is set otherwise.
    pub fn set_durability_service(
        &mut self,
        service_cleanup_delay: Nanos,
        history_kind: HistoryKind,
        history_depth: i32,
        max_samples: i32,
        max_instances: i32,
        max_samples_per_instance: i32,
    ) -> (r: Result<&mut Self, DDSError>)
        ensures
            match r {
                Ok(qos) => {
                    &&& valid_history(history_kind, history_depth)
                    &&& *qos == (DdsQos {
                        durability_service: Some(
                            DurabilityService {
                                service_cleanup_delay: dds_duration(service_cleanup_delay),
                                history_kind,
                                history_depth,
                                max_samples,
                                max_instances,
                                max_samples_per_instance,
                            },
                        ),
                        ..*old(self)
                    })
                    &&& *final(self) == *final(qos)
                },
                Err(error) => {
                    &&& !valid_history(history_kind, history_depth)
                    &&& error == DDSError::BadParameter
                    &&& *final(self) == *old(self)
                },
            },
    {
        match validate_history(history_kind, history_depth) {
            Ok(_) => {},
            Err(error) => {
                return Err(error);
            },
        }
        self.durability_service = Some(
            DurabilityService {
                service_cleanup_delay: to_dds_duration(service_cleanup_delay),
                history_kind,
                history_depth,
                max_samples,
                max_instances,
                max_samples_per_instance,
            },
        );
        Ok(self)
    }

    /// Whether samples from nearby are ignored.
    pub fn set_ignorelocal(&mut self, ignore: IgnoreLocalKind) -> (r: &mut Self)
        ensures
            *r == (DdsQos { ignorelocal: Some(ignore), ..*old(self) }),
            *final(self) == *final(r),
    {
        self.ignorelocal = Some(ignore);
        self
    }

    /// The partition in which samples are exchanged.
    pub fn set_partition(&mut self, name: &str) -> (r: &mut Self)
        ensures
            text::text_of(r.partition) == Some(name@),
            *r == (DdsQos { partition: r.partition, ..*old(self) }),
            *final(self) == *final(r),
    {
        self.partition = Some(name.to_owned());
        self
    }

    /// Data that others can see.
    pub fn set_userdata(&mut self, data: &[u8]) -> (r: &mut Self)
        ensures
            bytes_of(r.userdata) == Some(data@),
            *r == (DdsQos { userdata: r.userdata, ..*old(self) }),
            *final(self) == *final(r),
    {
        let mut bytes: Vec<u8> = Vec::new();
        push_all(&mut bytes, data);
        assert(bytes@ =~= data@);
        self.userdata = Some(bytes);
        self
    }

    /// What is kept for readers that come late: how, and how many samples.
    pub fn durability_service(&self) -> (r: Option<(HistoryKind, i32)>)
        ensures
            r == match self.durability_service {
                Some(service) => Some((service.history_kind, service.history_depth)),
                None => None,
            },
    {
        match self.durability_service {
            Some(service) => Some((service.history_kind, service.history_depth)),
            None => None,
        }
    }

    pub fn durability(&self) -> (r: Option<DurabilityKind>)
        ensures
            r == self.durability,
    {
        self.durability
    }

    pub fn history(&self) -> (r: Option<(HistoryKind, i32)>)
        ensures
            r == self.history,
    {
        self.history
    }

    pub fn reliability(&self) -> (r: Option<(ReliabilityKind, Nanos)>)
        ensures
            r == match self.reliability {
                Some((kind, duration)) => Some((kind, span_of(duration))),
                None => None,
            },
    {
        match self.reliability {
            Some((kind, duration)) => Some((kind, from_dds_duration(duration))),
            None => None,
        }
    }

    pub fn lifespan(&self) -> (r: Option<Nanos>)
        ensures
            r == match self.lifespan {
                Some(duration) => Some(span_of(duration)),
                None => None,
            },
    {
        match self.lifespan {
            Some(duration) => Some(from_dds_duration(duration)),
            None => None,
        }
    }

    pub fn deadline(&self) -> (r: Option<Nanos>)
        ensures
            r == match self.deadline {
                Some(duration) => Some(span_of(duration)),
                None => None,
            },
    {
        match self.deadline {
            Some(duration) => Some(from_dds_duration(duration)),
            None => None,
        }
    }

    /// Data that others can see; empty data is none.
    pub fn userdata(&self) -> (r: Option<Vec<u8>>)
        ensures
            bytes_of(r) == match self.userdata {
                Some(bytes) => if bytes@.len() > 0 {
                    Some(bytes@)
                } else {
                    None
                },
                None => None,
            },
    {
        match &self.userdata {
            Some(bytes) => if bytes.len() > 0 {
                copied_bytes(&self.userdata)
            } else {
                None
            },
            None => None,
        }
    }

    pub fn liveliness(&self) -> (r: Option<(LivelinessKind, Nanos)>)
        ensures
            r == match self.liveliness {
                Some((kind, duration)) => Some((kind, span_of(duration))),
                None => None,
            },
    {
        match self.liveliness {
            Some((kind, duration)) => Some((kind, from_dds_duration(duration))),
            None => None,
        }
    }
}

/// How many samples are kept.
#[derive(Debug, Clone, Copy, PartialEq, Eq, Hash, Structural)]
pub enum History {
    KeepLast(i32),
    KeepAll,
}

impl Default for History {
    fn default() -> (r: Self)
        ensures
            r == History::KeepLast(1),
    {
        History::KeepLast(1)
    }
}

/// Whether samples may be lost; a writer waits for at most that long.
#[derive(Debug, Clone, Copy, PartialEq, Eq, Hash, Structural)]
pub enum Reliability {
    Reliable(Nanos),
    BestEffort,
}

impl Default for Reliability {
    fn default() -> (r: Self)
        ensures
            r == Reliability::BestEffort,
    {
        Reliability::BestEffort
    }
}

/// Whether readers that come late get samples, and how many; at least one.
#[derive(Debug, Clone, Copy, PartialEq, Eq, Hash, Structural)]
pub enum Durability {
    Volatile,
    TransientLocal { sync_depth: u16 },
}

impl Default for Durability {
    fn default() -> (r: Self)
        ensures
            r == Durability::Volatile,
    {
        Durability::Volatile
    }
}

/// The policies that matter most.
#[derive(Debug, Clone, Copy, PartialEq, Eq, Hash, Structural)]
pub struct Policy {
    pub history: History,
    pub reliability: Reliability,
    pub durability: Durability,
}

impl Default for Policy {
    fn default() -> (r: Self)
        ensures
            r == Policy::standard(),
    {
        Policy {
            history: History::default(),
            reliability: Reliability::default(),
            durability: Durability::default(),
        }
    }
}

/// How many instances resource limits leave room for.
pub const SUPPORT_INSTANCES: i32 = 4;

/// How many samples of a writer shared memory keeps for late readers.
pub const IOX_MAX_PUBLISHER_HISTORY: i32 = 16;

/// How long a reliable writer waits where nothing else is said.
pub const DEFAULT_BLOCKING: Nanos = 100_000_000;

/// Room for `depth` samples of every instance, as far as it can be counted.
pub open spec fn room_for(depth: i32) -> i32 {
    if depth * SUPPORT_INSTANCES <= i32::MAX {
        (depth * SUPPORT_INSTANCES) as i32
    } else {
        i32::MAX
    }
}

fn room(depth: i32) -> (r: i32)
    requires
        depth > 0,
    ensures
        r == room_for(depth),
{
    match depth.checked_mul(SUPPORT_INSTANCES) {
        Some(room) => room,
        None => i32::MAX,
    }
}

impl Policy {
    /// The policy of a set of which nothing is set.
    pub open spec fn standard() -> Self {
        Policy {
            history: History::KeepLast(1),
            reliability: Reliability::BestEffort,
            durability: Durability::Volatile,
        }
    }

    /// Late readers get at least one sample.
    pub open spec fn wf(self) -> bool {
        self.durability matches Durability::TransientLocal { sync_depth } ==> sync_depth > 0
    }

    /// The history can be kept.
    pub open spec fn has_valid_history(self) -> bool {
        self.history matches History::KeepLast(depth) ==> depth > 0
    }

    /// Whether and for how long a writer waits: late readers cannot be served
    /// by best effort.
    pub open spec fn effective_reliability(self) -> Reliability {
        if self.durability is TransientLocal && self.reliability is BestEffort {
            Reliability::Reliable(DEFAULT_BLOCKING)
        } else {
            self.reliability
        }
    }

    /// The policies that are set for this policy.
    pub open spec fn qos_view(self) -> QosView {
        QosView {
            history: Some(
                match self.history {
                    History::KeepLast(depth) => (HistoryKind::KeepLast, depth),
                    History::KeepAll => (HistoryKind::KeepAll, 0i32),
                },
            ),
            resource_limits: match self.history {
                History::KeepLast(depth) => Some((room_for(depth), SUPPORT_INSTANCES, depth)),
                History::KeepAll => None,
            },
            reliability: Some(
                match self.effective_reliability() {
                    Reliability::Reliable(max_blocking_time) => (
                        ReliabilityKind::Reliable,
                        dds_duration(max_blocking_time),
                    ),
                    Reliability::BestEffort => (ReliabilityKind::BestEffort, 0i64),
                },
            ),
            durability: Some(
                match self.durability {
                    Durability::Volatile => DurabilityKind::Volatile,
                    Durability::TransientLocal { sync_depth } => DurabilityKind::TransientLocal,
                },
            ),
            durability_service: match self.durability {
                Durability::Volatile => None,
                Durability::TransientLocal { sync_depth } => Some(
                    DurabilityService {
                        service_cleanup_delay: 0,
                        history_kind: HistoryKind::KeepLast,
                        history_depth: sync_depth as i32,
                        max_samples: room_for(sync_depth as i32),
                        max_instances: SUPPORT_INSTANCES,
                        max_samples_per_instance: sync_depth as i32,
                    },
                ),
            },
            ..QosView::unset()
        }
    }

    /// A policy under which late readers get the last `history` samples.
    pub fn create_transient_local(history: i32, deadline: Option<Nanos>) -> (r: Result<
        Self,
        DDSError,
    >)
        ensures
            r == if 0 < history <= u16::MAX {
                Ok::<Policy, DDSError>(
                    Policy {
                        history: History::KeepLast(history),
                        reliability: Reliability::Reliable(
                            match deadline {
                                Some(deadline) => deadline,
                                None => DEFAULT_BLOCKING,
                            },
                        ),
                        durability: Durability::TransientLocal { sync_depth: history as u16 },
                    },
                )
            } else {
                Err(DDSError::BadParameter)
            },
    {
        match validate_history(HistoryKind::KeepLast, history) {
            Ok(_) => {},
            Err(error) => {
                return Err(error);
            },
        }
        let sync_depth: u16 = match Self::sync_depth(history) {
            Ok(sync_depth) => sync_depth,
            Err(error) => {
                return Err(error);
            },
        };
        Ok(
            Policy {
                history: History::KeepLast(history),
                reliability: Reliability::Reliable(
                    match deadline {
                        Some(deadline) => deadline,
                        None => DEFAULT_BLOCKING,
                    },
                ),
                durability: Durability::TransientLocal { sync_depth },
            },
        )
    }

    /// How many samples late readers get of such a history.
    pub fn sync_depth(history: i32) -> (r: Result<u16, DDSError>)
        ensures
            r == if 0 < history <= u16::MAX {
                Ok::<u16, DDSError>(history as u16)
            } else {
                Err(DDSError::BadParameter)
            },
    {
        if 0 < history && history <= u16::MAX as i32 {
            Ok(history as u16)
        } else {
            Err(DDSError::BadParameter)
        }
    }

    /// How many samples late readers are to get, where those are more than shared
    /// memory keeps: a writer with this policy then does without it.
    pub fn beyond_shared_memory(&self) -> (r: Option<i32>)
        ensures
            r == match self.durability {
                Durability::TransientLocal { sync_depth } => if sync_depth
                    > IOX_MAX_PUBLISHER_HISTORY {
                    Some(sync_depth as i32)
                } else {
                    None
                },
                Durability::Volatile => None,
            },
    {
        match self.durability {
            Durability::TransientLocal { sync_depth } => {
                let depth: i32 = sync_depth as i32;
                if depth > IOX_MAX_PUBLISHER_HISTORY {
                    Some(depth)
                } else {
                    None
                }
            },
            Durability::Volatile => None,
        }
    }

    /// The policies that are set for this policy.
    pub fn to_qos(&self) -> (r: Result<DdsQos, DDSError>)
        requires
            self.wf(),
        ensures
            r is Ok <==> self.has_valid_history(),
            r matches Ok(qos) ==> qos@ == self.qos_view(),
            r matches Err(error) ==> error == DDSError::BadParameter,
    {
        let mut qos = match DdsQos::create() {
            Ok(qos) => qos,
            Err(error) => {
                return Err(error);
            },
        };
        match self.history {
            History::KeepLast(depth) => {
                match qos.set_history(HistoryKind::KeepLast, depth) {
                    Ok(_) => {},
                    Err(error) => {
                        return Err(error);
                    },
                }
                let max_samples: i32 = room(depth);
                qos.set_resource_limits(max_samples, SUPPORT_INSTANCES, depth);
            },
            History::KeepAll => {
                match qos.set_history(HistoryKind::KeepAll, 0) {
                    Ok(_) => {},
                    Err(error) => {
                        return Err(error);
                    },
                }
            },
        }
        match self.reliability {
            Reliability::Reliable(max_blocking_time) => {
                qos.set_reliability(ReliabilityKind::Reliable, max_blocking_time);
            },
            Reliability::BestEffort => {
                qos.set_reliability(ReliabilityKind::BestEffort, 0);
            },
        }
        match self.durability {
            Durability::Volatile => {
                qos.set_durability(DurabilityKind::Volatile);
            },
            Durability::TransientLocal { sync_depth } => {
                qos.set_durability(DurabilityKind::TransientLocal);
                let depth: i32 = sync_depth as i32;
                match qos.set_durability_service(
                    0,
                    HistoryKind::KeepLast,
                    depth,
                    room(depth),
                    SUPPORT_INSTANCES,
                    depth,
                ) {
                    Ok(_) => {},
                    Err(error) => {
                        return Err(error);
                    },
                }
                if matches!(self.reliability, Reliability::BestEffort) {
                    qos.set_reliability(ReliabilityKind::Reliable, DEFAULT_BLOCKING);
                }
            },
        }
        assert(qos@ =~= self.qos_view());
        Ok(qos)
    }

    /// The policy that a set of policies amounts to.
    pub open spec fn of_qos(qos: QosView) -> Self {
        Policy {
            history: match qos.history {
                Some((HistoryKind::KeepLast, depth)) => History::KeepLast(depth),
                Some((HistoryKind::KeepAll, _)) => History::KeepAll,
                None => History::KeepLast(1),
            },
            reliability: match qos.reliability {
                Some((ReliabilityKind::Reliable, duration)) => Reliability::Reliable(
                    span_of(duration),
                ),
                Some((ReliabilityKind::BestEffort, _)) => Reliability::BestEffort,
                None => Reliability::BestEffort,
            },
            durability: match qos.durability {
                Some(DurabilityKind::Volatile) => Durability::Volatile,
                None => Durability::Volatile,
                Some(_) => Durability::TransientLocal {
                    sync_depth: match qos.durability_service {
                        Some(service) => if service.history_kind is KeepAll
                            || service.history_depth > u16::MAX {
                            u16::MAX
                        } else if service.history_depth <= 0 {
                            1
                        } else {
                            service.history_depth as u16
                        },
                        None => 1,
                    },
                },
            },
        }
    }

    /// The policy that a set of policies amounts to.
    pub fn from_qos(qos: &DdsQos) -> (r: Self)
        ensures
            r == Policy::of_qos(qos@),
            r.wf(),
    {
        let history = match qos.history() {
            Some((HistoryKind::KeepLast, depth)) => History::KeepLast(depth),
            Some((HistoryKind::KeepAll, _)) => History::KeepAll,
            None => History::default(),
        };
        let reliability = match qos.reliability() {
            Some((ReliabilityKind::Reliable, max_blocking_time)) => Reliability::Reliable(
                max_blocking_time,
            ),
            Some((ReliabilityKind::BestEffort, _)) => Reliability::BestEffort,
            None => Reliability::default(),
        };
        let durability = match qos.durability() {
            Some(DurabilityKind::Volatile) => Durability::Volatile,
            None => Durability::Volatile,
            Some(_) => Durability::TransientLocal {
                sync_depth: match qos.durability_service() {
                    Some((HistoryKind::KeepLast, depth)) => if depth <= 0 {
                        1
                    } else {
                        match Policy::sync_depth(depth) {
                            Ok(sync_depth) => sync_depth,
                            Err(_) => u16::MAX,
                        }
                    },
                    Some((HistoryKind::KeepAll, _)) => u16::MAX,
                    None => 1,
                },
            },
        };
        Policy { history, reliability, durability }
    }
}

impl From<&DdsQos> for Policy {
    fn from(qos: &DdsQos) -> (r: Self) {
        Policy::from_qos(qos)
    }
}

impl vstd::std_specs::convert::FromSpecImpl<&DdsQos> for Policy {
    open spec fn obeys_from_spec() -> bool {
        true
    }

    open spec fn from_spec(qos: &DdsQos) -> Self {
        Policy::of_qos(qos@)
    }
}

/// A policy that is turned into a set of policies and back is the same, but for
/// a best-effort policy for late readers, which becomes reliable.
pub proof fn law_policy_comes_back(policy: Policy)
    requires
        policy.wf(),
        policy.has_valid_history(),
        policy.reliability matches Reliability::Reliable(span) ==> span <= DDS_INFINITY,
    ensures
        Policy::of_qos(policy.qos_view()) == (Policy {
            reliability: policy.effective_reliability(),
            ..policy
        }),
{
}

/// Merging a set with itself changes nothing, and what is set is kept.
pub proof fn law_merge_keeps_what_is_set(qos: QosView, src: QosView)
    ensures
        qos.merged(qos) == qos,
        qos.merged(QosView::unset()) == qos,
        QosView::unset().merged(src) == src,
        qos.merged(src).merged(src) == qos.merged(src),
{
    assert(qos.merged(qos) =~= qos);
    assert(qos.merged(QosView::unset()) =~= qos);
    assert(QosView::unset().merged(src) =~= src);
    assert(qos.merged(src).merged(src) =~= qos.merged(src));
}

/// A time span survives the way to DDS and back, where it is short enough.
pub proof fn law_duration_comes_back(span: Nanos)
    ensures
        span <= DDS_INFINITY ==> span_of(dds_duration(span)) == span,
        span > DDS_INFINITY ==> span_of(dds_duration(span)) == DDS_INFINITY,
{
}

/// A policy that is set stays as it is when others are merged into the set, and
/// one that is not set is taken from them.
pub proof fn law_merge_fills_what_is_not_set(qos: QosView, src: QosView)
    ensures
        qos.durability is Some ==> qos.merged(src).durability == qos.durability,
        qos.history is Some ==> qos.merged(src).history == qos.history,
        qos.resource_limits is Some ==> qos.merged(src).resource_limits == qos.resource_limits,
        qos.presentation is Some ==> qos.merged(src).presentation == qos.presentation,
        qos.lifespan is Some ==> qos.merged(src).lifespan == qos.lifespan,
        qos.deadline is Some ==> qos.merged(src).deadline == qos.deadline,
        qos.latency_budget is Some ==> qos.merged(src).latency_budget == qos.latency_budget,
        qos.ownership is Some ==> qos.merged(src).ownership == qos.ownership,
        qos.ownership_strength is Some ==> qos.merged(src).ownership_strength == qos.ownership_strength,
        qos.liveliness is Some ==> qos.merged(src).liveliness == qos.liveliness,
        qos.time_based_filter is Some ==> qos.merged(src).time_based_filter == qos.time_based_filter,
        qos.reliability is Some ==> qos.merged(src).reliability == qos.reliability,
        qos.transport_priority is Some ==> qos.merged(src).transport_priority == qos.transport_priority,
        qos.destination_order is Some ==> qos.merged(src).destination_order == qos.destination_order,
        qos.writer_data_lifecycle is Some ==> qos.merged(src).writer_data_lifecycle == qos.writer_data_lifecycle,
        qos.reader_data_lifecycle is Some ==> qos.merged(src).reader_data_lifecycle == qos.reader_data_lifecycle,
        qos.durability_service is Some ==> qos.merged(src).durability_service == qos.durability_service,
        qos.ignorelocal is Some ==> qos.merged(src).ignorelocal == qos.ignorelocal,
        qos.partition is Some ==> qos.merged(src).partition == qos.partition,
        qos.userdata is Some ==> qos.merged(src).userdata == qos.userdata,
        qos.durability is None ==> qos.merged(src).durability == src.durability,
        qos.history is None ==> qos.merged(src).history == src.history,
        qos.resource_limits is None ==> qos.merged(src).resource_limits == src.resource_limits,
        qos.presentation is None ==> qos.merged(src).presentation == src.presentation,
        qos.lifespan is None ==> qos.merged(src).lifespan == src.lifespan,
        qos.deadline is None ==> qos.merged(src).deadline == src.deadline,
        qos.latency_budget is None ==> qos.merged(src).latency_budget == src.latency_budget,
        qos.ownership is None ==> qos.merged(src).ownership == src.ownership,
        qos.ownership_strength is None ==> qos.merged(src).ownership_strength == src.ownership_strength,
        qos.liveliness is None ==> qos.merged(src).liveliness == src.liveliness,
        qos.time_based_filter is None ==> qos.merged(src).time_based_filter == src.time_based_filter,
        qos.reliability is None ==> qos.merged(src).reliability == src.reliability,
        qos.transport_priority is None ==> qos.merged(src).transport_priority == src.transport_priority,
        qos.destination_order is None ==> qos.merged(src).destination_order == src.destination_order,
        qos.writer_data_lifecycle is None ==> qos.merged(src).writer_data_lifecycle == src.writer_data_lifecycle,
        qos.reader_data_lifecycle is None ==> qos.merged(src).reader_data_lifecycle == src.reader_data_lifecycle,
        qos.durability_service is None ==> qos.merged(src).durability_service == src.durability_service,
        qos.ignorelocal is None ==> qos.merged(src).ignorelocal == src.ignorelocal,
        qos.partition is None ==> qos.merged(src).partition == src.partition,
        qos.userdata is None ==> qos.merged(src).userdata == src.userdata,
{
}

/// A reliable policy is set as reliable, whatever is kept for late readers. A
/// writer waits for the time that was given, or for ever where that is too long.
/// A policy without late readers that does its best goes on doing so; one for
/// late readers becomes reliable, and its writer waits for 100 milliseconds.
pub proof fn law_reliability_is_set(policy: Policy)
    ensures
        policy.qos_view().reliability matches Some((kind, duration)) && {
            &&& policy.reliability matches Reliability::Reliable(span) ==> {
                &&& kind is Reliable
                &&& span <= i64::MAX ==> duration == span
                &&& span > i64::MAX ==> duration == i64::MAX
            }
            &&& policy.reliability is BestEffort && policy.durability is Volatile
                ==> kind is BestEffort && duration == 0
            &&& policy.reliability is BestEffort && policy.durability is TransientLocal
                ==> kind is Reliable && duration == 100_000_000
        },
{
}

/// A history that keeps the last samples is set with its depth, with room for
/// that many samples of each of four instances; one that keeps all has no limit.
pub proof fn law_history_is_set(policy: Policy)
    requires
        policy.has_valid_history(),
    ensures
        match policy.history {
            History::KeepLast(depth) => {
                &&& policy.qos_view().history == Some((HistoryKind::KeepLast, depth))
                &&& policy.qos_view().resource_limits matches Some((samples, instances, each)) && {
                    &&& instances == 4
                    &&& each == depth
                    &&& depth <= i32::MAX / 4 ==> samples == depth + depth + depth + depth
                    &&& depth > i32::MAX / 4 ==> samples == i32::MAX
                }
            },
            History::KeepAll => {
                &&& policy.qos_view().history matches Some((kind, depth)) && kind is KeepAll && depth
                    == 0
                &&& policy.qos_view().resource_limits is None
            },
        },
{
}

/// What late readers get is set as what is kept for them: the last samples, as
/// many as the policy says of each of four instances. Without late readers
/// nothing is set of it.
pub proof fn law_durability_is_set(policy: Policy)
    requires
        policy.wf(),
    ensures
        match policy.durability {
            Durability::Volatile => {
                &&& policy.qos_view().durability == Some(DurabilityKind::Volatile)
                &&& policy.qos_view().durability_service is None
            },
            Durability::TransientLocal { sync_depth } => {
                &&& policy.qos_view().durability == Some(DurabilityKind::TransientLocal)
                &&& policy.qos_view().durability_service matches Some(service) && {
                    &&& service.history_kind is KeepLast
                    &&& service.history_depth == sync_depth
                    &&& service.max_samples_per_instance == sync_depth
                    &&& service.max_instances == 4
                    &&& service.max_samples == sync_depth + sync_depth + sync_depth + sync_depth
                    &&& service.service_cleanup_delay == 0
                }
            },
        },
{
}

/// A policy sets history, limits of resources, reliability, durability and what
/// is kept for late readers, and nothing else.
pub proof fn law_policy_sets_nothing_else(policy: Policy)
    ensures
        policy.qos_view().presentation is None,
        policy.qos_view().lifespan is None,
        policy.qos_view().deadline is None,
        policy.qos_view().latency_budget is None,
        policy.qos_view().ownership is None,
        policy.qos_view().ownership_strength is None,
        policy.qos_view().liveliness is None,
        policy.qos_view().time_based_filter is None,
        policy.qos_view().transport_priority is None,
        policy.qos_view().destination_order is None,
        policy.qos_view().writer_data_lifecycle is None,
        policy.qos_view().reader_data_lifecycle is None,
        policy.qos_view().ignorelocal is None,
        policy.qos_view().partition is None,
        policy.qos_view().userdata is None,
{
}

/// A policy that is turned into a set of policies and back is equal to the one
/// that was given. Only one that serves late readers by best effort comes back
/// as reliable, with 100 milliseconds.
pub proof fn law_policy_is_what_was_given(policy: Policy)
    requires
        policy.wf(),
        policy.has_valid_history(),
        policy.reliability matches Reliability::Reliable(span) ==> span <= i64::MAX,
    ensures
        !(policy.reliability is BestEffort && policy.durability is TransientLocal) ==> Policy::of_qos(
            policy.qos_view(),
        ) == policy,
        policy.reliability is BestEffort && policy.durability is TransientLocal ==> Policy::of_qos(
            policy.qos_view(),
        ) == (Policy { reliability: Reliability::Reliable(100_000_000), ..policy }),
{
}

/// What is not set counts as the last sample kept, best effort and no late
/// readers.
pub proof fn law_unset_policies_have_defaults(qos: QosView)
    ensures
        qos.history is None ==> Policy::of_qos(qos).history == History::KeepLast(1),
        qos.reliability is None ==> Policy::of_qos(qos).reliability is BestEffort,
        qos.durability is None ==> Policy::of_qos(qos).durability is Volatile,
{
}

/// What is set is read back: the history with its depth, the kind of reliability
/// with its time, which is none where it is negative, and late readers for every
/// durability but the volatile one.
pub proof fn law_set_policies_are_read(qos: QosView)
    ensures
        qos.history matches Some((kind, depth)) ==> Policy::of_qos(qos).history == if kind is KeepAll {
            History::KeepAll
        } else {
            History::KeepLast(depth)
        },
        qos.reliability matches Some((kind, duration)) ==> {
            &&& kind is BestEffort ==> Policy::of_qos(qos).reliability is BestEffort
            &&& kind is Reliable ==> (Policy::of_qos(qos).reliability matches Reliability::Reliable(
                span,
            ) && (if duration >= 0 {
                span == duration
            } else {
                span == 0
            }))
        },
        qos.durability matches Some(kind) ==> (kind is Volatile <==> Policy::of_qos(
            qos,
        ).durability is Volatile),
{
}

/// Late readers get at least one sample, and at most 65535: as many as are kept
/// for them, all that can be counted where all are kept, and one where nothing is
/// said.
pub proof fn law_late_readers_are_read(qos: QosView)
    requires
        qos.durability is Some,
        !(qos.durability->0 is Volatile),
    ensures
        Policy::of_qos(qos).durability matches Durability::TransientLocal { sync_depth } && {
            &&& 1 <= sync_depth <= 65535
            &&& qos.durability_service is None ==> sync_depth == 1
            &&& qos.durability_service matches Some(service) ==> {
                &&& service.history_kind is KeepAll ==> sync_depth == 65535
                &&& service.history_kind is KeepLast && 1 <= service.history_depth <= 65535
                    ==> sync_depth == service.history_depth
                &&& service.history_kind is KeepLast && service.history_depth < 1 ==> sync_depth
                    == 1
                &&& service.history_kind is KeepLast && service.history_depth > 65535 ==> sync_depth
                    == 65535
            }
        },
{
}

/// A time span goes to DDS as it is, where 63 bits can hold it, and else for
/// ever. One comes from DDS as it is, but not less than none.
pub proof fn law_durations(span: Nanos, duration: i64)
    ensures
        span <= 9_223_372_036_854_775_807 ==> dds_duration(span) == span,
        span > 9_223_372_036_854_775_807 ==> dds_duration(span) == 9_223_372_036_854_775_807,
        duration >= 0 ==> span_of(duration) == duration,
        duration < 0 ==> span_of(duration) == 0,
{
}

/// A history that keeps the last samples keeps at least one; nothing is asked of
/// one that keeps all.
pub proof fn law_valid_histories(depth: i32)
    ensures
        valid_history(HistoryKind::KeepLast, depth) <==> depth >= 1,
        valid_history(HistoryKind::KeepAll, depth),
{
}

/// Two sets of policies are equal just where each policy is set in both or in
/// neither, and where it is set, to the same.
pub proof fn law_equal_sets_have_equal_policies(a: DdsQos, b: DdsQos)
    ensures
        crate::util::has_equality::<DdsQos>(),
        vstd::std_specs::cmp::PartialEqSpec::eq_spec(&a, &b) <==> {
            &&& a.durability == b.durability
            &&& a.history == b.history
            &&& a.resource_limits == b.resource_limits
            &&& a.presentation == b.presentation
            &&& a.lifespan == b.lifespan
            &&& a.deadline == b.deadline
            &&& a.latency_budget == b.latency_budget
            &&& a.ownership == b.ownership
            &&& a.ownership_strength == b.ownership_strength
            &&& a.liveliness == b.liveliness
            &&& a.time_based_filter == b.time_based_filter
            &&& a.reliability == b.reliability
            &&& a.transport_priority == b.transport_priority
            &&& a.destination_order == b.destination_order
            &&& a.writer_data_lifecycle == b.writer_data_lifecycle
            &&& a.reader_data_lifecycle == b.reader_data_lifecycle
            &&& a.durability_service == b.durability_service
            &&& a.ignorelocal == b.ignorelocal
            &&& a.partition is Some <==> b.partition is Some
            &&& a.partition is Some ==> a.partition->0@ == b.partition->0@
            &&& a.userdata is Some <==> b.userdata is Some
            &&& a.userdata is Some ==> a.userdata->0@ == b.userdata->0@
        },
{
}

/// The standard policy keeps one sample, sends it once and keeps nothing for late
/// readers. It is what a set says in which nothing is set.
pub proof fn law_standard_policy_is_that_of_nothing_set(policy: Policy)
    ensures
        policy == Policy::standard() <==> {
            &&& policy.history == History::KeepLast(1)
            &&& policy.reliability is BestEffort
            &&& policy.durability is Volatile
        },
        Policy::of_qos(QosView::unset()) == Policy::standard(),
{
}

/// The policy that is made of a set of policies is the one that the set says.
pub proof fn law_policy_is_made_of_a_set(qos: &DdsQos)
    ensures
        <Policy as vstd::std_specs::convert::FromSpec<&DdsQos>>::obeys_from_spec(),
        <Policy as vstd::std_specs::convert::FromSpec<&DdsQos>>::from_spec(qos) == Policy::of_qos(
            qos@,
        ),
{
}

/// A policy can be kept to where it keeps everything, or at least one sample; and
/// late readers get at least one.
pub proof fn law_which_policies_can_be_kept_to(policy: Policy)
    ensures
        policy.history is KeepAll ==> policy.has_valid_history(),
        policy.history matches History::KeepLast(depth) ==> (policy.has_valid_history() <==> depth
            >= 1),
        policy.durability is Volatile ==> policy.wf(),
        policy.durability matches Durability::TransientLocal { sync_depth } ==> (policy.wf()
            <==> sync_depth >= 1),
{
}

} // verus!
