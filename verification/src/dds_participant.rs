//! Participants.
use crate::dds_listener::DdsListener;
use crate::dds_qos::DdsQos;
use crate::error::{check_handle, DDSError};
use crate::shared_registry::{Shared, SharedRegistry};
use vstd::prelude::*;

verus! {

/// The domain that stands for the default one.
pub const DDS_DOMAIN_DEFAULT: u32 = 0xFFFF_FFFF;

/// The domain that is asked for.
pub open spec fn domain_for(maybe_domain: Option<u32>) -> u32 {
    match maybe_domain {
        Some(domain) => domain,
        None => DDS_DOMAIN_DEFAULT,
    }
}

/// The domain that is asked for.
pub fn domain_or_default(maybe_domain: Option<u32>) -> (r: u32)
    ensures
        r == domain_for(maybe_domain),
{
    match maybe_domain {
        Some(domain) => domain,
        None => DDS_DOMAIN_DEFAULT,
    }
}

/// The domain that an answer of DDS names.
pub fn domain_id(ret: i32, id: u32) -> (r: Result<u32, DDSError>)
    ensures
        r == if ret == 0 {
            Ok::<u32, DDSError>(id)
        } else {
            Err(DDSError::of_code(ret))
        },
{
    if ret == 0 {
        Ok(id)
    } else {
        Err(DDSError::from(ret))
    }
}

/// A participant: `E` stands for it in DDS.
#[derive(Debug)]
pub struct DdsParticipant<E, C> {
    pub entity: E,
    pub listener: Option<DdsListener<C>>,
}

impl<E, C> DdsParticipant<E, C> {
    /// The outcome of making a participant, where DDS answers with `handle`.
    pub open spec fn made<O: FnOnce(i32) -> E>(
        handle: i32,
        maybe_listener: Option<DdsListener<C>>,
        own: O,
        r: Result<Self, DDSError>,
    ) -> bool {
        match r {
            Ok(participant) => {
                &&& handle > 0
                &&& call_ensures(own, (handle,), participant.entity)
                &&& participant.listener == maybe_listener
            },
            Err(error) => handle <= 0 && error == DDSError::of_code(handle),
        }
    }

    /// Makes a participant. `make` asks DDS for it, and `own` takes the handle
    /// that DDS gives.
    pub fn create<F, O>(
        maybe_domain: Option<u32>,
        maybe_qos: Option<DdsQos>,
        maybe_listener: Option<DdsListener<C>>,
        make: F,
        own: O,
    ) -> (r: Result<Self, DDSError>) where
        F: FnOnce(u32, &Option<DdsQos>, &Option<DdsListener<C>>) -> i32,
        O: FnOnce(i32) -> E,

        requires
            call_requires(make, (domain_for(maybe_domain), &maybe_qos, &maybe_listener)),
            forall|handle: i32| handle > 0 ==> #[trigger] call_requires(own, (handle,)),
        ensures
            exists|handle: i32| #[trigger]
                call_ensures(
                    make,
                    (domain_for(maybe_domain), &maybe_qos, &maybe_listener),
                    handle,
                ) && Self::made(handle, maybe_listener, own, r),
    {
        let answer: i32 = make(domain_or_default(maybe_domain), &maybe_qos, &maybe_listener);
        match check_handle(answer) {
            Ok(handle) => Ok(DdsParticipant { entity: own(handle), listener: maybe_listener }),
            Err(error) => Err(error),
        }
    }

    /// The shared participant of a process, by its place in the registry. It is
    /// made where there is none, and only there, and then stays. The domain that it belongs to is
    /// known only then: `resolve` asks for it. Settings of a request's own
    /// cannot be applied to a participant that exists.
    pub fn get_or_create_with<F, O, R>(
        registry: &mut SharedRegistry<Self>,
        maybe_domain: Option<u32>,
        maybe_qos: Option<DdsQos>,
        maybe_listener: Option<DdsListener<C>>,
        make: F,
        own: O,
        resolve: R,
    ) -> (r: Result<usize, DDSError>) where
        F: FnOnce(u32, &Option<DdsQos>, &Option<DdsListener<C>>) -> i32,
        O: FnOnce(i32) -> E,
        R: FnOnce(&Self) -> Result<u32, DDSError>,

        requires
            old(registry)@.wf(),
            !old(registry)@.index.contains_key(domain_for(maybe_domain)) ==> {
                &&& call_requires(make, (domain_for(maybe_domain), &maybe_qos, &maybe_listener))
                &&& forall|handle: i32| handle > 0 ==> #[trigger] call_requires(own, (handle,))
                &&& forall|participant: &Self| #[trigger] call_requires(resolve, (participant,))
            },
        ensures
            final(registry)@.wf(),
            old(registry)@.kept_in(final(registry)@),
            r matches Ok(place) ==> final(registry)@.index.contains_key(domain_for(maybe_domain))
                && final(registry)@.index[domain_for(maybe_domain)] == place,
            if old(registry)@.index.contains_key(domain_for(maybe_domain)) {
                &&& final(registry)@ == old(registry)@
                &&& r == if maybe_qos is None && maybe_listener is None {
                    Ok::<usize, DDSError>(old(registry)@.index[domain_for(maybe_domain)])
                } else {
                    Err(DDSError::PreconditionNotMet)
                }
            } else {
                exists|handle: i32| #[trigger]
                    call_ensures(
                        make,
                        (domain_for(maybe_domain), &maybe_qos, &maybe_listener),
                        handle,
                    ) && if handle <= 0 {
                        r == Err::<usize, DDSError>(DDSError::of_code(handle)) && final(registry)@
                            == old(registry)@
                    } else {
                        exists|participant: Self, actual: Result<u32, DDSError>|
                            Self::made(handle, maybe_listener, own, Ok(participant))
                                && #[trigger] call_ensures(resolve, (&participant,), actual)
                                && match actual {
                                Err(error) => r == Err::<usize, DDSError>(error)
                                    && final(registry)@ == old(registry)@,
                                Ok(actual) => {
                                    &&& final(registry)@ == old(registry)@.with(
                                        domain_for(maybe_domain),
                                        actual,
                                        participant,
                                    )
                                    &&& r is Err <==> old(registry)@.index.contains_key(actual) && !(
                                    maybe_qos is None && maybe_listener is None)
                                    &&& r matches Err(error) ==> error is PreconditionNotMet
                                },
                            }
                    }
            },
    {
        let has_explicit_args = maybe_qos.is_some() || maybe_listener.is_some();
        let create = || -> (r: Result<Self, DDSError>)
            requires
                call_requires(make, (domain_for(maybe_domain), &maybe_qos, &maybe_listener)),
                forall|handle: i32| handle > 0 ==> #[trigger] call_requires(own, (handle,)),
            ensures
                exists|handle: i32| #[trigger]
                    call_ensures(
                        make,
                        (domain_for(maybe_domain), &maybe_qos, &maybe_listener),
                        handle,
                    ) && Self::made(handle, maybe_listener, own, r),
            { Self::create(maybe_domain, maybe_qos, maybe_listener, make, own) };
        match registry.get_or_create(domain_or_default(maybe_domain), create, resolve) {
            Ok(Shared::Created(place)) => Ok(place),
            Ok(Shared::Existing(place)) => if has_explicit_args {
                Err(DDSError::PreconditionNotMet)
            } else {
                Ok(place)
            },
            Err(error) => Err(error),
        }
    }
}

/// How a participant is to be made.
#[derive(Debug)]
pub struct ParticipantBuilder<C> {
    pub maybe_domain: Option<u32>,
    pub maybe_qos: Option<DdsQos>,
    pub maybe_listener: Option<DdsListener<C>>,
}

impl<C> ParticipantBuilder<C> {
    pub fn new() -> (r: Self)
        ensures
            r.maybe_domain is None,
            r.maybe_qos is None,
            r.maybe_listener is None,
    {
        ParticipantBuilder { maybe_domain: None, maybe_qos: None, maybe_listener: None }
    }

    pub fn with_domain(self, domain: u32) -> (r: Self)
        ensures
            r == (ParticipantBuilder { maybe_domain: Some(domain), ..self }),
    {
        let mut builder = self;
        builder.maybe_domain = Some(domain);
        builder
    }

    pub fn with_qos(self, qos: DdsQos) -> (r: Self)
        ensures
            r == (ParticipantBuilder { maybe_qos: Some(qos), ..self }),
    {
        let mut builder = self;
        builder.maybe_qos = Some(qos);
        builder
    }

    pub fn with_listener(self, listener: DdsListener<C>) -> (r: Self)
        ensures
            r == (ParticipantBuilder { maybe_listener: Some(listener), ..self }),
    {
        let mut builder = self;
        builder.maybe_listener = Some(listener);
        builder
    }
}

impl<C> Default for ParticipantBuilder<C> {
    fn default() -> (r: Self)
        ensures
            r.maybe_domain is None,
            r.maybe_qos is None,
            r.maybe_listener is None,
    {
        ParticipantBuilder::new()
    }
}

/// A globally unique identifier.
#[verifier::external_type_specification]
#[verifier::external_body]
pub struct ExUuid(uuid::Uuid);

/// The identifier that consists of 16 bytes.
pub uninterp spec fn uuid_of(bytes: Seq<u8>) -> uuid::Uuid;

/// Calls `uuid::Uuid::from_bytes`, which makes the identifier that consists of
/// the bytes, in their order.
#[verifier::external_body]
fn uuid_from_bytes(bytes: [u8; 16]) -> (r: uuid::Uuid)
    ensures
        r == uuid_of(bytes@),
{
    uuid::Uuid::from_bytes(bytes)
}

/// The identifier that DDS gives as 16 bytes.
pub fn parse_guid(guid: [u8; 16]) -> (r: uuid::Uuid)
    ensures
        r == uuid_of(guid@),
{
    uuid_from_bytes(guid)
}

/// A request that names a domain is for that one, and one that names none is for
/// the default one.
pub proof fn law_which_domain_is_asked_for(domain: u32)
    ensures
        domain_for(Some(domain)) == domain,
        domain_for(None) == 0xFFFF_FFFFu32,
{
}

/// A participant is made where DDS answers with a handle above zero, of that
/// handle and with the listener that was given; otherwise making it fails with
/// what the answer names.
pub proof fn law_which_participants_are_made<E, C, O: FnOnce(i32) -> E>(
    handle: i32,
    maybe_listener: Option<DdsListener<C>>,
    own: O,
    r: Result<DdsParticipant<E, C>, DDSError>,
)
    requires
        DdsParticipant::made(handle, maybe_listener, own, r),
    ensures
        r is Ok <==> handle > 0,
        r matches Ok(participant) ==> call_ensures(own, (handle,), participant.entity)
            && participant.listener == maybe_listener,
        r matches Err(error) ==> error == DDSError::of_code(handle),
{
}

} // verus!
