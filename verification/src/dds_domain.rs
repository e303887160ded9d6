//! Domains.
use crate::error::{check_handle, DDSError};
use crate::shared_registry;
use crate::shared_registry::{RegistryView, Shared, SharedRegistry};
use crate::text;
use vstd::prelude::*;

verus! {

/// A domain: `E` stands for it in DDS. It knows the configuration that it was
/// made with.
#[derive(Debug)]
pub struct DdsDomain<E> {
    pub entity: E,
    pub config: Option<String>,
}

/// The text of an optional configuration.
pub open spec fn config_text(config: Option<&str>) -> Option<Seq<char>> {
    match config {
        Some(config) => Some(config@),
        None => None,
    }
}

/// Whether DDS can be handed a configuration: its text ends where it has a zero.
pub open spec fn can_be_handed_over(config: Option<&str>) -> bool {
    config matches Some(config) ==> !config@.contains('\0')
}

impl<E> DdsDomain<E> {
    /// The outcome of making a domain, where DDS answers with `handle`.
    pub open spec fn made<O: FnOnce(i32) -> E>(
        handle: i32,
        config: Option<&str>,
        own: O,
        r: Result<Self, DDSError>,
    ) -> bool {
        match r {
            Ok(domain) => {
                &&& handle > 0
                &&& call_ensures(own, (handle,), domain.entity)
                &&& text::text_of(domain.config) == config_text(config)
            },
            Err(error) => handle <= 0 && error == DDSError::of_code(handle),
        }
    }

    /// Makes a domain. `make` asks DDS for it, and `own` takes the handle that
    /// DDS gives.
    pub fn create<F, O>(domain: u32, config: Option<&str>, make: F, own: O) -> (r: Result<
        Self,
        DDSError,
    >) where F: FnOnce(u32, Option<&str>) -> i32, O: FnOnce(i32) -> E
        requires
            can_be_handed_over(config),
            call_requires(make, (domain, config)),
            forall|handle: i32| handle > 0 ==> #[trigger] call_requires(own, (handle,)),
        ensures
            exists|handle: i32| #[trigger]
                call_ensures(make, (domain, config), handle) && Self::made(handle, config, own, r),
    {
        let answer: i32 = make(domain, config);
        match check_handle(answer) {
            Ok(handle) => {
                let config = match config {
                    Some(config) => Some(config.to_owned()),
                    None => None,
                };
                Ok(DdsDomain { entity: own(handle), config })
            },
            Err(error) => Err(error),
        }
    }

    /// The configuration that the domain was made with.
    pub fn config(&self) -> (r: Option<&str>)
        ensures
            config_text(r) == text::text_of(self.config),
    {
        match &self.config {
            Some(config) => Some(config.as_str()),
            None => None,
        }
    }

    /// Whether a domain serves a request: one that names no configuration, or
    /// the one that the domain was made with.
    pub open spec fn serves(self, config: Option<&str>) -> bool {
        config is None || config_text(config) == text::text_of(self.config)
    }

    /// What a request for a domain that exists gives.
    pub open spec fn existing(
        registry: RegistryView<Self>,
        domain: u32,
        config: Option<&str>,
    ) -> Result<usize, DDSError> {
        if registry.entities[registry.index[domain] as int].serves(config) {
            Ok(registry.index[domain])
        } else {
            Err(DDSError::PreconditionNotMet)
        }
    }

    /// The shared domain of a process, by its place in the registry. It is made
    /// where there is none, and only there, and then stays.
    pub fn get_or_create<F, O>(
        registry: &mut SharedRegistry<Self>,
        domain: u32,
        config: Option<&str>,
        make: F,
        own: O,
    ) -> (r: Result<usize, DDSError>) where F: FnOnce(u32, Option<&str>) -> i32, O: FnOnce(i32) -> E
        requires
            old(registry)@.wf(),
            !old(registry)@.index.contains_key(domain) ==> {
                &&& can_be_handed_over(config)
                &&& call_requires(make, (domain, config))
                &&& forall|handle: i32| handle > 0 ==> #[trigger] call_requires(own, (handle,))
            },
        ensures
            final(registry)@.wf(),
            old(registry)@.kept_in(final(registry)@),
            if old(registry)@.index.contains_key(domain) {
                &&& final(registry)@ == old(registry)@
                &&& r == Self::existing(old(registry)@, domain, config)
            } else {
                exists|handle: i32| #[trigger]
                    call_ensures(make, (domain, config), handle) && match r {
                        Ok(place) => exists|entity: Self| #[trigger]
                            Self::made(handle, config, own, Ok(entity)) && final(registry)@
                                == old(registry)@.with(domain, domain, entity) && place
                                == final(registry)@.index[domain],
                        Err(error) => Self::made(handle, config, own, Err(error))
                            && final(registry)@ == old(registry)@,
                    }
            },
    {
        let create = || -> (r: Result<Self, DDSError>)
            requires
                can_be_handed_over(config),
                call_requires(make, (domain, config)),
                forall|handle: i32| handle > 0 ==> #[trigger] call_requires(own, (handle,)),
            ensures
                exists|handle: i32| #[trigger]
                    call_ensures(make, (domain, config), handle) && Self::made(
                        handle,
                        config,
                        own,
                        r,
                    ),
            { Self::create(domain, config, make, own) };
        let resolve_key = |_entity: &Self| -> (r: Result<u32, DDSError>)
            ensures
                r == Ok::<u32, DDSError>(domain),
            { Ok(domain) };
        let shared = match registry.get_or_create(domain, create, resolve_key) {
            Ok(shared) => shared,
            Err(error) => {
                return Err(error);
            },
        };
        match shared {
            Shared::Created(place) => Ok(place),
            Shared::Existing(place) => match config {
                None => Ok(place),
                Some(requested) => match registry.entity(place).config() {
                    Some(existing) => if text::same_text(requested, existing) {
                        Ok(place)
                    } else {
                        Err(DDSError::PreconditionNotMet)
                    },
                    None => Err(DDSError::PreconditionNotMet),
                },
            },
        }
    }
}

/// A domain that was made for a request is what every later request gets,
/// whatever was made for other domains in between: the very same one, with the
/// configuration that it was made with. A later request is refused just where it
/// names a configuration, and another one.
pub proof fn law_shared_domain_stays<E>(
    before: RegistryView<DdsDomain<E>>,
    domain: u32,
    first: Option<&str>,
    made: DdsDomain<E>,
    later: RegistryView<DdsDomain<E>>,
    config: Option<&str>,
)
    requires
        !before.index.contains_key(domain),
        text::text_of(made.config) == config_text(first),
        before.with(domain, domain, made).wf(),
        before.with(domain, domain, made).kept_in(later),
    ensures
        ({
            let place = before.with(domain, domain, made).index[domain];
            &&& later.index.contains_key(domain)
            &&& later.entities[place as int] == made
            &&& DdsDomain::existing(later, domain, config) == if config is None || config_text(
                config,
            ) == config_text(first) {
                Ok::<usize, DDSError>(place)
            } else {
                Err(DDSError::PreconditionNotMet)
            }
        }),
{
    shared_registry::law_made_entity_stays(before, domain, made, later);
}

/// A domain is made where DDS answers with a handle above zero, of that handle and
/// with the configuration that was asked for; otherwise making it fails with what
/// the answer names.
pub proof fn law_which_domains_are_made<E, O: FnOnce(i32) -> E>(
    handle: i32,
    config: Option<&str>,
    own: O,
    r: Result<DdsDomain<E>, DDSError>,
)
    requires
        DdsDomain::made(handle, config, own, r),
    ensures
        r is Ok <==> handle > 0,
        r matches Ok(domain) ==> call_ensures(own, (handle,), domain.entity),
        r matches Ok(domain) ==> (domain.config is Some <==> config is Some),
        r matches Ok(domain) ==> (config matches Some(given) ==> domain.config->0@ == given@),
        r matches Err(error) ==> error == DDSError::of_code(handle),
{
}

/// DDS can be handed any configuration in which no character is zero.
pub proof fn law_which_configurations_are_handed_over(config: &str)
    ensures
        can_be_handed_over(None),
        can_be_handed_over(Some(config)) <==> forall|i: int|
            0 <= i < config@.len() ==> #[trigger] config@[i] != '\0',
{
}

} // verus!
