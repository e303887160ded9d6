//! Entities that exist once per domain.
use crate::error::DDSError;
use std::collections::HashMap;
use vstd::prelude::*;

verus! {

broadcast use vstd::std_specs::hash::group_hash_axioms;

/// The entities of a process, each under the domains that lead to it.
#[derive(Debug)]
pub struct SharedRegistry<T> {
    index: HashMap<u32, usize>,
    entities: Vec<T>,
}

/// What a registry holds.
#[verifier::ext_equal]
pub struct RegistryView<T> {
    /// Which entity a domain leads to.
    pub index: Map<u32, usize>,
    pub entities: Seq<T>,
}

/// Where an entity stands, and whether it was made for this request.
#[derive(Debug, Clone, Copy, PartialEq, Eq, Structural)]
pub enum Shared {
    Existing(usize),
    Created(usize),
}

impl Shared {
    pub open spec fn place(self) -> usize {
        match self {
            Shared::Existing(place) => place,
            Shared::Created(place) => place,
        }
    }
}

impl<T> View for SharedRegistry<T> {
    type V = RegistryView<T>;

    closed spec fn view(&self) -> RegistryView<T> {
        RegistryView { index: self.index@, entities: self.entities@ }
    }
}

impl<T> RegistryView<T> {
    /// Every domain leads to an entity, and each entity has a place that can be
    /// named.
    pub open spec fn wf(self) -> bool {
        &&& self.entities.len() <= usize::MAX
        &&& forall|key: u32|
            #[trigger] self.index.contains_key(key) ==> self.index[key] < self.entities.len()
    }

    /// Whether all that is held is still held later, at the same places.
    pub open spec fn kept_in(self, later: Self) -> bool {
        &&& self.entities.is_prefix_of(later.entities)
        &&& forall|key: u32|
            #[trigger] self.index.contains_key(key) ==> later.index.contains_key(key)
                && later.index[key] == self.index[key]
    }

    /// What is held after an entity was made for `key`, where it turned out to
    /// belong to `actual`: an entity that is there already is kept.
    pub open spec fn with(self, key: u32, actual: u32, entity: T) -> Self {
        if self.index.contains_key(actual) {
            RegistryView { index: self.index.insert(key, self.index[actual]), ..self }
        } else {
            let place = self.entities.len() as usize;
            RegistryView {
                index: self.index.insert(actual, place).insert(key, place),
                entities: self.entities.push(entity),
            }
        }
    }
}

impl<T> SharedRegistry<T> {
    pub fn new() -> (r: Self)
        ensures
            r@.index == Map::<u32, usize>::empty(),
            r@.entities == Seq::<T>::empty(),
            r@.wf(),
    {
        SharedRegistry { index: HashMap::new(), entities: Vec::new() }
    }

    /// The entity at a place.
    pub fn entity(&self, place: usize) -> (r: &T)
        requires
            place < self@.entities.len(),
        ensures
            *r == self@.entities[place as int],
    {
        &self.entities[place]
    }

    /// The entity of a domain. It is made where there is none, and only there;
    /// one that turns out to belong to a domain that has one is dropped for that.
    pub fn get_or_create<C, R>(&mut self, key: u32, create: C, resolve_key: R) -> (r: Result<
        Shared,
        DDSError,
    >) where C: FnOnce() -> Result<T, DDSError>, R: FnOnce(&T) -> Result<u32, DDSError>
        requires
            old(self)@.wf(),
            !old(self)@.index.contains_key(key) ==> call_requires(create, ()),
            !old(self)@.index.contains_key(key) ==> forall|entity: &T| #[trigger]
                call_requires(resolve_key, (entity,)),
        ensures
            final(self)@.wf(),
            old(self)@.kept_in(final(self)@),
            r matches Ok(shared) ==> final(self)@.index.contains_key(key)
                && final(self)@.index[key] == shared.place(),
            r is Err ==> final(self)@ == old(self)@,
            if old(self)@.index.contains_key(key) {
                &&& r == Ok::<Shared, DDSError>(Shared::Existing(old(self)@.index[key]))
                &&& final(self)@ == old(self)@
            } else {
                match r {
                    Err(error) => call_ensures(create, (), Err(error)) || exists|entity: T|
                        call_ensures(create, (), Ok(entity)) && #[trigger] call_ensures(
                            resolve_key,
                            (&entity,),
                            Err(error),
                        ),
                    Ok(shared) => exists|entity: T, actual: u32|
                        {
                            &&& call_ensures(create, (), Ok(entity))
                            &&& #[trigger] call_ensures(resolve_key, (&entity,), Ok(actual))
                            &&& final(self)@ == old(self)@.with(key, actual, entity)
                            &&& shared is Existing <==> old(self)@.index.contains_key(actual)
                        },
                }
            },
    {
        if let Some(place) = self.index.get(&key) {
            return Ok(Shared::Existing(*place));
        }
        let entity = match create() {
            Ok(entity) => entity,
            Err(error) => {
                return Err(error);
            },
        };
        let actual: u32 = match resolve_key(&entity) {
            Ok(actual) => actual,
            Err(error) => {
                return Err(error);
            },
        };
        let ghost made = entity;
        let known: Option<usize> = match self.index.get(&actual) {
            Some(place) => Some(*place),
            None => None,
        };
        match known {
            Some(place) => {
                self.index.insert(key, place);
                assert(self@ =~= old(self)@.with(key, actual, made));
                Ok(Shared::Existing(place))
            },
            None => {
                let place: usize = self.entities.len();
                self.entities.push(entity);
                self.index.insert(actual, place);
                if key != actual {
                    self.index.insert(key, place);
                }
                proof {
                    if key == actual {
                        assert(old(self)@.index.insert(actual, place).insert(key, place)
                            =~= old(self)@.index.insert(actual, place));
                    }
                    assert(self@ =~= old(self)@.with(key, actual, made));
                    assert(self@.entities.len() == self.entities.len());
                }
                Ok(Shared::Created(place))
            },
        }
    }
}

impl<T> Default for SharedRegistry<T> {
    fn default() -> (r: Self)
        ensures
            r@.index == Map::<u32, usize>::empty(),
            r@.entities == Seq::<T>::empty(),
            r@.wf(),
    {
        Self::new()
    }
}

/// What is kept stays kept, however many requests follow.
pub proof fn law_kept_for_good<T>(before: RegistryView<T>, after: RegistryView<T>, later: RegistryView<T>)
    requires
        before.kept_in(after),
        after.kept_in(later),
    ensures
        before.kept_in(later),
{
}

/// The place that a domain leads to after an entity was made for it is where
/// that entity stands, and it stays there.
pub proof fn law_made_entity_stays<T>(
    before: RegistryView<T>,
    key: u32,
    entity: T,
    later: RegistryView<T>,
)
    requires
        !before.index.contains_key(key),
        before.with(key, key, entity).wf(),
        before.with(key, key, entity).kept_in(later),
    ensures
        later.index.contains_key(key),
        later.index[key] == before.with(key, key, entity).index[key],
        later.entities[later.index[key] as int] == entity,
{
    let after = before.with(key, key, entity);
    assert(after.index.contains_key(key));
    assert(after.entities[after.index[key] as int] == entity);
}

/// A domain that leads to an entity goes on leading to it, and the entities
/// that are there stay.
pub proof fn law_entities_stay<T>(before: RegistryView<T>, key: u32, actual: u32, entity: T, other: u32)
    requires
        before.wf(),
        !before.index.contains_key(key),
        before.entities.len() < usize::MAX,
        before.index.contains_key(other),
    ensures
        before.with(key, actual, entity).wf(),
        before.with(key, actual, entity).index.contains_key(other),
        before.with(key, actual, entity).index[other] == before.index[other],
        before.entities.is_prefix_of(before.with(key, actual, entity).entities),
{
}

/// The domain that was asked for and the one that the entity belongs to lead to
/// the same entity.
pub proof fn law_both_domains_lead_to_one_entity<T>(
    before: RegistryView<T>,
    key: u32,
    actual: u32,
    entity: T,
)
    requires
        before.wf(),
        !before.index.contains_key(key),
    ensures
        before.with(key, actual, entity).index[key] == before.with(
            key,
            actual,
            entity,
        ).index[actual],
{
}

/// An entity that was made is taken in just where its domain has none yet, behind
/// those that are there. Both domains then lead to it, or to the one that was there;
/// no other domain leads anywhere new.
pub proof fn law_entity_is_taken_in_once<T>(
    before: RegistryView<T>,
    key: u32,
    actual: u32,
    entity: T,
    other: u32,
)
    requires
        before.wf(),
        before.entities.len() < usize::MAX,
        other != key,
        other != actual,
    ensures
        before.index.contains_key(actual) ==> before.with(key, actual, entity).entities
            == before.entities,
        !before.index.contains_key(actual) ==> before.with(key, actual, entity).entities
            == before.entities + seq![entity],
        before.index.contains_key(actual) ==> before.with(key, actual, entity).index[key]
            == before.index[actual],
        !before.index.contains_key(actual) ==> before.with(key, actual, entity).index[key]
            == before.entities.len(),
        before.with(key, actual, entity).index.contains_key(key),
        before.with(key, actual, entity).index.contains_key(actual),
        before.with(key, actual, entity).index.contains_key(other) <==> before.index.contains_key(
            other,
        ),
{
    if !before.index.contains_key(actual) {
        assert(before.with(key, actual, entity).entities =~= before.entities + seq![entity]);
    }
}

/// What is held is found later under the same domain and at the same place.
pub proof fn law_kept_entities_are_found<T>(
    before: RegistryView<T>,
    later: RegistryView<T>,
    key: u32,
)
    requires
        before.wf(),
        before.kept_in(later),
        before.index.contains_key(key),
    ensures
        before.index[key] < before.entities.len(),
        later.index.contains_key(key),
        later.index[key] == before.index[key],
        later.entities[later.index[key] as int] == before.entities[before.index[key] as int],
{
}

/// The place of an entity, whether it was there or has been made.
pub proof fn law_place_is_where_it_is(place: usize)
    ensures
        Shared::Existing(place).place() == place,
        Shared::Created(place).place() == place,
{
}

} // verus!
