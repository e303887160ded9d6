//! What entities have in common.
use std::sync::Arc;
use vstd::prelude::*;

verus! {

/// Keeps what an entity depends on alive.
#[derive(Debug)]
pub struct Keepalive<K>(Option<Arc<K>>);

impl<K> Keepalive<K> {
    /// What is kept alive.
    pub closed spec fn kept(&self) -> Option<Arc<K>> {
        self.0
    }

    /// Keeps `inner` alive.
    pub fn shared(inner: Arc<K>) -> (r: Self)
        ensures
            r.kept() == Some(inner),
    {
        Keepalive(Some(inner))
    }

    /// Whether anything is kept alive.
    pub fn holds(&self) -> (r: bool)
        ensures
            r == (self.kept() is Some),
    {
        self.0.is_some()
    }
}

impl<K> Clone for Keepalive<K> {
    fn clone(&self) -> (r: Self)
        ensures
            r.kept() == self.kept(),
    {
        match &self.0 {
            Some(inner) => Keepalive(Some(inner.clone())),
            None => Keepalive(None),
        }
    }
}

impl<K> Default for Keepalive<K> {
    fn default() -> (r: Self)
        ensures
            r.kept() is None,
    {
        Keepalive(None)
    }
}

} // verus!
