//! Identities of the actors of a session.

use vstd::prelude::*;

verus! {

/// The identity of an actor: a snake fragment, an apple or an obstacle.
///
/// The library treats identities as opaque numbers. It never invents one
/// but for the counter of a [`crate::game::Game`].
pub type Entity = u64;

} // verus!
