//! Opaque unique identifiers for connections, users, sessions, drawings,
//! and user secrets. Identifiers are generated randomly and compared by
//! value; they carry no other behaviour.

use vstd::prelude::*;

verus! {

/// Relies on uuid::Uuid::new_v4 and uuid::Uuid::as_u128: a freshly
/// generated random identifier value. Nothing can be promised of a
/// random value.
#[verifier::external_body]
fn fresh_id_value() -> u128 {
    uuid::Uuid::new_v4().as_u128()
}

/// Secret held by the user to prove their identity.
#[derive(Debug, Clone, Copy, PartialEq, Eq, Structural, Hash)]
pub struct UserSecret(pub u128);

impl UserSecret {
    pub fn new() -> Self {
        Self(fresh_id_value())
    }
}

#[derive(Debug, Clone, Copy, PartialEq, Eq, Structural, Hash)]
pub struct ConnectionId(pub u128);

impl ConnectionId {
    pub fn new() -> Self {
        Self(fresh_id_value())
    }
}

#[derive(Debug, Clone, Copy, PartialEq, Eq, Structural, Hash)]
pub struct UserId(pub u128);

impl UserId {
    pub fn new() -> Self {
        Self(fresh_id_value())
    }
}

#[derive(Debug, Clone, Copy, PartialEq, Eq, Structural, Hash)]
pub struct GameId(pub u128);

impl GameId {
    pub fn new() -> Self {
        Self(fresh_id_value())
    }
}

#[derive(Debug, Clone, Copy, PartialEq, Eq, Structural, Hash)]
pub struct DrawingId(pub u128);

impl DrawingId {
    pub fn new() -> Self {
        Self(fresh_id_value())
    }
}

} // verus!
