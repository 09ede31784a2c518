//! Identifiers shared by every subsystem.

use crate::collections::{Duplicate, Key};
use vstd::arithmetic::power::{lemma_pow_multiplies, pow};
use vstd::arithmetic::power2::{lemma2_to64, lemma_pow2};
use vstd::bits::lemma_u128_shr_is_div;
use vstd::prelude::*;

verus! {

/// A 128-bit identifier.
#[derive(Clone, Copy, Debug, PartialEq, Eq, Structural, Hash)]
pub struct ID(pub u128);

/// Byte `i` of `value`, most significant byte first.
pub open spec fn id_byte(value: u128, i: int) -> u8 {
    ((value >> ((8 * (15 - i)) as u128)) & 0xff) as u8
}

impl ID {
    /// The sixteen bytes of the identifier, most significant byte first.
    pub fn as_bytes(&self) -> (bytes: Vec<u8>)
        ensures
            bytes@ == Seq::new(16, |i: int| id_byte(self.0, i)),
    {
        let mut bytes: Vec<u8> = Vec::new();
        let mut i: u128 = 0;
        while i < 16
            invariant
                i <= 16,
                bytes@ == Seq::new(i as nat, |j: int| id_byte(self.0, j)),
            decreases 16 - i,
        {
            let shift: u128 = 8 * (15 - i);
            let byte: u128 = (self.0 >> shift) & 0xff;
            bytes.push(byte as u8);
            i = i + 1;
        }
        bytes
    }
}

impl View for ID {
    type V = u128;

    open spec fn view(&self) -> u128 {
        self.0
    }
}

impl Key for ID {
    fn same(&self, other: &Self) -> (r: bool) {
        self.0 == other.0
    }
}

/// Identifies a conversation session.
#[derive(Clone, Copy, Debug, PartialEq, Eq, Structural, Hash)]
pub struct SessionId(pub ID);

impl View for SessionId {
    type V = u128;

    open spec fn view(&self) -> u128 {
        self.0.0
    }
}

impl Key for SessionId {
    fn same(&self, other: &Self) -> (r: bool) {
        self.0.0 == other.0.0
    }
}

impl Duplicate for SessionId {
    fn duplicate(&self) -> (r: Self) {
        *self
    }
}

/// Identifies a workspace.
#[derive(Clone, Copy, Debug, PartialEq, Eq, Structural, Hash)]
pub struct WorkspaceId(pub ID);

impl View for WorkspaceId {
    type V = u128;

    open spec fn view(&self) -> u128 {
        self.0.0
    }
}

impl Key for WorkspaceId {
    fn same(&self, other: &Self) -> (r: bool) {
        self.0.0 == other.0.0
    }
}

/// Identifies one agent of one session.
#[derive(Clone, Copy, Debug, PartialEq, Eq, Structural, Hash)]
pub struct GlobalAgentId {
    pub session: SessionId,
    pub agent: ID,
}

impl GlobalAgentId {
    pub fn new(session: SessionId, agent: ID) -> (r: GlobalAgentId)
        ensures
            r.session == session,
            r.agent == agent,
    {
        GlobalAgentId { session, agent }
    }

    /// The session that the agent belongs to.
    pub fn session_id(&self) -> (r: SessionId)
        ensures
            r == self.session,
    {
        self.session
    }
}

impl View for GlobalAgentId {
    type V = (u128, u128);

    open spec fn view(&self) -> (u128, u128) {
        (self.session@, self.agent@)
    }
}

impl Key for GlobalAgentId {
    fn same(&self, other: &Self) -> (r: bool) {
        self.session.0.0 == other.session.0.0 && self.agent.0 == other.agent.0
    }
}

/// The bytes of an identifier are its digits to the base 256, the highest first.
pub proof fn lemma_id_bytes_are_digits(value: u128, i: int)
    requires
        0 <= i < 16,
    ensures
        id_byte(value, i) == (value as int / pow(256, (15 - i) as nat)) % 256,
{
    let shift = (8 * (15 - i)) as u128;
    let rest = value >> shift;
    lemma_u128_shr_is_div(value, shift);
    lemma_pow2(shift as nat);
    lemma_pow2(8);
    lemma2_to64();
    lemma_pow_multiplies(2, 8, (15 - i) as nat);
    assert((rest & 0xff) as u8 == rest % 256) by (bit_vector);
}

} // verus!
