//! The fingerprint of a physics world that advances one step with each authoritative tick.

use crate::protocol::{fnv_update, FNV_OFFSET_BASIS};
use crate::wire::push_be;
use vstd::prelude::*;
use vstd::string::*;

verus! {

/// The revision of the physics engine that fingerprints are bound to.
pub const PINNED_PHYSICS_ENGINE_REVISION: &'static str = "8ea513395ad6893e45da7d6fa983b6cd3949a4ac";

/// A vector, each coordinate in big-endian bytes.
#[derive(Clone, Debug, Eq, PartialEq)]
pub struct VectorBytes {
    pub x: Vec<u8>,
    pub y: Vec<u8>,
    pub z: Vec<u8>,
}

impl VectorBytes {
    pub open spec fn bytes(self) -> Seq<u8> {
        self.x@ + self.y@ + self.z@
    }
}

/// What of a world's configuration shapes its course.
#[derive(Clone, Debug, Eq, PartialEq)]
pub struct WorldFacts {
    pub gravity: VectorBytes,
    pub max_events_per_step: u64,
    pub stabilization_passes: u64,
}

#[derive(Clone, Copy, Debug, Eq, PartialEq, Structural)]
pub enum BodyMotion {
    Fixed,
    Dynamic,
}

/// A body, each of its numbers in big-endian bytes.
#[derive(Clone, Debug, Eq, PartialEq)]
pub struct BodyFacts {
    pub id: Vec<u8>,
    pub motion: BodyMotion,
    pub position: VectorBytes,
    pub velocity: VectorBytes,
    pub half_extents: VectorBytes,
    pub mass_units: Vec<u8>,
    pub restitution_milli: Vec<u8>,
    pub friction_milli: Vec<u8>,
}

impl BodyFacts {
    /// What the fingerprint takes of a body.
    pub open spec fn bytes(self) -> Seq<u8> {
        self.id@ + seq![
            match self.motion {
                BodyMotion::Fixed => 0u8,
                BodyMotion::Dynamic => 1u8,
            },
        ] + self.position.bytes() + self.velocity.bytes() + self.half_extents.bytes()
            + self.mass_units@ + self.restitution_milli@ + self.friction_milli@
    }
}

/// What the fingerprint takes of bodies, one after the other.
pub open spec fn bodies_bytes(bodies: Seq<BodyFacts>) -> Seq<u8>
    decreases bodies.len(),
{
    if bodies.len() == 0 {
        Seq::empty()
    } else {
        bodies_bytes(bodies.drop_last()) + bodies.last().bytes()
    }
}

/// Everything that the fingerprint takes: the engine's revision, the steps taken, the
/// configuration and the bodies.
pub open spec fn world_bytes(
    authoritative_steps: u64,
    world: WorldFacts,
    bodies: Seq<BodyFacts>,
) -> Seq<u8> {
    PINNED_PHYSICS_ENGINE_REVISION.spec_bytes() + crate::wire::be_bytes(
        authoritative_steps as nat,
        8,
    ) + world.gravity.bytes() + crate::wire::be_bytes(world.max_events_per_step as nat, 8)
        + crate::wire::be_bytes(world.stabilization_passes as nat, 8) + bodies_bytes(bodies)
}

/// Hashing a run of bytes and then another is hashing both as one run.
pub proof fn lemma_fnv_continues(hash: u64, a: Seq<u8>, b: Seq<u8>)
    ensures
        crate::protocol::fnv(hash, a + b) == crate::protocol::fnv(
            crate::protocol::fnv(hash, a),
            b,
        ),
    decreases b.len(),
{
    if b.len() == 0 {
        assert(a + b =~= a);
    } else {
        assert((a + b).drop_last() =~= a + b.drop_last());
        lemma_fnv_continues(hash, a, b.drop_last());
    }
}

fn take_in(hash: u64, Ghost(taken): Ghost<Seq<u8>>, bytes: &[u8]) -> (result: u64)
    requires
        hash == crate::protocol::fnv(FNV_OFFSET_BASIS, taken),
    ensures
        result == crate::protocol::fnv(FNV_OFFSET_BASIS, taken + bytes@),
{
    proof {
        lemma_fnv_continues(FNV_OFFSET_BASIS, taken, bytes@);
    }
    fnv_update(hash, bytes)
}

fn push_vector(bytes: &mut Vec<u8>, vector: &VectorBytes)
    ensures
        final(bytes)@ == old(bytes)@ + vector.bytes(),
{
    crate::wire::push_all(bytes, vector.x.as_slice());
    crate::wire::push_all(bytes, vector.y.as_slice());
    crate::wire::push_all(bytes, vector.z.as_slice());
    assert(bytes@ =~= old(bytes)@ + vector.bytes());
}

fn push_body(bytes: &mut Vec<u8>, body: &BodyFacts)
    ensures
        final(bytes)@ == old(bytes)@ + body.bytes(),
{
    crate::wire::push_all(bytes, body.id.as_slice());
    bytes.push(
        match body.motion {
            BodyMotion::Fixed => 0,
            BodyMotion::Dynamic => 1,
        },
    );
    push_vector(bytes, &body.position);
    push_vector(bytes, &body.velocity);
    push_vector(bytes, &body.half_extents);
    crate::wire::push_all(bytes, body.mass_units.as_slice());
    crate::wire::push_all(bytes, body.restitution_milli.as_slice());
    crate::wire::push_all(bytes, body.friction_milli.as_slice());
    assert(bytes@ =~= old(bytes)@ + body.bytes());
}

/// The fingerprint of a world.
pub fn state_fingerprint(
    authoritative_steps: u64,
    world: &WorldFacts,
    bodies: &[BodyFacts],
) -> (fingerprint: u64)
    ensures
        fingerprint == crate::protocol::fnv(
            FNV_OFFSET_BASIS,
            world_bytes(authoritative_steps, *world, bodies@),
        ),
{
    let mut head: Vec<u8> = Vec::new();
    crate::wire::push_all(&mut head, PINNED_PHYSICS_ENGINE_REVISION.as_bytes());
    push_be(&mut head, authoritative_steps, 8);
    push_vector(&mut head, &world.gravity);
    push_be(&mut head, world.max_events_per_step, 8);
    push_be(&mut head, world.stabilization_passes, 8);
    let mut hash: u64 = fnv_update(FNV_OFFSET_BASIS, head.as_slice());
    let mut i: usize = 0;
    assert(head@ =~= world_bytes(authoritative_steps, *world, bodies@.take(0)));
    while i < bodies.len()
        invariant
            i <= bodies@.len(),
            hash == crate::protocol::fnv(
                FNV_OFFSET_BASIS,
                world_bytes(authoritative_steps, *world, bodies@.take(i as int)),
            ),
        decreases bodies@.len() - i,
    {
        let ghost taken = world_bytes(authoritative_steps, *world, bodies@.take(i as int));
        let mut bytes: Vec<u8> = Vec::new();
        push_body(&mut bytes, &bodies[i]);
        hash = take_in(hash, Ghost(taken), bytes.as_slice());
        proof {
            assert(bodies@.take(i + 1).drop_last() =~= bodies@.take(i as int));
            assert(bodies@.take(i + 1).last() == bodies@[i as int]);
            assert(bytes@ =~= bodies@[i as int].bytes());
            assert(taken + bytes@ =~= world_bytes(
                authoritative_steps,
                *world,
                bodies@.take(i + 1),
            ));
        }
        i = i + 1;
    }
    assert(bodies@.take(i as int) =~= bodies@);
    hash
}

/// The steps taken after one more tick, given whether the engine stepped.
pub fn steps_after(authoritative_steps: u64, stepped: bool) -> (steps: u64)
    ensures
        steps == if stepped && authoritative_steps < u64::MAX {
            (authoritative_steps + 1) as u64
        } else {
            authoritative_steps
        },
{
    if stepped {
        authoritative_steps.saturating_add(1)
    } else {
        authoritative_steps
    }
}

} // verus!
