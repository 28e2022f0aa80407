//! The order-preserving root accumulator over the block's L1 events, and the
//! digests the block header commits to. The digest is a deterministic mixing
//! function of this model; cryptographic strength is no concern of the
//! executor's logic, determinism is.

use vstd::prelude::*;
use crate::tx::{Event, Message, RelayedTransaction};

verus! {

/// One mixing step of the digest.
#[verifier::opaque]
pub open spec fn mix(acc: u64, x: u64) -> u64 {
    ((acc * 0x100000001b3 + x + 0x9e3779b9) % 0x10000000000000000) as u64
}

/// Mixes one value into an accumulator.
pub fn mix_step(acc: u64, x: u64) -> (r: u64)
    ensures
        r == mix(acc, x),
{
    let wide: u128 = (acc as u128) * 0x100000001b3 + (x as u128) + 0x9e3779b9;
    let reduced: u128 = wide % 0x10000000000000000;
    proof {
        reveal(mix);
        assert((acc as int) * 0x100000001b3 <= 0xffffffffffffffff * 0x100000001b3)
            by (nonlinear_arith)
            requires
                acc <= 0xffffffffffffffffu64,
        ;
    }
    reduced as u64
}

/// The digest of a byte string.
pub open spec fn hash_bytes_spec(s: Seq<u8>, upto: int) -> u64
    decreases upto,
{
    if upto <= 0 {
        0x811c9dc5
    } else {
        mix(hash_bytes_spec(s, upto - 1), s[upto - 1] as u64)
    }
}

pub fn hash_bytes(s: &Vec<u8>) -> (r: u64)
    ensures
        r == hash_bytes_spec(s@, s@.len() as int),
{
    let mut acc: u64 = 0x811c9dc5;
    let n = s.len();
    let mut i: usize = 0;
    while i < n
        invariant
            0 <= i <= n,
            n == s@.len(),
            acc == hash_bytes_spec(s@, i as int),
        decreases n - i,
    {
        acc = mix_step(acc, s[i] as u64);
        i = i + 1;
    }
    acc
}

/// The digest of an L1 event, over all its fields in order.
pub open spec fn event_hash_spec(e: Event) -> u64 {
    match e {
        Event::Message(m) => mix(
            mix(
                mix(mix(mix(mix(1, m.sender), m.recipient), m.nonce), m.amount),
                m.da_height,
            ),
            hash_bytes_spec(m.data@, m.data@.len() as int),
        ),
        Event::Transaction(t) => mix(mix(mix(2, t.id), t.max_gas), 0),
    }
}

pub fn event_hash(e: &Event) -> (r: u64)
    ensures
        r == event_hash_spec(*e),
{
    match e {
        Event::Message(m) => {
            let a = mix_step(1, m.sender);
            let b = mix_step(a, m.recipient);
            let c = mix_step(b, m.nonce);
            let d = mix_step(c, m.amount);
            let f = mix_step(d, m.da_height);
            mix_step(f, hash_bytes(&m.data))
        },
        Event::Transaction(t) => {
            let a = mix_step(2, t.id);
            let b = mix_step(a, t.max_gas);
            mix_step(b, 0)
        },
    }
}

/// The root of an ordered list of leaves: the fold of the mixing step over
/// them, an order-preserving accumulator.
pub open spec fn merkle_root(leaves: Seq<u64>) -> u64
    decreases leaves.len(),
{
    if leaves.len() == 0 {
        0
    } else {
        mix(merkle_root(leaves.drop_last()), leaves.last())
    }
}

/// An append-only accumulator of ordered leaves.
pub struct MerkleRootCalculator {
    pub acc: u64,
    pub count: u64,
    pub leaves: Ghost<Seq<u64>>,
}

impl MerkleRootCalculator {
    pub open spec fn wf(self) -> bool {
        &&& self.count == self.leaves@.len()
        &&& self.acc == (if self.leaves@.len() == 0 {
            0
        } else {
            merkle_root(self.leaves@)
        })
    }

    pub fn new() -> (r: MerkleRootCalculator)
        ensures
            r.wf(),
            r.leaves@ == Seq::<u64>::empty(),
    {
        MerkleRootCalculator { acc: 0, count: 0, leaves: Ghost(Seq::empty()) }
    }

    /// Appends one leaf.
    pub fn push(&mut self, leaf: u64)
        requires
            old(self).wf(),
            old(self).leaves@.len() < u64::MAX,
        ensures
            final(self).wf(),
            final(self).leaves@ == old(self).leaves@.push(leaf),
    {
        self.acc = mix_step(self.acc, leaf);
        self.count = self.count + 1;
        proof {
            self.leaves@ = self.leaves@.push(leaf);
            assert(self.leaves@.drop_last() =~= old(self).leaves@);
            assert(self.leaves@.last() == leaf);
            assert(merkle_root(Seq::<u64>::empty()) == 0);
            assert(merkle_root(self.leaves@)
                == mix(merkle_root(old(self).leaves@), leaf));
        }
    }

    /// The root over everything pushed so far.
    pub fn root(&self) -> (r: u64)
        requires
            self.wf(),
        ensures
            r == merkle_root(self.leaves@),
    {
        self.acc
    }
}

} // verus!
