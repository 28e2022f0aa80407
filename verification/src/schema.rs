//! The block query surface: the shapes the node answers block and header
//! questions with, and the debug mutation that produces blocks on demand.
//! The transport around them is not the library's concern; the lookup rules
//! are.

use vstd::prelude::*;
use crate::tx::Block;

verus! {

/// The consensus a block settled under.
pub enum Consensus {
    Genesis(Genesis),
    PoA(PoAConsensus),
}

/// The roots the genesis block commits to.
#[derive(PartialEq, Eq, Structural, Clone, Copy, Debug)]
pub struct Genesis {
    pub chain_config_hash: u64,
    pub coins_root: u64,
    pub contracts_root: u64,
    pub messages_root: u64,
    pub transactions_root: u64,
}

/// Proof-of-authority consensus: the producer's signature over the block.
#[derive(PartialEq, Eq, Structural, Clone, Copy, Debug)]
pub struct PoAConsensus {
    pub signature: u64,
}

/// The versions a served block may have.
#[derive(PartialEq, Eq, Structural, Clone, Copy, Debug)]
pub enum BlockVersion {
    V1,
}

/// The versions a served header may have.
#[derive(PartialEq, Eq, Structural, Clone, Copy, Debug)]
pub enum HeaderVersion {
    V1,
    V2,
}

/// The identifier a block header answers to: a digest over its fields.
pub open spec fn block_id_spec(b: crate::tx::BlockHeader) -> u64 {
    crate::merkle::mix(
        crate::merkle::mix(
            crate::merkle::mix(
                crate::merkle::mix(b.height as u64, b.da_height),
                b.transactions_root,
            ),
            b.message_outbox_root,
        ),
        b.event_inbox_root,
    )
}

/// Computes a block's identifier.
pub fn block_id(b: &crate::tx::BlockHeader) -> (r: u64)
    ensures
        r == block_id_spec(*b),
{
    let a = crate::merkle::mix_step(b.height as u64, b.da_height);
    let c = crate::merkle::mix_step(a, b.transactions_root);
    let d = crate::merkle::mix_step(c, b.message_outbox_root);
    crate::merkle::mix_step(d, b.event_inbox_root)
}

/// Answers block questions over an ordered archive of blocks.
#[derive(PartialEq, Eq, Structural, Clone, Copy, Debug)]
pub struct BlockQuery;

impl BlockQuery {
    /// Finds a block by exactly one of its identifier or its height; asking
    /// with both, or with neither, is refused.
    #[verifier::rlimit(60)]
    pub fn block(
        &self,
        blocks: &Vec<Block>,
        id: Option<u64>,
        height: Option<u32>,
    ) -> (r: Result<Option<usize>, String>)
        ensures
            id is Some && height is Some ==> r is Err,
            id is None && height is None ==> r is Err,
            match r {
                Ok(Some(i)) => i < blocks@.len()
                    && (match height {
                        Some(h) => blocks@[i as int].header.height == h,
                        None => true,
                    })
                    && (match id {
                        Some(w) => block_id_spec(blocks@[i as int].header) == w,
                        None => true,
                    }),
                Ok(None) => (match height {
                    Some(h) => forall|m: int|
                        0 <= m < blocks@.len()
                            ==> (#[trigger] blocks@[m]).header.height != h,
                    None => true,
                }),
                Err(_) => true,
            },
    {
        match (id, height) {
            (Some(_), Some(_)) => Err("cannot ask with both an id and a height".to_owned()),
            (None, None) => Err("missing either an id or a height".to_owned()),
            (Some(w), None) => {
                let n = blocks.len();
                let mut i: usize = 0;
                while i < n
                    invariant
                        0 <= i <= n,
                        n == blocks@.len(),
                        id == Some(w),
                        height is None,
                    decreases n - i,
                {
                    if block_id(&blocks[i].header) == w {
                        return Ok(Some(i));
                    }
                    i = i + 1;
                }
                Ok(None)
            },
            (None, Some(h)) => {
                let n = blocks.len();
                let mut i: usize = 0;
                while i < n
                    invariant
                        0 <= i <= n,
                        n == blocks@.len(),
                        id is None,
                        height == Some(h),
                        forall|m: int| 0 <= m < i
                            ==> (#[trigger] blocks@[m]).header.height != h,
                    decreases n - i,
                {
                    if blocks[i].header.height == h {
                        return Ok(Some(i));
                    }
                    i = i + 1;
                }
                Ok(None)
            },
        }
    }
}

/// Answers header questions; a header is found exactly as its block is.
#[derive(PartialEq, Eq, Structural, Clone, Copy, Debug)]
pub struct HeaderQuery;

impl HeaderQuery {
    /// Finds a header by exactly one of block identifier or height.
    pub fn header(
        &self,
        blocks: &Vec<Block>,
        id: Option<u64>,
        height: Option<u32>,
    ) -> (r: Result<Option<usize>, String>)
        ensures
            id is Some && height is Some ==> r is Err,
            id is None && height is None ==> r is Err,
            match r {
                Ok(Some(i)) => i < blocks@.len(),
                _ => true,
            },
    {
        let q = BlockQuery;
        q.block(blocks, id, height)
    }
}

/// The debug mutation that produces blocks on demand.
#[derive(PartialEq, Eq, Structural, Clone, Copy, Debug)]
pub struct BlockMutation;

impl BlockMutation {
    /// Sequentially produces the asked number of blocks, handing back the
    /// height reached; refused unless debugging is enabled.
    pub fn produce_blocks(
        &self,
        debug_enabled: bool,
        start_height: u32,
        blocks_to_produce: u32,
    ) -> (r: Result<u32, String>)
        ensures
            !debug_enabled ==> r is Err,
            debug_enabled && start_height + blocks_to_produce <= u32::MAX
                ==> r == Ok::<u32, String>((start_height + blocks_to_produce) as u32),
            debug_enabled && start_height + blocks_to_produce > u32::MAX ==> r is Err,
    {
        if !debug_enabled {
            return Err("debugging must be enabled to use this endpoint".to_owned());
        }
        if start_height > u32::MAX - blocks_to_produce {
            return Err("the requested height leaves the height space".to_owned());
        }
        Ok(start_height + blocks_to_produce)
    }
}

} // verus!
