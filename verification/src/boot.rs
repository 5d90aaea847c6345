//! The immutable parameters of a dispute.

use crate::errors::{OracleProviderError, PreimageOracleError};
use crate::key::PreimageKey;
use crate::lru::{
    lemma_read_ages, lemma_touch_keeps_lookups, lemma_wf_preserved, lru_lookup, lru_read,
    lru_recent, lru_touch, lru_wf, Entries,
};
use crate::oracle::{CachingOracle, ChannelOp, HintWriterClient, PreimageOracleClient};
use crate::primitives::{be_value, u64_from_be_bytes, B256};
use vstd::prelude::*;

verus! {

/// The parameters of a dispute, fixed for the whole run.
#[derive(Clone, Copy, Debug, PartialEq, Eq)]
pub struct BootInfo {
    /// Hash of the L1 block from which all inputs are trusted.
    pub l1_head: B256,
    /// Output root both parties agree on.
    pub agreed_l2_output_root: B256,
    /// Output root under dispute.
    pub claimed_l2_output_root: B256,
    /// L2 block number at which the disputed root is claimed.
    pub claimed_l2_block_number: u64,
    /// Chain id of the L2 chain.
    pub chain_id: u64,
}

/// Index of the local datum that holds the L1 head hash.
pub const L1_HEAD_KEY: u64 = 1;

/// Index of the local datum that holds the agreed L2 output root.
pub const L2_OUTPUT_ROOT_KEY: u64 = 2;

/// Index of the local datum that holds the claimed L2 output root.
pub const L2_CLAIM_KEY: u64 = 3;

/// Index of the local datum that holds the claimed L2 block number.
pub const L2_CLAIM_BLOCK_NUMBER_KEY: u64 = 4;

/// Index of the local datum that holds the L2 chain id.
pub const L2_CHAIN_ID_KEY: u64 = 5;

/// The preimages from which the dispute parameters are decoded.
pub struct BootPreimages {
    pub l1_head: Vec<u8>,
    pub agreed_l2_output_root: Vec<u8>,
    pub claimed_l2_output_root: Vec<u8>,
    pub claimed_l2_block_number: Vec<u8>,
    pub chain_id: Vec<u8>,
}

impl BootPreimages {
    /// The three hashes hold 32 bytes each, the two numbers eight.
    pub open spec fn well_sized(&self) -> bool {
        &&& self.l1_head@.len() == 32
        &&& self.agreed_l2_output_root@.len() == 32
        &&& self.claimed_l2_output_root@.len() == 32
        &&& self.claimed_l2_block_number@.len() == 8
        &&& self.chain_id@.len() == 8
    }
}

/// The cache holds these bytes under the key of the local datum with the
/// given index.
pub open spec fn cached_local(entries: Entries, ident: u64, bytes: Seq<u8>) -> bool {
    forall|key: PreimageKey| #[trigger]
        key.is_local(ident) ==> lru_lookup(entries, key) == Some(bytes)
}

/// The cache holds eight bytes that denote this number under the key of the
/// local datum with the given index.
pub open spec fn cached_local_number(entries: Entries, ident: u64, number: u64) -> bool {
    exists|bytes: Seq<u8>|
        bytes.len() == 8 && be_value(bytes) == number && #[trigger] cached_local(
            entries,
            ident,
            bytes,
        )
}

/// The cache holds, under the five local keys, the preimages that these
/// dispute parameters stand for.
pub open spec fn boot_cached(entries: Entries, boot: BootInfo) -> bool {
    &&& cached_local(entries, L1_HEAD_KEY, boot.l1_head@)
    &&& cached_local(entries, L2_OUTPUT_ROOT_KEY, boot.agreed_l2_output_root@)
    &&& cached_local(entries, L2_CLAIM_KEY, boot.claimed_l2_output_root@)
    &&& cached_local_number(entries, L2_CLAIM_BLOCK_NUMBER_KEY, boot.claimed_l2_block_number)
    &&& cached_local_number(entries, L2_CHAIN_ID_KEY, boot.chain_id)
}

/// The cache holds some bytes of the given length under the key of the local
/// datum with the given index.
pub open spec fn cached_local_sized(entries: Entries, ident: u64, len: usize) -> bool {
    exists|bytes: Seq<u8>| bytes.len() == len && #[trigger] cached_local(entries, ident, bytes)
}

/// The cache holds bytes under the key of the local datum with the given
/// index, but `found` of them where `want` are read.
pub open spec fn cached_local_missized(
    entries: Entries,
    ident: u64,
    want: usize,
    found: usize,
) -> bool {
    found != want && cached_local_sized(entries, ident, found)
}

/// The cache holds all five local preimages in the sizes in which they are
/// read: the three hashes in 32 bytes, the two numbers in eight.
pub open spec fn boot_in_cache(entries: Entries) -> bool {
    &&& cached_local_sized(entries, L1_HEAD_KEY, 32)
    &&& cached_local_sized(entries, L2_OUTPUT_ROOT_KEY, 32)
    &&& cached_local_sized(entries, L2_CLAIM_KEY, 32)
    &&& cached_local_sized(entries, L2_CLAIM_BLOCK_NUMBER_KEY, 8)
    &&& cached_local_sized(entries, L2_CHAIN_ID_KEY, 8)
}

/// The first local preimage, in the order of the reads, that the cache does
/// not hold in the size in which it is read is one that it holds in another
/// size: `found` bytes where `want` are read.
pub open spec fn boot_mismatch(entries: Entries, want: usize, found: usize) -> bool {
    ||| want == 32 && cached_local_missized(entries, L1_HEAD_KEY, 32, found)
    ||| {
        &&& want == 32
        &&& cached_local_sized(entries, L1_HEAD_KEY, 32)
        &&& cached_local_missized(entries, L2_OUTPUT_ROOT_KEY, 32, found)
    }
    ||| {
        &&& want == 32
        &&& cached_local_sized(entries, L1_HEAD_KEY, 32)
        &&& cached_local_sized(entries, L2_OUTPUT_ROOT_KEY, 32)
        &&& cached_local_missized(entries, L2_CLAIM_KEY, 32, found)
    }
    ||| {
        &&& want == 8
        &&& cached_local_sized(entries, L1_HEAD_KEY, 32)
        &&& cached_local_sized(entries, L2_OUTPUT_ROOT_KEY, 32)
        &&& cached_local_sized(entries, L2_CLAIM_KEY, 32)
        &&& cached_local_missized(entries, L2_CLAIM_BLOCK_NUMBER_KEY, 8, found)
    }
    ||| {
        &&& want == 8
        &&& cached_local_sized(entries, L1_HEAD_KEY, 32)
        &&& cached_local_sized(entries, L2_OUTPUT_ROOT_KEY, 32)
        &&& cached_local_sized(entries, L2_CLAIM_KEY, 32)
        &&& cached_local_sized(entries, L2_CLAIM_BLOCK_NUMBER_KEY, 8)
        &&& cached_local_missized(entries, L2_CHAIN_ID_KEY, 8, found)
    }
}

/// The place of a read among the five reads of a load: the index of the
/// local datum, where the read is one of them in its size.
pub open spec fn boot_read_index(op: ChannelOp) -> Option<u64> {
    match op {
        ChannelOp::Read(key, len) => if key.is_local(L1_HEAD_KEY) && len == 32 {
            Some(L1_HEAD_KEY)
        } else if key.is_local(L2_OUTPUT_ROOT_KEY) && len == 32 {
            Some(L2_OUTPUT_ROOT_KEY)
        } else if key.is_local(L2_CLAIM_KEY) && len == 32 {
            Some(L2_CLAIM_KEY)
        } else if key.is_local(L2_CLAIM_BLOCK_NUMBER_KEY) && len == 8 {
            Some(L2_CLAIM_BLOCK_NUMBER_KEY)
        } else if key.is_local(L2_CHAIN_ID_KEY) && len == 8 {
            Some(L2_CHAIN_ID_KEY)
        } else {
            None
        },
        ChannelOp::Hint(_) => None,
    }
}

/// All that a load hands to the channel: after what was sent before, no
/// hint, and of the five reads those that the cache could not answer, in
/// the order of their indices.
pub open spec fn boot_reads_only(before: Seq<ChannelOp>, after: Seq<ChannelOp>) -> bool {
    &&& before.len() <= after.len()
    &&& after.subrange(0, before.len() as int) == before
    &&& forall|i: int|
        before.len() <= i < after.len() ==> boot_read_index(#[trigger] after[i]) is Some
    &&& forall|i: int, j: int|
        before.len() <= i < j < after.len() ==> boot_read_index(after[i])->0 < boot_read_index(
            after[j],
        )->0
}

/// A load has sent reads with indices up to `m` only.
spec fn reads_upto(before: Seq<ChannelOp>, after: Seq<ChannelOp>, m: int) -> bool {
    &&& boot_reads_only(before, after)
    &&& forall|i: int|
        before.len() <= i < after.len() ==> boot_read_index(#[trigger] after[i])->0 <= m
}

/// One more read of a load, made or spared, keeps the order of the reads.
proof fn lemma_reads_step(
    before: Seq<ChannelOp>,
    prev: Seq<ChannelOp>,
    next: Seq<ChannelOp>,
    key: PreimageKey,
    len: usize,
    index: u64,
)
    requires
        reads_upto(before, prev, index - 1),
        boot_read_index(ChannelOp::Read(key, len)) == Some(index),
        next == prev || next == prev.push(ChannelOp::Read(key, len)),
    ensures
        reads_upto(before, next, index as int),
{
    if next != prev {
        assert(next.subrange(0, before.len() as int) =~= prev.subrange(0, before.len() as int));
        assert forall|i: int| before.len() <= i < next.len() implies boot_read_index(
            #[trigger] next[i],
        ) is Some && boot_read_index(next[i])->0 <= index by {
            if i < prev.len() {
                assert(next[i] == prev[i]);
            }
        }
        assert forall|i: int, j: int| before.len() <= i < j < next.len() implies boot_read_index(
            next[i],
        )->0 < boot_read_index(next[j])->0 by {
            assert(next[i] == prev[i]);
            if j < prev.len() {
                assert(next[j] == prev[j]);
            }
        }
    }
}

/// A local key is the only one of its index: the cache holds bytes under
/// the index exactly when it holds them under that key.
proof fn lemma_cached_local(entries: Entries, key: PreimageKey, ident: u64, bytes: Seq<u8>)
    requires
        key.is_local(ident),
    ensures
        cached_local(entries, ident, bytes) <==> lru_lookup(entries, key) == Some(bytes),
{
    assert forall|other: PreimageKey| #[trigger] other.is_local(ident) implies other == key by {
        PreimageKey::lemma_local_unique(other, key, ident, ident);
    }
}

/// What the cache holds under a local key decides whether it holds the
/// index in a given size.
proof fn lemma_cached_sized(entries: Entries, key: PreimageKey, ident: u64, len: usize)
    requires
        key.is_local(ident),
    ensures
        cached_local_sized(entries, ident, len) <==> (lru_lookup(entries, key) matches Some(bytes)
            && bytes.len() == len),
{
    if cached_local_sized(entries, ident, len) {
        let bytes = choose|bytes: Seq<u8>|
            bytes.len() == len && #[trigger] cached_local(entries, ident, bytes);
        lemma_cached_local(entries, key, ident, bytes);
    }
    if lru_lookup(entries, key) matches Some(bytes) && bytes.len() == len {
        let bytes = lru_lookup(entries, key)->0;
        lemma_cached_local(entries, key, ident, bytes);
    }
}

/// A read that the cache answers keeps the cache well formed and changes
/// no lookup.
proof fn lemma_hit_keeps(entries: Entries, capacity: nat, key: PreimageKey, other: PreimageKey)
    requires
        lru_wf(entries, capacity),
    ensures
        lru_wf(lru_touch(entries, key), capacity),
        lru_lookup(lru_touch(entries, key), other) == lru_lookup(entries, other),
{
    lemma_wf_preserved(entries, capacity, key, Seq::empty());
    lemma_touch_keeps_lookups(entries, capacity, key, other);
}

/// A read of another key keeps a recently used key cached, one step less
/// recent.
proof fn lemma_still_cached(
    before: Entries,
    capacity: nat,
    key: PreimageKey,
    bytes: Seq<u8>,
    other: PreimageKey,
    held: Seq<u8>,
    m: nat,
)
    requires
        lru_wf(before, capacity),
        other != key,
        m < capacity,
        lru_recent(before, other, m),
        lru_lookup(before, other) == Some(held),
    ensures
        lru_recent(lru_read(before, capacity, key, bytes), other, m + 1),
        lru_lookup(lru_read(before, capacity, key, bytes), other) == Some(held),
{
    lemma_read_ages(before, capacity, key, bytes, other, m);
}

impl BootInfo {
    /// Decodes the dispute parameters: the hashes as they stand, the numbers
    /// most significant byte first. A preimage of the wrong size is refused.
    pub fn decode(raw: &BootPreimages) -> (r: Result<BootInfo, OracleProviderError>)
        ensures
            raw.well_sized() ==> (r matches Ok(boot) && {
                &&& boot.l1_head@ == raw.l1_head@
                &&& boot.agreed_l2_output_root@ == raw.agreed_l2_output_root@
                &&& boot.claimed_l2_output_root@ == raw.claimed_l2_output_root@
                &&& boot.claimed_l2_block_number == be_value(raw.claimed_l2_block_number@)
                &&& boot.chain_id == be_value(raw.chain_id@)
            }),
            !raw.well_sized() ==> r == Err::<BootInfo, OracleProviderError>(
                OracleProviderError::SliceConversion,
            ),
    {
        let l1_head = B256::from_slice(raw.l1_head.as_slice());
        let agreed = B256::from_slice(raw.agreed_l2_output_root.as_slice());
        let claimed = B256::from_slice(raw.claimed_l2_output_root.as_slice());
        let number = u64_from_be_bytes(raw.claimed_l2_block_number.as_slice());
        let chain_id = u64_from_be_bytes(raw.chain_id.as_slice());
        match (l1_head, agreed, claimed, number, chain_id) {
            (
                Some(l1_head),
                Some(agreed_l2_output_root),
                Some(claimed_l2_output_root),
                Some(claimed_l2_block_number),
                Some(chain_id),
            ) => Ok(
                BootInfo {
                    l1_head,
                    agreed_l2_output_root,
                    claimed_l2_output_root,
                    claimed_l2_block_number,
                    chain_id,
                },
            ),
            _ => Err(OracleProviderError::SliceConversion),
        }
    }

    /// Loads the dispute parameters: five exact reads of local data, in the
    /// order of their indices, then `decode`. The first read that fails
    /// ends the load with its error. No hint is sent: local data is fixed
    /// when the dispute starts, and no hint type describes it.
    ///
    /// Where the cache holds all five preimages in their sizes, the load
    /// succeeds on the cache alone. Where the first one that it does not so
    /// hold is held in another size, the load fails with that mismatch,
    /// again on the cache alone. In every other case the channel decides,
    /// and is asked for nothing but the reads that the cache cannot answer.
    /// Where the load succeeds and the cache has room for five entries, the
    /// parameters are the ones whose preimages the cache then holds under
    /// the five local keys.
    pub fn load<OR: PreimageOracleClient, HW: HintWriterClient>(
        oracle: &mut CachingOracle<OR, HW>,
    ) -> (r: Result<BootInfo, OracleProviderError>)
        ensures
            final(oracle).hint_writer == old(oracle).hint_writer,
            final(oracle).cache.spec_capacity() == old(oracle).cache.spec_capacity(),
            boot_reads_only(old(oracle).sent(), final(oracle).sent()),
            boot_in_cache(old(oracle).cache@) ==> {
                &&& r matches Ok(boot) && boot_cached(old(oracle).cache@, boot)
                &&& final(oracle).oracle == old(oracle).oracle
                &&& final(oracle).sent() == old(oracle).sent()
            },
            forall|want: usize, found: usize| #[trigger]
                boot_mismatch(old(oracle).cache@, want, found) ==> {
                    &&& r == Err::<BootInfo, OracleProviderError>(
                        OracleProviderError::Preimage(
                            PreimageOracleError::BufferLengthMismatch(want, found),
                        ),
                    )
                    &&& final(oracle).oracle == old(oracle).oracle
                    &&& final(oracle).sent() == old(oracle).sent()
                },
            r matches Err(e) ==> e is Preimage,
            r matches Ok(boot) ==> old(oracle).cache.spec_capacity() >= 5 ==> boot_cached(
                final(oracle).cache@,
                boot,
            ),
    {
        let capacity = oracle.cache.capacity();
        let ghost cap = capacity as nat;
        let ghost c0 = oracle.cache@;
        let ghost s0 = oracle.sent();
        let k1 = PreimageKey::new_local(L1_HEAD_KEY);
        let k2 = PreimageKey::new_local(L2_OUTPUT_ROOT_KEY);
        let k3 = PreimageKey::new_local(L2_CLAIM_KEY);
        let k4 = PreimageKey::new_local(L2_CLAIM_BLOCK_NUMBER_KEY);
        let k5 = PreimageKey::new_local(L2_CHAIN_ID_KEY);
        proof {
            PreimageKey::lemma_local_unique(k1, k2, L1_HEAD_KEY, L2_OUTPUT_ROOT_KEY);
            PreimageKey::lemma_local_unique(k1, k3, L1_HEAD_KEY, L2_CLAIM_KEY);
            PreimageKey::lemma_local_unique(k1, k4, L1_HEAD_KEY, L2_CLAIM_BLOCK_NUMBER_KEY);
            PreimageKey::lemma_local_unique(k1, k5, L1_HEAD_KEY, L2_CHAIN_ID_KEY);
            PreimageKey::lemma_local_unique(k2, k3, L2_OUTPUT_ROOT_KEY, L2_CLAIM_KEY);
            PreimageKey::lemma_local_unique(k2, k4, L2_OUTPUT_ROOT_KEY, L2_CLAIM_BLOCK_NUMBER_KEY);
            PreimageKey::lemma_local_unique(k2, k5, L2_OUTPUT_ROOT_KEY, L2_CHAIN_ID_KEY);
            PreimageKey::lemma_local_unique(k3, k4, L2_CLAIM_KEY, L2_CLAIM_BLOCK_NUMBER_KEY);
            PreimageKey::lemma_local_unique(k3, k5, L2_CLAIM_KEY, L2_CHAIN_ID_KEY);
            PreimageKey::lemma_local_unique(k4, k5, L2_CLAIM_BLOCK_NUMBER_KEY, L2_CHAIN_ID_KEY);
            lemma_cached_sized(c0, k1, L1_HEAD_KEY, 32);
            lemma_cached_sized(c0, k2, L2_OUTPUT_ROOT_KEY, 32);
            lemma_cached_sized(c0, k3, L2_CLAIM_KEY, 32);
            lemma_cached_sized(c0, k4, L2_CLAIM_BLOCK_NUMBER_KEY, 8);
            lemma_cached_sized(c0, k5, L2_CHAIN_ID_KEY, 8);
            assert forall|found: usize|
                cached_local_missized(c0, L1_HEAD_KEY, 32, found) implies lru_lookup(c0, k1)
                is Some && lru_lookup(c0, k1)->0.len() == found by {
                lemma_cached_sized(c0, k1, L1_HEAD_KEY, found);
            }
            assert forall|found: usize|
                cached_local_missized(c0, L2_OUTPUT_ROOT_KEY, 32, found) implies lru_lookup(c0, k2)
                is Some && lru_lookup(c0, k2)->0.len() == found by {
                lemma_cached_sized(c0, k2, L2_OUTPUT_ROOT_KEY, found);
            }
            assert forall|found: usize|
                cached_local_missized(c0, L2_CLAIM_KEY, 32, found) implies lru_lookup(c0, k3)
                is Some && lru_lookup(c0, k3)->0.len() == found by {
                lemma_cached_sized(c0, k3, L2_CLAIM_KEY, found);
            }
            assert forall|found: usize|
                cached_local_missized(c0, L2_CLAIM_BLOCK_NUMBER_KEY, 8, found) implies lru_lookup(
                    c0,
                    k4,
                ) is Some && lru_lookup(c0, k4)->0.len() == found by {
                lemma_cached_sized(c0, k4, L2_CLAIM_BLOCK_NUMBER_KEY, found);
            }
            assert forall|found: usize|
                cached_local_missized(c0, L2_CHAIN_ID_KEY, 8, found) implies lru_lookup(c0, k5)
                is Some && lru_lookup(c0, k5)->0.len() == found by {
                lemma_cached_sized(c0, k5, L2_CHAIN_ID_KEY, found);
            }
            assert(s0.subrange(0, s0.len() as int) =~= s0);
            assert(reads_upto(s0, s0, 0));
        }

        let read1 = oracle.get_exact(k1, 32);
        let ghost c1 = oracle.cache@;
        let ghost s1 = oracle.sent();
        proof {
            lemma_reads_step(s0, s0, s1, k1, 32, L1_HEAD_KEY);
            lemma_hit_keeps(c0, cap, k1, k2);
            lemma_hit_keeps(c0, cap, k1, k3);
            lemma_hit_keeps(c0, cap, k1, k4);
            lemma_hit_keeps(c0, cap, k1, k5);
        }
        let l1_head = match read1 {
            Ok(bytes) => bytes,
            Err(e) => {
                return Err(OracleProviderError::Preimage(e));
            },
        };
        proof {
            lemma_read_ages(c0, cap, k1, l1_head@, k1, 0);
        }

        let read2 = oracle.get_exact(k2, 32);
        let ghost c2 = oracle.cache@;
        let ghost s2 = oracle.sent();
        proof {
            lemma_reads_step(s0, s1, s2, k2, 32, L2_OUTPUT_ROOT_KEY);
            lemma_hit_keeps(c1, cap, k2, k3);
            lemma_hit_keeps(c1, cap, k2, k4);
            lemma_hit_keeps(c1, cap, k2, k5);
        }
        let agreed_l2_output_root = match read2 {
            Ok(bytes) => bytes,
            Err(e) => {
                return Err(OracleProviderError::Preimage(e));
            },
        };
        proof {
            lemma_read_ages(c1, cap, k2, agreed_l2_output_root@, k2, 0);
        }

        let read3 = oracle.get_exact(k3, 32);
        let ghost c3 = oracle.cache@;
        let ghost s3 = oracle.sent();
        proof {
            lemma_reads_step(s0, s2, s3, k3, 32, L2_CLAIM_KEY);
            lemma_hit_keeps(c2, cap, k3, k4);
            lemma_hit_keeps(c2, cap, k3, k5);
        }
        let claimed_l2_output_root = match read3 {
            Ok(bytes) => bytes,
            Err(e) => {
                return Err(OracleProviderError::Preimage(e));
            },
        };
        proof {
            lemma_read_ages(c2, cap, k3, claimed_l2_output_root@, k3, 0);
        }

        let read4 = oracle.get_exact(k4, 8);
        let ghost c4 = oracle.cache@;
        let ghost s4 = oracle.sent();
        proof {
            lemma_reads_step(s0, s3, s4, k4, 8, L2_CLAIM_BLOCK_NUMBER_KEY);
            lemma_hit_keeps(c3, cap, k4, k5);
        }
        let claimed_l2_block_number = match read4 {
            Ok(bytes) => bytes,
            Err(e) => {
                return Err(OracleProviderError::Preimage(e));
            },
        };
        proof {
            lemma_read_ages(c3, cap, k4, claimed_l2_block_number@, k4, 0);
        }

        let read5 = oracle.get_exact(k5, 8);
        let ghost c5 = oracle.cache@;
        let ghost s5 = oracle.sent();
        proof {
            lemma_reads_step(s0, s4, s5, k5, 8, L2_CHAIN_ID_KEY);
        }
        let chain_id = match read5 {
            Ok(bytes) => bytes,
            Err(e) => {
                return Err(OracleProviderError::Preimage(e));
            },
        };
        let raw = BootPreimages {
            l1_head,
            agreed_l2_output_root,
            claimed_l2_output_root,
            claimed_l2_block_number,
            chain_id,
        };
        let decoded = BootInfo::decode(&raw);
        proof {
            let b1 = raw.l1_head@;
            let b2 = raw.agreed_l2_output_root@;
            let b3 = raw.claimed_l2_output_root@;
            let b4 = raw.claimed_l2_block_number@;
            let b5 = raw.chain_id@;
            lemma_read_ages(c4, cap, k5, b5, k5, 0);
            if boot_in_cache(c0) {
                lemma_cached_local(c0, k1, L1_HEAD_KEY, b1);
                lemma_cached_local(c0, k2, L2_OUTPUT_ROOT_KEY, b2);
                lemma_cached_local(c0, k3, L2_CLAIM_KEY, b3);
                lemma_cached_local(c0, k4, L2_CLAIM_BLOCK_NUMBER_KEY, b4);
                lemma_cached_local(c0, k5, L2_CHAIN_ID_KEY, b5);
            }
            if cap >= 5 {
                lemma_still_cached(c1, cap, k2, b2, k1, b1, 1);
                lemma_still_cached(c2, cap, k3, b3, k1, b1, 2);
                lemma_still_cached(c2, cap, k3, b3, k2, b2, 1);
                lemma_still_cached(c3, cap, k4, b4, k1, b1, 3);
                lemma_still_cached(c3, cap, k4, b4, k2, b2, 2);
                lemma_still_cached(c3, cap, k4, b4, k3, b3, 1);
                lemma_still_cached(c4, cap, k5, b5, k1, b1, 4);
                lemma_still_cached(c4, cap, k5, b5, k2, b2, 3);
                lemma_still_cached(c4, cap, k5, b5, k3, b3, 2);
                lemma_still_cached(c4, cap, k5, b5, k4, b4, 1);
                lemma_cached_local(c5, k1, L1_HEAD_KEY, b1);
                lemma_cached_local(c5, k2, L2_OUTPUT_ROOT_KEY, b2);
                lemma_cached_local(c5, k3, L2_CLAIM_KEY, b3);
                lemma_cached_local(c5, k4, L2_CLAIM_BLOCK_NUMBER_KEY, b4);
                lemma_cached_local(c5, k5, L2_CHAIN_ID_KEY, b5);
            }
        }
        decoded
    }
}

} // verus!
