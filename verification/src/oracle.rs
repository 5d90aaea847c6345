//! The client side of the oracle channel, and the cache in front of it.
//!
//! The channel has two blocking operations: a hint is written, and a
//! preimage of a known length is read. Both are for the user to implement.

use crate::errors::PreimageOracleError;
use crate::key::PreimageKey;
use crate::lru::{lru_lookup, lru_put, lru_read, lru_touch, Entries, LruCache};
use vstd::prelude::*;

verus! {

/// The reading half of the oracle channel.
pub trait PreimageOracleClient {
    /// Reads the preimage of `key`, which the caller expects to hold `len`
    /// bytes.
    fn get_exact(&mut self, key: PreimageKey, len: usize) -> Result<Vec<u8>, PreimageOracleError>;
}

/// The writing half of the oracle channel.
pub trait HintWriterClient {
    /// Sends a hint in its wire form.
    fn write(&mut self, hint: &str) -> Result<(), PreimageOracleError>;
}

/// The number of preimages that the program's cache holds.
pub const ORACLE_LRU_SIZE: usize = 1024;

/// What a caching oracle hands to its channel.
pub enum ChannelOp {
    /// A hint, in its wire form, handed to the writing half.
    Hint(Seq<char>),
    /// A read of that many bytes under a key, handed to the reading half.
    Read(PreimageKey, usize),
}

/// What a read of `len` bytes gives for bytes that are at hand: the bytes
/// where they have that length, a length mismatch otherwise.
pub open spec fn spec_exact(bytes: Seq<u8>, len: usize) -> Result<Seq<u8>, PreimageOracleError> {
    if bytes.len() == len {
        Ok(bytes)
    } else {
        Err(PreimageOracleError::BufferLengthMismatch(len, bytes.len() as usize))
    }
}

/// What a read hands to the channel: nothing where the cache holds the key,
/// one read of the key and the length where it does not.
pub open spec fn spec_sent_by_read(
    sent: Seq<ChannelOp>,
    cache: Entries,
    key: PreimageKey,
    len: usize,
) -> Seq<ChannelOp> {
    if lru_lookup(cache, key) is Some {
        sent
    } else {
        sent.push(ChannelOp::Read(key, len))
    }
}

/// Checks bytes against the length that a read asks for.
pub fn exact(bytes: Vec<u8>, len: usize) -> (r: Result<Vec<u8>, PreimageOracleError>)
    ensures
        match spec_exact(bytes@, len) {
            Ok(b) => r matches Ok(v) && v@ == b,
            Err(e) => r == Err::<Vec<u8>, PreimageOracleError>(e),
        },
{
    if bytes.len() == len {
        Ok(bytes)
    } else {
        Err(PreimageOracleError::BufferLengthMismatch(len, bytes.len()))
    }
}

/// An oracle channel behind a bounded cache of the preimages read so far.
pub struct CachingOracle<OR: PreimageOracleClient, HW: HintWriterClient> {
    /// The preimages read so far, ordered by use.
    pub cache: LruCache,
    /// The channel's reading half.
    pub oracle: OR,
    /// The channel's writing half.
    pub hint_writer: HW,
    /// What this oracle has handed to the channel so far, in order. Only
    /// the oracle's own methods add to it.
    pub sent: Ghost<Seq<ChannelOp>>,
}

impl<OR: PreimageOracleClient, HW: HintWriterClient> CachingOracle<OR, HW> {
    /// What this oracle has handed to its channel so far, in order: every
    /// hint it was given to send, and every read that the cache could not
    /// answer.
    pub open spec fn sent(&self) -> Seq<ChannelOp> {
        self.sent@
    }

    /// A caching oracle with an empty cache for `cache_size` preimages, which
    /// has handed nothing to its channel yet.
    pub fn new(cache_size: usize, oracle: OR, hint_writer: HW) -> (r: Self)
        requires
            cache_size > 0,
        ensures
            r.cache@.len() == 0,
            r.cache.spec_capacity() == cache_size,
            r.oracle == oracle,
            r.hint_writer == hint_writer,
            r.sent() == Seq::<ChannelOp>::empty(),
    {
        CachingOracle {
            cache: LruCache::new(cache_size),
            oracle,
            hint_writer,
            sent: Ghost(Seq::empty()),
        }
    }

    /// Takes what the channel answered to a read of `len` bytes under
    /// `key`. Bytes of the requested length are cached and returned; bytes
    /// of another length are a protocol violation; a failure is passed on.
    /// Only bytes that are returned enter the cache.
    pub fn complete_read(
        &mut self,
        key: PreimageKey,
        len: usize,
        answer: Result<Vec<u8>, PreimageOracleError>,
    ) -> (r: Result<Vec<u8>, PreimageOracleError>)
        ensures
            final(self).oracle == old(self).oracle,
            final(self).hint_writer == old(self).hint_writer,
            final(self).sent() == old(self).sent(),
            final(self).cache.spec_capacity() == old(self).cache.spec_capacity(),
            match answer {
                Ok(bytes) => match spec_exact(bytes@, len) {
                    Ok(b) => r matches Ok(v) && v@ == b && final(self).cache@ == lru_put(
                        old(self).cache@,
                        old(self).cache.spec_capacity(),
                        key,
                        b,
                    ),
                    Err(e) => r == Err::<Vec<u8>, PreimageOracleError>(e) && final(self).cache@
                        == old(self).cache@,
                },
                Err(e) => r == Err::<Vec<u8>, PreimageOracleError>(e) && final(self).cache@ == old(
                    self,
                ).cache@,
            },
    {
        match answer {
            Ok(bytes) => match exact(bytes, len) {
                Ok(bytes) => {
                    let copy = vstd::slice::slice_to_vec(bytes.as_slice());
                    self.cache.put(key, copy);
                    Ok(bytes)
                },
                Err(e) => Err(e),
            },
            Err(e) => Err(e),
        }
    }

    /// Reads the preimage of `key`, which must hold `len` bytes.
    ///
    /// A key that the cache holds is answered from the cache, with no
    /// traffic on the channel, and becomes the most recently used; cached
    /// bytes of another length fail the read. For any other key the
    /// channel is asked once, for this key and this length, and
    /// `complete_read` says what becomes of its answer.
    pub fn get_exact(&mut self, key: PreimageKey, len: usize) -> (r: Result<
        Vec<u8>,
        PreimageOracleError,
    >)
        ensures
            final(self).hint_writer == old(self).hint_writer,
            final(self).cache.spec_capacity() == old(self).cache.spec_capacity(),
            r matches Ok(v) ==> v@.len() == len && final(self).cache@ == lru_read(
                old(self).cache@,
                old(self).cache.spec_capacity(),
                key,
                v@,
            ),
            final(self).sent() == spec_sent_by_read(old(self).sent(), old(self).cache@, key, len),
            match lru_lookup(old(self).cache@, key) {
                Some(cached) => {
                    &&& final(self).oracle == old(self).oracle
                    &&& final(self).cache@ == lru_touch(old(self).cache@, key)
                    &&& match spec_exact(cached, len) {
                        Ok(b) => r matches Ok(v) && v@ == b,
                        Err(e) => r == Err::<Vec<u8>, PreimageOracleError>(e),
                    }
                },
                None => match r {
                    Ok(v) => v@.len() == len && final(self).cache@ == lru_put(
                        old(self).cache@,
                        old(self).cache.spec_capacity(),
                        key,
                        v@,
                    ),
                    Err(_) => final(self).cache@ == old(self).cache@,
                },
            },
    {
        match self.cache.get(&key) {
            Some(bytes) => exact(bytes, len),
            None => {
                proof {
                    self.sent@ = self.sent@.push(ChannelOp::Read(key, len));
                }
                let answer = self.oracle.get_exact(key, len);
                self.complete_read(key, len, answer)
            },
        }
    }

    /// Sends a hint in its wire form: the hint is handed to the writing
    /// half as it is, and the writer's answer is returned. Hints are not
    /// cached.
    pub fn write(&mut self, hint: &str) -> (r: Result<(), PreimageOracleError>)
        ensures
            final(self).cache == old(self).cache,
            final(self).oracle == old(self).oracle,
            final(self).sent() == old(self).sent().push(ChannelOp::Hint(hint@)),
    {
        proof {
            self.sent@ = self.sent@.push(ChannelOp::Hint(hint@));
        }
        self.hint_writer.write(hint)
    }
}

/// A caching oracle is itself a reading half of the channel.
impl<OR: PreimageOracleClient, HW: HintWriterClient> PreimageOracleClient for CachingOracle<
    OR,
    HW,
> {
    /// Reads through the cache, as the method of the same name on the type
    /// does, and with all that it promises.
    fn get_exact(&mut self, key: PreimageKey, len: usize) -> (r: Result<
        Vec<u8>,
        PreimageOracleError,
    >)
        ensures
            final(self).hint_writer == old(self).hint_writer,
            final(self).cache.spec_capacity() == old(self).cache.spec_capacity(),
            r matches Ok(v) ==> v@.len() == len && final(self).cache@ == lru_read(
                old(self).cache@,
                old(self).cache.spec_capacity(),
                key,
                v@,
            ),
            final(self).sent() == spec_sent_by_read(old(self).sent(), old(self).cache@, key, len),
            match lru_lookup(old(self).cache@, key) {
                Some(cached) => {
                    &&& final(self).oracle == old(self).oracle
                    &&& final(self).cache@ == lru_touch(old(self).cache@, key)
                    &&& match spec_exact(cached, len) {
                        Ok(b) => r matches Ok(v) && v@ == b,
                        Err(e) => r == Err::<Vec<u8>, PreimageOracleError>(e),
                    }
                },
                None => match r {
                    Ok(v) => v@.len() == len && final(self).cache@ == lru_put(
                        old(self).cache@,
                        old(self).cache.spec_capacity(),
                        key,
                        v@,
                    ),
                    Err(_) => final(self).cache@ == old(self).cache@,
                },
            },
    {
        CachingOracle::get_exact(self, key, len)
    }
}

/// A caching oracle is itself a writing half of the channel.
impl<OR: PreimageOracleClient, HW: HintWriterClient> HintWriterClient for CachingOracle<OR, HW> {
    /// Sends a hint, as the method of the same name on the type does: the
    /// cache and the reading half stay as they are.
    fn write(&mut self, hint: &str) -> (r: Result<(), PreimageOracleError>)
        ensures
            final(self).cache == old(self).cache,
            final(self).oracle == old(self).oracle,
            final(self).sent() == old(self).sent().push(ChannelOp::Hint(hint@)),
    {
        CachingOracle::write(self, hint)
    }
}

} // verus!
