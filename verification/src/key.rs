//! Preimage keys: the content addresses under which data is requested.
//!
//! A key is a type tag and a 31-byte digest or index. Encoded, the tag is the
//! first of 32 bytes.

use crate::primitives::{be_value, lemma_be_value_injective, B256};
use vstd::prelude::*;

verus! {

/// How a key addresses its preimage.
#[derive(Clone, Copy, Debug, PartialEq, Eq, Hash, Structural)]
pub enum PreimageKeyType {
    /// Data local to one dispute, addressed by index.
    Local,
    /// Data addressed by its Keccak-256 hash.
    Keccak256,
    /// Data addressed by a globally agreed generic key.
    GlobalGeneric,
    /// Data addressed by its SHA-256 hash.
    Sha256,
    /// A field element of a blob.
    Blob,
    /// The result of a precompile call.
    Precompile,
}

impl PreimageKeyType {
    /// The tag byte of a key type.
    pub open spec fn spec_tag(self) -> u8 {
        match self {
            PreimageKeyType::Local => 1,
            PreimageKeyType::Keccak256 => 2,
            PreimageKeyType::GlobalGeneric => 3,
            PreimageKeyType::Sha256 => 4,
            PreimageKeyType::Blob => 5,
            PreimageKeyType::Precompile => 6,
        }
    }

    /// The key type that a tag byte names, if any.
    pub open spec fn spec_from_tag(tag: u8) -> Option<PreimageKeyType> {
        if tag == 1 {
            Some(PreimageKeyType::Local)
        } else if tag == 2 {
            Some(PreimageKeyType::Keccak256)
        } else if tag == 3 {
            Some(PreimageKeyType::GlobalGeneric)
        } else if tag == 4 {
            Some(PreimageKeyType::Sha256)
        } else if tag == 5 {
            Some(PreimageKeyType::Blob)
        } else if tag == 6 {
            Some(PreimageKeyType::Precompile)
        } else {
            None
        }
    }

    /// The tag byte of this key type.
    pub fn tag(self) -> (r: u8)
        ensures
            r == self.spec_tag(),
    {
        match self {
            PreimageKeyType::Local => 1,
            PreimageKeyType::Keccak256 => 2,
            PreimageKeyType::GlobalGeneric => 3,
            PreimageKeyType::Sha256 => 4,
            PreimageKeyType::Blob => 5,
            PreimageKeyType::Precompile => 6,
        }
    }

    /// The key type that a tag byte names, if any.
    pub fn from_tag(tag: u8) -> (r: Option<PreimageKeyType>)
        ensures
            r == PreimageKeyType::spec_from_tag(tag),
    {
        if tag == 1 {
            Some(PreimageKeyType::Local)
        } else if tag == 2 {
            Some(PreimageKeyType::Keccak256)
        } else if tag == 3 {
            Some(PreimageKeyType::GlobalGeneric)
        } else if tag == 4 {
            Some(PreimageKeyType::Sha256)
        } else if tag == 5 {
            Some(PreimageKeyType::Blob)
        } else if tag == 6 {
            Some(PreimageKeyType::Precompile)
        } else {
            None
        }
    }
}

/// The address of a preimage.
#[derive(Clone, Copy, Debug)]
pub struct PreimageKey {
    pub key_type: PreimageKeyType,
    pub digest: [u8; 31],
}

impl PartialEq for PreimageKey {
    fn eq(&self, other: &Self) -> (r: bool) {
        if self.key_type != other.key_type {
            return false;
        }
        let mut i: usize = 0;
        while i < 31
            invariant
                i <= 31,
                forall|j: int| 0 <= j < i ==> self.digest@[j] == other.digest@[j],
            decreases 31 - i,
        {
            if self.digest[i] != other.digest[i] {
                return false;
            }
            i = i + 1;
        }
        assert(self.digest =~= other.digest);
        true
    }
}

impl Eq for PreimageKey {

}

impl vstd::std_specs::cmp::PartialEqSpecImpl for PreimageKey {
    open spec fn obeys_eq_spec() -> bool {
        true
    }

    open spec fn eq_spec(&self, other: &Self) -> bool {
        *self == *other
    }
}

impl PreimageKey {
    /// This is the key of the given type for a 32-byte value: it holds the
    /// value without its first byte.
    pub open spec fn addresses(self, key_type: PreimageKeyType, value: Seq<u8>) -> bool {
        self.key_type == key_type && self.digest@ == value.skip(1)
    }

    /// This is the key of the local datum with the given index: after 23
    /// zeros it holds the index, most significant byte first.
    pub open spec fn is_local(self, ident: u64) -> bool {
        &&& self.key_type == PreimageKeyType::Local
        &&& self.digest@.take(23) == Seq::new(23, |i: int| 0u8)
        &&& be_value(self.digest@.skip(23)) == ident
    }

    /// The key of the given type for a 32-byte value.
    pub open spec fn spec_key(key_type: PreimageKeyType, value: Seq<u8>) -> PreimageKey {
        choose|key: PreimageKey| key.addresses(key_type, value)
    }

    /// The key of the local datum with the given index.
    pub open spec fn spec_local(ident: u64) -> PreimageKey {
        choose|key: PreimageKey| key.is_local(ident)
    }

    /// The 32 bytes of the encoded key: the tag, then the digest.
    pub open spec fn spec_encode(self) -> Seq<u8> {
        seq![self.key_type.spec_tag()] + self.digest@
    }

    /// The key of the given type for a 32-byte value, whose first byte is
    /// dropped to make room for the tag.
    pub fn new(key: [u8; 32], key_type: PreimageKeyType) -> (r: Self)
        ensures
            r.addresses(key_type, key@),
            r == PreimageKey::spec_key(key_type, key@),
    {
        let mut digest = [0u8; 31];
        let mut i: usize = 0;
        while i < 31
            invariant
                i <= 31,
                forall|j: int| 0 <= j < i ==> digest@[j] == key@[j + 1],
            decreases 31 - i,
        {
            digest[i] = key[i + 1];
            i = i + 1;
        }
        assert(digest@ =~= key@.skip(1));
        let r = PreimageKey { key_type, digest };
        proof {
            assert(r.addresses(key_type, key@));
            PreimageKey::lemma_addresses_unique(
                r,
                PreimageKey::spec_key(key_type, key@),
                key_type,
                key@,
            );
        }
        r
    }

    /// The key of the data addressed by a Keccak-256 digest.
    pub fn new_keccak256(digest: [u8; 32]) -> (r: Self)
        ensures
            r.addresses(PreimageKeyType::Keccak256, digest@),
            r == PreimageKey::spec_key(PreimageKeyType::Keccak256, digest@),
    {
        PreimageKey::new(digest, PreimageKeyType::Keccak256)
    }

    /// The key of the local datum with the given index: the index stands in
    /// the last eight bytes, most significant byte first, after zeros.
    pub fn new_local(ident: u64) -> (r: Self)
        ensures
            r.is_local(ident),
            r == PreimageKey::spec_local(ident),
    {
        let mut digest = [0u8; 31];
        digest[23] = (ident / 0x100_0000_0000_0000) as u8;
        digest[24] = (ident / 0x1_0000_0000_0000 % 256) as u8;
        digest[25] = (ident / 0x100_0000_0000 % 256) as u8;
        digest[26] = (ident / 0x1_0000_0000 % 256) as u8;
        digest[27] = (ident / 0x100_0000 % 256) as u8;
        digest[28] = (ident / 0x1_0000 % 256) as u8;
        digest[29] = (ident / 0x100 % 256) as u8;
        digest[30] = (ident % 256) as u8;
        proof {
            assert(digest@.take(23) =~= Seq::new(23, |i: int| 0u8));
            let tail = digest@.skip(23);
            let t7 = tail.drop_last();
            let t6 = t7.drop_last();
            let t5 = t6.drop_last();
            let t4 = t5.drop_last();
            let t3 = t4.drop_last();
            let t2 = t3.drop_last();
            let t1 = t2.drop_last();
            assert(be_value(t1.drop_last()) == 0);
            assert(be_value(t1) == ident / 0x100_0000_0000_0000);
            assert(be_value(t2) == ident / 0x1_0000_0000_0000);
            assert(be_value(t3) == ident / 0x100_0000_0000);
            assert(be_value(t4) == ident / 0x1_0000_0000);
            assert(be_value(t5) == ident / 0x100_0000);
            assert(be_value(t6) == ident / 0x1_0000);
            assert(be_value(t7) == ident / 0x100);
        }
        let r = PreimageKey { key_type: PreimageKeyType::Local, digest };
        proof {
            assert(r.is_local(ident));
            PreimageKey::lemma_local_unique(r, PreimageKey::spec_local(ident), ident, ident);
        }
        r
    }

    /// The encoded key.
    pub fn encode(&self) -> (r: B256)
        ensures
            r@ == self.spec_encode(),
    {
        let mut bytes = [0u8; 32];
        bytes[0] = self.key_type.tag();
        let mut i: usize = 0;
        while i < 31
            invariant
                i <= 31,
                bytes@[0] == self.key_type.spec_tag(),
                forall|j: int| 0 <= j < i ==> bytes@[j + 1] == self.digest@[j],
            decreases 31 - i,
        {
            bytes[i + 1] = self.digest[i];
            i = i + 1;
        }
        assert(bytes@ =~= self.spec_encode());
        B256 { bytes }
    }

    /// The key that 32 bytes encode, if their first byte is a tag.
    pub fn decode(encoded: &B256) -> (r: Option<Self>)
        ensures
            match PreimageKeyType::spec_from_tag(encoded@[0]) {
                Some(key_type) => r matches Some(key) && key.addresses(key_type, encoded@),
                None => r is None,
            },
    {
        match PreimageKeyType::from_tag(encoded.bytes[0]) {
            Some(key_type) => Some(PreimageKey::new(encoded.bytes, key_type)),
            None => None,
        }
    }

    /// An index has one local key, and a local key one index.
    pub proof fn lemma_local_unique(a: PreimageKey, b: PreimageKey, x: u64, y: u64)
        requires
            a.is_local(x),
            b.is_local(y),
        ensures
            a == b <==> x == y,
    {
        if x == y {
            lemma_be_value_injective(a.digest@.skip(23), b.digest@.skip(23));
            assert(a.digest@ =~= a.digest@.take(23) + a.digest@.skip(23));
            assert(b.digest@ =~= b.digest@.take(23) + b.digest@.skip(23));
            assert(a.digest =~= b.digest);
        }
    }

    /// A type and a value have one key.
    pub proof fn lemma_addresses_unique(
        a: PreimageKey,
        b: PreimageKey,
        key_type: PreimageKeyType,
        value: Seq<u8>,
    )
        requires
            a.addresses(key_type, value),
            b.addresses(key_type, value),
        ensures
            a == b,
    {
        assert(a.digest =~= b.digest);
    }

    /// Decoding undoes encoding: the first byte of an encoded key names the
    /// key's type, and the key is the one of that type for the 32 bytes.
    pub proof fn lemma_decode_encode(key: PreimageKey)
        ensures
            PreimageKeyType::spec_from_tag(key.spec_encode()[0]) == Some(key.key_type),
            key.addresses(key.key_type, key.spec_encode()),
    {
        assert(key.spec_encode().skip(1) =~= key.digest@);
    }

    /// Encoding loses nothing: keys with the same encoding are the same key.
    pub proof fn lemma_encode_injective(a: PreimageKey, b: PreimageKey)
        ensures
            a.spec_encode() == b.spec_encode() <==> a == b,
    {
        if a.spec_encode() == b.spec_encode() {
            assert(a.spec_encode()[0] == b.spec_encode()[0]);
            assert forall|i: int| 0 <= i < 31 implies a.digest@[i] == b.digest@[i] by {
                assert(a.spec_encode()[i + 1] == b.spec_encode()[i + 1]);
            }
            assert(a.digest =~= b.digest);
        }
    }
}

} // verus!
