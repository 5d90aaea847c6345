//! Fixed-width byte strings shared by every component.

use vstd::prelude::*;

verus! {

/// A 32-byte value: a block hash, an output root or a digest.
#[derive(Clone, Copy, Debug)]
pub struct B256 {
    pub bytes: [u8; 32],
}

impl View for B256 {
    type V = Seq<u8>;

    open spec fn view(&self) -> Seq<u8> {
        self.bytes@
    }
}

impl PartialEq for B256 {
    fn eq(&self, other: &Self) -> (r: bool) {
        let mut i: usize = 0;
        while i < 32
            invariant
                i <= 32,
                forall|j: int| 0 <= j < i ==> self.bytes@[j] == other.bytes@[j],
            decreases 32 - i,
        {
            if self.bytes[i] != other.bytes[i] {
                return false;
            }
            i = i + 1;
        }
        assert(self.bytes =~= other.bytes);
        true
    }
}

impl Eq for B256 {

}

impl vstd::std_specs::cmp::PartialEqSpecImpl for B256 {
    open spec fn obeys_eq_spec() -> bool {
        true
    }

    open spec fn eq_spec(&self, other: &Self) -> bool {
        *self == *other
    }
}

/// The number that a byte sequence denotes when read most significant byte
/// first.
pub open spec fn be_value(bytes: Seq<u8>) -> nat
    decreases bytes.len(),
{
    if bytes.len() == 0 {
        0
    } else {
        be_value(bytes.drop_last()) * 256 + bytes.last() as nat
    }
}

/// Byte sequences of one length that denote the same number are the same.
pub proof fn lemma_be_value_injective(a: Seq<u8>, b: Seq<u8>)
    requires
        a.len() == b.len(),
        be_value(a) == be_value(b),
    ensures
        a == b,
    decreases a.len(),
{
    if a.len() == 0 {
        assert(a =~= b);
    } else {
        lemma_be_value_injective(a.drop_last(), b.drop_last());
        assert(a =~= a.drop_last().push(a.last()));
        assert(b =~= b.drop_last().push(b.last()));
    }
}

/// Reads a number from exactly eight bytes, most significant byte first.
pub fn u64_from_be_bytes(s: &[u8]) -> (r: Option<u64>)
    ensures
        s@.len() == 8 ==> r == Some(be_value(s@) as u64) && be_value(s@) <= u64::MAX,
        s@.len() != 8 ==> r is None,
{
    if s.len() != 8 {
        return None;
    }
    let n1: u64 = s[0] as u64;
    let n2: u64 = n1 * 256 + s[1] as u64;
    let n3: u64 = n2 * 256 + s[2] as u64;
    let n4: u64 = n3 * 256 + s[3] as u64;
    let n5: u64 = n4 * 256 + s[4] as u64;
    let n6: u64 = n5 * 256 + s[5] as u64;
    let n7: u64 = n6 * 256 + s[6] as u64;
    let n8: u64 = n7 * 256 + s[7] as u64;
    proof {
        let t8 = s@;
        let t7 = t8.drop_last();
        let t6 = t7.drop_last();
        let t5 = t6.drop_last();
        let t4 = t5.drop_last();
        let t3 = t4.drop_last();
        let t2 = t3.drop_last();
        let t1 = t2.drop_last();
        assert(be_value(t1.drop_last()) == 0);
        assert(be_value(t1) == n1);
        assert(be_value(t2) == n2);
        assert(be_value(t3) == n3);
        assert(be_value(t4) == n4);
        assert(be_value(t5) == n5);
        assert(be_value(t6) == n6);
        assert(be_value(t7) == n7);
        assert(be_value(t8) == n8);
    }
    Some(n8)
}

impl B256 {
    /// Two values are equal exactly when their byte sequences are.
    pub proof fn lemma_view_injective(a: B256, b: B256)
        ensures
            (a@ == b@) <==> (a == b),
    {
        if a@ == b@ {
            assert(a.bytes =~= b.bytes);
        }
    }

    /// Wraps 32 bytes.
    pub fn new(bytes: [u8; 32]) -> (r: Self)
        ensures
            r.bytes == bytes,
    {
        B256 { bytes }
    }

    /// The value whose bytes are all zero.
    pub fn zero() -> (r: Self)
        ensures
            r@ == Seq::new(32, |i: int| 0u8),
    {
        let r = B256 { bytes: [0u8; 32] };
        assert(r@ =~= Seq::new(32, |i: int| 0u8));
        r
    }

    /// Reads a value from a slice that holds exactly 32 bytes.
    pub fn from_slice(s: &[u8]) -> (r: Option<Self>)
        ensures
            s@.len() == 32 ==> r is Some && r->0@ == s@,
            s@.len() != 32 ==> r is None,
    {
        if s.len() != 32 {
            return None;
        }
        let mut bytes = [0u8; 32];
        let mut i: usize = 0;
        while i < 32
            invariant
                i <= 32,
                s@.len() == 32,
                forall|j: int| 0 <= j < i ==> bytes@[j] == s@[j],
            decreases 32 - i,
        {
            bytes[i] = s[i];
            i = i + 1;
        }
        assert(bytes@ =~= s@);
        Some(B256 { bytes })
    }

    /// The 32 bytes, in order.
    pub fn to_vec(&self) -> (r: Vec<u8>)
        ensures
            r@ == self@,
    {
        let mut out: Vec<u8> = Vec::with_capacity(32);
        let mut i: usize = 0;
        while i < 32
            invariant
                i <= 32,
                out@.len() == i,
                forall|j: int| 0 <= j < i ==> out@[j] == self.bytes@[j],
            decreases 32 - i,
        {
            out.push(self.bytes[i]);
            i = i + 1;
        }
        assert(out@ =~= self@);
        out
    }
}

} // verus!
