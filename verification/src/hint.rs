//! Hints: advisory messages that name the data a client is about to read.
//!
//! On the wire a hint is its type tag, one space, and its payload in
//! hexadecimal.

use crate::errors::HintParsingError;
use crate::hex::{hex_decode, hex_decoded, hex_encode, hex_encoded, lemma_hex_round_trip};
use vstd::prelude::*;
use vstd::string::StringExecFns;
use vstd::string::StringSliceAdditionalSpecFns;
use vstd::string::StrSliceExecFns;

verus! {

/// The kind of data that a hint announces.
#[derive(Clone, Copy, Debug, PartialEq, Eq, Hash, Structural)]
pub enum HintType {
    L1BlockHeader,
    L1Transactions,
    L1Receipts,
    L1Blob,
    L1Precompile,
    L2BlockHeader,
    L2Transactions,
    L2Receipts,
    L2Code,
    StartingL2Output,
    L2StateNode,
    L2AccountProof,
    L2AccountStorageProof,
    L2PayloadWitness,
}

/// A parsed hint: its type and its payload.
#[derive(Clone, Debug, PartialEq, Eq)]
pub struct Hint {
    pub ty: HintType,
    pub data: Vec<u8>,
}

impl View for Hint {
    type V = (HintType, Seq<u8>);

    open spec fn view(&self) -> (HintType, Seq<u8>) {
        (self.ty, self.data@)
    }
}

/// Whether two strings hold the same characters.
pub fn str_eq(a: &str, b: &str) -> (r: bool)
    ensures
        r == (a@ == b@),
{
    let x = a.as_bytes();
    let y = b.as_bytes();
    proof {
        vstd::utf8::encode_utf8_decode_utf8(a@);
        vstd::utf8::encode_utf8_decode_utf8(b@);
    }
    if x.len() != y.len() {
        return false;
    }
    let n = x.len();
    let mut i: usize = 0;
    while i < n
        invariant
            i <= n,
            n == x@.len(),
            n == y@.len(),
            x@ == a.spec_bytes(),
            y@ == b.spec_bytes(),
            forall|j: int| 0 <= j < i ==> x@[j] == y@[j],
        decreases n - i,
    {
        if x[i] != y[i] {
            return false;
        }
        i = i + 1;
    }
    assert(x@ =~= y@);
    true
}

impl HintType {
    /// The tag under which a hint type goes over the wire.
    pub open spec fn spec_tag(self) -> Seq<char> {
        match self {
            HintType::L1BlockHeader => "l1-block-header"@,
            HintType::L1Transactions => "l1-transactions"@,
            HintType::L1Receipts => "l1-receipts"@,
            HintType::L1Blob => "l1-blob"@,
            HintType::L1Precompile => "l1-precompile"@,
            HintType::L2BlockHeader => "l2-block-header"@,
            HintType::L2Transactions => "l2-transactions"@,
            HintType::L2Receipts => "l2-receipts"@,
            HintType::L2Code => "l2-code"@,
            HintType::StartingL2Output => "starting-l2-output"@,
            HintType::L2StateNode => "l2-state-node"@,
            HintType::L2AccountProof => "l2-account-proof"@,
            HintType::L2AccountStorageProof => "l2-account-storage-proof"@,
            HintType::L2PayloadWitness => "l2-payload-witness"@,
        }
    }

    /// The hint type that a tag names, if any.
    pub open spec fn spec_from_tag(tag: Seq<char>) -> Option<HintType> {
        if exists|ty: HintType| #[trigger] ty.spec_tag() == tag {
            Some(choose|ty: HintType| #[trigger] ty.spec_tag() == tag)
        } else {
            None
        }
    }

    /// The tag under which this hint type goes over the wire.
    pub fn tag(&self) -> (r: &'static str)
        ensures
            r@ == self.spec_tag(),
    {
        match self {
            HintType::L1BlockHeader => "l1-block-header",
            HintType::L1Transactions => "l1-transactions",
            HintType::L1Receipts => "l1-receipts",
            HintType::L1Blob => "l1-blob",
            HintType::L1Precompile => "l1-precompile",
            HintType::L2BlockHeader => "l2-block-header",
            HintType::L2Transactions => "l2-transactions",
            HintType::L2Receipts => "l2-receipts",
            HintType::L2Code => "l2-code",
            HintType::StartingL2Output => "starting-l2-output",
            HintType::L2StateNode => "l2-state-node",
            HintType::L2AccountProof => "l2-account-proof",
            HintType::L2AccountStorageProof => "l2-account-storage-proof",
            HintType::L2PayloadWitness => "l2-payload-witness",
        }
    }

    /// The hint type with the given position in the declaration order.
    fn nth(i: usize) -> (r: HintType)
        requires
            i < 14,
        ensures
            forall|ty: HintType| (#[trigger] ty.ordinal()) == i ==> r == ty,
            r.ordinal() == i,
    {
        if i == 0 {
            HintType::L1BlockHeader
        } else if i == 1 {
            HintType::L1Transactions
        } else if i == 2 {
            HintType::L1Receipts
        } else if i == 3 {
            HintType::L1Blob
        } else if i == 4 {
            HintType::L1Precompile
        } else if i == 5 {
            HintType::L2BlockHeader
        } else if i == 6 {
            HintType::L2Transactions
        } else if i == 7 {
            HintType::L2Receipts
        } else if i == 8 {
            HintType::L2Code
        } else if i == 9 {
            HintType::StartingL2Output
        } else if i == 10 {
            HintType::L2StateNode
        } else if i == 11 {
            HintType::L2AccountProof
        } else if i == 12 {
            HintType::L2AccountStorageProof
        } else {
            HintType::L2PayloadWitness
        }
    }

    /// Position in the declaration order.
    spec fn ordinal(self) -> int {
        match self {
            HintType::L1BlockHeader => 0,
            HintType::L1Transactions => 1,
            HintType::L1Receipts => 2,
            HintType::L1Blob => 3,
            HintType::L1Precompile => 4,
            HintType::L2BlockHeader => 5,
            HintType::L2Transactions => 6,
            HintType::L2Receipts => 7,
            HintType::L2Code => 8,
            HintType::StartingL2Output => 9,
            HintType::L2StateNode => 10,
            HintType::L2AccountProof => 11,
            HintType::L2AccountStorageProof => 12,
            HintType::L2PayloadWitness => 13,
        }
    }

    /// No two hint types share a tag.
    pub proof fn lemma_tags_distinct(a: HintType, b: HintType)
        ensures
            a.spec_tag() == b.spec_tag() ==> a == b,
    {
        reveal_strlit("l1-block-header");
        reveal_strlit("l1-transactions");
        reveal_strlit("l1-receipts");
        reveal_strlit("l1-blob");
        reveal_strlit("l1-precompile");
        reveal_strlit("l2-block-header");
        reveal_strlit("l2-transactions");
        reveal_strlit("l2-receipts");
        reveal_strlit("l2-code");
        reveal_strlit("starting-l2-output");
        reveal_strlit("l2-state-node");
        reveal_strlit("l2-account-proof");
        reveal_strlit("l2-account-storage-proof");
        reveal_strlit("l2-payload-witness");
        if a.spec_tag() == b.spec_tag() {
            assert(a.spec_tag().len() == b.spec_tag().len());
            assert(a.spec_tag()[1] == b.spec_tag()[1]);
            assert(a.spec_tag()[3] == b.spec_tag()[3]);
            assert(a.spec_tag()[4] == b.spec_tag()[4]);
        }
    }

    /// No tag holds a space.
    pub proof fn lemma_tag_has_no_space(ty: HintType)
        ensures
            forall|j: int| 0 <= j < ty.spec_tag().len() ==> ty.spec_tag()[j] != ' ',
    {
        reveal_strlit("l1-block-header");
        reveal_strlit("l1-transactions");
        reveal_strlit("l1-receipts");
        reveal_strlit("l1-blob");
        reveal_strlit("l1-precompile");
        reveal_strlit("l2-block-header");
        reveal_strlit("l2-transactions");
        reveal_strlit("l2-receipts");
        reveal_strlit("l2-code");
        reveal_strlit("starting-l2-output");
        reveal_strlit("l2-state-node");
        reveal_strlit("l2-account-proof");
        reveal_strlit("l2-account-storage-proof");
        reveal_strlit("l2-payload-witness");
    }

    /// A tag names the hint type it belongs to.
    pub proof fn lemma_tag_round_trip(ty: HintType)
        ensures
            HintType::spec_from_tag(ty.spec_tag()) == Some(ty),
    {
        let tag = ty.spec_tag();
        assert(ty.spec_tag() == tag);
        let found = choose|other: HintType| #[trigger] other.spec_tag() == tag;
        HintType::lemma_tags_distinct(found, ty);
    }

    /// The hint type that a tag names, if any.
    pub fn from_tag(tag: &str) -> (r: Option<HintType>)
        ensures
            r == HintType::spec_from_tag(tag@),
    {
        let mut i: usize = 0;
        while i < 14
            invariant
                i <= 14,
                forall|ty: HintType| (#[trigger] ty.ordinal()) < i ==> ty.spec_tag() != tag@,
            decreases 14 - i,
        {
            let candidate = HintType::nth(i);
            if str_eq(candidate.tag(), tag) {
                proof {
                    assert forall|other: HintType| #[trigger]
                        other.spec_tag() == tag@ implies other == candidate by {
                        HintType::lemma_tags_distinct(other, candidate);
                    }
                }
                return Some(candidate);
            }
            i = i + 1;
        }
        assert forall|ty: HintType| #[trigger] ty.spec_tag() != tag@ by {
            assert(ty.ordinal() < 14);
        }
        None
    }
}

/// The text holds exactly one space, and it stands at position `i`.
pub open spec fn splits_at(s: Seq<char>, i: int) -> bool {
    &&& 0 <= i < s.len()
    &&& s[i] == ' '
    &&& forall|j: int| 0 <= j < s.len() && j != i ==> #[trigger] s[j] != ' '
}

/// What a hint string denotes: a type tag, one space and a hexadecimal
/// payload give a hint; anything else gives the error that names the first
/// part at fault.
pub open spec fn spec_parse_hint(s: Seq<char>) -> Result<(HintType, Seq<u8>), HintParsingError> {
    if !exists|i: int| splits_at(s, i) {
        Err(HintParsingError::InvalidFormat)
    } else {
        let i = choose|i: int| splits_at(s, i);
        match HintType::spec_from_tag(s.take(i)) {
            None => Err(HintParsingError::UnknownHintType),
            Some(ty) => match hex_decoded(s.skip(i + 1)) {
                None => Err(HintParsingError::InvalidHex),
                Some(data) => Ok((ty, data)),
            },
        }
    }
}

/// What a hint looks like on the wire.
pub open spec fn spec_encode_hint(hint: (HintType, Seq<u8>)) -> Seq<char> {
    hint.0.spec_tag() + seq![' '] + hex_encoded(hint.1)
}

/// Parsing undoes encoding: the wire form of a hint parses, and gives the
/// hint back. So every hint that a client can send is one that the host
/// can read.
pub proof fn lemma_hint_round_trip(hint: (HintType, Seq<u8>))
    ensures
        spec_parse_hint(spec_encode_hint(hint)) == Ok::<(HintType, Seq<u8>), HintParsingError>(
            hint,
        ),
{
    let tag = hint.0.spec_tag();
    let text = hex_encoded(hint.1);
    let wire = spec_encode_hint(hint);
    let at = tag.len() as int;
    HintType::lemma_tag_has_no_space(hint.0);
    HintType::lemma_tag_round_trip(hint.0);
    lemma_hex_round_trip(hint.1);
    assert(wire[at] == ' ');
    assert forall|j: int| 0 <= j < wire.len() && j != at implies #[trigger] wire[j] != ' ' by {
        if j < at {
            assert(wire[j] == tag[j]);
        } else {
            assert(wire[j] == text[j - at - 1]);
        }
    }
    assert(splits_at(wire, at));
    let chosen = choose|i: int| splits_at(wire, i);
    assert(chosen == at) by {
        if chosen != at {
            assert(wire[at] != ' ');
        }
    }
    assert(wire.take(at) =~= tag);
    assert(wire.skip(at + 1) =~= text);
}

/// The position of the only space of a text, if it holds exactly one.
fn find_separator(s: &str) -> (r: Option<usize>)
    ensures
        r matches Some(i) ==> splits_at(s@, i as int),
        r is None ==> !exists|i: int| splits_at(s@, i),
{
    let n = s.unicode_len();
    let mut first: Option<usize> = None;
    let mut i: usize = 0;
    for c in it: s.chars()
        invariant
            it.seq() == s@,
            i == it.index(),
            n == s@.len(),
            match first {
                None => forall|j: int| 0 <= j < i ==> #[trigger] s@[j] != ' ',
                Some(p) => {
                    &&& p < i
                    &&& s@[p as int] == ' '
                    &&& forall|j: int| 0 <= j < i && j != p ==> #[trigger] s@[j] != ' '
                },
            },
    {
        if c == ' ' {
            match first {
                None => {
                    first = Some(i);
                },
                Some(p) => {
                    assert forall|k: int| !splits_at(s@, k) by {
                        if splits_at(s@, k) {
                            if k == p as int {
                                assert(s@[i as int] != ' ');
                            } else {
                                assert(s@[p as int] != ' ');
                            }
                        }
                    }
                    return None;
                },
            }
        }
        i = i + 1;
    }
    match first {
        None => {
            assert forall|k: int| !splits_at(s@, k) by {
                if splits_at(s@, k) {
                    assert(s@[k] != ' ');
                }
            }
            None
        },
        Some(p) => Some(p),
    }
}

impl Hint {
    /// Parses a hint from its wire form.
    pub fn parse(s: &str) -> (r: Result<Hint, HintParsingError>)
        ensures
            match spec_parse_hint(s@) {
                Ok(parsed) => r matches Ok(hint) && hint@ == parsed,
                Err(e) => r == Err::<Hint, HintParsingError>(e),
            },
    {
        let n = s.unicode_len();
        match find_separator(s) {
            None => Err(HintParsingError::InvalidFormat),
            Some(i) => {
                proof {
                    let k = choose|k: int| splits_at(s@, k);
                    assert(s@[k] == ' ');
                    assert(k == i);
                }
                let tag = s.substring_char(0, i);
                let payload = s.substring_char(i + 1, n);
                assert(tag@ == s@.take(i as int));
                assert(payload@ == s@.skip(i + 1));
                match HintType::from_tag(tag) {
                    None => Err(HintParsingError::UnknownHintType),
                    Some(ty) => match hex_decode(payload) {
                        None => Err(HintParsingError::InvalidHex),
                        Some(data) => Ok(Hint { ty, data }),
                    },
                }
            },
        }
    }

    /// The wire form of this hint.
    pub fn encode(&self) -> (r: String)
        ensures
            r@ == spec_encode_hint(self@),
    {
        proof {
            reveal_strlit(" ");
            assert(" "@ =~= seq![' ']);
        }
        let mut out = String::from_str(self.ty.tag());
        out.append(" ");
        let digits = hex_encode(self.data.as_slice());
        out.append(digits.as_str());
        out
    }
}

impl core::str::FromStr for Hint {
    type Err = HintParsingError;

    /// Parses a hint from its wire form, as `Hint::parse` does.
    fn from_str(s: &str) -> (r: Result<Self, Self::Err>)
        ensures
            match spec_parse_hint(s@) {
                Ok(parsed) => r matches Ok(hint) && hint@ == parsed,
                Err(e) => r == Err::<Hint, HintParsingError>(e),
            },
    {
        Hint::parse(s)
    }
}

impl HintType {
    /// The hint of this type whose payload is the given parts, one after
    /// the other.
    pub fn with_data(self, parts: &[&[u8]]) -> (r: Hint)
        ensures
            r.ty == self,
            r.data@ == concat_parts(parts@),
    {
        let mut data: Vec<u8> = Vec::new();
        let mut i: usize = 0;
        while i < parts.len()
            invariant
                i <= parts@.len(),
                data@ == concat_parts(parts@.take(i as int)),
            decreases parts@.len() - i,
        {
            let part = parts[i];
            let ghost before = data@;
            let mut j: usize = 0;
            while j < part.len()
                invariant
                    j <= part@.len(),
                    data@ == before + part@.take(j as int),
                decreases part@.len() - j,
            {
                data.push(part[j]);
                assert(part@.take(j + 1) =~= part@.take(j as int).push(part@[j as int]));
                j = j + 1;
            }
            proof {
                assert(part@.take(part@.len() as int) =~= part@);
                assert(parts@.take(i + 1).drop_last() =~= parts@.take(i as int));
                assert(parts@.take(i + 1).last() == parts@[i as int]);
            }
            i = i + 1;
        }
        assert(parts@.take(parts@.len() as int) =~= parts@);
        Hint { ty: self, data }
    }
}

/// The bytes of all parts, one part after the other.
pub open spec fn concat_parts(parts: Seq<&[u8]>) -> Seq<u8>
    decreases parts.len(),
{
    if parts.len() == 0 {
        Seq::empty()
    } else {
        concat_parts(parts.drop_last()) + parts.last()@
    }
}

} // verus!
