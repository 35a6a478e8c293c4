//! Chain identifiers: a Cairo short string packed big-endian into a field element.
//!
//! A chain id is held as the 32 big-endian bytes of its field element.
use vstd::prelude::*;

verus! {

/// Number of bytes in the big-endian form of a field element.
pub const FELT_BYTES: usize = 32;

/// Longest Cairo short string: what fits below the field modulus.
pub const MAX_SHORT_STRING_LEN: usize = 31;

/// A character that a Cairo short string may hold: ASCII.
pub open spec fn is_ascii_char(c: char) -> bool {
    (c as u32) < 128
}

/// A text that packs into a field element: ASCII, and at most 31 characters long.
pub open spec fn is_short_string(s: Seq<char>) -> bool {
    &&& s.len() <= MAX_SHORT_STRING_LEN
    &&& forall|i: int| 0 <= i < s.len() ==> is_ascii_char(#[trigger] s[i])
}

/// The 32 big-endian bytes of the field element that packs `s`: zeros, then one
/// byte per character.
pub open spec fn packed(s: Seq<char>) -> Seq<u8> {
    Seq::new(
        FELT_BYTES as nat,
        |i: int|
            if i < FELT_BYTES - s.len() {
                0u8
            } else {
                (s[i - (FELT_BYTES - s.len())] as u32) as u8
            },
    )
}

/// A text that a field element unpacks to: at most 31 characters, each a
/// non-zero byte.
pub open spec fn is_unpacked_text(s: Seq<char>) -> bool {
    &&& s.len() <= MAX_SHORT_STRING_LEN
    &&& forall|i: int| 0 <= i < s.len() ==> 0 < (#[trigger] s[i] as u32) < 256
}

/// The field element with bytes `b` reads back as text `s`.
pub open spec fn unpacks_to(b: Seq<u8>, s: Seq<char>) -> bool {
    is_unpacked_text(s) && packed(s) == b
}

/// Some text is what the field element with bytes `b` reads back as.
pub open spec fn has_text(b: Seq<u8>) -> bool {
    exists|s: Seq<char>| unpacks_to(b, s)
}

/// The bytes of a packed Cairo short string: 32 of them, the first zero, each
/// one ASCII.
pub open spec fn chain_id_wf(b: Seq<u8>) -> bool {
    &&& b.len() == FELT_BYTES
    &&& b[0] == 0
    &&& forall|i: int| 0 <= i < b.len() ==> #[trigger] b[i] < 128
}

/// Relies on `starknet_core::utils::cairo_short_string_to_felt`: it refuses text
/// that is not ASCII or longer than 31 bytes, and otherwise places the bytes at the
/// end of a zeroed 32-byte big-endian buffer (`FieldElement::to_bytes_be` gives
/// that buffer back, as its value is below the modulus).
#[verifier::external_body]
fn short_string_to_felt_bytes(s: &str) -> (r: Option<Vec<u8>>)
    ensures
        r is Some <==> is_short_string(s@),
        r matches Some(b) ==> b@ == packed(s@),
{
    match starknet_core::utils::cairo_short_string_to_felt(s) {
        Ok(felt) => Some(felt.to_bytes_be().to_vec()),
        Err(_) => None,
    }
}

/// Relies on `starknet_core::utils::parse_cairo_short_string`, applied to the field
/// element built by `FieldElement::from_bytes_be` from `b` (with a leading zero
/// byte the value is below the modulus, so that call succeeds). The zero element
/// reads as the empty text; otherwise the leading zero bytes are skipped, a zero
/// byte after them is refused, and each remaining byte becomes one character.
#[verifier::external_body]
fn felt_bytes_to_short_string(b: &Vec<u8>) -> (r: Option<String>)
    requires
        b@.len() == FELT_BYTES,
        b@[0] == 0,
    ensures
        r is Some <==> has_text(b@),
        r matches Some(s) ==> unpacks_to(b@, s@),
{
    let mut buffer = [0u8; 32];
    buffer.copy_from_slice(b.as_slice());
    let felt = starknet_core::types::FieldElement::from_bytes_be(&buffer).unwrap();
    starknet_core::utils::parse_cairo_short_string(&felt).ok()
}

/// A chain identifier, held as the big-endian bytes of its field element.
#[derive(Debug, PartialEq, Eq)]
pub struct ChainId {
    bytes: Vec<u8>,
}

impl View for ChainId {
    type V = Seq<u8>;

    closed spec fn view(&self) -> Seq<u8> {
        self.bytes@
    }
}

impl ChainId {
    /// Every chain id is the packing of a Cairo short string.
    pub open spec fn wf(&self) -> bool {
        chain_id_wf(self@)
    }

    /// Packs a chain id text; `None` where the text is not a Cairo short string.
    pub fn from_short_string(s: &str) -> (r: Option<ChainId>)
        ensures
            r is Some <==> is_short_string(s@),
            r matches Some(c) ==> c.wf() && c@ == packed(s@),
    {
        match short_string_to_felt_bytes(s) {
            Some(bytes) => {
                assert(bytes@[0] == packed(s@)[0]);
                assert forall|i: int| 0 <= i < bytes@.len() implies #[trigger] bytes@[i] < 128 by {
                    if i >= FELT_BYTES - s@.len() {
                        assert(is_ascii_char(s@[i - (FELT_BYTES - s@.len())]));
                    }
                }
                Some(ChainId { bytes })
            },
            None => None,
        }
    }

    /// The text of a chain id; `None` where its value reads back as no text.
    pub fn to_short_string(&self) -> (r: Option<String>)
        requires
            self.wf(),
        ensures
            r is Some <==> has_text(self@),
            r matches Some(s) ==> unpacks_to(self@, s@),
    {
        felt_bytes_to_short_string(&self.bytes)
    }

    /// The big-endian bytes of this chain id's field element.
    pub fn as_bytes(&self) -> (r: &Vec<u8>)
        ensures
            r@ == self@,
    {
        &self.bytes
    }

    /// A copy of this chain id.
    pub fn copy(&self) -> (r: ChainId)
        ensures
            r@ == self@,
    {
        ChainId { bytes: self.bytes.clone() }
    }

    /// Whether two chain ids stand for one field element.
    pub fn same_as(&self, other: &ChainId) -> (r: bool)
        ensures
            r == (self@ == other@),
    {
        if self.bytes.len() != other.bytes.len() {
            return false;
        }
        let mut i: usize = 0;
        while i < self.bytes.len()
            invariant
                self@.len() == other@.len(),
                0 <= i <= self@.len(),
                forall|j: int| 0 <= j < i ==> self@[j] == other@[j],
            decreases self@.len() - i,
        {
            if self.bytes[i] != other.bytes[i] {
                return false;
            }
            i = i + 1;
        }
        assert(self@ =~= other@);
        true
    }
}

/// A chain id value that reads back as a text packs again, from that text, to the
/// same value: text to value after value to text is the identity. A value whose
/// bytes are ASCII reads back only as an ASCII text.
pub proof fn lemma_chain_id_round_trip(v: Seq<u8>, s: Seq<char>)
    requires
        chain_id_wf(v),
        unpacks_to(v, s),
    ensures
        is_short_string(s),
        packed(s) == v,
{
    assert forall|i: int| 0 <= i < s.len() implies is_ascii_char(#[trigger] s[i]) by {
        let p = FELT_BYTES - s.len() + i;
        assert(packed(s)[p] == v[p]);
    }
}

} // verus!
