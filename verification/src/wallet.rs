//! Wallet identifiers: the canonical 32-byte big-endian form of a field
//! element, with the sentinel check and the canonical decimal string used
//! as the join key against completion records.

use vstd::arithmetic::power2::pow2;
use vstd::prelude::*;

verus! {

/// The value of a big-endian byte string.
pub open spec fn be_nat(s: Seq<u8>) -> nat
    decreases s.len(),
{
    if s.len() == 0 {
        0
    } else {
        be_nat(s.drop_last()) * 256 + (s.last() as nat)
    }
}

/// The modulus of the field from which wallet identifiers are drawn.
pub open spec fn field_modulus() -> nat {
    pow2(251) + 17 * pow2(192) + 1
}

/// Whether the identifier is the unset sentinel: the zero value.
pub open spec fn is_zero_id(s: Seq<u8>) -> bool {
    forall|i: int| 0 <= i < s.len() ==> s[i] == 0
}

/// The decimal digit string of the field element held in a canonical
/// 32-byte big-endian form.
pub uninterp spec fn decimal_of(bytes: Seq<u8>) -> Seq<char>;

/// A wallet identifier in its canonical 32-byte big-endian form.
pub struct WalletId {
    pub bytes: Vec<u8>,
}

impl View for WalletId {
    type V = Seq<u8>;

    open spec fn view(&self) -> Seq<u8> {
        self.bytes@
    }
}

impl WalletId {
    /// The canonical form is 32 bytes long and denotes a field element.
    pub open spec fn wf(&self) -> bool {
        self.bytes@.len() == 32 && be_nat(self.bytes@) < field_modulus()
    }

    /// Wrap the canonical byte form of a field element.
    pub fn from_bytes(bytes: Vec<u8>) -> (r: WalletId)
        requires
            bytes@.len() == 32,
            be_nat(bytes@) < field_modulus(),
        ensures
            r.wf(),
            r@ == bytes@,
    {
        WalletId { bytes }
    }

    /// Whether this identifier is the unset sentinel.
    pub fn is_unset(&self) -> (r: bool)
        ensures
            r == is_zero_id(self@),
    {
        let mut t: usize = 0;
        while t < self.bytes.len()
            invariant
                t <= self.bytes@.len(),
                forall|u: int| 0 <= u < t ==> self.bytes@[u] == 0,
            decreases self.bytes@.len() - t,
        {
            if self.bytes[t] != 0 {
                return false;
            }
            t += 1;
        }
        true
    }
}

/// Relies on starknet's `FieldElement`: `from_bytes_be` accepts every
/// canonical 32-byte big-endian form below the field modulus, and `Display`
/// writes the held value in decimal — a function of the bytes alone.
#[verifier::external_body]
pub(crate) fn canonical_string(bytes: &Vec<u8>) -> (r: String)
    requires
        bytes@.len() == 32,
        be_nat(bytes@) < field_modulus(),
    ensures
        r@ == decimal_of(bytes@),
{
    let mut buf = [0u8; 32];
    buf.copy_from_slice(bytes.as_slice());
    let element = starknet::core::types::FieldElement::from_bytes_be(&buf).unwrap();
    element.to_string()
}

} // verus!
