//! What a submitted price update resolves to.
//!
//! Building, signing and broadcasting the transaction happen outside the
//! library; the cycle sees the outcome as plain values: a failure reason, or
//! a receipt once the transaction is included.

use vstd::prelude::*;

use crate::convert::ScaledPriceSet;

verus! {

/// Why a submission failed before or at inclusion.
#[derive(Clone, Copy, Debug, PartialEq, Eq, Structural)]
pub enum SubmissionError {
    /// The call could not be built (for one, a bad destination address).
    Build,
    /// The signing capability refused or was unavailable.
    Sign,
    /// The network rejected the broadcast.
    Broadcast,
    /// The transaction was included but its execution reverted.
    Reverted,
}

/// The confirmation artifact of one included transaction.
#[derive(Clone, Copy, Debug, PartialEq, Eq)]
pub struct Receipt {
    /// The transaction's hash.
    pub tx_hash: [u8; 32],
    /// The block that included the transaction.
    pub block_number: u64,
    /// Whether the transaction's execution succeeded. A receipt with this
    /// flag cleared proves inclusion of a reverted, failed update.
    pub success: bool,
}

/// Byte `j` (from the most significant end) of the big-endian form of `v`.
pub open spec fn be_byte(v: u64, j: int) -> u8 {
    (v >> ((7 - j) * 8)) as u8
}

/// A 32-byte call-argument word: 24 bytes of padding, then the value's eight
/// big-endian bytes.
pub open spec fn be_word(v: u64) -> Seq<u8> {
    Seq::new(32, |j: int| if j < 24 {
        0u8
    } else {
        be_byte(v, j - 24)
    })
}

/// Law: a call-argument word determines its value: reading the eight
/// big-endian bytes back gives the number that was encoded.
pub proof fn lemma_be_word_faithful(v: u64)
    ensures
        v == ((be_byte(v, 0) as u64) << 56) | ((be_byte(v, 1) as u64) << 48) | ((be_byte(
            v,
            2,
        ) as u64) << 40) | ((be_byte(v, 3) as u64) << 32) | ((be_byte(v, 4) as u64) << 24) | ((
        be_byte(v, 5) as u64) << 16) | ((be_byte(v, 6) as u64) << 8) | (be_byte(v, 7) as u64),
{
    assert(v == ((((v >> 56) as u8) as u64) << 56) | ((((v >> 48) as u8) as u64) << 48) | ((((v
        >> 40) as u8) as u64) << 40) | ((((v >> 32) as u8) as u64) << 32) | ((((v >> 24) as u8)
        as u64) << 24) | ((((v >> 16) as u8) as u64) << 16) | ((((v >> 8) as u8) as u64) << 8) | ((
    (v >> 0) as u8) as u64)) by (bit_vector);
}

/// Appends the 32-byte call-argument word of `v`.
fn push_be_word(out: &mut Vec<u8>, v: u64)
    ensures
        final(out)@ == old(out)@ + be_word(v),
{
    let ghost base = out@;
    let mut k: usize = 0;
    while k < 24
        invariant
            k <= 24,
            out@.len() == base.len() + k,
            out@.subrange(0, base.len() as int) == base,
            forall|j: int| base.len() <= j < out@.len() ==> out@[j] == 0u8,
        decreases 24 - k,
    {
        out.push(0u8);
        proof {
            assert(out@.subrange(0, base.len() as int) =~= base);
        }
        k = k + 1;
    }
    out.push((v >> 56) as u8);
    out.push((v >> 48) as u8);
    out.push((v >> 40) as u8);
    out.push((v >> 32) as u8);
    out.push((v >> 24) as u8);
    out.push((v >> 16) as u8);
    out.push((v >> 8) as u8);
    out.push(v as u8);
    proof {
        assert(v as u8 == be_byte(v, 7)) by (bit_vector);
        assert(out@ =~= base + be_word(v));
    }
}

/// Builds the calldata of the destination's price-update entry point: the
/// four-byte selector of that entry point, then the three scaled prices as
/// 32-byte big-endian words in the fixed order USD, EUR, BTC.
pub fn encode_update_call(selector: &[u8], p: &ScaledPriceSet) -> (r: Vec<u8>)
    requires
        selector@.len() == 4,
    ensures
        r@ == selector@ + be_word(p.usd) + be_word(p.eur) + be_word(p.btc),
        r@.len() == 100,
{
    let mut out: Vec<u8> = Vec::new();
    out.push(selector[0]);
    out.push(selector[1]);
    out.push(selector[2]);
    out.push(selector[3]);
    proof {
        assert(out@ =~= selector@);
    }
    push_be_word(&mut out, p.usd);
    push_be_word(&mut out, p.eur);
    push_be_word(&mut out, p.btc);
    out
}

} // verus!
