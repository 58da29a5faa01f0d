//! Genome generation and genetic crossover.
//!
//! A genome is a fixed 16-byte payload. Fresh genomes are derived
//! deterministically from an external entropy seed together with the calling
//! account and the current block/extrinsic position, by hashing the
//! concatenation of those inputs with BLAKE2b-128. A child genome is a
//! bitwise multiplexing of its two parents' genomes under a random selector.

use vstd::prelude::*;

verus! {

use vstd::bytes::spec_u64_to_le_bytes;
use vstd::bytes::u64_to_le_bytes;

/// The 16-byte BLAKE2b-128 digest of a byte string, named abstractly: it is
/// a function of the input bytes alone.
pub uninterp spec fn blake2_128_of(data: Seq<u8>) -> Seq<u8>;

/// Relies on sp_crypto_hashing::blake2_128: the 16-byte BLAKE2b-128 digest
/// of the input, determined by the input bytes alone.
pub assume_specification[ sp_crypto_hashing::blake2_128 ](data: &[u8]) -> (r: [u8; 16])
    ensures
        r@ == blake2_128_of(data@),
;

/// The external inputs a genome derivation draws on: an entropy seed from
/// the random beacon, and the position (block height, extrinsic index) of
/// the call that requested it.
#[derive(Clone, Copy)]
pub struct EntropyContext {
    pub seed: [u8; 16],
    pub block_number: u64,
    pub extrinsic_index: u64,
}

/// The bytes a genome is derived from: the entropy seed, then the calling
/// account, block height and extrinsic index, each as 8 little-endian bytes.
pub open spec fn payload_bytes(ctx: EntropyContext, sender: u64) -> Seq<u8> {
    ctx.seed@ + spec_u64_to_le_bytes(sender) + spec_u64_to_le_bytes(ctx.block_number)
        + spec_u64_to_le_bytes(ctx.extrinsic_index)
}

/// Concatenate the derivation inputs into one byte string.
fn build_payload(ctx: &EntropyContext, sender: u64) -> (out: Vec<u8>)
    ensures
        out@ == payload_bytes(*ctx, sender),
{
    let mut out: Vec<u8> = Vec::new();
    let mut i: usize = 0;
    while i < 16
        invariant
            i <= 16,
            out@ == ctx.seed@.take(i as int),
        decreases 16 - i,
    {
        out.push(ctx.seed[i]);
        proof {
            assert(out@ =~= ctx.seed@.take(i + 1));
        }
        i += 1;
    }
    proof {
        assert(ctx.seed@.take(16) =~= ctx.seed@);
    }
    let mut sender_bytes = u64_to_le_bytes(sender);
    out.append(&mut sender_bytes);
    let mut block_bytes = u64_to_le_bytes(ctx.block_number);
    out.append(&mut block_bytes);
    let mut index_bytes = u64_to_le_bytes(ctx.extrinsic_index);
    out.append(&mut index_bytes);
    out
}

/// Derive a fresh 16-byte genome for `sender`: the BLAKE2b-128 digest of the
/// entropy seed concatenated with the sender and the call position. The
/// result is deterministic given those inputs, which makes replay auditable.
pub fn random_value(ctx: &EntropyContext, sender: u64) -> (r: [u8; 16])
    ensures
        r@ == blake2_128_of(payload_bytes(*ctx, sender)),
{
    let payload = build_payload(ctx, sender);
    sp_crypto_hashing::blake2_128(payload.as_slice())
}

/// A child byte takes each bit from the first parent where the selector
/// bit is set, and from the second parent where it is clear.
pub open spec fn crossover_byte(sel: u8, a: u8, b: u8) -> u8 {
    (sel & a) | (!sel & b)
}

/// Bytewise crossover of two equal-length genomes under a selector mask.
pub open spec fn crossover(sel: Seq<u8>, a: Seq<u8>, b: Seq<u8>) -> Seq<u8> {
    Seq::new(sel.len(), |i: int| crossover_byte(sel[i], a[i], b[i]))
}

/// Combine two parent genomes under a selector mask: each bit of the child
/// comes from the first parent where the selector bit is 1, else from the
/// second parent.
pub fn breed_dna(selector: &[u8; 16], dna1: &[u8; 16], dna2: &[u8; 16]) -> (child: [u8; 16])
    ensures
        child@ == crossover(selector@, dna1@, dna2@),
{
    let mut child: [u8; 16] = [0u8; 16];
    let mut i: usize = 0;
    while i < 16
        invariant
            i <= 16,
            forall|j: int| 0 <= j < i ==> child@[j] == crossover_byte(selector@[j], dna1@[j], dna2@[j]),
        decreases 16 - i,
    {
        child[i] = (selector[i] & dna1[i]) | (!selector[i] & dna2[i]);
        i += 1;
    }
    proof {
        assert(child@ =~= crossover(selector@, dna1@, dna2@));
    }
    child
}

} // verus!
