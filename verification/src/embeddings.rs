//! A deterministic stand-in for a text embedding model.

use vstd::prelude::*;

verus! {

/// An embedder that derives a vector from a hash of the text. Equal texts
/// give equal vectors.
#[derive(Clone, Copy, Debug, PartialEq, Eq, Structural)]
pub struct StubTextEmbedder {
    /// The number of components of a vector.
    pub dimension: usize,
}

/// The hash of a text: over its bytes, `31 h + byte` in 64 bits.
pub open spec fn text_hash(bytes: Seq<u8>) -> u64
    decreases bytes.len(),
{
    if bytes.len() == 0 {
        0
    } else {
        ((text_hash(bytes.drop_last()) * 31 + bytes.last()) % 0x1_0000_0000_0000_0000) as u64
    }
}

/// The seed after `seed` in the linear congruential sequence.
pub open spec fn next_seed(seed: u64) -> u64 {
    ((seed * 1103515245 + 12345) % 0x1_0000_0000_0000_0000) as u64
}

/// The seed after `steps` steps from `seed`.
pub open spec fn seed_after(seed: u64, steps: nat) -> u64
    decreases steps,
{
    if steps == 0 {
        seed
    } else {
        next_seed(seed_after(seed, (steps - 1) as nat))
    }
}

/// The component that a seed gives, in 32768ths: bits 16 to 30 of the seed.
pub open spec fn component_of(seed: u64) -> u16 {
    ((seed / 65536) % 32768) as u16
}

impl StubTextEmbedder {
    /// An embedder of vectors with `dimension` components.
    pub fn new(dimension: usize) -> (embedder: Self)
        ensures
            embedder.dimension == dimension,
    {
        StubTextEmbedder { dimension }
    }

    /// The vector of a text. Each component is a number of 32768ths, below
    /// 32768, so that it stands for a number in `[0, 1)`; component `i`
    /// comes from the seed `i + 1` steps after the hash of the text.
    pub fn embed(&self, text: &str) -> (vector: Vec<u16>)
        ensures
            vector@.len() == self.dimension,
            forall|i: int|
                0 <= i < self.dimension ==> (#[trigger] vector@[i]) == component_of(
                    seed_after(text_hash(vstd::utf8::encode_utf8(text@)), (i + 1) as nat),
                ),
            forall|i: int| 0 <= i < self.dimension ==> (#[trigger] vector@[i]) < 32768,
    {
        let bytes = text.as_bytes();
        let mut hash: u64 = 0;
        let mut b: usize = 0;
        assert(bytes@.take(0) =~= Seq::<u8>::empty());
        while b < bytes.len()
            invariant
                b <= bytes.len(),
                hash == text_hash(bytes@.take(b as int)),
            decreases bytes.len() - b,
        {
            proof {
                assert(bytes@.take(b + 1).drop_last() =~= bytes@.take(b as int));
            }
            hash = ((hash as u128 * 31 + bytes[b] as u128) % 0x1_0000_0000_0000_0000) as u64;
            b += 1;
        }
        assert(bytes@.take(b as int) =~= bytes@);
        let mut vector: Vec<u16> = Vec::new();
        let mut seed: u64 = hash;
        let mut i: usize = 0;
        while i < self.dimension
            invariant
                i <= self.dimension,
                vector@.len() == i,
                seed == seed_after(hash, i as nat),
                forall|j: int|
                    0 <= j < i ==> (#[trigger] vector@[j]) == component_of(
                        seed_after(hash, (j + 1) as nat),
                    ),
            decreases self.dimension - i,
        {
            seed = ((seed as u128 * 1103515245 + 12345) % 0x1_0000_0000_0000_0000) as u64;
            vector.push(((seed / 65536) % 32768) as u16);
            i += 1;
        }
        vector
    }
}

impl Default for StubTextEmbedder {
    /// An embedder of vectors with 384 components.
    fn default() -> (embedder: Self)
        ensures
            embedder.dimension == 384,
    {
        StubTextEmbedder { dimension: 384 }
    }
}

} // verus!
