use vstd::prelude::*;
use crate::murmur::{murmur3, murmur3_32};

verus! {

/// The number of 64-bit words in a filter: 2^32 bits, one for each value of
/// a 32-bit hash.
pub const FILTER_WORDS: usize = 0x400_0000;

/// Whether bit `index` is set in `words`.
pub open spec fn bit_set(words: Seq<u64>, index: u32) -> bool {
    (words[(index >> 6u32) as int] >> ((index & 63u32) as u64)) & 1u64 == 1u64
}

/// The bit that `seed` gives `key`.
pub open spec fn key_bit(key: Seq<u8>, seed: u32) -> u32 {
    murmur3_32(key, seed)
}

/// The bits that `key` selects, one for each of `seeds`.
pub open spec fn selected_bits(seeds: Seq<u32>, key: Seq<u8>) -> Set<u32> {
    Set::new(|index: u32| exists|i: int| 0 <= i < seeds.len() && #[trigger] key_bit(key, seeds[i]) == index)
}

/// A probabilistic set of byte strings: 2^32 bits, and for each seed the bit
/// that the key's 32-bit MurmurHash3 with that seed selects. A key that was
/// added is always reported present; one that was not may be reported present
/// too.
pub struct BloomFilter {
    words: Vec<u64>,
    seeds: Vec<u32>,
}

impl BloomFilter {
    /// The filter's bits, 64 to a word.
    pub closed spec fn words(&self) -> Seq<u64> {
        self.words@
    }

    /// The seeds, one for each bit that marks a key.
    pub closed spec fn seeds(&self) -> Seq<u32> {
        self.seeds@
    }

    /// The filter has room for every bit index.
    pub closed spec fn well_formed(&self) -> bool {
        self.words@.len() == FILTER_WORDS
    }

    /// Whether bit `index` of the filter is set.
    pub closed spec fn has_bit(&self, index: u32) -> bool {
        bit_set(self.words@, index)
    }

    /// The set bits of the filter.
    pub closed spec fn bits(&self) -> Set<u32> {
        Set::new(|index: u32| self.has_bit(index))
    }

    /// The filter reports `key` present: every bit that it selects is set.
    pub open spec fn reports(&self, key: Seq<u8>) -> bool {
        selected_bits(self.seeds(), key).subset_of(self.bits())
    }

    /// An empty filter whose keys select one bit for each of `seeds`.
    pub fn new(seeds: Vec<u32>) -> (filter: BloomFilter)
        ensures
            filter.well_formed(),
            filter.seeds() == seeds@,
            filter.bits() == Set::<u32>::empty(),
    {
        let words = vec![0u64; FILTER_WORDS];
        let filter = BloomFilter { words, seeds };
        assert forall|index: u32| !#[trigger] filter.has_bit(index) by {
            let w = (index >> 6u32) as int;
            assert(index >> 6u32 < 0x400_0000) by (bit_vector);
            assert(filter.words()[w] == 0u64);
            let s = (index & 63u32) as u64;
            assert((0u64 >> s) & 1u64 == 0u64) by (bit_vector);
        }
        assert(filter.bits() =~= Set::<u32>::empty());
        filter
    }

    proof fn lemma_set_bit(word: u64, k: u64, j: u64)
        requires
            k < 64,
            j < 64,
        ensures
            ((word | (1u64 << k)) >> j) & 1u64 == 1u64 <==> (j == k || (word >> j) & 1u64 == 1u64),
    {
        assert(((word | (1u64 << k)) >> j) & 1u64 == 1u64 <==> (j == k || (word >> j) & 1u64 == 1u64))
            by (bit_vector)
            requires
                k < 64,
                j < 64,
        ;
    }

    fn set_bit(&mut self, index: u32) -> (was_set: bool)
        requires
            old(self).well_formed(),
        ensures
            final(self).well_formed(),
            final(self).seeds() == old(self).seeds(),
            was_set == old(self).has_bit(index),
            forall|other: u32| #[trigger] final(self).has_bit(other) == (other == index || old(self).has_bit(other)),
    {
        let w = (index >> 6u32) as usize;
        let k = (index & 63u32) as u64;
        assert(index >> 6u32 < 0x400_0000) by (bit_vector);
        assert(k < 64) by (bit_vector)
            requires
                k == (index & 63u32) as u64,
        ;
        let word = self.words[w];
        let was_set = (word >> k) & 1u64 == 1u64;
        let ghost before = self.words@;
        self.words.set(w, word | (1u64 << k));
        assert forall|other: u32| #[trigger] self.has_bit(other) == (other == index || bit_set(before, other)) by {
            let ow = (other >> 6u32) as int;
            let ok = (other & 63u32) as u64;
            assert(other >> 6u32 < 0x400_0000) by (bit_vector);
            assert(ok < 64) by (bit_vector)
                requires
                    ok == (other & 63u32) as u64,
            ;
            if ow == w as int {
                BloomFilter::lemma_set_bit(word, k, ok);
                assert(other == index <==> ok == k) by (bit_vector)
                    requires
                        ok == (other & 63u32) as u64,
                        k == (index & 63u32) as u64,
                        (other >> 6u32) == (index >> 6u32),
                ;
            } else {
                assert(other != index);
            }
        }
        was_set
    }

    /// Reports whether `key` was present, then adds it: the answer is whether
    /// every bit that `key` selects was already set, and afterwards those bits
    /// are set, and no others beside the ones that were.
    pub fn contains_add(&mut self, key: &[u8]) -> (present: bool)
        requires
            old(self).well_formed(),
        ensures
            final(self).well_formed(),
            final(self).seeds() == old(self).seeds(),
            present == old(self).reports(key@),
            final(self).bits() == old(self).bits().union(selected_bits(old(self).seeds(), key@)),
    {
        let ghost start = *self;
        let mut present = true;
        let mut i: usize = 0;
        while i < self.seeds.len()
            invariant
                self.well_formed(),
                self.seeds() == start.seeds(),
                i <= self.seeds@.len(),
                present == (forall|j: int| 0 <= j < i ==> start.has_bit(#[trigger] key_bit(key@, start.seeds()[j]))),
                forall|index: u32| #[trigger] self.has_bit(index) == (start.has_bit(index) || exists|j: int| 0 <= j < i && #[trigger] key_bit(key@, start.seeds()[j]) == index),
            decreases self.seeds@.len() - i,
        {
            let seed = self.seeds[i];
            let index = murmur3(key, seed);
            let was_set = self.set_bit(index);
            proof {
                if present && was_set && !start.has_bit(index) {
                    let j = choose|j: int| 0 <= j < i && #[trigger] key_bit(key@, start.seeds()[j]) == index;
                    assert(start.has_bit(key_bit(key@, start.seeds()[j])));
                }
                assert(present && was_set <==> present && start.has_bit(key_bit(key@, start.seeds()[i as int])));
            }
            if !was_set {
                present = false;
            }
            assert forall|index2: u32| #[trigger] self.has_bit(index2) == (start.has_bit(index2) || exists|j: int| 0 <= j < i + 1 && #[trigger] key_bit(key@, start.seeds()[j]) == index2) by {
                if index2 == index {
                    assert(key_bit(key@, start.seeds()[i as int]) == index2);
                }
            }
            i += 1;
        }
        assert(self.bits() =~= start.bits().union(selected_bits(start.seeds(), key@)));
        assert(present == start.reports(key@)) by {
            if present {
                assert forall|b: u32| selected_bits(start.seeds(), key@).contains(b) implies start.bits().contains(b) by {
                    let j = choose|j: int| 0 <= j < start.seeds().len() && #[trigger] key_bit(key@, start.seeds()[j]) == b;
                }
            } else {
                let j = choose|j: int| 0 <= j < start.seeds().len() && !start.has_bit(#[trigger] key_bit(key@, start.seeds()[j]));
                assert(selected_bits(start.seeds(), key@).contains(key_bit(key@, start.seeds()[j])));
            }
        }
        present
    }
}

/// No false negatives: a key that was just added is reported present, and
/// adding a key never makes a key that was reported present absent.
pub proof fn lemma_no_false_negatives(before: BloomFilter, after: BloomFilter, key: Seq<u8>, other: Seq<u8>)
    requires
        after.seeds() == before.seeds(),
        after.bits() == before.bits().union(selected_bits(before.seeds(), key)),
    ensures
        after.reports(key),
        before.reports(other) ==> after.reports(other),
{
}

} // verus!
