use vstd::prelude::*;

verus! {

/// Number of bits held by one storage word.
pub const WORD_BITS: usize = 64;

/// Bytes of one storage word.
pub const WORD_BYTES: usize = 8;

/// Bytes taken by the bitset value itself, apart from its words.
pub const BITSET_OVERHEAD: usize = 24;

/// Whether bit `b` (0..64) of the word `w` is on.
pub open spec fn word_bit(w: u64, b: u64) -> bool {
    (w >> b) & 1u64 == 1u64
}

/// The set of on bits after `set(i, v)` on a bitset whose on bits were `s`.
pub open spec fn apply_set(s: Set<int>, i: int, v: bool) -> Set<int> {
    if v {
        s.insert(i)
    } else {
        s.remove(i)
    }
}

/// The on bits after a run of `set` calls, each an (index, value) pair, starting from `s`.
pub open spec fn apply_sets(s: Set<int>, ops: Seq<(usize, bool)>) -> Set<int>
    decreases ops.len(),
{
    if ops.len() == 0 {
        s
    } else {
        apply_set(apply_sets(s, ops.drop_last()), ops.last().0 as int, ops.last().1)
    }
}

/// The value that the last pair of `ops` with index `i` carries, or `false` where none has it.
pub open spec fn last_set_value(ops: Seq<(usize, bool)>, i: int) -> bool
    decreases ops.len(),
{
    if ops.len() == 0 {
        false
    } else if ops.last().0 as int == i {
        ops.last().1
    } else {
        last_set_value(ops.drop_last(), i)
    }
}

proof fn lemma_bit_or(w: u64, b: u64, j: u64)
    requires
        b < 64,
        j < 64,
    ensures
        word_bit(w | (1u64 << b), j) == (j == b || word_bit(w, j)),
{
    assert(((w | (1u64 << b)) >> j) & 1u64 == 1u64 <==> (j == b || (w >> j) & 1u64 == 1u64))
        by (bit_vector)
        requires
            b < 64,
            j < 64,
    ;
}

proof fn lemma_bit_and_not(w: u64, b: u64, j: u64)
    requires
        b < 64,
        j < 64,
    ensures
        word_bit(w & !(1u64 << b), j) == (j != b && word_bit(w, j)),
{
    assert(((w & !(1u64 << b)) >> j) & 1u64 == 1u64 <==> (j != b && (w >> j) & 1u64 == 1u64))
        by (bit_vector)
        requires
            b < 64,
            j < 64,
    ;
}

proof fn lemma_bit_test(w: u64, b: u64)
    requires
        b < 64,
    ensures
        (w & (1u64 << b) != 0) == word_bit(w, b),
{
    assert((w & (1u64 << b) != 0) <==> (w >> b) & 1u64 == 1u64) by (bit_vector)
        requires
            b < 64,
    ;
}

proof fn lemma_zero_word(j: u64)
    ensures
        !word_bit(0u64, j),
{
    assert((0u64 >> j) & 1u64 != 1u64) by (bit_vector);
}

/// A growable set of bit flags, kept in 64-bit words.
#[derive(Debug)]
pub struct BitSet {
    words: Vec<u64>,
}

impl View for BitSet {
    type V = Set<int>;

    /// The indices whose bit is on.
    open spec fn view(&self) -> Set<int> {
        Set::new(|i: int| self.has(i))
    }
}

impl BitSet {
    /// Whether bit `i` is on; a bit beyond the allocated words is off.
    pub closed spec fn has(&self, i: int) -> bool {
        0 <= i && i / 64 < self.words@.len() && word_bit(
            self.words@[i / 64],
            (i % 64) as u64,
        )
    }

    /// How many storage words are allocated.
    pub closed spec fn word_count(&self) -> nat {
        self.words@.len()
    }

    /// An empty bitset with no storage.
    pub fn new() -> (r: Self)
        ensures
            r@ == Set::<int>::empty(),
            r.word_count() == 0,
    {
        let r = BitSet { words: Vec::new() };
        assert(r@ =~= Set::<int>::empty());
        r
    }

    /// An empty bitset; `len` is a hint of how many bits will be used.
    pub fn with_capacity(len: usize) -> (r: Self)
        ensures
            r@ == Set::<int>::empty(),
            r.word_count() == 0,
    {
        let r = BitSet { words: Vec::with_capacity(len / WORD_BITS) };
        assert(r@ =~= Set::<int>::empty());
        r
    }

    /// Turns bit `idx` on or off, first growing the storage to the word that holds it.
    pub fn set(&mut self, idx: usize, val: bool)
        ensures
            final(self)@ == apply_set(old(self)@, idx as int, val),
            final(self).word_count() == if (idx / 64) < old(self).word_count() {
                old(self).word_count()
            } else {
                (idx / 64 + 1) as nat
            },
    {
        let word = idx / WORD_BITS;
        let bit = (idx % WORD_BITS) as u64;
        let ghost before = self.words@;
        while self.words.len() <= word
            invariant
                word == idx / 64,
                before.len() <= self.words@.len() <= if word < before.len() {
                    before.len()
                } else {
                    (word + 1) as nat
                },
                self.words@.subrange(0, before.len() as int) == before,
                forall|k: int| before.len() <= k < self.words@.len() ==> self.words@[k] == 0,
            decreases word + 1 - self.words@.len(),
        {
            self.words.push(0);
        }
        let w = self.words[word];
        let nw = if val {
            w | (1u64 << bit)
        } else {
            w & !(1u64 << bit)
        };
        self.words.set(word, nw);
        proof {
            assert forall|i: int| #![auto]
                self.has(i) == apply_set(old(self)@, idx as int, val).contains(i) by {
                if 0 <= i && i / 64 < self.words@.len() {
                    let j = (i % 64) as u64;
                    if i / 64 == word as int {
                        if val {
                            lemma_bit_or(w, bit, j);
                        } else {
                            lemma_bit_and_not(w, bit, j);
                        }
                        if i / 64 >= before.len() {
                            lemma_zero_word(j);
                        }
                    } else if i / 64 >= before.len() {
                        lemma_zero_word(j);
                    } else {
                        assert(self.words@[i / 64] == before[i / 64]);
                    }
                }
            }
            assert(self@ =~= apply_set(old(self)@, idx as int, val));
        }
    }

    /// Whether bit `idx` is on; false for any index beyond the storage.
    pub fn get(&self, idx: usize) -> (r: bool)
        ensures
            r == self@.contains(idx as int),
            idx / 64 >= self.word_count() ==> !r,
    {
        let word = idx / WORD_BITS;
        let bit = (idx % WORD_BITS) as u64;
        if word >= self.words.len() {
            return false;
        }
        proof {
            lemma_bit_test(self.words@[word as int], bit);
        }
        self.words[word] & (1u64 << bit) != 0
    }

    /// Memory held by the bitset: a fixed overhead plus the bytes of its words.
    pub fn sizeof(&self) -> (r: usize)
        requires
            BITSET_OVERHEAD + self.word_count() * WORD_BYTES <= usize::MAX,
        ensures
            r == BITSET_OVERHEAD + self.word_count() * WORD_BYTES,
    {
        BITSET_OVERHEAD + self.words.len() * WORD_BYTES
    }

    /// Turns every bit off, keeping the storage.
    pub fn clear(&mut self)
        ensures
            final(self)@ == Set::<int>::empty(),
            final(self).word_count() == old(self).word_count(),
    {
        let n = self.words.len();
        let mut k: usize = 0;
        while k < n
            invariant
                n == self.words@.len(),
                k <= n,
                forall|m: int| 0 <= m < k ==> self.words@[m] == 0,
            decreases n - k,
        {
            self.words.set(k, 0);
            k = k + 1;
        }
        proof {
            assert forall|i: int| !self.has(i) by {
                if 0 <= i && i / 64 < self.words@.len() {
                    lemma_zero_word((i % 64) as u64);
                }
            }
            assert(self@ =~= Set::<int>::empty());
        }
    }
}

/// Only bits within the allocated words can be on.
pub proof fn lemma_on_bits_in_words(b: BitSet, i: int)
    ensures
        b@.contains(i) ==> 0 <= i && i / 64 < b.word_count(),
{
}

/// After any run of `set` calls on a new or cleared bitset, a bit is on exactly when the last
/// call that named its index turned it on; a bit never named is off.
pub proof fn lemma_last_set_wins(ops: Seq<(usize, bool)>, i: int)
    ensures
        apply_sets(Set::<int>::empty(), ops).contains(i) == last_set_value(ops, i),
    decreases ops.len(),
{
    if ops.len() > 0 {
        lemma_last_set_wins(ops.drop_last(), i);
    }
}

} // verus!
