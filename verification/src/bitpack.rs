//! Fixed-length arrays of small unsigned integers, packed into 64-bit words.
//!
//! An array of `N` entries of `bits` bits each stores `64 / bits` entries in
//! every word, lowest bits first, so that no entry straddles two words.

use crate::error::Error;
use vstd::arithmetic::power2::pow2;
use vstd::prelude::*;

verus! {

/// The word with the low `bits` bits set.
pub open spec fn mask(bits: u64) -> u64 {
    if bits >= 64 {
        u64::MAX
    } else {
        ((1u64 << bits) - 1) as u64
    }
}

/// The `bits`-bit field of `word` that starts at bit `shift`.
pub open spec fn slot(word: u64, shift: u64, bits: u64) -> u64 {
    (word >> shift) & mask(bits)
}

/// `word` with the `bits`-bit field at `shift` replaced by the low bits of `value`.
pub open spec fn with_slot(word: u64, shift: u64, bits: u64, value: u64) -> u64 {
    (word & !(mask(bits) << shift)) | ((value & mask(bits)) << shift)
}

/// How many entries of `bits` bits one word holds.
pub open spec fn entries_per_word(bits: nat) -> nat {
    if bits == 0 {
        0
    } else {
        64nat / bits
    }
}

/// How many words `n` entries of `bits` bits take.
pub open spec fn word_count(n: nat, bits: nat) -> nat {
    if bits == 0 || bits > 64 {
        0
    } else {
        let per = entries_per_word(bits);
        n / per + if n % per == 0 { 0nat } else { 1nat }
    }
}

/// Entry `i` of the array that `words` encodes at `bits` bits per entry.
pub open spec fn unpack(words: Seq<u64>, bits: nat, i: int) -> u64 {
    if bits == 0 || bits > 64 {
        0
    } else {
        let per = entries_per_word(bits) as int;
        slot(words[i / per], ((i % per) * bits) as u64, bits as u64)
    }
}

/// The `n` entries that `words` encodes at `bits` bits per entry.
pub open spec fn unpack_all(words: Seq<u64>, bits: nat, n: nat) -> Seq<u64> {
    Seq::new(n, |i: int| unpack(words, bits, i))
}

/// How many of the low bits of word `w` hold entries, in an array of `n`
/// entries of `bits` bits: all the word's slots, or, in the last word, the
/// slots that are left.
pub open spec fn used_bits(n: nat, bits: nat, w: int) -> int {
    let per = entries_per_word(bits) as int;
    if n - w * per < per {
        (n - w * per) * bits
    } else {
        per * bits
    }
}

/// Whether every bit of `words` that holds no entry is zero.
pub open spec fn zero_padded(words: Seq<u64>, bits: nat, n: nat) -> bool {
    forall|w: int|
        0 <= w < words.len() ==> {
            let used = used_bits(n, bits, w);
            0 <= used < 64 ==> (#[trigger] words[w]) >> (used as u64) == 0
        }
}

proof fn lemma_padding_kept(word: u64, shift: u64, bits: u64, value: u64, used: u64)
    by (bit_vector)
    requires
        0 < bits <= 64,
        shift + bits <= used,
        used < 64,
        word >> used == 0,
    ensures
        with_slot(word, shift, bits, value) >> used == 0,
{
}

proof fn lemma_zero_shifted(used: u64)
    by (bit_vector)
    requires
        used < 64,
    ensures
        0u64 >> used == 0,
{
}

proof fn lemma_mask_shift(bits: u64)
    by (bit_vector)
    requires
        bits < 64,
    ensures
        (1u64 << bits) >= 1,
{
}

proof fn lemma_slot_written(word: u64, shift: u64, bits: u64, value: u64)
    by (bit_vector)
    requires
        0 < bits <= 64,
        shift + bits <= 64,
    ensures
        slot(with_slot(word, shift, bits, value), shift, bits) == value & mask(bits),
{
}

proof fn lemma_slot_kept(word: u64, shift: u64, bits: u64, value: u64, other: u64)
    by (bit_vector)
    requires
        0 < bits <= 64,
        shift + bits <= 64,
        other + bits <= 64,
        shift + bits <= other || other + bits <= shift,
    ensures
        slot(with_slot(word, shift, bits, value), other, bits) == slot(word, other, bits),
{
}

proof fn lemma_slot_of_zero(shift: u64, bits: u64)
    by (bit_vector)
    requires
        shift < 64,
    ensures
        slot(0, shift, bits) == 0,
{
}

proof fn lemma_layout(n: nat, bits: nat, i: int)
    requires
        0 < bits <= 64,
        0 <= i < n,
    ensures
        entries_per_word(bits) >= 1,
        0 <= i / (entries_per_word(bits) as int) < word_count(n, bits),
        0 <= (i % (entries_per_word(bits) as int)) * bits,
        (i % (entries_per_word(bits) as int)) * bits + bits <= 64,
        (i % (entries_per_word(bits) as int)) * bits + bits <= used_bits(
            n,
            bits,
            i / (entries_per_word(bits) as int),
        ) <= 64,
{
    let per = entries_per_word(bits) as int;
    assert(per >= 1 && per * bits <= 64) by (nonlinear_arith)
        requires
            per == 64int / (bits as int),
            0 < bits <= 64,
    ;
    let w = i / per;
    let k = i % per;
    assert(0 <= k < per && i == per * w + k && w >= 0) by (nonlinear_arith)
        requires
            per >= 1,
            i >= 0,
            w == i / per,
            k == i % per,
    ;
    assert(w < word_count(n, bits)) by (nonlinear_arith)
        requires
            per >= 1,
            0 <= i < n,
            i == per * w + k,
            0 <= k,
            word_count(n, bits) == (n as int) / per + if (n as int) % per == 0 { 0int } else { 1int },
    ;
    let left = n - w * per;
    assert(k * bits + bits <= left * bits) by (nonlinear_arith)
        requires
            k < left,
            0 < bits,
    ;
    assert(k * bits + bits <= per * bits) by (nonlinear_arith)
        requires
            k < per,
            0 < bits,
    ;
    if left < per {
        assert(left * bits <= per * bits) by (nonlinear_arith)
            requires
                left < per,
                0 < bits,
        ;
    }
}

/// The low `bits` bits of `value`: what an entry of that width keeps of it.
pub open spec fn low_bits(value: u64, bits: nat) -> u64 {
    value & mask(bits as u64)
}

/// A value below `2^bits` is kept whole by an entry of `bits` bits.
pub proof fn lemma_low_bits_of_small(value: u64, bits: nat)
    requires
        bits <= 64,
        (value as nat) < pow2(bits),
    ensures
        low_bits(value, bits) == value,
{
    if bits >= 64 {
        assert(value & u64::MAX == value) by (bit_vector);
    } else {
        lemma_low_bits_is_mod(value, bits);
        vstd::arithmetic::div_mod::lemma_small_mod(value as nat, pow2(bits));
    }
}

/// Below 64 bits, the low `bits` bits of a value are its remainder modulo `2^bits`.
pub proof fn lemma_low_bits_is_mod(value: u64, bits: nat)
    requires
        bits < 64,
    ensures
        low_bits(value, bits) == (value as nat) % pow2(bits),
        low_bits(value, bits) < pow2(bits),
{
    vstd::bits::lemma_u64_pow2_no_overflow(bits);
    vstd::bits::lemma_u64_shl_is_mul(1u64, bits as u64);
    vstd::bits::lemma_u64_low_bits_mask_is_mod(value, bits);
}

/// `N` unsigned entries of `bits` bits each, packed into 64-bit words.
pub struct PackedBits<const N: usize> {
    bits: usize,
    data: Vec<u64>,
}

impl<const N: usize> PackedBits<N> {
    /// The array is valid: its width is at most 64 and it holds exactly the
    /// words that its entries take.
    pub closed spec fn wf(&self) -> bool {
        &&& self.bits <= 64
        &&& self.data@.len() == word_count(N as nat, self.bits as nat)
    }

    /// The width of one entry, in bits.
    pub closed spec fn width(&self) -> nat {
        self.bits as nat
    }

    /// The stored words, as they are written to the wire.
    pub closed spec fn words(&self) -> Seq<u64> {
        self.data@
    }

    /// Every bit of the stored words that holds no entry is zero, so that
    /// the words are the one encoding of the entries.
    pub open spec fn is_canonical(&self) -> bool {
        zero_padded(self.words(), self.width(), N as nat)
    }

    /// The `N` entries.
    pub open spec fn view(&self) -> Seq<u64> {
        unpack_all(self.words(), self.width(), N as nat)
    }

    /// The number of words that `N` entries of `bits` bits take.
    fn words_for(bits: usize) -> (count: usize)
        requires
            bits <= 64,
        ensures
            count == word_count(N as nat, bits as nat),
    {
        if bits == 0 {
            0
        } else {
            assert(64usize / bits >= 1) by (nonlinear_arith)
                requires
                    0 < bits <= 64,
            ;
            let per: usize = 64 / bits;
            let full: usize = N / per;
            if N % per == 0 {
                full
            } else {
                assert(full < N) by (nonlinear_arith)
                    requires
                        per >= 1,
                        full == (N as int) / (per as int),
                        (N as int) % (per as int) != 0,
                ;
                full + 1
            }
        }
    }

    /// Every entry is below `2^width`.
    pub proof fn lemma_entry_fits(&self, i: int)
        requires
            self.wf(),
            0 <= i < N,
        ensures
            (self@[i] as nat) < pow2(self.width()),
    {
        let bits = self.width();
        if bits == 0 {
            vstd::arithmetic::power2::lemma2_to64();
        } else if bits >= 64 {
            vstd::arithmetic::power2::lemma2_to64_rest();
        } else {
            let per = entries_per_word(bits) as int;
            let shifted = self.words()[i / per] >> (((i % per) * bits) as u64);
            lemma_low_bits_is_mod(shifted, bits);
        }
    }

    /// An array of the given width with every entry zero, or
    /// `PreconditionViolated` when the width is over 64.
    pub fn new(bits: usize) -> (r: Result<Self, Error>)
        ensures
            bits > 64 <==> r is Err,
            r is Err ==> r == Err::<Self, Error>(Error::PreconditionViolated),
            r is Ok ==> {
                &&& r->Ok_0.wf()
                &&& r->Ok_0.width() == bits
                &&& r->Ok_0@ == Seq::new(N as nat, |i: int| 0u64)
                &&& r->Ok_0.is_canonical()
            },
    {
        if bits > 64 {
            Err(Error::PreconditionViolated)
        } else {
            Ok(Self::new_unchecked(bits))
        }
    }

    /// An array of the given width with every entry zero.
    pub fn new_unchecked(bits: usize) -> (r: Self)
        requires
            bits <= 64,
        ensures
            r.wf(),
            r.width() == bits,
            r@ == Seq::new(N as nat, |i: int| 0u64),
            r.is_canonical(),
    {
        let mut data: Vec<u64> = Vec::new();
        let count = Self::words_for(bits);
        let mut w: usize = 0;
        while w < count
            invariant
                w <= count,
                data@.len() == w,
                forall|j: int| 0 <= j < w ==> data@[j] == 0,
            decreases count - w,
        {
            data.push(0);
            w += 1;
        }
        let r = PackedBits { bits, data };
        proof {
            assert forall|i: int| 0 <= i < N implies unpack(r.data@, bits as nat, i) == 0 by {
                if bits != 0 {
                    lemma_layout(N as nat, bits as nat, i);
                    let per = entries_per_word(bits as nat) as int;
                    lemma_slot_of_zero(((i % per) * bits) as u64, bits as u64);
                }
            }
            assert forall|w: int| 0 <= w < r.data@.len() implies {
                let used = used_bits(N as nat, bits as nat, w);
                0 <= used < 64 ==> (#[trigger] r.data@[w]) >> (used as u64) == 0
            } by {
                let used = used_bits(N as nat, bits as nat, w);
                if 0 <= used < 64 {
                    lemma_zero_shifted(used as u64);
                }
            }
        }
        r
    }

    /// The width of one entry, in bits.
    pub fn bits(&self) -> (r: usize)
        requires
            self.wf(),
        ensures
            r == self.width(),
            r <= 64,
    {
        self.bits
    }

    /// The word with the low `bits` bits set.
    fn mask_of(bits: usize) -> (m: u64)
        requires
            bits <= 64,
        ensures
            m == mask(bits as u64),
    {
        if bits >= 64 {
            u64::MAX
        } else {
            proof {
                lemma_mask_shift(bits as u64);
            }
            (1u64 << (bits as u64)) - 1
        }
    }

    /// Entry `i`, or `OutOfBounds` when `i` is not below `N`.
    pub fn get(&self, i: usize) -> (r: Result<u64, Error>)
        requires
            self.wf(),
        ensures
            i < N ==> r == Ok::<u64, Error>(self@[i as int]),
            i >= N ==> r == Err::<u64, Error>(Error::OutOfBounds),
    {
        if i >= N {
            Err(Error::OutOfBounds)
        } else {
            Ok(self.get_unchecked(i))
        }
    }

    /// Entry `i`. At width 0 every entry is 0.
    pub fn get_unchecked(&self, i: usize) -> (r: u64)
        requires
            self.wf(),
            i < N,
        ensures
            r == self@[i as int],
    {
        if self.bits == 0 {
            0
        } else {
            proof {
                lemma_layout(N as nat, self.bits as nat, i as int);
            }
            let per: usize = 64 / self.bits;
            let shift: usize = (i % per) * self.bits;
            let word: u64 = self.data[i / per];
            (word >> (shift as u64)) & Self::mask_of(self.bits)
        }
    }

    /// Writes the low `bits` bits of `v` to entry `i` and leaves every other
    /// entry as it was, or returns `OutOfBounds`, changing nothing, when `i`
    /// is not below `N`.
    pub fn set(&mut self, i: usize, v: u64) -> (r: Result<(), Error>)
        requires
            old(self).wf(),
        ensures
            final(self).wf(),
            final(self).width() == old(self).width(),
            i < N ==> r is Ok && final(self)@ == old(self)@.update(
                i as int,
                low_bits(v, old(self).width()),
            ),
            i < N && (v as nat) < pow2(old(self).width()) ==> final(self)@ == old(self)@.update(
                i as int,
                v,
            ),
            i >= N ==> r == Err::<(), Error>(Error::OutOfBounds) && *final(self) == *old(self),
            old(self).is_canonical() ==> final(self).is_canonical(),
    {
        if i >= N {
            Err(Error::OutOfBounds)
        } else {
            self.set_unchecked(i, v);
            Ok(())
        }
    }

    /// Writes the low `bits` bits of `v` to entry `i` and leaves every other
    /// entry as it was.
    pub fn set_unchecked(&mut self, i: usize, v: u64)
        requires
            old(self).wf(),
            i < N,
        ensures
            final(self).wf(),
            final(self).width() == old(self).width(),
            final(self)@ == old(self)@.update(i as int, low_bits(v, old(self).width())),
            (v as nat) < pow2(old(self).width()) ==> final(self)@ == old(self)@.update(i as int, v),
            old(self).is_canonical() ==> final(self).is_canonical(),
    {
        let bits: usize = self.bits;
        if bits == 0 {
            proof {
                assert(v & 0u64 == 0u64) by (bit_vector);
                assert(1u64 << 0u64 == 1u64) by (bit_vector);
            }
        } else {
            proof {
                lemma_layout(N as nat, bits as nat, i as int);
            }
            let per: usize = 64 / bits;
            let w: usize = i / per;
            let shift: usize = (i % per) * bits;
            let m: u64 = Self::mask_of(bits);
            let word: u64 = self.data[w];
            let written: u64 = (word & !(m << (shift as u64))) | ((v & m) << (shift as u64));
            self.data.set(w, written);
            proof {
                let b = bits as nat;
                let p = per as int;
                assert forall|j: int| 0 <= j < N implies unpack(self.data@, b, j) == old(self)@.update(
                    i as int,
                    low_bits(v, b),
                )[j] by {
                    lemma_layout(N as nat, b, j);
                    let other = (j % p) * b;
                    if j == i {
                        lemma_slot_written(word, shift as u64, bits as u64, v);
                    } else if j / p == w {
                        let ki = (i as int) % p;
                        let kj = j % p;
                        assert(ki != kj) by {
                            vstd::arithmetic::div_mod::lemma_fundamental_div_mod(i as int, p);
                            vstd::arithmetic::div_mod::lemma_fundamental_div_mod(j, p);
                        }
                        assert(shift + b <= other || other + b <= shift) by (nonlinear_arith)
                            requires
                                shift == ki * b,
                                other == kj * b,
                                ki != kj,
                                b > 0,
                        ;
                        lemma_slot_kept(word, shift as u64, bits as u64, v, other as u64);
                    }
                }
                if old(self).is_canonical() {
                    assert forall|x: int| 0 <= x < self.data@.len() implies {
                        let used = used_bits(N as nat, b, x);
                        0 <= used < 64 ==> (#[trigger] self.data@[x]) >> (used as u64) == 0
                    } by {
                        let used = used_bits(N as nat, b, x);
                        if x == w && 0 <= used < 64 {
                            lemma_padding_kept(word, shift as u64, bits as u64, v, used as u64);
                        }
                    }
                }
            }
        }
        proof {
            if (v as nat) < pow2(bits as nat) {
                lemma_low_bits_of_small(v, bits as nat);
            }
        }
    }

    /// Gives the array a new width and sets every entry to zero; the old
    /// entries are discarded. Returns `PreconditionViolated`, changing
    /// nothing, when the width is over 64.
    pub fn change_bits(&mut self, bits: usize) -> (r: Result<(), Error>)
        requires
            old(self).wf(),
        ensures
            final(self).wf(),
            bits <= 64 ==> r is Ok && final(self).width() == bits && final(self)@ == Seq::new(
                N as nat,
                |i: int| 0u64,
            ) && final(self).is_canonical(),
            bits > 64 ==> r == Err::<(), Error>(Error::PreconditionViolated) && *final(self)
                == *old(self),
    {
        if bits > 64 {
            Err(Error::PreconditionViolated)
        } else {
            *self = Self::new_unchecked(bits);
            Ok(())
        }
    }

    /// Gives the array a new width and keeps the low `bits` bits of every
    /// entry; entries that fit the new width are kept whole.
    pub fn repack(&mut self, bits: usize)
        requires
            old(self).wf(),
            bits <= 64,
        ensures
            final(self).wf(),
            final(self).width() == bits,
            final(self)@ == old(self)@.map_values(|e: u64| low_bits(e, bits as nat)),
            (forall|i: int| 0 <= i < N ==> (#[trigger] old(self)@[i] as nat) < pow2(bits as nat))
                ==> final(self)@ == old(self)@,
            final(self).is_canonical(),
    {
        let source = self.take();
        *self = Self::new_unchecked(bits);
        let mut k: usize = 0;
        while k < N
            invariant
                k <= N,
                bits <= 64,
                source.wf(),
                self.wf(),
                self.width() == bits,
                self.is_canonical(),
                forall|j: int| 0 <= j < k ==> self@[j] == low_bits(source@[j], bits as nat),
            decreases N - k,
        {
            let entry = source.get_unchecked(k);
            self.set_unchecked(k, entry);
            k += 1;
        }
        proof {
            if forall|i: int| 0 <= i < N ==> (#[trigger] source@[i] as nat) < pow2(bits as nat) {
                assert forall|i: int| 0 <= i < N implies self@[i] == source@[i] by {
                    lemma_low_bits_of_small(source@[i], bits as nat);
                }
            }
        }
    }

    /// Hands out the array and leaves an array of width 0 in its place.
    pub fn take(&mut self) -> (r: Self)
        requires
            old(self).wf(),
        ensures
            r == *old(self),
            final(self).wf(),
            final(self).width() == 0,
            final(self)@ == Seq::new(N as nat, |i: int| 0u64),
            final(self).is_canonical(),
    {
        let mut taken = Self::new_unchecked(0);
        core::mem::swap(self, &mut taken);
        taken
    }

    /// The stored words in wire order.
    pub fn as_words(&self) -> (r: &Vec<u64>)
        requires
            self.wf(),
        ensures
            r@ == self.words(),
            r@.len() == word_count(N as nat, self.width()),
    {
        &self.data
    }

    /// The array of the given width that `words` encodes. Returns
    /// `PreconditionViolated` when the width is over 64, and otherwise
    /// `DecodeInvalid` when `words` does not hold exactly the words that
    /// `N` entries of that width take.
    pub fn from_words(bits: usize, words: Vec<u64>) -> (r: Result<Self, Error>)
        ensures
            bits > 64 ==> r == Err::<Self, Error>(Error::PreconditionViolated),
            bits <= 64 && words@.len() != word_count(N as nat, bits as nat) ==> r == Err::<
                Self,
                Error,
            >(Error::DecodeInvalid),
            bits <= 64 && words@.len() == word_count(N as nat, bits as nat) ==> {
                &&& r is Ok
                &&& r->Ok_0.wf()
                &&& r->Ok_0.width() == bits
                &&& r->Ok_0.words() == words@
            },
    {
        if bits > 64 {
            Err(Error::PreconditionViolated)
        } else if words.len() != Self::words_for(bits) {
            Err(Error::DecodeInvalid)
        } else {
            Ok(PackedBits { bits, data: words })
        }
    }
}

} // verus!
