//! Paletted containers: fixed-length arrays of ids that store small indices
//! into a list of the distinct ids in use, and grow that list's index width
//! as more distinct ids arrive.

use crate::bitpack::{low_bits, PackedBits};
use crate::containers::DataContainer;
use crate::error::Error;
use crate::model::{
    biome_admits, biome_set, biome_valid, biome_widened, filled, has_room, state_initial,
    state_promoted, state_set, state_valid, PaletteKind, PaletteModel, GLOBAL_BITS,
    MAX_BIOME_BITS,
};
use std::collections::BTreeMap;
use vstd::arithmetic::power2::{lemma2_to64, pow2};
use vstd::prelude::*;

verus! {

/// What a palette answers when asked for the index of a value: the index,
/// or, when the value is new and the palette is full, the width in bits that
/// the palette needs next.
pub enum IndexOrBits {
    Index(u64),
    Bits(usize),
}

/// The number of values a palette of the given width holds.
fn capacity(bits: usize) -> (r: usize)
    requires
        bits <= 8,
    ensures
        r == pow2(bits as nat),
        1 <= r <= 256,
{
    proof {
        lemma2_to64();
        vstd::bits::lemma_usize_shl_is_mul(1usize, bits);
    }
    1usize << bits
}

/// A palette of exactly one value.
#[derive(Clone, Copy)]
pub struct SingleValuePalette(pub u64);

impl SingleValuePalette {
    /// Index 0 for the palette's value; for any other value, a request for
    /// one bit. The palette is never changed.
    pub fn index(&mut self, state: u64) -> (r: IndexOrBits)
        ensures
            *final(self) == *old(self),
            state == old(self).0 ==> r == IndexOrBits::Index(0),
            state != old(self).0 ==> r == IndexOrBits::Bits(1),
    {
        if self.0 == state {
            IndexOrBits::Index(0)
        } else {
            IndexOrBits::Bits(1)
        }
    }

    /// The value at `index`, which must be 0.
    pub fn value(&self, index: usize) -> (r: u64)
        requires
            index == 0,
        ensures
            r == self.0,
    {
        self.0
    }
}

/// A palette that lists its values in the order they arrived and finds a
/// value by scanning the list.
pub struct LinearPalette {
    pub(crate) values: Vec<u64>,
    pub(crate) bits: usize,
}

impl LinearPalette {
    /// No value is listed twice, and the list fits the width.
    pub closed spec fn wf(&self) -> bool {
        &&& self.bits <= 8
        &&& self.values@.len() <= pow2(self.bits as nat) <= 256
        &&& self.values@.no_duplicates()
    }

    /// The listed values, by index.
    pub closed spec fn values(&self) -> Seq<u64> {
        self.values@
    }

    /// The width of an index, in bits.
    pub closed spec fn width(&self) -> nat {
        self.bits as nat
    }

    /// The index of `state`. A value that is not listed yet is appended
    /// while there is room. When there is none, the palette stays as it is
    /// and the answer asks for one more bit.
    pub fn index(&mut self, state: u64) -> (r: IndexOrBits)
        requires
            old(self).wf(),
        ensures
            final(self).wf(),
            final(self).width() == old(self).width(),
            old(self).values().contains(state) ==> {
                &&& final(self).values() == old(self).values()
                &&& r is Index
                &&& r->Index_0 < old(self).values().len()
                &&& old(self).values()[r->Index_0 as int] == state
            },
            !old(self).values().contains(state) && old(self).values().len() < pow2(
                old(self).width(),
            ) ==> {
                &&& final(self).values() == old(self).values().push(state)
                &&& r == IndexOrBits::Index(old(self).values().len() as u64)
            },
            !old(self).values().contains(state) && old(self).values().len() >= pow2(
                old(self).width(),
            ) ==> {
                &&& *final(self) == *old(self)
                &&& r == IndexOrBits::Bits((old(self).width() + 1) as usize)
            },
    {
        let len: usize = self.values.len();
        let mut i: usize = 0;
        while i < len
            invariant
                i <= len,
                len == self.values@.len(),
                *self == *old(self),
                self.wf(),
                forall|j: int| 0 <= j < i ==> self.values@[j] != state,
            decreases len - i,
        {
            if self.values[i] == state {
                return IndexOrBits::Index(i as u64);
            }
            i += 1;
        }
        if len < capacity(self.bits) {
            self.values.push(state);
            IndexOrBits::Index(len as u64)
        } else {
            IndexOrBits::Bits(self.bits + 1)
        }
    }

    /// The value at `index`.
    pub fn value(&self, index: usize) -> (r: u64)
        requires
            index < self.values().len(),
        ensures
            r == self.values()[index as int],
    {
        self.values[index]
    }
}

/// A linear palette with a side map from each value to its index, which
/// makes finding a value faster at the cost of memory.
pub struct MappedPalette {
    pub(crate) indices: BTreeMap<u64, usize>,
    pub(crate) inner: LinearPalette,
}

impl MappedPalette {
    /// The list is valid and the side map holds exactly the listed values,
    /// each with its index.
    pub closed spec fn wf(&self) -> bool {
        &&& self.inner.wf()
        &&& forall|k: int|
            0 <= k < self.inner.values@.len() ==> {
                &&& self.indices@.contains_key(#[trigger] self.inner.values@[k])
                &&& self.indices@[self.inner.values@[k]] == k
            }
        &&& forall|v: u64|
            self.indices@.contains_key(v) ==> {
                &&& (#[trigger] self.indices@[v]) < self.inner.values@.len()
                &&& self.inner.values@[self.indices@[v] as int] == v
            }
    }

    /// The listed values, by index.
    pub closed spec fn values(&self) -> Seq<u64> {
        self.inner.values@
    }

    /// The width of an index, in bits.
    pub closed spec fn width(&self) -> nat {
        self.inner.bits as nat
    }

    /// The palette of the given width that lists `values`, with its side map
    /// filled in.
    pub fn with_values(values: Vec<u64>, bits: usize) -> (r: Self)
        requires
            bits <= 8,
            values@.len() <= pow2(bits as nat),
            values@.no_duplicates(),
        ensures
            r.wf(),
            r.values() == values@,
            r.width() == bits,
    {
        proof {
            lemma2_to64();
        }
        let mut indices: BTreeMap<u64, usize> = BTreeMap::new();
        let len: usize = values.len();
        let mut k: usize = 0;
        while k < len
            invariant
                k <= len,
                len == values@.len(),
                values@.no_duplicates(),
                forall|j: int|
                    0 <= j < k ==> {
                        &&& indices@.contains_key(#[trigger] values@[j])
                        &&& indices@[values@[j]] == j
                    },
                forall|v: u64|
                    indices@.contains_key(v) ==> {
                        &&& (#[trigger] indices@[v]) < k
                        &&& values@[indices@[v] as int] == v
                    },
            decreases len - k,
        {
            indices.insert(values[k], k);
            k += 1;
        }
        MappedPalette { indices, inner: LinearPalette { values, bits } }
    }

    /// The index of `state`, looked up in the side map. A value that is not
    /// listed yet is appended, and recorded in the side map with its index,
    /// while there is room. When there is none, the palette stays as it is
    /// and the answer asks for one more bit.
    pub fn index(&mut self, state: u64) -> (r: IndexOrBits)
        requires
            old(self).wf(),
        ensures
            final(self).wf(),
            final(self).width() == old(self).width(),
            old(self).values().contains(state) ==> {
                &&& final(self).values() == old(self).values()
                &&& r is Index
                &&& r->Index_0 < old(self).values().len()
                &&& old(self).values()[r->Index_0 as int] == state
            },
            !old(self).values().contains(state) && old(self).values().len() < pow2(
                old(self).width(),
            ) ==> {
                &&& final(self).values() == old(self).values().push(state)
                &&& r == IndexOrBits::Index(old(self).values().len() as u64)
            },
            !old(self).values().contains(state) && old(self).values().len() >= pow2(
                old(self).width(),
            ) ==> {
                &&& *final(self) == *old(self)
                &&& r == IndexOrBits::Bits((old(self).width() + 1) as usize)
            },
    {
        match self.indices.get(&state) {
            Some(v) => IndexOrBits::Index(*v as u64),
            None => {
                let initial_len: usize = self.inner.values.len();
                if initial_len < capacity(self.inner.bits) {
                    self.inner.values.push(state);
                    self.indices.insert(state, initial_len);
                    IndexOrBits::Index(initial_len as u64)
                } else {
                    IndexOrBits::Bits(self.inner.bits + 1)
                }
            },
        }
    }

    /// The value at `index`.
    pub fn value(&self, index: usize) -> (r: u64)
        requires
            index < self.values().len(),
        ensures
            r == self.values()[index as int],
    {
        self.inner.value(index)
    }
}

/// How a biome container is stored: a single value, or a linear palette
/// with the packed indices into it.
enum BiomePalette<const N: usize> {
    SingleValue(SingleValuePalette),
    Linear { palette: LinearPalette, data: PackedBits<N> },
}

/// `N` biome ids behind a palette of at most eight values.
pub struct BiomePaletteContainer<const N: usize> {
    palette: BiomePalette<N>,
}

impl<const N: usize> BiomePaletteContainer<N> {
    /// The container is valid: its palette lists each value once, and every
    /// stored index points into the palette.
    pub closed spec fn wf(&self) -> bool {
        match self.palette {
            BiomePalette::SingleValue(_) => true,
            BiomePalette::Linear { palette, data } => {
                &&& palette.wf()
                &&& 1 <= palette.width() <= 3
                &&& palette.values().len() >= 1
                &&& data.wf()
                &&& data.width() == palette.width()
                &&& forall|i: int| 0 <= i < N ==> (#[trigger] data@[i]) < palette.values().len()
            },
        }
    }

    /// What the container is, apart from how it is stored.
    pub closed spec fn model(&self) -> PaletteModel {
        match self.palette {
            BiomePalette::SingleValue(single) => filled(
                PaletteKind::SingleValue,
                0,
                N as nat,
                single.0,
            ),
            BiomePalette::Linear { palette, data } => PaletteModel {
                kind: PaletteKind::Linear,
                bits: palette.width(),
                palette: palette.values(),
                entries: Seq::new(N as nat, |i: int| palette.values()[data@[i] as int]),
            },
        }
    }

    /// The `N` values of the container.
    pub open spec fn view(&self) -> Seq<u64> {
        self.model().entries
    }

    /// The model of a valid container is a valid model.
    pub proof fn lemma_model_valid(&self)
        requires
            self.wf(),
        ensures
            biome_valid(self.model(), N as nat),
    {
        if let BiomePalette::SingleValue(single) = self.palette {
            lemma2_to64();
            assert forall|i: int| 0 <= i < N implies seq![single.0].contains(
                #[trigger] self.model().entries[i],
            ) by {
                assert(seq![single.0][0] == single.0);
            }
        }
    }

    /// A container that holds `value` at every index.
    #[inline]
    pub fn new(value: u64) -> (r: Self)
        ensures
            r.wf(),
            r.model() == filled(PaletteKind::SingleValue, 0, N as nat, value),
    {
        Self { palette: BiomePalette::SingleValue(SingleValuePalette(value)) }
    }

    /// A container that holds `value` at every index and starts out with a
    /// palette of the given width, or `PreconditionViolated` when the width
    /// is over 3.
    pub fn with_bits(bits: usize, value: u64) -> (r: Result<Self, Error>)
        ensures
            bits > 3 ==> r == Err::<Self, Error>(Error::PreconditionViolated),
            bits <= 3 ==> r is Ok && r->Ok_0.wf() && r->Ok_0.model() == filled(
                if bits == 0 {
                    PaletteKind::SingleValue
                } else {
                    PaletteKind::Linear
                },
                bits as nat,
                N as nat,
                value,
            ),
    {
        if bits > MAX_BIOME_BITS {
            Err(Error::PreconditionViolated)
        } else {
            Ok(Self::with_bits_unchecked(bits, value))
        }
    }

    /// A container that holds `value` at every index and starts out with a
    /// palette of the given width.
    pub fn with_bits_unchecked(bits: usize, value: u64) -> (r: Self)
        requires
            bits <= 3,
        ensures
            r.wf(),
            r.model() == filled(
                if bits == 0 {
                    PaletteKind::SingleValue
                } else {
                    PaletteKind::Linear
                },
                bits as nat,
                N as nat,
                value,
            ),
    {
        match bits {
            0 => Self::new(value),
            bits => {
                let mut values = Vec::with_capacity(capacity(bits));
                values.push(value);
                let palette = LinearPalette { bits, values };
                let data = PackedBits::<N>::new_unchecked(bits);
                let r = Self { palette: BiomePalette::Linear { palette, data } };
                proof {
                    assert(r.model().entries =~= Seq::new(N as nat, |i: int| value));
                }
                r
            },
        }
    }

    /// The representation in use.
    pub fn kind(&self) -> (r: PaletteKind)
        ensures
            r == self.model().kind,
    {
        match &self.palette {
            BiomePalette::SingleValue(_) => PaletteKind::SingleValue,
            BiomePalette::Linear { .. } => PaletteKind::Linear,
        }
    }

    /// The width of a stored index, in bits; 0 for a single value.
    pub fn bits(&self) -> (r: usize)
        requires
            self.wf(),
        ensures
            r == self.model().bits,
    {
        match &self.palette {
            BiomePalette::SingleValue(_) => 0,
            BiomePalette::Linear { palette, .. } => palette.bits,
        }
    }

    /// The value at index `i`, or `OutOfBounds` when `i` is not below `N`.
    /// The container is not changed.
    pub fn get(&mut self, i: usize) -> (r: Result<u64, Error>)
        requires
            old(self).wf(),
        ensures
            *final(self) == *old(self),
            i < N ==> r == Ok::<u64, Error>(old(self)@[i as int]),
            i >= N ==> r == Err::<u64, Error>(Error::OutOfBounds),
    {
        if i >= N {
            Err(Error::OutOfBounds)
        } else {
            Ok(self.get_unchecked(i))
        }
    }

    /// The value at index `i`. The container is not changed.
    pub fn get_unchecked(&mut self, i: usize) -> (r: u64)
        requires
            old(self).wf(),
            i < N,
        ensures
            *final(self) == *old(self),
            r == old(self)@[i as int],
    {
        match &self.palette {
            BiomePalette::SingleValue(v) => v.0,
            BiomePalette::Linear { palette, data } => {
                let k = data.get_unchecked(i);
                let r = palette.value(k as usize);
                r
            },
        }
    }

    /// Writes `v` at index `i`, widening the palette first when `v` is new
    /// and the palette is full. Returns `OutOfBounds` when `i` is not below
    /// `N`, and otherwise `PaletteOverflow` when `v` would be the ninth
    /// distinct value; in both cases the container is not changed.
    pub fn set(&mut self, i: usize, v: u64) -> (r: Result<(), Error>)
        requires
            old(self).wf(),
        ensures
            final(self).wf(),
            i >= N ==> r == Err::<(), Error>(Error::OutOfBounds) && *final(self) == *old(self),
            i < N && !biome_admits(old(self).model(), v) ==> r == Err::<(), Error>(
                Error::PaletteOverflow,
            ) && *final(self) == *old(self),
            i < N && biome_admits(old(self).model(), v) ==> r is Ok && final(self).model()
                == biome_set(old(self).model(), i as int, v),
    {
        if i >= N {
            Err(Error::OutOfBounds)
        } else {
            self.set_unchecked(i, v)
        }
    }

    /// Writes `v` at index `i`, widening the palette first when `v` is new
    /// and the palette is full. Returns `PaletteOverflow`, changing nothing,
    /// when `v` would be the ninth distinct value.
    pub fn set_unchecked(&mut self, i: usize, v: u64) -> (r: Result<(), Error>)
        requires
            old(self).wf(),
            i < N,
        ensures
            final(self).wf(),
            !biome_admits(old(self).model(), v) ==> r == Err::<(), Error>(Error::PaletteOverflow)
                && *final(self) == *old(self),
            biome_admits(old(self).model(), v) ==> r is Ok && final(self).model() == biome_set(
                old(self).model(),
                i as int,
                v,
            ),
    {
        let ghost start = old(self).model();
        proof {
            self.lemma_model_valid();
        }
        loop
            invariant
                i < N,
                self.wf(),
                biome_valid(start, N as nat),
                start == old(self).model(),
                self.model() == start || (!has_room(start, v) && biome_admits(start, v)
                    && self.model() == biome_widened(start)),
                self.model() == start ==> *self == *old(self),
            decreases
                    (if self.model() == start && !has_room(start, v) {
                        1int
                    } else {
                        0int
                    }),
        {
            proof {
                lemma2_to64();
            }
            match &mut self.palette {
                BiomePalette::SingleValue(val) => match val.index(v) {
                    IndexOrBits::Index(_) => {
                        proof {
                            assert(start.palette[0] == v);
                            assert(start.entries.update(i as int, v) =~= start.entries);
                        }
                        return Ok(());
                    },
                    IndexOrBits::Bits(bits) => {
                        let mut values = Vec::with_capacity(capacity(bits));
                        values.push(val.0);
                        let palette = LinearPalette { bits, values };
                        let data = PackedBits::<N>::new_unchecked(bits);
                        proof {
                            assert(Seq::new(N as nat, |j: int| palette.values()[data@[j] as int])
                                =~= start.entries);
                        }
                        self.palette = BiomePalette::Linear { palette, data };
                    },
                },
                BiomePalette::Linear { palette, data } => {
                    let ghost values = palette.values();
                    let ghost indices = data@;
                    match palette.index(v) {
                        IndexOrBits::Index(k) => {
                            data.set_unchecked(i, k);
                            proof {
                                let placed_entries = Seq::new(
                                    N as nat,
                                    |j: int| values[indices[j] as int],
                                ).update(i as int, v);
                                assert(Seq::new(
                                    N as nat,
                                    |j: int| palette.values()[data@[j] as int],
                                ) =~= placed_entries);
                            }
                            return Ok(());
                        },
                        IndexOrBits::Bits(bits) => {
                            if bits > MAX_BIOME_BITS {
                                return Err(Error::PaletteOverflow);
                            }
                            data.repack(bits);
                            palette.bits = bits;
                        },
                    }
                },
            }
        }
    }

    /// Writes `v` at index `i` and returns the value that was there, under
    /// the conditions of `set`.
    pub fn swap(&mut self, i: usize, v: u64) -> (r: Result<u64, Error>)
        requires
            old(self).wf(),
        ensures
            final(self).wf(),
            i >= N ==> r == Err::<u64, Error>(Error::OutOfBounds) && *final(self) == *old(self),
            i < N && !biome_admits(old(self).model(), v) ==> r == Err::<u64, Error>(
                Error::PaletteOverflow,
            ) && *final(self) == *old(self),
            i < N && biome_admits(old(self).model(), v) ==> r == Ok::<u64, Error>(
                old(self)@[i as int],
            ) && final(self).model() == biome_set(old(self).model(), i as int, v),
    {
        if i >= N {
            Err(Error::OutOfBounds)
        } else {
            self.swap_unchecked(i, v)
        }
    }

    /// Writes `v` at index `i` and returns the value that was there, under
    /// the conditions of `set_unchecked`.
    pub fn swap_unchecked(&mut self, i: usize, v: u64) -> (r: Result<u64, Error>)
        requires
            old(self).wf(),
            i < N,
        ensures
            final(self).wf(),
            !biome_admits(old(self).model(), v) ==> r == Err::<u64, Error>(
                Error::PaletteOverflow,
            ) && *final(self) == *old(self),
            biome_admits(old(self).model(), v) ==> r == Ok::<u64, Error>(old(self)@[i as int])
                && final(self).model() == biome_set(old(self).model(), i as int, v),
    {
        let val = self.get_unchecked(i);
        match self.set_unchecked(i, v) {
            Ok(()) => Ok(val),
            Err(e) => Err(e),
        }
    }
}

/// How a state container is stored: a single value, a linear or a mapped
/// palette with the packed indices into it, or packed global ids.
#[allow(inconsistent_fields)]
enum StatePalette<const N: usize> {
    SingleValue(SingleValuePalette),
    Linear { palette: LinearPalette, data: PackedBits<N> },
    Mapped { palette: MappedPalette, data: PackedBits<N> },
    Global { data: PackedBits<N> },
}

/// `N` block-state ids behind a palette that grows from a single value
/// through a linear and a mapped palette to global ids.
pub struct StatePaletteContainer<const N: usize> {
    palette: StatePalette<N>,
}

impl<const N: usize> StatePaletteContainer<N> {
    /// The container is valid: its palette lists each value once, every
    /// stored index points into the palette, and the index width is the one
    /// that belongs to the representation.
    pub closed spec fn wf(&self) -> bool {
        match self.palette {
            StatePalette::SingleValue(_) => true,
            StatePalette::Linear { palette, data } => {
                &&& palette.wf()
                &&& palette.width() == 4
                &&& palette.values().len() >= 1
                &&& data.wf()
                &&& data.width() == 4
                &&& forall|i: int| 0 <= i < N ==> (#[trigger] data@[i]) < palette.values().len()
            },
            StatePalette::Mapped { palette, data } => {
                &&& palette.wf()
                &&& 5 <= palette.width() <= 8
                &&& palette.values().len() >= 1
                &&& data.wf()
                &&& data.width() == palette.width()
                &&& forall|i: int| 0 <= i < N ==> (#[trigger] data@[i]) < palette.values().len()
            },
            StatePalette::Global { data } => data.wf() && data.width() == 15,
        }
    }

    /// What the container is, apart from how it is stored.
    pub closed spec fn model(&self) -> PaletteModel {
        match self.palette {
            StatePalette::SingleValue(single) => filled(
                PaletteKind::SingleValue,
                0,
                N as nat,
                single.0,
            ),
            StatePalette::Linear { palette, data } => PaletteModel {
                kind: PaletteKind::Linear,
                bits: palette.width(),
                palette: palette.values(),
                entries: Seq::new(N as nat, |i: int| palette.values()[data@[i] as int]),
            },
            StatePalette::Mapped { palette, data } => PaletteModel {
                kind: PaletteKind::Mapped,
                bits: palette.width(),
                palette: palette.values(),
                entries: Seq::new(N as nat, |i: int| palette.values()[data@[i] as int]),
            },
            StatePalette::Global { data } => PaletteModel {
                kind: PaletteKind::Global,
                bits: 15,
                palette: Seq::empty(),
                entries: data@,
            },
        }
    }

    /// The `N` values of the container.
    pub open spec fn view(&self) -> Seq<u64> {
        self.model().entries
    }

    /// The model of a valid container is a valid model.
    pub proof fn lemma_model_valid(&self)
        requires
            self.wf(),
        ensures
            state_valid(self.model(), N as nat),
    {
        let m = self.model();
        match self.palette {
            StatePalette::SingleValue(single) => {
                lemma2_to64();
                assert forall|i: int| 0 <= i < N implies m.palette.contains(
                    #[trigger] m.entries[i],
                ) by {
                    assert(m.palette[0] == single.0);
                }
            },
            StatePalette::Global { data } => {
                assert forall|i: int| 0 <= i < N implies (#[trigger] m.entries[i] as nat) < pow2(
                    15,
                ) by {
                    data.lemma_entry_fits(i);
                }
            },
            _ => {},
        }
    }

    /// A container that holds `value` at every index.
    #[inline]
    pub fn new(value: u64) -> (r: Self)
        ensures
            r.wf(),
            r.model() == filled(PaletteKind::SingleValue, 0, N as nat, value),
    {
        Self { palette: StatePalette::SingleValue(SingleValuePalette(value)) }
    }

    /// A container in the representation that the requested width selects:
    /// a single value for 0, a linear palette of 4 bits up to 4, a mapped
    /// palette of that width up to 8, and global ids of 15 bits above. Up
    /// to 8 bits it holds `value` at every index; with global ids it holds
    /// 0 at every index and `value` is not used.
    pub fn with_bits(bits: usize, value: u64) -> (r: Self)
        ensures
            r.wf(),
            r.model() == state_initial(bits as nat, N as nat, value),
    {
        if bits == 0 {
            Self::new(value)
        } else if bits <= 4 {
            let mut values = Vec::with_capacity(capacity(4));
            values.push(value);
            let palette = LinearPalette { bits: 4, values };
            let data = PackedBits::<N>::new_unchecked(4);
            let r = Self { palette: StatePalette::Linear { palette, data } };
            proof {
                assert(r.model().entries =~= Seq::new(N as nat, |i: int| value));
            }
            r
        } else if bits <= 8 {
            let mut values = Vec::with_capacity(capacity(bits));
            values.push(value);
            let palette = MappedPalette::with_values(values, bits);
            let data = PackedBits::<N>::new_unchecked(bits);
            let r = Self { palette: StatePalette::Mapped { palette, data } };
            proof {
                assert(r.model().entries =~= Seq::new(N as nat, |i: int| value));
            }
            r
        } else {
            Self { palette: StatePalette::Global { data: PackedBits::new_unchecked(GLOBAL_BITS) } }
        }
    }

    /// The representation in use.
    pub fn kind(&self) -> (r: PaletteKind)
        ensures
            r == self.model().kind,
    {
        match &self.palette {
            StatePalette::SingleValue(_) => PaletteKind::SingleValue,
            StatePalette::Linear { .. } => PaletteKind::Linear,
            StatePalette::Mapped { .. } => PaletteKind::Mapped,
            StatePalette::Global { .. } => PaletteKind::Global,
        }
    }

    /// The width of a stored index, in bits; 0 for a single value.
    pub fn bits(&self) -> (r: usize)
        requires
            self.wf(),
        ensures
            r == self.model().bits,
    {
        match &self.palette {
            StatePalette::SingleValue(_) => 0,
            StatePalette::Linear { palette, .. } => palette.bits,
            StatePalette::Mapped { palette, .. } => palette.inner.bits,
            StatePalette::Global { .. } => GLOBAL_BITS,
        }
    }

    /// The value at index `i`, or `OutOfBounds` when `i` is not below `N`.
    /// The container is not changed.
    pub fn get(&mut self, i: usize) -> (r: Result<u64, Error>)
        requires
            old(self).wf(),
        ensures
            *final(self) == *old(self),
            i < N ==> r == Ok::<u64, Error>(old(self)@[i as int]),
            i >= N ==> r == Err::<u64, Error>(Error::OutOfBounds),
    {
        if i >= N {
            Err(Error::OutOfBounds)
        } else {
            Ok(self.get_unchecked(i))
        }
    }

    /// The value at index `i`. The container is not changed.
    pub fn get_unchecked(&mut self, i: usize) -> (r: u64)
        requires
            old(self).wf(),
            i < N,
        ensures
            *final(self) == *old(self),
            r == old(self)@[i as int],
    {
        match &self.palette {
            StatePalette::SingleValue(v) => v.0,
            StatePalette::Linear { palette, data } => palette.value(data.get_unchecked(i) as usize),
            StatePalette::Mapped { palette, data } => palette.value(data.get_unchecked(i) as usize),
            StatePalette::Global { data } => data.get_unchecked(i),
        }
    }

    /// The entries behind a mapped palette, written out as global ids.
    fn globalize(palette: &MappedPalette, data: &PackedBits<N>) -> (r: PackedBits<N>)
        requires
            palette.wf(),
            data.wf(),
            forall|i: int| 0 <= i < N ==> (#[trigger] data@[i]) < palette.values().len(),
        ensures
            r.wf(),
            r.width() == 15,
            r@ == Seq::new(N as nat, |i: int| palette.values()[data@[i] as int]).map_values(
                |e: u64| low_bits(e, 15),
            ),
    {
        let mut new_data = PackedBits::<N>::new_unchecked(GLOBAL_BITS);
        let mut k: usize = 0;
        while k < N
            invariant
                k <= N,
                palette.wf(),
                data.wf(),
                forall|i: int| 0 <= i < N ==> (#[trigger] data@[i]) < palette.values().len(),
                new_data.wf(),
                new_data.width() == 15,
                forall|j: int|
                    0 <= j < k ==> new_data@[j] == low_bits(
                        palette.values()[data@[j] as int],
                        15,
                    ),
            decreases N - k,
        {
            new_data.set_unchecked(k, palette.value(data.get_unchecked(k) as usize));
            k += 1;
        }
        new_data
    }

    /// Writes `v` at index `i`, promoting the container first when `v` is
    /// new and the palette is full, or returns `OutOfBounds`, changing
    /// nothing, when `i` is not below `N`.
    pub fn set(&mut self, i: usize, v: u64) -> (r: Result<(), Error>)
        requires
            old(self).wf(),
        ensures
            final(self).wf(),
            i >= N ==> r == Err::<(), Error>(Error::OutOfBounds) && *final(self) == *old(self),
            i < N ==> r is Ok && final(self).model() == state_set(old(self).model(), i as int, v),
    {
        if i >= N {
            Err(Error::OutOfBounds)
        } else {
            self.set_unchecked(i, v);
            Ok(())
        }
    }

    /// Writes `v` at index `i`, promoting the container first when `v` is
    /// new and the palette is full.
    pub fn set_unchecked(&mut self, i: usize, v: u64)
        requires
            old(self).wf(),
            i < N,
        ensures
            final(self).wf(),
            final(self).model() == state_set(old(self).model(), i as int, v),
    {
        let ghost start = old(self).model();
        proof {
            self.lemma_model_valid();
        }
        loop
            invariant
                i < N,
                self.wf(),
                state_valid(start, N as nat),
                start == old(self).model(),
                self.model() == start || (start.kind != PaletteKind::Global && !has_room(start, v)
                    && self.model() == state_promoted(start)),
            decreases
                    (if self.model() == start && start.kind != PaletteKind::Global && !has_room(
                        start,
                        v,
                    ) {
                        1int
                    } else {
                        0int
                    }),
        {
            proof {
                lemma2_to64();
            }
            match &mut self.palette {
                StatePalette::SingleValue(val) => match val.index(v) {
                    IndexOrBits::Index(_) => {
                        proof {
                            assert(start.palette[0] == v);
                            assert(start.entries.update(i as int, v) =~= start.entries);
                        }
                        return ;
                    },
                    IndexOrBits::Bits(_) => {
                        let mut values = Vec::with_capacity(capacity(4));
                        values.push(val.0);
                        let palette = LinearPalette { bits: 4, values };
                        let data = PackedBits::<N>::new_unchecked(4);
                        proof {
                            assert(Seq::new(N as nat, |j: int| palette.values()[data@[j] as int])
                                =~= start.entries);
                        }
                        self.palette = StatePalette::Linear { palette, data };
                    },
                },
                StatePalette::Linear { palette, data } => {
                    let ghost values = palette.values();
                    let ghost indices = data@;
                    match palette.index(v) {
                        IndexOrBits::Index(k) => {
                            data.set_unchecked(i, k);
                            proof {
                                let placed_entries = Seq::new(
                                    N as nat,
                                    |j: int| values[indices[j] as int],
                                ).update(i as int, v);
                                assert(Seq::new(
                                    N as nat,
                                    |j: int| palette.values()[data@[j] as int],
                                ) =~= placed_entries);
                            }
                            return ;
                        },
                        IndexOrBits::Bits(bits) => {
                            data.repack(bits);
                            let data = data.take();
                            let mut values = Vec::new();
                            core::mem::swap(&mut palette.values, &mut values);
                            let palette = MappedPalette::with_values(values, bits);
                            self.palette = StatePalette::Mapped { palette, data };
                        },
                    }
                },
                StatePalette::Mapped { palette, data } => {
                    let ghost values = palette.values();
                    let ghost indices = data@;
                    match palette.index(v) {
                        IndexOrBits::Index(k) => {
                            data.set_unchecked(i, k);
                            proof {
                                let placed_entries = Seq::new(
                                    N as nat,
                                    |j: int| values[indices[j] as int],
                                ).update(i as int, v);
                                assert(Seq::new(
                                    N as nat,
                                    |j: int| palette.values()[data@[j] as int],
                                ) =~= placed_entries);
                            }
                            return ;
                        },
                        IndexOrBits::Bits(bits) => {
                            if bits == 9 {
                                let new_data = Self::globalize(palette, data);
                                self.palette = StatePalette::Global { data: new_data };
                            } else {
                                data.repack(bits);
                                palette.inner.bits = bits;
                            }
                        },
                    }
                },
                StatePalette::Global { data } => {
                    data.set_unchecked(i, v);
                    return ;
                },
            }
        }
    }

    /// Writes `v` at index `i` and returns the value that was there, or
    /// returns `OutOfBounds`, changing nothing, when `i` is not below `N`.
    pub fn swap(&mut self, i: usize, v: u64) -> (r: Result<u64, Error>)
        requires
            old(self).wf(),
        ensures
            final(self).wf(),
            i >= N ==> r == Err::<u64, Error>(Error::OutOfBounds) && *final(self) == *old(self),
            i < N ==> r == Ok::<u64, Error>(old(self)@[i as int]) && final(self).model()
                == state_set(old(self).model(), i as int, v),
    {
        if i >= N {
            Err(Error::OutOfBounds)
        } else {
            Ok(self.swap_unchecked(i, v))
        }
    }

    /// Writes `v` at index `i` and returns the value that was there.
    pub fn swap_unchecked(&mut self, i: usize, v: u64) -> (r: u64)
        requires
            old(self).wf(),
            i < N,
        ensures
            final(self).wf(),
            r == old(self)@[i as int],
            final(self).model() == state_set(old(self).model(), i as int, v),
    {
        let val = self.get_unchecked(i);
        self.set_unchecked(i, v);
        val
    }
}

impl<const N: usize> DataContainer<N> for BiomePaletteContainer<N> {
    open spec fn valid(&self) -> bool {
        self.wf()
    }

    open spec fn entries(&self) -> Seq<u64> {
        self@
    }

    open spec fn entries_after(&self, i: int, value: u64) -> Option<Seq<u64>> {
        if biome_admits(self.model(), value) {
            Some(biome_set(self.model(), i, value).entries)
        } else {
            None
        }
    }

    fn get(&mut self, i: usize) -> (r: Result<u64, Error>) {
        BiomePaletteContainer::get(self, i)
    }

    fn get_unchecked(&mut self, i: usize) -> (r: u64) {
        BiomePaletteContainer::get_unchecked(self, i)
    }

    fn set(&mut self, i: usize, v: u64) -> (r: Result<(), Error>) {
        BiomePaletteContainer::set(self, i, v)
    }

    fn set_unchecked(&mut self, i: usize, v: u64) -> (r: Result<(), Error>) {
        BiomePaletteContainer::set_unchecked(self, i, v)
    }

    fn swap(&mut self, i: usize, v: u64) -> (r: Result<u64, Error>) {
        BiomePaletteContainer::swap(self, i, v)
    }

    fn swap_unchecked(&mut self, i: usize, v: u64) -> (r: Result<u64, Error>) {
        BiomePaletteContainer::swap_unchecked(self, i, v)
    }
}

impl<const N: usize> DataContainer<N> for StatePaletteContainer<N> {
    open spec fn valid(&self) -> bool {
        self.wf()
    }

    open spec fn entries(&self) -> Seq<u64> {
        self@
    }

    open spec fn entries_after(&self, i: int, value: u64) -> Option<Seq<u64>> {
        Some(state_set(self.model(), i, value).entries)
    }

    fn get(&mut self, i: usize) -> (r: Result<u64, Error>) {
        StatePaletteContainer::get(self, i)
    }

    fn get_unchecked(&mut self, i: usize) -> (r: u64) {
        StatePaletteContainer::get_unchecked(self, i)
    }

    fn set(&mut self, i: usize, v: u64) -> (r: Result<(), Error>) {
        StatePaletteContainer::set(self, i, v)
    }

    fn set_unchecked(&mut self, i: usize, v: u64) -> (r: Result<(), Error>) {
        StatePaletteContainer::set_unchecked(self, i, v);
        Ok(())
    }

    fn swap(&mut self, i: usize, v: u64) -> (r: Result<u64, Error>) {
        StatePaletteContainer::swap(self, i, v)
    }

    fn swap_unchecked(&mut self, i: usize, v: u64) -> (r: Result<u64, Error>) {
        Ok(StatePaletteContainer::swap_unchecked(self, i, v))
    }
}

} // verus!
