//! Chunk columns: the paletted column and section, and the flat column
//! that keeps the arrays of all its sections in one arena.

use crate::codec::{Decode, Encode};
use crate::cursor::Cursor;
use crate::error::Error;
use vstd::prelude::*;
use vstd::slice::slice_subrange;

verus! {

/// The bytes of a section's block array.
pub const BLOCKS_SIZE: usize = 4096;

/// The bytes of each of a section's half-byte arrays.
pub const HALF_ARRAY_SIZE: usize = 2048;

/// The bytes of a section that has neither sky light nor an add array.
pub const MINIMUM_SECTION_SIZE: usize = 4096 + (3 * 2048);

/// Whether bit `idx` of `val` is set.
pub open spec fn bit(val: u16, idx: u8) -> bool {
    (val >> idx) & 1 != 0
}

/// Whether bit `idx` of `val` is set, for `idx` below 16.
#[inline]
pub fn bit_at(val: u16, idx: u8) -> (r: bool)
    requires
        idx <= 0x0f,
    ensures
        r == bit(val, idx),
{
    (val >> idx) & 0b1 != 0
}

/// A chunk column, not including heightmaps: `N` section slots, bottom to
/// top, each holding a section or nothing.
pub struct ChunkColumn<const N: usize, S> {
    pub sections: [Option<S>; N],
}

/// A 16 * 16 * 16 section of a chunk: the number of its blocks that are not
/// air, as its producer counted them, and its block states and biomes.
pub struct ChunkSection<S, B> {
    pub block_count: u16,
    pub states: S,
    pub biomes: B,
}

impl<S: Encode, B: Encode> Encode for ChunkSection<S, B> {
    /// The block count, then the states, then the biomes.
    open spec fn wire(&self) -> Seq<u8> {
        self.block_count.wire() + self.states.wire() + self.biomes.wire()
    }

    fn encode(&self, out: &mut Vec<u8>) {
        self.block_count.encode(out);
        self.states.encode(out);
        self.biomes.encode(out);
    }
}

impl<S: Decode, B: Decode> Decode for ChunkSection<S, B> {
    /// The block count, then the states, then the biomes, each read from
    /// where the one before ended; the first error met is the error.
    open spec fn parse(input: Seq<u8>) -> Result<(Self, nat), Error> {
        match u16::parse(input) {
            Err(e) => Err(e),
            Ok((block_count, n0)) => match S::parse(input.skip(n0 as int)) {
                Err(e) => Err(e),
                Ok((states, n1)) => match B::parse(input.skip((n0 + n1) as int)) {
                    Err(e) => Err(e),
                    Ok((biomes, n2)) => Ok(
                        (ChunkSection { block_count, states, biomes }, n0 + n1 + n2),
                    ),
                },
            },
        }
    }

    fn decode(cursor: &mut Cursor<'_>) -> (r: Result<Self, Error>) {
        let start: usize = cursor.position();
        let ghost input = cursor.remaining();
        let block_count = u16::decode(cursor)?;
        proof {
            assert(cursor.remaining() =~= input.skip(2));
        }
        let ghost after_count = cursor.offset();
        let states = match S::decode(cursor) {
            Ok(states) => states,
            Err(e) => {
                let _ = cursor.set_position(start);
                return Err(e);
            },
        };
        proof {
            assert(cursor.remaining() =~= input.skip(2 + (cursor.offset() - after_count)));
        }
        let biomes = match B::decode(cursor) {
            Ok(biomes) => biomes,
            Err(e) => {
                let _ = cursor.set_position(start);
                return Err(e);
            },
        };
        Ok(Self { block_count, states, biomes })
    }
}

/// A section written and read back is the same section, with the same
/// block count, states and biomes, whenever its states and its biomes are
/// read back as they were written.
pub proof fn lemma_section_round_trip<S: Encode + Decode, B: Encode + Decode>(
    section: ChunkSection<S, B>,
    rest: Seq<u8>,
)
    requires
        forall|tail: Seq<u8>| #[trigger]
            S::parse(section.states.wire() + tail) == Ok::<(S, nat), Error>(
                (section.states, section.states.wire().len()),
            ),
        forall|tail: Seq<u8>| #[trigger]
            B::parse(section.biomes.wire() + tail) == Ok::<(B, nat), Error>(
                (section.biomes, section.biomes.wire().len()),
            ),
    ensures
        ChunkSection::<S, B>::parse(section.wire() + rest) == Ok::<(ChunkSection<S, B>, nat), Error>(
            (section, section.wire().len()),
        ),
{
    let input = section.wire() + rest;
    let states = section.states.wire();
    let biomes = section.biomes.wire();
    assert(input.skip(2) =~= states + (biomes + rest));
    assert(input.skip((2 + states.len()) as int) =~= biomes + rest);
}

/// The bytes of a flat section with the given optional arrays.
pub open spec fn section_size(sky_light: bool, add: bool) -> nat {
    (10240 + if sky_light {
        2048nat
    } else {
        0nat
    } + if add {
        2048nat
    } else {
        0nat
    }) as nat
}

/// The arrays of one flat section, borrowed for reading.
#[derive(Clone, Copy)]
pub struct ChunkSection0Decode<'a> {
    pub blocks: &'a [u8],
    pub metadata: &'a [u8],
    pub light: &'a [u8],
    pub sky_light: Option<&'a [u8]>,
    pub add: Option<&'a [u8]>,
    pub biomes: &'a [u8],
}

impl<'a> ChunkSection0Decode<'a> {
    /// Every array has its length: 4096 bytes of blocks, 2048 bytes each of
    /// the others.
    pub open spec fn wf(&self) -> bool {
        &&& self.blocks@.len() == 4096
        &&& self.metadata@.len() == 2048
        &&& self.light@.len() == 2048
        &&& self.sky_light is Some ==> self.sky_light->Some_0@.len() == 2048
        &&& self.add is Some ==> self.add->Some_0@.len() == 2048
        &&& self.biomes@.len() == 2048
    }

    /// The section on the wire: blocks, metadata, light, sky light if
    /// present, add if present, biomes.
    pub open spec fn wire(&self) -> Seq<u8> {
        self.blocks@ + self.metadata@ + self.light@ + (match self.sky_light {
            Some(s) => s@,
            None => Seq::empty(),
        }) + (match self.add {
            Some(a) => a@,
            None => Seq::empty(),
        }) + self.biomes@
    }

    /// Appends the section to `out` as it stands on the wire.
    pub fn encode(&self, out: &mut Vec<u8>)
        ensures
            final(out)@ == old(out)@ + self.wire(),
    {
        append(out, self.blocks);
        append(out, self.metadata);
        append(out, self.light);
        if let Some(v) = self.sky_light {
            append(out, v);
        }
        if let Some(v) = self.add {
            append(out, v);
        }
        append(out, self.biomes);
    }

    /// Reads one section from the cursor: blocks, metadata, light, sky
    /// light if `sky_light` holds, add if `add` holds, biomes. Returns
    /// `DecodeShort`, with the cursor where it was, when fewer bytes are
    /// left than the section takes.
    pub fn from_reader(cursor: &mut Cursor<'a>, sky_light: bool, add: bool) -> (r: Result<
        Self,
        Error,
    >)
        requires
            old(cursor).wf(),
        ensures
            final(cursor).wf(),
            final(cursor).bytes() == old(cursor).bytes(),
            old(cursor).remaining().len() < section_size(sky_light, add) ==> r == Err::<
                Self,
                Error,
            >(Error::DecodeShort) && final(cursor).offset() == old(cursor).offset(),
            old(cursor).remaining().len() >= section_size(sky_light, add) ==> {
                &&& r is Ok
                &&& r->Ok_0.wf()
                &&& r->Ok_0.sky_light is Some <==> sky_light
                &&& r->Ok_0.add is Some <==> add
                &&& r->Ok_0.wire() == old(cursor).remaining().subrange(
                    0,
                    section_size(sky_light, add) as int,
                )
                &&& final(cursor).offset() == old(cursor).offset() + section_size(sky_light, add)
            },
    {
        let mut size: usize = MINIMUM_SECTION_SIZE;
        if sky_light {
            size += HALF_ARRAY_SIZE;
        }
        if add {
            size += HALF_ARRAY_SIZE;
        }
        if cursor.remaining_len() < size {
            return Err(Error::DecodeShort);
        }
        let blocks = cursor.take(BLOCKS_SIZE)?;
        let metadata = cursor.take(HALF_ARRAY_SIZE)?;
        let light = cursor.take(HALF_ARRAY_SIZE)?;
        let sky_light = if sky_light {
            Some(cursor.take(HALF_ARRAY_SIZE)?)
        } else {
            None
        };
        let add = if add {
            Some(cursor.take(HALF_ARRAY_SIZE)?)
        } else {
            None
        };
        let biomes = cursor.take(HALF_ARRAY_SIZE)?;
        let section = Self { blocks, metadata, light, sky_light, add, biomes };
        Ok(section)
    }
}

/// The arrays of one flat section, borrowed for writing.
pub struct ChunkSection0<'a> {
    pub blocks: &'a mut [u8],
    pub metadata: &'a mut [u8],
    pub light: &'a mut [u8],
    pub sky_light: Option<&'a mut [u8]>,
    pub add: Option<&'a mut [u8]>,
    pub biomes: &'a mut [u8],
}

impl<'a> ChunkSection0<'a> {
    /// Every array has its length: 4096 bytes of blocks, 2048 bytes each of
    /// the others.
    pub open spec fn wf(&self) -> bool {
        &&& self.blocks@.len() == 4096
        &&& self.metadata@.len() == 2048
        &&& self.light@.len() == 2048
        &&& self.sky_light is Some ==> self.sky_light->Some_0@.len() == 2048
        &&& self.add is Some ==> self.add->Some_0@.len() == 2048
        &&& self.biomes@.len() == 2048
    }

    /// The section on the wire: blocks, metadata, light, sky light if
    /// present, add if present, biomes.
    pub open spec fn wire(&self) -> Seq<u8> {
        self.blocks@ + self.metadata@ + self.light@ + (match self.sky_light {
            Some(s) => s@,
            None => Seq::empty(),
        }) + (match self.add {
            Some(a) => a@,
            None => Seq::empty(),
        }) + self.biomes@
    }
}

impl<'a> ChunkSection0<'a> {
    /// The section whose arrays are the given bytes, in wire order. What
    /// is written through the views is written to the bytes.
    pub fn over(body: &'a mut [u8], sky_light: bool, add: bool) -> (r: Self)
        requires
            old(body)@.len() == section_size(sky_light, add),
        ensures
            r.wf(),
            r.sky_light is Some <==> sky_light,
            r.add is Some <==> add,
            r.wire() == old(body)@,
            final(body)@ == final(r.blocks)@ + final(r.metadata)@ + final(r.light)@ + (
            match r.sky_light {
                Some(v) => final(v)@,
                None => Seq::empty(),
            }) + (match r.add {
                Some(v) => final(v)@,
                None => Seq::empty(),
            }) + final(r.biomes)@,
    {
        let (blocks, rest) = body.split_at_mut(BLOCKS_SIZE);
        let (metadata, rest) = rest.split_at_mut(HALF_ARRAY_SIZE);
        let (light, rest) = rest.split_at_mut(HALF_ARRAY_SIZE);
        let (sky_light, rest) = if sky_light {
            let (v, rest) = rest.split_at_mut(HALF_ARRAY_SIZE);
            (Some(v), rest)
        } else {
            (None, rest)
        };
        let (add, biomes) = if add {
            let (v, rest) = rest.split_at_mut(HALF_ARRAY_SIZE);
            (Some(v), rest)
        } else {
            (None, rest)
        };
        let view = ChunkSection0 { blocks, metadata, light, sky_light, add, biomes };
        view
    }
}

/// The bytes that the sections below slot `i` take in a column made from
/// the three masks: a slot whose bit in `bitmask` is clear takes none.
pub open spec fn mask_offset(bitmask: u16, add: u16, sky_light: u16, i: int) -> nat
    decreases i,
{
    if i <= 0 {
        0
    } else {
        mask_offset(bitmask, add, sky_light, i - 1) + if bit(bitmask, (i - 1) as u8) {
            section_size(bit(sky_light, (i - 1) as u8), bit(add, (i - 1) as u8))
        } else {
            0
        }
    }
}

/// The bytes of all sections of a column made from the three masks.
pub open spec fn column_size(bitmask: u16, add: u16, sky_light: u16) -> nat {
    mask_offset(bitmask, add, sky_light, 16)
}

/// Offsets grow with the slot index, and the last is at most 16 full sections.
pub proof fn lemma_mask_offset_grows(bitmask: u16, add: u16, sky_light: u16, i: int, j: int)
    requires
        0 <= i <= j,
    ensures
        mask_offset(bitmask, add, sky_light, i) <= mask_offset(bitmask, add, sky_light, j),
        mask_offset(bitmask, add, sky_light, j) <= j * 14336,
    decreases j,
{
    if j > 0 {
        if i < j {
            lemma_mask_offset_grows(bitmask, add, sky_light, i, j - 1);
        } else {
            lemma_mask_offset_grows(bitmask, add, sky_light, j - 1, j - 1);
        }
    }
}

/// Where a section lies in the arena, and which optional arrays it has.
#[derive(Clone, Copy)]
struct Placement {
    offset: usize,
    sky_light: bool,
    add: bool,
}

/// Appends `src` to `buf`.
fn append(buf: &mut Vec<u8>, src: &[u8])
    ensures
        final(buf)@ == old(buf)@ + src@,
{
    buf.extend_from_slice(src);
}

/// A flat column: up to 16 sections whose arrays lie one after another, in
/// slot order, in a single arena.
pub struct ChunkColumn0 {
    buf: Vec<u8>,
    sections: [Option<Placement>; 16],
}

impl ChunkColumn0 {
    /// Whether slot `i` holds a section.
    pub closed spec fn present(&self, i: int) -> bool {
        self.sections@[i] is Some
    }

    /// Whether the section in slot `i` has a sky light array.
    pub closed spec fn has_sky_light(&self, i: int) -> bool {
        self.sections@[i] is Some && self.sections@[i]->Some_0.sky_light
    }

    /// Whether the section in slot `i` has an add array.
    pub closed spec fn has_add(&self, i: int) -> bool {
        self.sections@[i] is Some && self.sections@[i]->Some_0.add
    }

    /// The whole arena.
    pub closed spec fn arena(&self) -> Seq<u8> {
        self.buf@
    }

    /// Both columns hold sections in the same slots, with the same optional
    /// arrays.
    pub open spec fn same_slots(&self, other: Self) -> bool {
        forall|i: int|
            0 <= i < 16 ==> {
                &&& self.present(i) == other.present(i)
                &&& self.has_sky_light(i) == other.has_sky_light(i)
                &&& self.has_add(i) == other.has_add(i)
            }
    }

    /// The bytes that slot `i` takes in the arena: none when it is empty.
    pub open spec fn slot_size(&self, i: int) -> nat {
        if self.present(i) {
            section_size(self.has_sky_light(i), self.has_add(i))
        } else {
            0
        }
    }

    /// Where slot `i` starts in the arena: after all sections below it.
    pub open spec fn offset_of(&self, i: int) -> nat
        decreases i,
    {
        if i <= 0 {
            0
        } else {
            self.offset_of(i - 1) + self.slot_size(i - 1)
        }
    }

    /// The bytes of the section in slot `i`, in wire order.
    pub open spec fn section_bytes(&self, i: int) -> Seq<u8> {
        self.arena().subrange(
            self.offset_of(i) as int,
            (self.offset_of(i) + self.slot_size(i)) as int,
        )
    }

    /// The column is valid: every section lies where the sections below it
    /// end, and all of them lie inside the arena.
    pub closed spec fn wf(&self) -> bool {
        &&& forall|i: int|
            0 <= i < 16 && (#[trigger] self.sections@[i]) is Some ==> self.sections@[i]->Some_0.offset
                == self.offset_of(i)
        &&& self.offset_of(16) <= self.buf@.len()
    }

    /// In a valid column every section lies inside the arena, and sections
    /// in different slots do not overlap.
    pub proof fn lemma_sections_apart(&self, i: int, j: int)
        requires
            self.wf(),
            0 <= i < j < 16,
        ensures
            self.offset_of(i) + self.slot_size(i) <= self.offset_of(j),
            self.offset_of(j) + self.slot_size(j) <= self.arena().len(),
    {
        self.lemma_offsets_grow(i + 1, j);
        self.lemma_offsets_grow(j + 1, 16);
    }

    /// Offsets grow with the slot index.
    pub proof fn lemma_offsets_grow(&self, i: int, j: int)
        requires
            0 <= i <= j,
        ensures
            self.offset_of(i) <= self.offset_of(j),
        decreases j,
    {
        if i < j {
            self.lemma_offsets_grow(i, j - 1);
        }
    }

    /// A column without sections and with an empty arena.
    pub fn new() -> (r: Self)
        ensures
            r.wf(),
            r.arena().len() == 0,
            forall|i: int| 0 <= i < 16 ==> !r.present(i),
    {
        let r = Self { buf: Vec::new(), sections: [None;16] };
        proof {
            r.lemma_empty_offsets(16);
        }
        r
    }

    /// In a column whose slots follow the three masks, the sections start
    /// where the masks say.
    proof fn lemma_offsets_follow_masks(&self, bitmask: u16, add: u16, sky_light: u16, i: int)
        requires
            0 <= i <= 16,
            forall|j: int|
                0 <= j < i ==> {
                    &&& self.present(j) == bit(bitmask, j as u8)
                    &&& self.present(j) ==> self.has_sky_light(j) == bit(sky_light, j as u8)
                    &&& self.present(j) ==> self.has_add(j) == bit(add, j as u8)
                },
        ensures
            self.offset_of(i) == mask_offset(bitmask, add, sky_light, i),
        decreases i,
    {
        if i > 0 {
            self.lemma_offsets_follow_masks(bitmask, add, sky_light, i - 1);
        }
    }

    /// Reads a column from the cursor. For each slot from 0 to 15 whose bit
    /// in `bitmask` is set, one section follows in the input, with a sky
    /// light array if the slot's bit in `sky_light` is set and an add array
    /// if its bit in `add` is set. The sections are copied into a fresh
    /// arena in the order read. Returns `DecodeShort`, with the cursor
    /// where it was, when the input ends before the last section does.
    pub fn from_reader<'a>(cursor: &mut Cursor<'a>, bitmask: u16, add: u16, sky_light: u16) -> (r:
        Result<Self, Error>)
        requires
            old(cursor).wf(),
        ensures
            final(cursor).wf(),
            final(cursor).bytes() == old(cursor).bytes(),
            old(cursor).remaining().len() < column_size(bitmask, add, sky_light) ==> r == Err::<
                Self,
                Error,
            >(Error::DecodeShort) && final(cursor).offset() == old(cursor).offset(),
            old(cursor).remaining().len() >= column_size(bitmask, add, sky_light) ==> {
                &&& r is Ok
                &&& r->Ok_0.wf()
                &&& r->Ok_0.arena() == old(cursor).remaining().subrange(
                    0,
                    column_size(bitmask, add, sky_light) as int,
                )
                &&& r->Ok_0.wire() == r->Ok_0.arena()
                &&& forall|i: int|
                    0 <= i < 16 ==> {
                        &&& (#[trigger] r->Ok_0.present(i)) == bit(bitmask, i as u8)
                        &&& r->Ok_0.has_sky_light(i) == (bit(bitmask, i as u8) && bit(
                            sky_light,
                            i as u8,
                        ))
                        &&& r->Ok_0.has_add(i) == (bit(bitmask, i as u8) && bit(add, i as u8))
                    }
                &&& final(cursor).offset() == old(cursor).offset() + column_size(
                    bitmask,
                    add,
                    sky_light,
                )
            },
    {
        let start: usize = cursor.position();
        let ghost rest = cursor.remaining();
        let mut decode_sections: [Option<ChunkSection0Decode<'a>>; 16] = [None;16];
        let mut nsections: usize = 0;
        let mut nadd: usize = 0;
        let mut nsky_light: usize = 0;
        // create sections according to the bitmask
        let mut i: u8 = 0;
        while i < 16
            invariant
                i <= 16,
                cursor.wf(),
                cursor.bytes() == old(cursor).bytes(),
                start == old(cursor).offset(),
                rest == old(cursor).remaining(),
                cursor.offset() == start + mask_offset(bitmask, add, sky_light, i as int),
                nsections <= i,
                nadd <= i,
                nsky_light <= i,
                mask_offset(bitmask, add, sky_light, i as int) == nsections * 10240 + nsky_light
                    * 2048 + nadd * 2048,
                forall|j: int|
                    0 <= j < i ==> ((#[trigger] decode_sections@[j]) is Some) == bit(
                        bitmask,
                        j as u8,
                    ),
                forall|j: int|
                    0 <= j < i && (#[trigger] decode_sections@[j]) is Some ==> {
                        let s = decode_sections@[j]->Some_0;
                        &&& s.wf()
                        &&& (s.sky_light is Some) == bit(sky_light, j as u8)
                        &&& (s.add is Some) == bit(add, j as u8)
                        &&& s.wire() == rest.subrange(
                            mask_offset(bitmask, add, sky_light, j) as int,
                            mask_offset(bitmask, add, sky_light, j + 1) as int,
                        )
                    },
                forall|j: int| i <= j < 16 ==> (#[trigger] decode_sections@[j]) is None,
            decreases 16 - i,
        {
            let exists: bool = bit_at(bitmask, i);
            let has_add: bool = bit_at(add, i);
            let has_sky_light: bool = bit_at(sky_light, i);
            if exists {
                match ChunkSection0Decode::from_reader(cursor, has_sky_light, has_add) {
                    Ok(section) => {
                        decode_sections[i as usize] = Some(section);
                    },
                    Err(e) => {
                        proof {
                            lemma_mask_offset_grows(bitmask, add, sky_light, i + 1, 16);
                        }
                        let _ = cursor.set_position(start);
                        return Err(e);
                    },
                }
                if has_add {
                    nadd += 1;
                }
                if has_sky_light {
                    nsky_light += 1
                }
                nsections += 1;
            }
            i += 1;
        }
        let size: usize = (nsections * MINIMUM_SECTION_SIZE) + (nsky_light * 2048) + (nadd * 2048);
        let mut buf: Vec<u8> = Vec::with_capacity(size);
        let mut sections: [Option<Placement>; 16] = [None;16];

        // loop through the sections
        let mut p: usize = 0;
        let mut i: u8 = 0;
        while i < 16
            invariant
                i <= 16,
                rest.len() >= column_size(bitmask, add, sky_light),
                p == mask_offset(bitmask, add, sky_light, i as int),
                buf@ == rest.subrange(0, p as int),
                forall|j: int|
                    0 <= j < 16 ==> ((#[trigger] decode_sections@[j]) is Some) == bit(
                        bitmask,
                        j as u8,
                    ),
                forall|j: int|
                    0 <= j < 16 && (#[trigger] decode_sections@[j]) is Some ==> {
                        let s = decode_sections@[j]->Some_0;
                        &&& s.wf()
                        &&& (s.sky_light is Some) == bit(sky_light, j as u8)
                        &&& (s.add is Some) == bit(add, j as u8)
                        &&& s.wire() == rest.subrange(
                            mask_offset(bitmask, add, sky_light, j) as int,
                            mask_offset(bitmask, add, sky_light, j + 1) as int,
                        )
                    },
                forall|j: int|
                    0 <= j < i ==> ((#[trigger] sections@[j]) is Some) == bit(bitmask, j as u8),
                forall|j: int|
                    0 <= j < i && (#[trigger] sections@[j]) is Some ==> {
                        let s = sections@[j]->Some_0;
                        &&& s.sky_light == bit(sky_light, j as u8)
                        &&& s.add == bit(add, j as u8)
                        &&& s.offset == mask_offset(bitmask, add, sky_light, j)
                    },
                forall|j: int| i <= j < 16 ==> (#[trigger] sections@[j]) is None,
            decreases 16 - i,
        {
            proof {
                lemma_mask_offset_grows(bitmask, add, sky_light, i + 1, 16);
            }
            if let Some(section) = decode_sections[i as usize] {
                append(&mut buf, section.blocks);
                append(&mut buf, section.metadata);
                append(&mut buf, section.light);
                let has_sky_light = if let Some(v) = section.sky_light {
                    append(&mut buf, v);
                    true
                } else {
                    false
                };
                let has_add = if let Some(v) = section.add {
                    append(&mut buf, v);
                    true
                } else {
                    false
                };
                append(&mut buf, section.biomes);
                proof {
                    assert(buf@ =~= rest.subrange(0, p as int) + section.wire());
                }
                sections[i as usize] = Some(Placement { offset: p, sky_light: has_sky_light, add: has_add });
                p = buf.len();
            }
            i += 1;
        }
        let column = Self { buf, sections };
        proof {
            assert forall|j: int| 0 <= j <= 16 implies column.offset_of(j) == mask_offset(
                bitmask,
                add,
                sky_light,
                j,
            ) by {
                column.lemma_offsets_follow_masks(bitmask, add, sky_light, j);
            }
        }
        Ok(column)
    }

    /// All sections of the column on the wire, in slot order.
    pub open spec fn wire(&self) -> Seq<u8> {
        self.arena().subrange(0, self.offset_of(16) as int)
    }

    /// The size of the arena in bytes.
    pub fn size(&self) -> (r: usize)
        ensures
            r == self.arena().len(),
    {
        self.buf.len()
    }

    /// The section in slot `section`, if there is one, as views into the
    /// arena.
    pub fn section(&self, section: usize) -> (r: Option<ChunkSection0Decode<'_>>)
        requires
            self.wf(),
            section < 16,
        ensures
            r is Some <==> self.present(section as int),
            r is Some ==> {
                &&& r->Some_0.wf()
                &&& r->Some_0.sky_light is Some <==> self.has_sky_light(section as int)
                &&& r->Some_0.add is Some <==> self.has_add(section as int)
                &&& r->Some_0.wire() == self.section_bytes(section as int)
            },
    {
        match self.sections[section] {
            Some(place) => {
                proof {
                    self.lemma_offsets_grow(section + 1, 16);
                    assert(self.buf@.len() == self.buf.len());
                }
                let all: &[u8] = self.buf.as_slice();
                let mut at: usize = place.offset;
                let blocks = slice_subrange(all, at, at + BLOCKS_SIZE);
                at += BLOCKS_SIZE;
                let metadata = slice_subrange(all, at, at + HALF_ARRAY_SIZE);
                at += HALF_ARRAY_SIZE;
                let light = slice_subrange(all, at, at + HALF_ARRAY_SIZE);
                at += HALF_ARRAY_SIZE;
                let sky_light = if place.sky_light {
                    let v = slice_subrange(all, at, at + HALF_ARRAY_SIZE);
                    at += HALF_ARRAY_SIZE;
                    Some(v)
                } else {
                    None
                };
                let add = if place.add {
                    let v = slice_subrange(all, at, at + HALF_ARRAY_SIZE);
                    at += HALF_ARRAY_SIZE;
                    Some(v)
                } else {
                    None
                };
                let biomes = slice_subrange(all, at, at + HALF_ARRAY_SIZE);
                let view = ChunkSection0Decode { blocks, metadata, light, sky_light, add, biomes };
                Some(view)
            },
            None => None,
        }
    }

    /// Appends all sections of the column to `out`, in slot order, as they
    /// stand on the wire.
    pub fn encode(&self, out: &mut Vec<u8>)
        requires
            self.wf(),
        ensures
            final(out)@ == old(out)@ + self.wire(),
    {
        let mut i: usize = 0;
        while i < 16
            invariant
                i <= 16,
                self.wf(),
                out@ == old(out)@ + self.arena().subrange(0, self.offset_of(i as int) as int),
            decreases 16 - i,
        {
            proof {
                self.lemma_offsets_grow(i + 1, 16);
            }
            if let Some(view) = self.section(i) {
                view.encode(out);
            }
            i += 1;
        }
    }

    /// The section in slot `section`, if there is one, as views into the
    /// arena through which its arrays can be written. The slots stay as
    /// they are, and so do all bytes of the arena outside the section; the
    /// column stays valid as long as no view changes its length.
    pub fn section_mut(&mut self, section: usize) -> (r: Option<ChunkSection0<'_>>)
        requires
            old(self).wf(),
            section < 16,
        ensures
            r is Some <==> old(self).present(section as int),
            final(self).same_slots(*old(self)),
            r is None ==> final(self).wf() && final(self).arena() == old(self).arena(),
            r is Some ==> {
                let s = r->Some_0;
                let start = old(self).offset_of(section as int) as int;
                let end = start + old(self).slot_size(section as int);
                let written = final(s.blocks)@ + final(s.metadata)@ + final(s.light)@ + (
                match s.sky_light {
                    Some(v) => final(v)@,
                    None => Seq::empty(),
                }) + (match s.add {
                    Some(v) => final(v)@,
                    None => Seq::empty(),
                }) + final(s.biomes)@;
                &&& s.wf()
                &&& s.sky_light is Some <==> old(self).has_sky_light(section as int)
                &&& s.add is Some <==> old(self).has_add(section as int)
                &&& s.wire() == old(self).section_bytes(section as int)
                &&& final(self).arena() == old(self).arena().subrange(0, start) + written + old(
                    self,
                ).arena().subrange(end, old(self).arena().len() as int)
                &&& written.len() == end - start ==> final(self).wf()
            },
    {
        match self.sections[section] {
            Some(place) => {
                proof {
                    self.lemma_offsets_grow(section + 1, 16);
                    assert forall|other: Self, i: int|
                        0 <= i <= 16 && other.same_slots(*self) implies #[trigger] other.offset_of(
                        i,
                    ) == self.offset_of(i) by {
                        other.lemma_same_offsets(*self, i);
                    }
                }
                let mut size: usize = MINIMUM_SECTION_SIZE;
                if place.sky_light {
                    size += HALF_ARRAY_SIZE;
                }
                if place.add {
                    size += HALF_ARRAY_SIZE;
                }
                let all: &mut [u8] = self.buf.as_mut_slice();
                let (_, rest) = all.split_at_mut(place.offset);
                let (body, _) = rest.split_at_mut(size);
                Some(ChunkSection0::over(body, place.sky_light, place.add))
            },
            None => None,
        }
    }

    /// Grows the arena by `M` bytes: a fresh arena takes the old bytes
    /// unchanged, every section keeps its slot, its arrays and its place,
    /// and the `M` new bytes, all zero, are handed out for writing.
    pub fn reallocate<const M: usize>(&mut self) -> (r: &mut [u8])
        requires
            old(self).wf(),
            M != 0,
            old(self).arena().len() + M <= usize::MAX,
        ensures
            r@ == Seq::new(M as nat, |i: int| 0u8),
            final(self).wf(),
            final(self).same_slots(*old(self)),
            final(self).arena() == old(self).arena() + final(r)@,
            forall|i: int|
                0 <= i < 16 ==> #[trigger] final(self).section_bytes(i) == old(self).section_bytes(
                    i,
                ),
    {
        let ghost before = *self;
        let old_size: usize = self.buf.len();
        let mut new_buf: Vec<u8> = Vec::with_capacity(old_size + M);
        append(&mut new_buf, self.buf.as_slice());
        let mut filled: usize = 0;
        while filled < M
            invariant
                filled <= M,
                old_size + M <= usize::MAX,
                new_buf@ == before.arena() + Seq::new(filled as nat, |i: int| 0u8),
                old_size == before.arena().len(),
            decreases M - filled,
        {
            new_buf.push(0);
            filled += 1;
        }

        let mut sections: [Option<Placement>; 16] = [None;16];
        let mut p: usize = 0;
        let mut i: usize = 0;
        while i < 16
            invariant
                i <= 16,
                *self == before,
                self.wf(),
                p == self.offset_of(i as int),
                forall|j: int| 0 <= j < i ==> (#[trigger] sections@[j]) == self.sections@[j],
                forall|j: int| i <= j < 16 ==> (#[trigger] sections@[j]) is None,
            decreases 16 - i,
        {
            proof {
                self.lemma_offsets_grow(i + 1, 16);
                assert(self.buf@.len() == self.buf.len());
            }
            if let Some(old_section) = self.sections[i] {
                let mut size: usize = MINIMUM_SECTION_SIZE;
                if old_section.sky_light {
                    size += HALF_ARRAY_SIZE;
                }
                if old_section.add {
                    size += HALF_ARRAY_SIZE;
                }
                sections[i] = Some(
                    Placement { offset: p, sky_light: old_section.sky_light, add: old_section.add },
                );
                p += size;
            }
            i += 1;
        }
        proof {
            assert forall|other: Self, k: int|
                0 <= k <= 16 && other.same_slots(before) implies #[trigger] other.offset_of(k)
                == before.offset_of(k) by {
                other.lemma_same_offsets(before, k);
            }
            assert forall|other: Self, grown: Seq<u8>, k: int|
                #![trigger other.section_bytes(k), before.arena() + grown]
                0 <= k < 16 && other.same_slots(before) && other.arena() == before.arena()
                    + grown implies other.section_bytes(k) == before.section_bytes(k) by {
                before.lemma_offsets_grow(k + 1, 16);
            }
        }
        self.buf = new_buf;
        self.sections = sections;

        let all: &mut [u8] = self.buf.as_mut_slice();
        let (_head, tail) = all.split_at_mut(old_size);
        proof {
            assert(_head@ =~= before.arena());
        }
        tail
    }

    /// Columns with the same slots have the same offsets.
    pub proof fn lemma_same_offsets(&self, other: Self, i: int)
        requires
            0 <= i <= 16,
            self.same_slots(other),
        ensures
            self.offset_of(i) == other.offset_of(i),
        decreases i,
    {
        if i > 0 {
            self.lemma_same_offsets(other, i - 1);
        }
    }

    proof fn lemma_empty_offsets(&self, i: int)
        requires
            forall|j: int| 0 <= j < 16 ==> !self.present(j),
            0 <= i <= 16,
        ensures
            self.offset_of(i) == 0,
        decreases i,
    {
        if i > 0 {
            self.lemma_empty_offsets(i - 1);
        }
    }
}

} // verus!
