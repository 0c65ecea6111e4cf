//! What a paletted container is, apart from how it is stored: its
//! representation, its palette and its entries, and how a write changes
//! them.

use crate::bitpack::low_bits;
use vstd::arithmetic::power2::{lemma2_to64, pow2};
use vstd::prelude::*;

verus! {

/// The representation a container uses.
#[derive(Clone, Copy, Debug, PartialEq, Eq, Structural)]
pub enum PaletteKind {
    /// One value stands at every index; no index array is kept.
    SingleValue,
    /// A list of values, searched by scanning.
    Linear,
    /// A list of values with a side map from value to index.
    Mapped,
    /// No list: the stored index is the value.
    Global,
}

/// The width of an entry of a container of kind `Global`.
pub const GLOBAL_BITS: usize = 15;

/// The widest biome palette.
pub const MAX_BIOME_BITS: usize = 3;

/// What a paletted container is, apart from how it is stored.
pub struct PaletteModel {
    /// The representation in use.
    pub kind: PaletteKind,
    /// The width of a stored index, in bits; 0 for a single value.
    pub bits: nat,
    /// The distinct values in use, in the order they arrived; empty for `Global`.
    pub palette: Seq<u64>,
    /// The value at each index of the container.
    pub entries: Seq<u64>,
}

/// The model with `value` at index `i`, the value appended to the palette
/// when it is not in it yet.
pub open spec fn placed(m: PaletteModel, i: int, value: u64) -> PaletteModel {
    PaletteModel {
        palette: if m.palette.contains(value) {
            m.palette
        } else {
            m.palette.push(value)
        },
        entries: m.entries.update(i, value),
        ..m
    }
}

/// Whether the model's palette holds `value` or has room for one more value.
pub open spec fn has_room(m: PaletteModel, value: u64) -> bool {
    m.palette.contains(value) || m.palette.len() < pow2(m.bits)
}

/// A container of `n` entries that holds `value` everywhere and lists only
/// that value, at the given kind and width.
pub open spec fn filled(kind: PaletteKind, bits: nat, n: nat, value: u64) -> PaletteModel {
    PaletteModel { kind, bits, palette: seq![value], entries: Seq::new(n, |i: int| value) }
}

/// The model of a biome container one width up, with the same palette and entries.
pub open spec fn biome_widened(m: PaletteModel) -> PaletteModel {
    PaletteModel { kind: PaletteKind::Linear, bits: m.bits + 1, ..m }
}

/// Whether a biome container can take `value`: it holds it already, or it
/// lists fewer than eight values.
pub open spec fn biome_admits(m: PaletteModel, value: u64) -> bool {
    m.palette.contains(value) || m.palette.len() < 8
}

/// A biome container after `value` was written at index `i`: widened by one
/// bit first when the value is new and the palette is full.
pub open spec fn biome_set(m: PaletteModel, i: int, value: u64) -> PaletteModel {
    if has_room(m, value) {
        placed(m, i, value)
    } else {
        placed(biome_widened(m), i, value)
    }
}

/// What holds of the model of every biome container of `n` entries.
pub open spec fn biome_valid(m: PaletteModel, n: nat) -> bool {
    &&& m.entries.len() == n
    &&& 1 <= m.palette.len() <= pow2(m.bits)
    &&& m.palette.no_duplicates()
    &&& forall|i: int| 0 <= i < n ==> m.palette.contains(#[trigger] m.entries[i])
    &&& match m.kind {
        PaletteKind::SingleValue => m.bits == 0,
        PaletteKind::Linear => 1 <= m.bits <= 3,
        _ => false,
    }
}

/// The model of a state container after its next promotion, with the same
/// entries: a single value becomes a linear palette of 4 bits, a linear
/// palette a mapped one of 5 bits, a mapped palette gains a bit up to 8,
/// and a mapped palette of 8 bits gives way to global ids, which keep the
/// low 15 bits of every entry.
pub open spec fn state_promoted(m: PaletteModel) -> PaletteModel {
    match m.kind {
        PaletteKind::SingleValue => PaletteModel { kind: PaletteKind::Linear, bits: 4, ..m },
        PaletteKind::Linear => PaletteModel { kind: PaletteKind::Mapped, bits: 5, ..m },
        PaletteKind::Mapped => if m.bits < 8 {
            PaletteModel { bits: m.bits + 1, ..m }
        } else {
            PaletteModel {
                kind: PaletteKind::Global,
                bits: 15,
                palette: Seq::empty(),
                entries: m.entries.map_values(|e: u64| low_bits(e, 15)),
            }
        },
        PaletteKind::Global => m,
    }
}

/// A state container after `value` was written at index `i`: promoted first
/// when the value is new and the palette is full. Global ids keep the low
/// 15 bits of the value.
pub open spec fn state_set(m: PaletteModel, i: int, value: u64) -> PaletteModel {
    let grown = if m.kind == PaletteKind::Global || has_room(m, value) {
        m
    } else {
        state_promoted(m)
    };
    if grown.kind == PaletteKind::Global {
        PaletteModel { entries: grown.entries.update(i, low_bits(value, 15)), ..grown }
    } else {
        placed(grown, i, value)
    }
}

/// The state container of `n` entries that `with_bits` makes, in the
/// representation that the requested width selects: up to 8 bits, `value`
/// at every index; above, global ids that are all 0, whatever `value` is.
pub open spec fn state_initial(bits: nat, n: nat, value: u64) -> PaletteModel {
    if bits == 0 {
        filled(PaletteKind::SingleValue, 0, n, value)
    } else if bits <= 4 {
        filled(PaletteKind::Linear, 4, n, value)
    } else if bits <= 8 {
        filled(PaletteKind::Mapped, bits, n, value)
    } else {
        PaletteModel {
            kind: PaletteKind::Global,
            bits: 15,
            palette: Seq::empty(),
            entries: Seq::new(n, |i: int| 0u64),
        }
    }
}

/// What holds of the model of every state container of `n` entries.
pub open spec fn state_valid(m: PaletteModel, n: nat) -> bool {
    &&& m.entries.len() == n
    &&& match m.kind {
        PaletteKind::SingleValue => m.bits == 0,
        PaletteKind::Linear => m.bits == 4,
        PaletteKind::Mapped => 5 <= m.bits <= 8,
        PaletteKind::Global => m.bits == 15,
    }
    &&& if m.kind == PaletteKind::Global {
        &&& m.palette.len() == 0
        &&& forall|i: int| 0 <= i < n ==> (#[trigger] m.entries[i] as nat) < pow2(15)
    } else {
        &&& 1 <= m.palette.len() <= pow2(m.bits)
        &&& m.palette.no_duplicates()
        &&& forall|i: int| 0 <= i < n ==> m.palette.contains(#[trigger] m.entries[i])
    }
}

/// A write to a biome container that it can take leaves a valid container.
pub proof fn lemma_biome_set_valid(m: PaletteModel, n: nat, i: int, value: u64)
    requires
        biome_valid(m, n),
        0 <= i < n,
        biome_admits(m, value),
    ensures
        biome_valid(biome_set(m, i, value), n),
{
    lemma2_to64();
    let after = biome_set(m, i, value);
    lemma_placed_palette(m.palette, value);
}

/// Appending a value that is not listed keeps the list free of duplicates,
/// and the list then holds the old values and the new one.
proof fn lemma_placed_palette(palette: Seq<u64>, value: u64)
    requires
        palette.no_duplicates(),
    ensures
        !palette.contains(value) ==> palette.push(value).no_duplicates(),
        palette.push(value).contains(value),
        forall|x: u64| palette.contains(x) ==> #[trigger] palette.push(value).contains(x),
        forall|x: u64| #[trigger]
            palette.push(value).contains(x) ==> palette.contains(x) || x == value,
        palette.push(value).to_set() =~= palette.to_set().insert(value),
{
    let grown = palette.push(value);
    assert(grown[palette.len() as int] == value);
    assert forall|x: u64| palette.contains(x) implies #[trigger] grown.contains(x) by {
        let k = choose|k: int| 0 <= k < palette.len() && palette[k] == x;
        assert(grown[k] == x);
    }
}

/// After a write that a biome container can take, the value stands at the
/// index written.
pub proof fn lemma_biome_set_reads_back(m: PaletteModel, n: nat, i: int, value: u64)
    requires
        biome_valid(m, n),
        0 <= i < n,
        biome_admits(m, value),
    ensures
        biome_set(m, i, value).entries[i] == value,
{
}

/// A write to a biome container changes no index but the one written.
pub proof fn lemma_biome_set_keeps_others(m: PaletteModel, n: nat, i: int, j: int, value: u64)
    requires
        biome_valid(m, n),
        0 <= i < n,
        0 <= j < n,
        i != j,
        biome_admits(m, value),
    ensures
        biome_set(m, i, value).entries[j] == m.entries[j],
{
}

/// A write to a state container leaves a valid container.
pub proof fn lemma_state_set_valid(m: PaletteModel, n: nat, i: int, value: u64)
    requires
        state_valid(m, n),
        0 <= i < n,
    ensures
        state_valid(state_set(m, i, value), n),
{
    lemma2_to64();
    let after = state_set(m, i, value);
    crate::bitpack::lemma_low_bits_is_mod(value, 15);
    if after.kind == PaletteKind::Global {
        assert forall|j: int| 0 <= j < n implies (#[trigger] after.entries[j] as nat) < pow2(
            15,
        ) by {
            if j != i && m.kind != PaletteKind::Global {
                crate::bitpack::lemma_low_bits_is_mod(m.entries[j], 15);
            }
        }
    } else {
        lemma_placed_palette(m.palette, value);
    }
}

/// After a write to a state container, the value stands at the index
/// written, unless the container then holds global ids and the value does
/// not fit into 15 bits.
pub proof fn lemma_state_set_reads_back(m: PaletteModel, n: nat, i: int, value: u64)
    requires
        state_valid(m, n),
        0 <= i < n,
        state_set(m, i, value).kind != PaletteKind::Global || (value as nat) < pow2(15),
    ensures
        state_set(m, i, value).entries[i] == value,
{
    if (value as nat) < pow2(15) {
        crate::bitpack::lemma_low_bits_of_small(value, 15);
    }
}

/// A write to a state container changes no index but the one written,
/// unless the write makes the container go over to global ids and the
/// value at the other index does not fit into 15 bits.
pub proof fn lemma_state_set_keeps_others(m: PaletteModel, n: nat, i: int, j: int, value: u64)
    requires
        state_valid(m, n),
        0 <= i < n,
        0 <= j < n,
        i != j,
        m.kind == PaletteKind::Global || state_set(m, i, value).kind != PaletteKind::Global || (
        m.entries[j] as nat) < pow2(15),
    ensures
        state_set(m, i, value).entries[j] == m.entries[j],
{
    if (m.entries[j] as nat) < pow2(15) {
        crate::bitpack::lemma_low_bits_of_small(m.entries[j], 15);
    }
}

/// The container after a run of writes, each an index and a value, applied
/// in order to a state container.
pub open spec fn state_run(m: PaletteModel, writes: Seq<(int, u64)>) -> PaletteModel
    decreases writes.len(),
{
    if writes.len() == 0 {
        m
    } else {
        state_set(state_run(m, writes.drop_last()), writes.last().0, writes.last().1)
    }
}

/// The container after a run of writes, each an index and a value, applied
/// in order to a biome container.
pub open spec fn biome_run(m: PaletteModel, writes: Seq<(int, u64)>) -> PaletteModel
    decreases writes.len(),
{
    if writes.len() == 0 {
        m
    } else {
        biome_set(biome_run(m, writes.drop_last()), writes.last().0, writes.last().1)
    }
}

/// The distinct values that a container has seen: the one it started with
/// and each one written.
pub open spec fn values_seen(first: u64, writes: Seq<(int, u64)>) -> Set<u64>
    decreases writes.len(),
{
    if writes.len() == 0 {
        set![first]
    } else {
        values_seen(first, writes.drop_last()).insert(writes.last().1)
    }
}

/// The smallest representation of a state container, and its width, that
/// admits `count` distinct values.
pub open spec fn state_shape_for(count: nat) -> (PaletteKind, nat) {
    if count <= 1 {
        (PaletteKind::SingleValue, 0)
    } else if count <= 16 {
        (PaletteKind::Linear, 4)
    } else if count <= 32 {
        (PaletteKind::Mapped, 5)
    } else if count <= 64 {
        (PaletteKind::Mapped, 6)
    } else if count <= 128 {
        (PaletteKind::Mapped, 7)
    } else if count <= 256 {
        (PaletteKind::Mapped, 8)
    } else {
        (PaletteKind::Global, 15)
    }
}

/// The smallest representation of a biome container, and its width, that
/// admits `count` distinct values, for a count of at most 8.
pub open spec fn biome_shape_for(count: nat) -> (PaletteKind, nat) {
    if count <= 1 {
        (PaletteKind::SingleValue, 0)
    } else if count <= 2 {
        (PaletteKind::Linear, 1)
    } else if count <= 4 {
        (PaletteKind::Linear, 2)
    } else {
        (PaletteKind::Linear, 3)
    }
}

/// The values seen are finitely many, at least one, and no fewer after
/// more writes.
proof fn lemma_values_seen(first: u64, writes: Seq<(int, u64)>)
    ensures
        values_seen(first, writes).finite(),
        values_seen(first, writes).len() >= 1,
        writes.len() > 0 ==> values_seen(first, writes.drop_last()).len() <= values_seen(
            first,
            writes,
        ).len(),
    decreases writes.len(),
{
    if writes.len() > 0 {
        lemma_values_seen(first, writes.drop_last());
    }
}

/// What holds after every run of writes to a state container that started
/// out with a single value: while a palette is kept, it lists exactly the
/// values seen, in the smallest representation that admits them.
spec fn state_run_invariant(m: PaletteModel, n: nat, seen: Set<u64>) -> bool {
    &&& state_valid(m, n)
    &&& seen.finite()
    &&& if m.kind == PaletteKind::Global {
        seen.len() > 256
    } else {
        &&& m.palette.to_set() == seen
        &&& (m.kind, m.bits) == state_shape_for(m.palette.len())
    }
}

proof fn lemma_state_run_invariant(n: nat, first: u64, writes: Seq<(int, u64)>)
    requires
        forall|k: int| 0 <= k < writes.len() ==> 0 <= (#[trigger] writes[k]).0 < n,
    ensures
        state_run_invariant(
            state_run(filled(PaletteKind::SingleValue, 0, n, first), writes),
            n,
            values_seen(first, writes),
        ),
    decreases writes.len(),
{
    lemma2_to64();
    let start = filled(PaletteKind::SingleValue, 0, n, first);
    if writes.len() == 0 {
        assert(start.palette[0] == first);
        assert(start.palette.to_set() =~= set![first]);
    } else {
        let earlier = writes.drop_last();
        lemma_state_run_invariant(n, first, earlier);
        let m = state_run(start, earlier);
        let seen = values_seen(first, earlier);
        let (i, value) = writes.last();
        lemma_state_set_valid(m, n, i, value);
        if m.kind != PaletteKind::Global {
            lemma_placed_palette(m.palette, value);
            if m.palette.contains(value) {
                assert(seen.insert(value) =~= seen);
            } else {
                m.palette.push(value).unique_seq_to_set();
            }
        }
    }
}

/// A state container that started out with a single value is, after any
/// run of writes, in the smallest representation that admits the distinct
/// values it has seen.
pub proof fn lemma_state_kind_is_smallest(n: nat, first: u64, writes: Seq<(int, u64)>)
    requires
        forall|k: int| 0 <= k < writes.len() ==> 0 <= (#[trigger] writes[k]).0 < n,
    ensures
        ({
            let m = state_run(filled(PaletteKind::SingleValue, 0, n, first), writes);
            (m.kind, m.bits) == state_shape_for(values_seen(first, writes).len())
        }),
{
    lemma_state_run_invariant(n, first, writes);
    let m = state_run(filled(PaletteKind::SingleValue, 0, n, first), writes);
    if m.kind != PaletteKind::Global {
        m.palette.unique_seq_to_set();
    }
}

/// What holds after every run of writes to a biome container that started
/// out with a single value and has seen at most 8 values: its palette lists
/// exactly the values seen, in the smallest representation that admits them.
spec fn biome_run_invariant(m: PaletteModel, n: nat, seen: Set<u64>) -> bool {
    &&& biome_valid(m, n)
    &&& seen.finite()
    &&& m.palette.to_set() == seen
    &&& (m.kind, m.bits) == biome_shape_for(m.palette.len())
}

proof fn lemma_biome_run_invariant(n: nat, first: u64, writes: Seq<(int, u64)>)
    requires
        forall|k: int| 0 <= k < writes.len() ==> 0 <= (#[trigger] writes[k]).0 < n,
        values_seen(first, writes).len() <= 8,
    ensures
        biome_run_invariant(
            biome_run(filled(PaletteKind::SingleValue, 0, n, first), writes),
            n,
            values_seen(first, writes),
        ),
        writes.len() > 0 ==> biome_admits(
            biome_run(filled(PaletteKind::SingleValue, 0, n, first), writes.drop_last()),
            writes.last().1,
        ),
    decreases writes.len(),
{
    lemma2_to64();
    let start = filled(PaletteKind::SingleValue, 0, n, first);
    if writes.len() == 0 {
        assert(start.palette[0] == first);
        assert(start.palette.to_set() =~= set![first]);
    } else {
        let earlier = writes.drop_last();
        lemma_values_seen(first, writes);
        lemma_biome_run_invariant(n, first, earlier);
        let m = biome_run(start, earlier);
        let seen = values_seen(first, earlier);
        let (i, value) = writes.last();
        lemma_placed_palette(m.palette, value);
        if m.palette.contains(value) {
            assert(seen.insert(value) =~= seen);
        } else {
            m.palette.push(value).unique_seq_to_set();
        }
    }
}

/// A biome container that started out with a single value is, after any
/// run of writes that brings it to at most 8 distinct values, in the
/// smallest representation that admits the distinct values it has seen; and
/// it could take every one of those writes.
pub proof fn lemma_biome_kind_is_smallest(n: nat, first: u64, writes: Seq<(int, u64)>)
    requires
        forall|k: int| 0 <= k < writes.len() ==> 0 <= (#[trigger] writes[k]).0 < n,
        values_seen(first, writes).len() <= 8,
    ensures
        ({
            let m = biome_run(filled(PaletteKind::SingleValue, 0, n, first), writes);
            (m.kind, m.bits) == biome_shape_for(values_seen(first, writes).len())
        }),
        writes.len() > 0 ==> biome_admits(
            biome_run(filled(PaletteKind::SingleValue, 0, n, first), writes.drop_last()),
            writes.last().1,
        ),
{
    lemma_biome_run_invariant(n, first, writes);
    let m = biome_run(filled(PaletteKind::SingleValue, 0, n, first), writes);
    m.palette.unique_seq_to_set();
}

} // verus!
