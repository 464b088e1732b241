//! What holds of every encoding, stated over the model and proved.

use vstd::prelude::*;
use crate::memory::Writeable;
use crate::model::{
    item_arrays, items_arrays, lemma_write_item_extends, lemma_write_items_extends, read_entries,
    read_entry, Item, Memory, MemoryEntry,
};

verus! {

/// Each value of `values` as a scalar item.
pub open spec fn scalar_items(values: Seq<u64>) -> Seq<Item> {
    values.map_values(|v: u64| Item::Scalar(v))
}

/// Each value of `values` as a value entry.
pub open spec fn value_entries(values: Seq<u64>) -> Seq<MemoryEntry> {
    values.map_values(|v: u64| MemoryEntry::Value(v))
}

/// Values written one after the other into a fresh memory leave a single
/// segment, the root, which holds exactly these values in the order in which
/// they were written.
pub proof fn law_values_fill_root(values: Seq<u64>)
    ensures
        Memory::fresh().write_items(scalar_items(values)) == (Memory {
            segments: seq![value_entries(values)],
            current: 0,
        }),
    decreases values.len(),
{
    let items = scalar_items(values);
    if values.len() == 0 {
        assert(value_entries(values) =~= Seq::<MemoryEntry>::empty());
        assert(seq![value_entries(values)] =~= Memory::fresh().segments);
    } else {
        law_values_fill_root(values.drop_last());
        assert(items.drop_last() =~= scalar_items(values.drop_last()));
        let before = Memory::fresh().write_items(items.drop_last());
        let after = before.write_item(items.last());
        assert(items.last() == Item::Scalar(values.last()));
        assert(value_entries(values.drop_last()).push(MemoryEntry::Value(values.last()))
            =~= value_entries(values));
        assert(after.segments =~= seq![value_entries(values)]);
    }
}

/// Writing an array leaves the active segment active, appends to it exactly
/// one entry, the pointer to the start of the segment that was allocated
/// first, allocates one segment for the array and one for each array nested
/// in it, fills the array's segment with one entry per element, and changes
/// no other segment that existed before.
pub proof fn law_array_one_segment_one_pointer(m: Memory, elements: Seq<Item>)
    requires
        m.wf(),
    ensures
        ({
            let after = m.write_item(Item::Array(elements));
            &&& after.wf()
            &&& after.current == m.current
            &&& after.active() == m.active().push(
                MemoryEntry::Pointer { segment_index: m.segments.len() as usize, offset: 0 },
            )
            &&& after.segments.len() == m.segments.len() + 1 + items_arrays(elements)
            &&& after.segments[m.segments.len() as int].len() == elements.len()
            &&& forall|i: int|
                0 <= i < m.segments.len() && i != m.current ==> #[trigger] after.segments[i]
                    == m.segments[i]
        }),
{
    let opened = m.open_segment();
    let filled = opened.write_items(elements);
    lemma_write_items_extends(opened, elements);
    lemma_write_item_extends(m, Item::Array(elements));
    let after = m.write_item(Item::Array(elements));
    assert(filled.resume(m.current).active() == m.active());
    assert(opened.active() =~= Seq::<MemoryEntry>::empty());
}

/// Writing scalars only allocates nothing: an array of scalars takes exactly
/// one new segment.
pub proof fn law_scalars_allocate_nothing(values: Seq<u64>)
    ensures
        items_arrays(scalar_items(values)) == 0,
    decreases values.len(),
{
    let items = scalar_items(values);
    if values.len() > 0 {
        law_scalars_allocate_nothing(values.drop_last());
        assert(items.drop_last() =~= scalar_items(values.drop_last()));
        assert(items.last() == Item::Scalar(values.last()));
        assert(item_arrays(items.last()) == 0);
    }
}

/// Writing an item keeps every pointer pointing to the start of a segment
/// that was allocated after the one that holds it.
pub proof fn law_item_keeps_pointers_forward(m: Memory, item: Item)
    requires
        m.wf(),
        m.forward(),
        m.segments.len() + item_arrays(item) <= usize::MAX,
    ensures
        m.write_item(item).forward(),
    decreases item, 0int,
{
    match item {
        Item::Scalar(v) => {},
        Item::Array(elements) => {
            let opened = m.open_segment();
            let filled = opened.write_items(elements);
            assert(opened.forward());
            law_items_keep_pointers_forward(opened, elements);
            lemma_write_items_extends(opened, elements);
        },
    }
}

/// Writing items keeps every pointer pointing to the start of a segment that
/// was allocated after the one that holds it.
pub proof fn law_items_keep_pointers_forward(m: Memory, items: Seq<Item>)
    requires
        m.wf(),
        m.forward(),
        m.segments.len() + items_arrays(items) <= usize::MAX,
    ensures
        m.write_items(items).forward(),
    decreases items, 1int,
{
    if items.len() > 0 {
        law_items_keep_pointers_forward(m, items.drop_last());
        lemma_write_items_extends(m, items.drop_last());
        law_item_keeps_pointers_forward(m.write_items(items.drop_last()), items.last());
    }
}

/// The entry that stands for `item` in the segment it is written into, when
/// `next_segment` is the index of the next segment to be allocated.
pub open spec fn entry_for(item: Item, next_segment: int) -> MemoryEntry {
    match item {
        Item::Scalar(v) => MemoryEntry::Value(v),
        Item::Array(_) => MemoryEntry::Pointer {
            segment_index: next_segment as usize,
            offset: 0,
        },
    }
}

/// The index of the next segment to be allocated once the first `k` of
/// `items` have been written into `m`.
pub open spec fn segment_after(m: Memory, items: Seq<Item>, k: int) -> int {
    (m.segments.len() + items_arrays(items.take(k))) as int
}

/// The arrays among the first `j` items are among those of the first `k`,
/// for `j <= k`; the item at `j` adds its own.
proof fn lemma_arrays_of_prefixes(items: Seq<Item>, j: int, k: int)
    requires
        0 <= j <= k <= items.len(),
    ensures
        items_arrays(items.take(j)) <= items_arrays(items.take(k)),
        j < k ==> items_arrays(items.take(j)) + item_arrays(items[j]) <= items_arrays(
            items.take(k),
        ),
    decreases k - j,
{
    if j < k {
        lemma_arrays_of_prefixes(items, j + 1, k);
        assert(items.take(j + 1).drop_last() =~= items.take(j));
        assert(items.take(j + 1).last() == items[j]);
    }
}

/// The `k`-th of the items written stands at the `k`-th place after what
/// the active segment held before: a scalar as its value, an array as the
/// pointer to the segment that was next to be allocated when its turn came.
pub proof fn law_entries_in_order(m: Memory, items: Seq<Item>, k: int)
    requires
        m.wf(),
        0 <= k < items.len(),
    ensures
        m.write_items(items).active().len() == m.active().len() + items.len(),
        m.write_items(items).active()[m.active().len() + k] == entry_for(
            items[k],
            segment_after(m, items, k),
        ),
    decreases items.len(),
{
    let before = m.write_items(items.drop_last());
    let after = m.write_items(items);
    lemma_write_items_extends(m, items);
    lemma_write_items_extends(m, items.drop_last());
    lemma_write_item_extends(before, items.last());
    if k == items.len() - 1 {
        assert(items.take(k) =~= items.drop_last());
        match items.last() {
            Item::Scalar(v) => {},
            Item::Array(elements) => {
                let filled = before.open_segment().write_items(elements);
                lemma_write_items_extends(before.open_segment(), elements);
                assert(filled.resume(before.current).active() == before.active());
            },
        }
    } else {
        law_entries_in_order(m, items.drop_last(), k);
        assert(items.drop_last().take(k) =~= items.take(k));
        assert(after.active().take(before.active().len() as int)[m.active().len() + k]
            == after.active()[m.active().len() + k]);
    }
}

/// Segments are allocated depth first: the segment of an array and those of
/// all the arrays nested in it come before the segment of any array that is
/// written later.
pub proof fn law_segments_in_preorder(m: Memory, items: Seq<Item>, j: int, k: int)
    requires
        0 <= j < k <= items.len(),
    ensures
        segment_after(m, items, j) + item_arrays(items[j]) <= segment_after(m, items, k),
        items[j] is Array ==> segment_after(m, items, j) < segment_after(m, items, k),
{
    lemma_arrays_of_prefixes(items, j, k);
}

/// The segment of the array at place `k` holds what its elements wrote
/// there when its turn came, and the segments of the arrays nested in it
/// follow it directly: nothing that is written later changes it.
pub proof fn law_array_segment_is_settled(m: Memory, items: Seq<Item>, k: int)
    requires
        m.wf(),
        0 <= k < items.len(),
        items[k] is Array,
    ensures
        m.segments.len() <= segment_after(m, items, k) < m.write_items(items).segments.len(),
        m.write_items(items).segments[segment_after(m, items, k)] == m.write_items(
            items.take(k),
        ).open_segment().write_items(items[k]->Array_0).active(),
    decreases items.len(),
{
    let before = m.write_items(items.drop_last());
    let after = m.write_items(items);
    lemma_write_items_extends(m, items);
    lemma_write_items_extends(m, items.drop_last());
    lemma_write_item_extends(before, items.last());
    if k == items.len() - 1 {
        assert(items.take(k) =~= items.drop_last());
        let elements = items[k]->Array_0;
        let opened = before.open_segment();
        let filled = opened.write_items(elements);
        lemma_write_items_extends(opened, elements);
    } else {
        law_array_segment_is_settled(m, items.drop_last(), k);
        assert(items.drop_last().take(k) =~= items.take(k));
        assert(items.drop_last()[k] == items[k]);
    }
}

/// What a reader finds in a segment does not change when segments are added
/// and earlier segments change, as long as the entries read and all later
/// segments stay as they are.
proof fn lemma_read_unchanged(a: Memory, b: Memory, segment: int, from: int, to: int)
    requires
        a.forward(),
        a.segments.len() <= b.segments.len(),
        0 <= segment < a.segments.len(),
        0 <= from,
        to <= a.segments[segment].len(),
        to <= b.segments[segment].len(),
        forall|j: int| from <= j < to ==> b.segments[segment][j] == a.segments[segment][j],
        forall|i: int| segment < i < a.segments.len() ==> b.segments[i] == a.segments[i],
    ensures
        read_entries(b.segments, segment, from, to) == read_entries(a.segments, segment, from, to),
    decreases a.segments.len() - segment, to - from + 1,
{
    if from < to {
        lemma_read_unchanged(a, b, segment, from, to - 1);
        let entry = a.segments[segment][to - 1];
        assert(b.segments[segment][to - 1] == entry);
        match entry {
            MemoryEntry::Value(v) => {},
            MemoryEntry::Pointer { segment_index, offset } => {
                let target = segment_index as int;
                assert(segment < target < a.segments.len());
                assert(b.segments[target] == a.segments[target]);
                lemma_read_unchanged(a, b, target, offset as int, a.segments[target].len() as int);
            },
        }
        assert(read_entry(b.segments, segment, entry) == read_entry(a.segments, segment, entry));
    }
}

/// A reader who follows the pointer finds the item that was written.
pub proof fn law_item_reads_back(m: Memory, item: Item)
    requires
        m.wf(),
        m.forward(),
        m.segments.len() + item_arrays(item) <= usize::MAX,
    ensures
        read_entry(
            m.write_item(item).segments,
            m.current,
            m.write_item(item).active()[m.active().len() as int],
        ) == item,
    decreases item, 0int,
{
    let after = m.write_item(item);
    match item {
        Item::Scalar(v) => {},
        Item::Array(elements) => {
            let index = m.segments.len() as int;
            let opened = m.open_segment();
            let filled = opened.write_items(elements);
            assert(opened.forward());
            assert(opened.active() =~= Seq::<MemoryEntry>::empty());
            law_items_read_back(opened, elements);
            law_items_keep_pointers_forward(opened, elements);
            lemma_write_items_extends(opened, elements);
            assert(filled.resume(m.current).active() == m.active());
            assert(after.segments[index] == filled.segments[index]);
            lemma_read_unchanged(filled, after, index, 0, elements.len() as int);
        },
    }
}

/// Nothing is lost: a reader who knows where the items were written and how
/// many they are, and who follows the pointers, finds the items that were
/// written, nested arrays included. The segment of a nested array holds one
/// entry per element, so below the top the count is the segment's length.
pub proof fn law_items_read_back(m: Memory, items: Seq<Item>)
    requires
        m.wf(),
        m.forward(),
        m.segments.len() + items_arrays(items) <= usize::MAX,
    ensures
        read_entries(
            m.write_items(items).segments,
            m.current,
            m.active().len() as int,
            (m.active().len() + items.len()) as int,
        ) == items,
    decreases items, 1int,
{
    let start = m.active().len() as int;
    if items.len() == 0 {
        assert(read_entries(m.segments, m.current, start, start) =~= items);
    } else {
        let before = m.write_items(items.drop_last());
        let after = before.write_item(items.last());
        law_items_read_back(m, items.drop_last());
        law_items_keep_pointers_forward(m, items.drop_last());
        lemma_write_items_extends(m, items.drop_last());
        lemma_write_item_extends(before, items.last());
        law_item_reads_back(before, items.last());
        let end = start + items.len() - 1;
        assert forall|j: int| start <= j < end implies after.segments[m.current][j]
            == before.segments[m.current][j] by {
            assert(after.active().take(before.active().len() as int)[j] == after.active()[j]);
        }
        lemma_read_unchanged(before, after, m.current, start, end);
        assert(read_entries(after.segments, m.current, start, end + 1) =~= items.drop_last().push(
            items.last(),
        ));
        assert(items.drop_last().push(items.last()) =~= items);
    }
}

/// Whatever is written into a fresh memory can be read back from its root
/// segment.
pub proof fn law_root_reads_back(items: Seq<Item>)
    requires
        1 + items_arrays(items) <= usize::MAX,
    ensures
        read_entries(
            Memory::fresh().write_items(items).segments,
            0,
            0,
            Memory::fresh().write_items(items).segments[0].len() as int,
        ) == items,
{
    let m = Memory::fresh();
    assert(m.active() =~= Seq::<MemoryEntry>::empty());
    lemma_write_items_extends(m, items);
    law_items_read_back(m, items);
}

/// A number is written as the same scalar whatever the width of its type.
pub proof fn law_widening_keeps_value(byte: u8, word: usize, value: u64)
    requires
        byte as int == value as int,
        word as int == value as int,
    ensures
        byte.items() == seq![Item::Scalar(value)],
        word.items() == seq![Item::Scalar(value)],
        value.items() == seq![Item::Scalar(value)],
        Memory::fresh().write_items(byte.items()).segments == seq![seq![MemoryEntry::Value(value)]],
{
    assert(scalar_items(seq![value]) =~= seq![Item::Scalar(value)]);
    assert(value_entries(seq![value]) =~= seq![MemoryEntry::Value(value)]);
    law_values_fill_root(seq![value]);
}

} // verus!
