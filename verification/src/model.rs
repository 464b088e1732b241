//! The mathematical model of the segmented memory and of what is written into it.

use vstd::prelude::*;

verus! {

/// One cell of a segment: a scalar, or a reference to a place in another segment.
#[derive(Clone, Copy, Debug, PartialEq, Eq, Structural)]
pub enum MemoryEntry {
    Value(u64),
    Pointer { segment_index: usize, offset: usize },
}

/// An entry as it is handed out: a plain number, or a reference to a place
/// in a segment.
#[derive(Clone, Copy, Debug, PartialEq, Eq, Structural)]
pub enum Rendered {
    Number(u64),
    Reference { segment: usize, offset: usize },
}

/// How an entry is handed out: a value as its number, a pointer as the
/// reference to the same place.
pub open spec fn render(entry: MemoryEntry) -> Rendered {
    match entry {
        MemoryEntry::Value(v) => Rendered::Number(v),
        MemoryEntry::Pointer { segment_index, offset } => Rendered::Reference {
            segment: segment_index,
            offset,
        },
    }
}

/// How a list of segments is handed out: segment by segment, entry by entry.
pub open spec fn render_segments(segments: Seq<Seq<MemoryEntry>>) -> Seq<Seq<Rendered>> {
    segments.map_values(|s: Seq<MemoryEntry>| s.map_values(|e: MemoryEntry| render(e)))
}

/// What a value contributes to the segment it is written into: a scalar, or an
/// array whose elements live in a segment of their own.
pub enum Item {
    Scalar(u64),
    Array(Seq<Item>),
}

/// The segments allocated so far, in allocation order, and the index of the
/// segment that receives the next entry.
pub struct Memory {
    pub segments: Seq<Seq<MemoryEntry>>,
    pub current: int,
}

/// An entry held by segment `holder`, of `count` segments, is a value or
/// points to the start of a segment that was allocated later.
pub open spec fn entry_forward(entry: MemoryEntry, holder: int, count: int) -> bool {
    match entry {
        MemoryEntry::Value(_) => true,
        MemoryEntry::Pointer { segment_index, offset } => holder < segment_index < count && offset
            == 0,
    }
}

impl Memory {
    /// The active segment exists.
    pub open spec fn wf(self) -> bool {
        0 <= self.current < self.segments.len()
    }

    /// Every pointer refers to the start of a segment that exists and was
    /// allocated after the segment that holds the pointer.
    pub open spec fn forward(self) -> bool {
        forall|i: int, j: int|
            0 <= i < self.segments.len() && 0 <= j < self.segments[i].len() ==> entry_forward(
                #[trigger] self.segments[i][j],
                i,
                self.segments.len() as int,
            )
    }

    /// The memory right after construction: an empty root segment, active.
    pub open spec fn fresh() -> Memory {
        Memory { segments: seq![Seq::<MemoryEntry>::empty()], current: 0 }
    }

    /// The entries of the active segment.
    pub open spec fn active(self) -> Seq<MemoryEntry> {
        self.segments[self.current]
    }

    /// This memory with `entry` appended to the active segment.
    pub open spec fn append(self, entry: MemoryEntry) -> Memory {
        Memory {
            segments: self.segments.update(self.current, self.active().push(entry)),
            current: self.current,
        }
    }

    /// This memory with a new, empty segment at the end, made active.
    pub open spec fn open_segment(self) -> Memory {
        Memory {
            segments: self.segments.push(Seq::<MemoryEntry>::empty()),
            current: self.segments.len() as int,
        }
    }

    /// This memory with `current` made active again.
    pub open spec fn resume(self, current: int) -> Memory {
        Memory { segments: self.segments, current }
    }

    /// This memory after `item` has been written: a scalar is appended to the
    /// active segment; an array gets the next free segment, its elements are
    /// written there in order, and a pointer to that segment's start is
    /// appended to the segment that was active before.
    pub open spec fn write_item(self, item: Item) -> Memory
        decreases item, 0int,
    {
        match item {
            Item::Scalar(v) => self.append(MemoryEntry::Value(v)),
            Item::Array(elements) => self.open_segment().write_items(elements).resume(
                self.current,
            ).append(
                MemoryEntry::Pointer { segment_index: self.segments.len() as usize, offset: 0 },
            ),
        }
    }

    /// This memory after the `items` have been written one after the other.
    pub open spec fn write_items(self, items: Seq<Item>) -> Memory
        decreases items, 1int,
    {
        if items.len() == 0 {
            self
        } else {
            self.write_items(items.drop_last()).write_item(items.last())
        }
    }
}

/// What the entries of segment `segment` from place `from` up to, not
/// including, place `to` stand for, as a reader finds it who follows the
/// pointers.
pub open spec fn read_entries(
    segments: Seq<Seq<MemoryEntry>>,
    segment: int,
    from: int,
    to: int,
) -> Seq<Item>
    decreases segments.len() - segment, to - from + 1,
{
    if 0 <= segment < segments.len() && 0 <= from < to <= segments[segment].len() {
        read_entries(segments, segment, from, to - 1).push(
            read_entry(segments, segment, segments[segment][to - 1]),
        )
    } else {
        Seq::empty()
    }
}

/// What `entry`, held by segment `holder`, stands for: a value for a scalar,
/// a pointer for the array that the segment it points to holds from the
/// pointer's offset to its end.
pub open spec fn read_entry(segments: Seq<Seq<MemoryEntry>>, holder: int, entry: MemoryEntry) -> Item
    decreases segments.len() - holder, 0int,
{
    match entry {
        MemoryEntry::Value(v) => Item::Scalar(v),
        MemoryEntry::Pointer { segment_index, offset } => if 0 <= holder < segment_index
            < segments.len() {
            Item::Array(
                read_entries(
                    segments,
                    segment_index as int,
                    offset as int,
                    segments[segment_index as int].len() as int,
                ),
            )
        } else {
            Item::Array(Seq::empty())
        },
    }
}

/// The number of arrays in `item`, itself and the nested ones: the number of
/// segments that writing it allocates.
pub open spec fn item_arrays(item: Item) -> nat
    decreases item, 0int,
{
    match item {
        Item::Scalar(_) => 0,
        Item::Array(elements) => 1 + items_arrays(elements),
    }
}

/// The number of arrays in `items`, nested ones included.
pub open spec fn items_arrays(items: Seq<Item>) -> nat
    decreases items, 1int,
{
    if items.len() == 0 {
        0
    } else {
        items_arrays(items.drop_last()) + item_arrays(items.last())
    }
}

/// `later` is what `earlier` may become by writing: the same active segment
/// index, no segment lost or changed but the active one, which has only grown
/// at its end.
pub open spec fn extends(earlier: Memory, later: Memory) -> bool {
    &&& later.wf()
    &&& later.current == earlier.current
    &&& later.segments.len() >= earlier.segments.len()
    &&& forall|i: int|
        0 <= i < earlier.segments.len() && i != earlier.current ==> #[trigger] later.segments[i]
            == earlier.segments[i]
    &&& later.active().len() >= earlier.active().len()
    &&& later.active().take(earlier.active().len() as int) == earlier.active()
}

/// Writing one item allocates one segment per array in it, adds one entry to
/// the active segment and leaves everything else as it was.
pub proof fn lemma_write_item_extends(m: Memory, item: Item)
    requires
        m.wf(),
    ensures
        extends(m, m.write_item(item)),
        m.write_item(item).segments.len() == m.segments.len() + item_arrays(item),
        m.write_item(item).active().len() == m.active().len() + 1,
    decreases item, 0int,
{
    match item {
        Item::Scalar(v) => {
            let r = m.append(MemoryEntry::Value(v));
            assert(r.active().take(m.active().len() as int) =~= m.active());
        },
        Item::Array(elements) => {
            let opened = m.open_segment();
            let filled = opened.write_items(elements);
            lemma_write_items_extends(opened, elements);
            let resumed = filled.resume(m.current);
            assert(resumed.active() == m.active());
            let r = m.write_item(item);
            assert(r.active().take(m.active().len() as int) =~= m.active());
        },
    }
}

/// Writing items allocates one segment per array in them, adds one entry per
/// item to the active segment and leaves everything else as it was.
pub proof fn lemma_write_items_extends(m: Memory, items: Seq<Item>)
    requires
        m.wf(),
    ensures
        extends(m, m.write_items(items)),
        m.write_items(items).segments.len() == m.segments.len() + items_arrays(items),
        m.write_items(items).active().len() == m.active().len() + items.len(),
    decreases items, 1int,
{
    if items.len() == 0 {
        assert(m.active().take(m.active().len() as int) =~= m.active());
    } else {
        let before = m.write_items(items.drop_last());
        lemma_write_items_extends(m, items.drop_last());
        lemma_write_item_extends(before, items.last());
        let r = before.write_item(items.last());
        assert(r.active().take(m.active().len() as int) =~= before.active().take(
            m.active().len() as int,
        ));
    }
}

/// Writing a single item is writing the sequence that holds only that item.
pub proof fn lemma_write_items_single(m: Memory, item: Item)
    ensures
        m.write_items(seq![item]) == m.write_item(item),
{
    let one = seq![item];
    assert(one.drop_last() =~= Seq::<Item>::empty());
    assert(m.write_items(one.drop_last()) == m);
    assert(one.last() == item);
}

/// Writing `items` and then `item` is writing `items` with `item` at its end.
pub proof fn lemma_write_items_push(m: Memory, items: Seq<Item>, item: Item)
    ensures
        m.write_items(items.push(item)) == m.write_items(items).write_item(item),
{
    let all = items.push(item);
    assert(all.drop_last() =~= items);
    assert(all.last() == item);
}

/// Writing `first` and then `second` is writing the two in one go.
pub proof fn lemma_write_items_concat(m: Memory, first: Seq<Item>, second: Seq<Item>)
    ensures
        m.write_items(first + second) == m.write_items(first).write_items(second),
    decreases second.len(),
{
    if second.len() == 0 {
        assert(first + second =~= first);
    } else {
        lemma_write_items_concat(m, first, second.drop_last());
        assert((first + second).drop_last() =~= first + second.drop_last());
        assert((first + second).last() == second.last());
    }
}

} // verus!
