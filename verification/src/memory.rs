//! The encoding engine: the segment list and the segment that is being filled.

use vstd::prelude::*;
use crate::laws::law_array_one_segment_one_pointer;
use crate::model::{
    entry_forward, items_arrays, lemma_write_items_concat, lemma_write_items_extends, render,
    render_segments, Item, Memory, MemoryEntry, Rendered,
};

verus! {

/// The view of a list of segments as sequences of entries.
pub open spec fn segments_view(segments: Seq<Vec<MemoryEntry>>) -> Seq<Seq<MemoryEntry>> {
    segments.map_values(|s: Vec<MemoryEntry>| s@)
}

/// The view of a rendered list of segments as sequences of rendered entries.
pub open spec fn rendered_view(segments: Seq<Vec<Rendered>>) -> Seq<Seq<Rendered>> {
    segments.map_values(|s: Vec<Rendered>| s@)
}

/// Renders one entry.
pub fn render_entry(entry: MemoryEntry) -> (rendered: Rendered)
    ensures
        rendered == render(entry),
{
    match entry {
        MemoryEntry::Value(v) => Rendered::Number(v),
        MemoryEntry::Pointer { segment_index, offset } => Rendered::Reference {
            segment: segment_index,
            offset,
        },
    }
}

/// A value that knows how to append its own encoding to the active segment.
pub trait Writeable {
    /// What the value contributes to the segment it is written into, in order.
    spec fn items(&self) -> Seq<Item>;

    /// Writes the value's items into `target`, allocating a segment for each
    /// array among them.
    fn write_into(&self, target: &mut DynamicMemory)
        requires
            old(target).wf(),
        ensures
            final(target).wf(),
            final(target)@ == old(target)@.write_items(self.items()),
    ;
}

/// The items of all of `values`, one value after the other.
pub open spec fn concat_items<T: Writeable>(values: Seq<T>) -> Seq<Item>
    decreases values.len(),
{
    if values.len() == 0 {
        Seq::empty()
    } else {
        concat_items(values.drop_last()) + values.last().items()
    }
}

/// Owns the segments of one encoding pass and knows which one is active.
pub struct DynamicMemory {
    segments: Vec<Vec<MemoryEntry>>,
    current: usize,
}

impl View for DynamicMemory {
    type V = Memory;

    closed spec fn view(&self) -> Memory {
        Memory { segments: segments_view(self.segments@), current: self.current as int }
    }
}

impl DynamicMemory {
    /// The active segment exists, and every pointer refers to the start of a
    /// segment that was allocated after the one that holds it.
    pub open spec fn wf(&self) -> bool {
        self@.wf() && self@.forward()
    }

    /// Takes over an empty segment list, creates the root segment and makes it active.
    pub fn new(segments: Vec<Vec<MemoryEntry>>) -> (memory: DynamicMemory)
        requires
            segments@.len() == 0,
        ensures
            memory.wf(),
            memory@ == Memory::fresh(),
    {
        let mut segments = segments;
        segments.push(Vec::new());
        let memory = DynamicMemory { segments, current: 0 };
        assert(memory@.segments =~= Memory::fresh().segments);
        memory
    }

    /// The index of the segment that receives the next entry.
    pub fn current_segment(&self) -> (index: usize)
        ensures
            index == self@.current,
    {
        self.current
    }

    /// The number of segments allocated so far.
    pub fn segment_count(&self) -> (count: usize)
        ensures
            count == self@.segments.len(),
    {
        self.segments.len()
    }

    /// Appends the scalar `value` to the active segment.
    pub fn write_value(&mut self, value: u64)
        requires
            old(self).wf(),
        ensures
            final(self).wf(),
            final(self)@ == old(self)@.append(MemoryEntry::Value(value)),
            final(self)@.current == old(self)@.current,
            final(self)@.active() == old(self)@.active().push(MemoryEntry::Value(value)),
            final(self)@.segments.len() == old(self)@.segments.len(),
    {
        self.append_entry(MemoryEntry::Value(value));
    }

    /// Writes `items` as an array: allocates the next segment, writes the
    /// items into it in order, and appends a pointer to its start to the
    /// segment that was active, which is active again afterwards.
    pub fn write_array<T: Writeable>(&mut self, items: &[T])
        requires
            old(self).wf(),
        ensures
            final(self).wf(),
            final(self)@ == old(self)@.write_item(Item::Array(concat_items(items@))),
            final(self)@.current == old(self)@.current,
            final(self)@.active() == old(self)@.active().push(
                MemoryEntry::Pointer {
                    segment_index: old(self)@.segments.len() as usize,
                    offset: 0,
                },
            ),
            final(self)@.segments.len() == old(self)@.segments.len() + 1 + items_arrays(
                concat_items(items@),
            ),
    {
        proof {
            law_array_one_segment_one_pointer(self@, concat_items(items@));
        }
        let caller: usize = self.current;
        let index: usize = self.segments.len();
        self.segments.push(Vec::new());
        self.current = index;
        assert(self@.segments =~= old(self)@.open_segment().segments);
        let ghost opened = self@;
        let mut i: usize = 0;
        while i < items.len()
            invariant
                i <= items.len(),
                opened == old(self)@.open_segment(),
                opened.wf(),
                self.wf(),
                self@ == opened.write_items(concat_items(items@.take(i as int))),
            decreases items.len() - i,
        {
            items[i].write_into(self);
            proof {
                let done = items@.take(i as int);
                let next = items@.take(i + 1);
                assert(next.drop_last() =~= done);
                lemma_write_items_concat(opened, concat_items(done), items@[i as int].items());
            }
            i += 1;
        }
        proof {
            assert(items@.take(i as int) =~= items@);
            lemma_write_items_extends(opened, concat_items(items@));
        }
        self.current = caller;
        self.append_entry(MemoryEntry::Pointer { segment_index: index, offset: 0 });
    }

    /// Ends the pass and hands out every segment in allocation order, each
    /// with its entries in the order in which they were appended.
    pub fn serialize(self) -> (rendered: Vec<Vec<Rendered>>)
        ensures
            rendered_view(rendered@) == render_segments(self@.segments),
    {
        let mut rendered: Vec<Vec<Rendered>> = Vec::new();
        let mut i: usize = 0;
        while i < self.segments.len()
            invariant
                i <= self.segments@.len(),
                rendered_view(rendered@) == render_segments(self@.segments.take(i as int)),
            decreases self.segments@.len() - i,
        {
            let segment = &self.segments[i];
            let mut entries: Vec<Rendered> = Vec::new();
            let mut j: usize = 0;
            while j < segment.len()
                invariant
                    j <= segment@.len(),
                    entries@ == segment@.take(j as int).map_values(|e: MemoryEntry| render(e)),
                decreases segment@.len() - j,
            {
                entries.push(render_entry(segment[j]));
                j += 1;
                assert(entries@ =~= segment@.take(j as int).map_values(
                    |e: MemoryEntry| render(e),
                ));
            }
            proof {
                assert(segment@.take(j as int) =~= segment@);
                assert(self@.segments[i as int] == segment@);
                let before = self@.segments.take(i as int);
                let after = self@.segments.take(i + 1);
                assert(after =~= before.push(segment@));
                assert(render_segments(after) =~= render_segments(before).push(entries@));
                assert(rendered_view(rendered@.push(entries)) =~= rendered_view(rendered@).push(
                    entries@,
                ));
            }
            rendered.push(entries);
            i += 1;
        }
        assert(self@.segments.take(i as int) =~= self@.segments);
        rendered
    }

    fn append_entry(&mut self, entry: MemoryEntry)
        requires
            old(self).wf(),
            entry_forward(entry, old(self)@.current, old(self)@.segments.len() as int),
        ensures
            final(self).wf(),
            final(self)@ == old(self)@.append(entry),
    {
        let current: usize = self.current;
        self.segments[current].push(entry);
        assert(self@.segments =~= old(self)@.append(entry).segments);
    }
}

} // verus!
