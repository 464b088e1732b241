//! The public parameters of a STARK proof and the order in which they are written.

use vstd::prelude::*;
use crate::memory::{DynamicMemory, Writeable};
use crate::model::{
    lemma_write_items_concat, lemma_write_items_push, lemma_write_items_single, Item,
};
use crate::scalar::{byte_items, lemma_concat_bytes, lemma_concat_words, word_items};

verus! {

/// One auxiliary segment of an execution trace.
#[derive(Clone, Copy, Debug, PartialEq, Eq, Structural)]
pub struct AuxSegment {
    /// The number of columns of the segment.
    pub width: usize,
    /// The number of random elements needed to build the segment.
    pub rand_elements: usize,
}

/// How the columns of an execution trace are arranged into segments.
#[derive(Debug)]
pub struct TraceLayout {
    /// The number of columns of the main segment.
    pub main_width: usize,
    /// The auxiliary segments, in order.
    pub aux_segments: Vec<AuxSegment>,
}

/// What a proof says about the computation it was made for.
#[derive(Debug)]
pub struct Context {
    pub trace_layout: TraceLayout,
    /// The number of rows of the execution trace.
    pub trace_length: usize,
    /// Free-form metadata of the trace.
    pub trace_meta: Vec<u8>,
    /// The modulus of the base field.
    pub field_modulus_bytes: Vec<u8>,
}

/// The part of a STARK proof that is handed on: its context and its
/// proof-of-work nonce.
#[derive(Debug)]
pub struct StarkProof {
    pub context: Context,
    pub pow_nonce: u64,
}

impl TraceLayout {
    /// The widths of the auxiliary segments, in order.
    pub open spec fn aux_widths(&self) -> Seq<usize> {
        self.aux_segments@.map_values(|a: AuxSegment| a.width)
    }

    /// The numbers of random elements of the auxiliary segments, in order.
    pub open spec fn aux_rands(&self) -> Seq<usize> {
        self.aux_segments@.map_values(|a: AuxSegment| a.rand_elements)
    }
}

/// A layout is written as the main width, the number of auxiliary segments,
/// the array of their widths and the array of their random element counts.
impl Writeable for TraceLayout {
    open spec fn items(&self) -> Seq<Item> {
        seq![
            Item::Scalar(self.main_width as u64),
            Item::Scalar(self.aux_segments.len() as u64),
            Item::Array(word_items(self.aux_widths())),
            Item::Array(word_items(self.aux_rands())),
        ]
    }

    fn write_into(&self, target: &mut DynamicMemory) {
        let mut aux_segment_widths: Vec<usize> = Vec::new();
        let mut aux_segment_rands: Vec<usize> = Vec::new();
        let mut i: usize = 0;
        while i < self.aux_segments.len()
            invariant
                i <= self.aux_segments@.len(),
                aux_segment_widths@ == self.aux_widths().take(i as int),
                aux_segment_rands@ == self.aux_rands().take(i as int),
            decreases self.aux_segments@.len() - i,
        {
            aux_segment_widths.push(self.aux_segments[i].width);
            aux_segment_rands.push(self.aux_segments[i].rand_elements);
            i += 1;
            proof {
                assert(aux_segment_widths@ =~= self.aux_widths().take(i as int));
                assert(aux_segment_rands@ =~= self.aux_rands().take(i as int));
            }
        }
        proof {
            assert(aux_segment_widths@ =~= self.aux_widths());
            assert(aux_segment_rands@ =~= self.aux_rands());
            lemma_concat_words(self.aux_widths());
            lemma_concat_words(self.aux_rands());
            let m = target@;
            let a = Item::Scalar(self.main_width as u64);
            let b = Item::Scalar(self.aux_segments.len() as u64);
            let c = Item::Array(word_items(self.aux_widths()));
            let d = Item::Array(word_items(self.aux_rands()));
            lemma_write_items_single(m, a);
            lemma_write_items_push(m, seq![a], b);
            lemma_write_items_push(m, seq![a, b], c);
            lemma_write_items_push(m, seq![a, b, c], d);
            assert(seq![a].push(b) =~= seq![a, b]);
            assert(seq![a, b].push(c) =~= seq![a, b, c]);
            assert(seq![a, b, c].push(d) =~= seq![a, b, c, d]);
            lemma_write_items_single(m.write_item(a), b);
        }
        self.main_width.write_into(target);
        self.aux_segments.len().write_into(target);
        target.write_array(aux_segment_widths.as_slice());
        target.write_array(aux_segment_rands.as_slice());
    }
}

/// A context is written as its layout, the trace length as the number of
/// rows, the length of the metadata and the metadata as an array of bytes,
/// the length of the modulus and the modulus as an array of bytes.
impl Writeable for Context {
    open spec fn items(&self) -> Seq<Item> {
        self.trace_layout.items() + seq![
            Item::Scalar(self.trace_length as u64),
            Item::Scalar(self.trace_meta.len() as u64),
            Item::Array(byte_items(self.trace_meta@)),
            Item::Scalar(self.field_modulus_bytes.len() as u64),
            Item::Array(byte_items(self.field_modulus_bytes@)),
        ]
    }

    fn write_into(&self, target: &mut DynamicMemory) {
        proof {
            lemma_concat_bytes(self.trace_meta@);
            lemma_concat_bytes(self.field_modulus_bytes@);
            let m = target@.write_items(self.trace_layout.items());
            let a = Item::Scalar(self.trace_length as u64);
            let b = Item::Scalar(self.trace_meta.len() as u64);
            let c = Item::Array(byte_items(self.trace_meta@));
            let d = Item::Scalar(self.field_modulus_bytes.len() as u64);
            let e = Item::Array(byte_items(self.field_modulus_bytes@));
            lemma_write_items_single(m, a);
            lemma_write_items_push(m, seq![a], b);
            lemma_write_items_push(m, seq![a, b], c);
            lemma_write_items_push(m, seq![a, b, c], d);
            lemma_write_items_push(m, seq![a, b, c, d], e);
            assert(seq![a].push(b) =~= seq![a, b]);
            assert(seq![a, b].push(c) =~= seq![a, b, c]);
            assert(seq![a, b, c].push(d) =~= seq![a, b, c, d]);
            assert(seq![a, b, c, d].push(e) =~= seq![a, b, c, d, e]);
            lemma_write_items_single(m.write_item(a), b);
            lemma_write_items_single(m.write_item(a).write_item(b).write_item(c), d);
            lemma_write_items_concat(target@, self.trace_layout.items(), seq![a, b, c, d, e]);
        }
        self.trace_layout.write_into(target);
        self.trace_length.write_into(target);
        self.trace_meta.len().write_into(target);
        target.write_array(self.trace_meta.as_slice());
        self.field_modulus_bytes.len().write_into(target);
        target.write_array(self.field_modulus_bytes.as_slice());
    }
}

/// A proof is written as its context followed by the proof-of-work nonce.
impl Writeable for StarkProof {
    open spec fn items(&self) -> Seq<Item> {
        self.context.items() + seq![Item::Scalar(self.pow_nonce)]
    }

    fn write_into(&self, target: &mut DynamicMemory) {
        proof {
            lemma_write_items_concat(
                target@,
                self.context.items(),
                seq![Item::Scalar(self.pow_nonce)],
            );
        }
        self.context.write_into(target);
        self.pow_nonce.write_into(target);
    }
}

} // verus!
