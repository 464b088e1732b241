//! Scalars and arrays as writeable values.

use vstd::prelude::*;
use crate::memory::{concat_items, DynamicMemory, Writeable};
use crate::model::{lemma_write_items_single, Item};

verus! {

impl Writeable for u8 {
    open spec fn items(&self) -> Seq<Item> {
        seq![Item::Scalar(*self as u64)]
    }

    fn write_into(&self, target: &mut DynamicMemory) {
        proof {
            lemma_write_items_single(target@, Item::Scalar(*self as u64));
        }
        target.write_value(*self as u64)
    }
}

impl Writeable for u64 {
    open spec fn items(&self) -> Seq<Item> {
        seq![Item::Scalar(*self)]
    }

    fn write_into(&self, target: &mut DynamicMemory) {
        proof {
            lemma_write_items_single(target@, Item::Scalar(*self));
        }
        target.write_value(*self)
    }
}

impl Writeable for usize {
    open spec fn items(&self) -> Seq<Item> {
        seq![Item::Scalar(*self as u64)]
    }

    fn write_into(&self, target: &mut DynamicMemory) {
        proof {
            lemma_write_items_single(target@, Item::Scalar(*self as u64));
        }
        target.write_value(*self as u64)
    }
}

/// Each word of `values` as a scalar item.
pub open spec fn word_items(values: Seq<usize>) -> Seq<Item> {
    values.map_values(|v: usize| Item::Scalar(v as u64))
}

/// Each byte of `values` as a scalar item.
pub open spec fn byte_items(values: Seq<u8>) -> Seq<Item> {
    values.map_values(|v: u8| Item::Scalar(v as u64))
}

/// The items of a sequence of words are its words as scalars, in order.
pub proof fn lemma_concat_words(values: Seq<usize>)
    ensures
        concat_items(values) == word_items(values),
    decreases values.len(),
{
    if values.len() == 0 {
        assert(concat_items(values) =~= word_items(values));
    } else {
        lemma_concat_words(values.drop_last());
        assert(concat_items(values) =~= word_items(values));
    }
}

/// The items of a sequence of bytes are its bytes as scalars, in order.
pub proof fn lemma_concat_bytes(values: Seq<u8>)
    ensures
        concat_items(values) == byte_items(values),
    decreases values.len(),
{
    if values.len() == 0 {
        assert(concat_items(values) =~= byte_items(values));
    } else {
        lemma_concat_bytes(values.drop_last());
        assert(concat_items(values) =~= byte_items(values));
    }
}

/// A vector is written as one array of its elements.
impl<T: Writeable> Writeable for Vec<T> {
    open spec fn items(&self) -> Seq<Item> {
        seq![Item::Array(concat_items(self@))]
    }

    fn write_into(&self, target: &mut DynamicMemory) {
        proof {
            lemma_write_items_single(target@, Item::Array(concat_items(self@)));
        }
        target.write_array(self.as_slice())
    }
}

} // verus!
