use proof_memory::memory::{render_entry, DynamicMemory, Writeable};
use proof_memory::model::{MemoryEntry, Rendered};
use proof_memory::stark::{AuxSegment, Context, StarkProof, TraceLayout};

fn num(v: u64) -> Rendered {
    Rendered::Number(v)
}

fn ptr(segment: usize) -> Rendered {
    Rendered::Reference { segment, offset: 0 }
}

fn sample_layout() -> TraceLayout {
    TraceLayout { main_width: 2, aux_segments: vec![AuxSegment { width: 1, rand_elements: 2 }] }
}

fn sample_context() -> Context {
    let mut modulus = Vec::new();
    for i in 0..32u8 {
        modulus.push(i + 1);
    }
    Context {
        trace_layout: sample_layout(),
        trace_length: 1024,
        trace_meta: Vec::new(),
        field_modulus_bytes: modulus,
    }
}

/// Follows the pointers of `segment` and rebuilds the nested values it stands for.
#[derive(Debug, PartialEq)]
enum Tree {
    Leaf(u64),
    Node(Vec<Tree>),
}

fn read_back(segments: &Vec<Vec<Rendered>>, segment: usize) -> Vec<Tree> {
    let mut out = Vec::new();
    for entry in &segments[segment] {
        match entry {
            Rendered::Number(v) => out.push(Tree::Leaf(*v)),
            Rendered::Reference { segment, offset } => {
                assert_eq!(*offset, 0);
                out.push(Tree::Node(read_back(segments, *segment)));
            }
        }
    }
    out
}

#[test]
fn fresh_memory_has_an_empty_root_segment() {
    let memory = DynamicMemory::new(Vec::new());
    assert_eq!(memory.serialize(), vec![Vec::<Rendered>::new()]);
}

#[test]
fn fresh_memory_writes_to_the_root() {
    let memory = DynamicMemory::new(Vec::new());
    assert_eq!(memory.current_segment(), 0);
    assert_eq!(memory.segment_count(), 1);
}

#[test]
fn writing_leaves_the_active_segment_active() {
    let mut memory = DynamicMemory::new(Vec::new());
    memory.write_value(1);
    assert_eq!(memory.current_segment(), 0);
    assert_eq!(memory.segment_count(), 1);
    memory.write_array(&[1u8, 2]);
    assert_eq!(memory.current_segment(), 0);
    assert_eq!(memory.segment_count(), 2);
    let nested: Vec<Vec<usize>> = vec![vec![], vec![4]];
    memory.write_array(&nested);
    assert_eq!(memory.current_segment(), 0);
    assert_eq!(memory.segment_count(), 5);
}

#[test]
fn entries_are_rendered_by_shape() {
    assert_eq!(render_entry(MemoryEntry::Value(17)), Rendered::Number(17));
    assert_eq!(
        render_entry(MemoryEntry::Pointer { segment_index: 3, offset: 0 }),
        Rendered::Reference { segment: 3, offset: 0 }
    );
}

#[test]
fn values_fill_the_root_segment_in_order() {
    let mut memory = DynamicMemory::new(Vec::new());
    memory.write_value(3);
    memory.write_value(1);
    memory.write_value(4);
    memory.write_value(u64::MAX);
    assert_eq!(memory.serialize(), vec![vec![num(3), num(1), num(4), num(u64::MAX)]]);
}

#[test]
fn array_gets_one_segment_and_one_pointer() {
    let mut memory = DynamicMemory::new(Vec::new());
    memory.write_value(9);
    memory.write_array(&[5u64, 6, 7]);
    memory.write_value(10);
    assert_eq!(
        memory.serialize(),
        vec![vec![num(9), ptr(1), num(10)], vec![num(5), num(6), num(7)]]
    );
}

#[test]
fn empty_array_gets_an_empty_segment() {
    let mut memory = DynamicMemory::new(Vec::new());
    let nothing: Vec<u8> = Vec::new();
    memory.write_array(&nothing);
    assert_eq!(memory.serialize(), vec![vec![ptr(1)], vec![]]);
}

#[test]
fn active_segment_is_restored_after_nested_arrays() {
    let mut memory = DynamicMemory::new(Vec::new());
    let nested: Vec<Vec<Vec<u64>>> = vec![vec![vec![1], vec![2]], vec![vec![3]]];
    memory.write_array(&nested);
    memory.write_value(42);
    let out = memory.serialize();
    assert_eq!(out[0], vec![ptr(1), num(42)]);
    assert_eq!(out.len(), 7);
}

#[test]
fn segments_are_numbered_depth_first() {
    let mut memory = DynamicMemory::new(Vec::new());
    let outer: Vec<Vec<u64>> = vec![vec![1, 2], vec![3]];
    memory.write_array(&outer);
    assert_eq!(
        memory.serialize(),
        vec![vec![ptr(1)], vec![ptr(2), ptr(3)], vec![num(1), num(2)], vec![num(3)]]
    );
}

#[test]
fn inner_segments_come_before_later_siblings() {
    let mut memory = DynamicMemory::new(Vec::new());
    let outer: Vec<Vec<Vec<u64>>> = vec![vec![vec![1], vec![2]], vec![vec![3]]];
    memory.write_array(&outer);
    assert_eq!(
        memory.serialize(),
        vec![
            vec![ptr(1)],
            vec![ptr(2), ptr(5)],
            vec![ptr(3), ptr(4)],
            vec![num(1)],
            vec![num(2)],
            vec![ptr(6)],
            vec![num(3)],
        ]
    );
}

#[test]
fn scalar_widths_give_the_same_entry() {
    let mut memory = DynamicMemory::new(Vec::new());
    7u8.write_into(&mut memory);
    7usize.write_into(&mut memory);
    7u64.write_into(&mut memory);
    assert_eq!(memory.serialize(), vec![vec![num(7), num(7), num(7)]]);
}

#[test]
fn widening_keeps_the_largest_values() {
    let mut memory = DynamicMemory::new(Vec::new());
    u8::MAX.write_into(&mut memory);
    usize::MAX.write_into(&mut memory);
    u64::MAX.write_into(&mut memory);
    assert_eq!(
        memory.serialize(),
        vec![vec![num(255), num(usize::MAX as u64), num(u64::MAX)]]
    );
}

#[test]
fn nested_values_can_be_read_back() {
    let mut memory = DynamicMemory::new(Vec::new());
    let outer: Vec<Vec<u64>> = vec![vec![10, 20], vec![], vec![30]];
    memory.write_value(outer.len() as u64);
    memory.write_array(&outer);
    let out = memory.serialize();
    let expected = vec![
        Tree::Leaf(3),
        Tree::Node(vec![
            Tree::Node(vec![Tree::Leaf(10), Tree::Leaf(20)]),
            Tree::Node(vec![]),
            Tree::Node(vec![Tree::Leaf(30)]),
        ]),
    ];
    assert_eq!(read_back(&out, 0), expected);
}

#[test]
fn layout_with_one_auxiliary_segment() {
    let mut memory = DynamicMemory::new(Vec::new());
    sample_layout().write_into(&mut memory);
    assert_eq!(
        memory.serialize(),
        vec![vec![num(2), num(1), ptr(1), ptr(2)], vec![num(1)], vec![num(2)]]
    );
}

#[test]
fn trace_layout_without_auxiliary_segments() {
    let mut memory = DynamicMemory::new(Vec::new());
    let layout = TraceLayout { main_width: 20, aux_segments: Vec::new() };
    layout.write_into(&mut memory);
    assert_eq!(
        memory.serialize(),
        vec![vec![num(20), num(0), ptr(1), ptr(2)], vec![], vec![]]
    );
}

#[test]
fn context_keeps_trace_length_in_rows() {
    let mut memory = DynamicMemory::new(Vec::new());
    sample_context().write_into(&mut memory);
    let out = memory.serialize();
    assert_eq!(
        out[0],
        vec![num(2), num(1), ptr(1), ptr(2), num(1024), num(0), ptr(3), num(32), ptr(4)]
    );
    assert_ne!(out[0][4], num(10));
    assert_eq!(out.len(), 5);
    assert_eq!(out[3], Vec::<Rendered>::new());
    assert_eq!(out[4].len(), 32);
    for i in 0..32usize {
        assert_eq!(out[4][i], num(i as u64 + 1));
    }
}

#[test]
fn context_with_metadata() {
    let mut memory = DynamicMemory::new(Vec::new());
    let context = Context {
        trace_layout: TraceLayout { main_width: 1, aux_segments: Vec::new() },
        trace_length: 8,
        trace_meta: vec![200, 0, 7],
        field_modulus_bytes: vec![1, 255],
    };
    context.write_into(&mut memory);
    assert_eq!(
        memory.serialize(),
        vec![
            vec![num(1), num(0), ptr(1), ptr(2), num(8), num(3), ptr(3), num(2), ptr(4)],
            vec![],
            vec![],
            vec![num(200), num(0), num(7)],
            vec![num(1), num(255)],
        ]
    );
}

#[test]
fn proof_ends_with_its_nonce() {
    let nonce = 0xDEAD_BEEF_0123_4567u64;
    let mut memory = DynamicMemory::new(Vec::new());
    let proof = StarkProof { context: sample_context(), pow_nonce: nonce };
    proof.write_into(&mut memory);
    let out = memory.serialize();

    let mut only_context = DynamicMemory::new(Vec::new());
    sample_context().write_into(&mut only_context);
    let context_out = only_context.serialize();

    assert_eq!(out[0].len(), context_out[0].len() + 1);
    assert_eq!(out[0][..context_out[0].len()], context_out[0][..]);
    assert_eq!(out[0][out[0].len() - 1], num(nonce));
    assert_eq!(out[1..], context_out[1..]);
}
