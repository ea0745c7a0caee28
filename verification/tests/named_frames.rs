use heap_analysis::buffer::BUFFER_CAPACITY;
use heap_analysis::heaptrack::{HeaptrackWriter, TraceBuffer, TraceInstruction};
use heap_analysis::heaptrack::{TraceInstructionFree, TraceInstructionInit};
use heap_analysis::stacktrace::TRACE_MAX_SIZE;
use heap_analysis::symbols::last_symbol;
use heap_analysis::trace::{Trace, TraceTree};
use heap_analysis::types::{InstrStack, InstrStackDetails};
use heap_analysis::writer::NewFrames;

fn shown(instruction: &TraceInstruction) -> String {
    match instruction {
        TraceInstruction::Init(init) => format!("init {}", init.thread_name),
        TraceInstruction::Stack(stack) => format!("stack {} {}", stack.name, stack.parent),
        TraceInstruction::Allocate(alloc) => {
            format!("allocate {} {} {}", alloc.size, alloc.ptr, alloc.trace_index)
        }
        TraceInstruction::Free(free) => format!("free {}", free.ptr),
    }
}

#[test]
fn trace_begins_beyond_the_stop() {
    let frames = vec![(1, 10), (2, 20), (3, 30), (2, 40), (4, 50)];
    assert_eq!(Trace::from_frames(&frames, 2).deref(), &[30, 40, 50]);
    assert!(Trace::from_frames(&frames, 9).deref().is_empty());
    assert!(Trace::from_frames(&frames, 4).deref().is_empty());
}

#[test]
fn trace_keeps_a_limited_number_of_frames() {
    let mut frames: Vec<(u64, u64)> = vec![(7, 7)];
    frames.extend((1..100u64).map(|i| (0, i)));
    let trace = Trace::from_frames(&frames, 7);
    assert_eq!(trace.deref().len(), TRACE_MAX_SIZE);
    assert_eq!(trace.deref()[63], 64);
}

#[test]
fn trace_is_trimmed() {
    let frames = vec![(7, 7), (0, 1), (0, 0), (0, 2), (0, 0), (0, 0)];
    assert_eq!(Trace::from_frames(&frames, 7).deref(), &[1, 0, 2]);
}

#[test]
fn trace_can_be_filled_again() {
    let mut trace = Trace::from_frames(&vec![(7, 7), (0, 1), (0, 2)], 7);
    trace.fill_from(&vec![(7, 7), (0, 3)], 7);
    assert_eq!(trace.deref(), &[3]);
}

fn traced() -> Trace {
    let trace = Trace::new(traced as usize as u64);
    assert!(trace.deref().len() <= TRACE_MAX_SIZE);
    trace
}

/// A trace of the callers of `traced`, which is not inlined here.
fn current() -> Trace {
    let function: fn() -> Trace = std::hint::black_box(traced);
    function()
}

#[test]
fn current_call_stack_is_traced() {
    let trace = current();
    assert!(!trace.deref().is_empty());
    assert_ne!(trace.deref().last(), Some(&0));
    // No function begins here.
    assert!(Trace::new(1).deref().is_empty());
    let mut again = trace;
    again.fill(1);
    assert!(again.deref().is_empty());
}

#[test]
fn allocation_on_the_current_call_stack_is_written_down() {
    let mut writer = HeaptrackWriter::new();
    let trace = current();
    assert!(writer.has_room(&trace));
    let mut flushed = writer.handle_malloc(100, 8, &trace);
    while flushed.is_empty() {
        flushed.extend(writer.handle_free(100));
    }
    let frames = flushed[0]
        .iter()
        .take_while(|record| matches!(record, TraceInstruction::Stack(_)))
        .count();
    assert_eq!(frames, trace.deref().len());
    assert_eq!(shown(&flushed[0][frames]), format!("allocate 8 100 {}", frames));
    // Some of the functions have names.
    assert!(flushed[0][..frames].iter().any(|record| !shown(record).contains("<unresolved>")));
}

#[test]
fn last_symbol_is_reported() {
    let named = |name: &str| InstrStackDetails {
        name: Some(name.to_owned()),
        filename: None,
        lineno: Some(3),
        colno: None,
    };
    assert_eq!(last_symbol(vec![named("inner"), named("outer")]), named("outer"));
    assert_eq!(last_symbol(Vec::new()), InstrStackDetails::default());
}

#[test]
fn tree_has_small_indices() {
    let mut tree = TraceTree::default();
    assert!(tree.has_room(64));
    assert!(!tree.has_room(u32::MAX as usize));
    let mut frames = NewFrames { frames: Vec::new() };
    let index: u32 = tree.index(&Trace::from_frames(&vec![(7, 7), (0, 1), (0, 2)], 7), &mut frames);
    assert_eq!(index, 2);
    assert_eq!(
        frames.frames,
        vec![InstrStack { ip: 2, index: 1, parent: 0 }, InstrStack { ip: 1, index: 2, parent: 1 }]
    );
}

#[test]
fn writer_names_new_frames() {
    let mut writer = HeaptrackWriter::new();
    let trace = Trace::from_frames(&vec![(7, 7), (0, 1), (0, 2)], 7);
    assert!(writer.has_room(&trace));
    let (index, frames) = writer.new_frames(&trace);
    assert_eq!(index, 2);
    assert_eq!(frames.iter().map(|frame| frame.ip).collect::<Vec<_>>(), vec![2, 1]);
    let names = vec![Some("main".to_owned()), None];
    let mut flushed = writer.record_malloc(100, 8, index, &frames, names);
    let mut pushed = 0;
    while flushed.is_empty() {
        flushed.extend(writer.handle_free(100));
        pushed += 1;
        assert!(pushed < 100_000);
    }
    assert_eq!(flushed.len(), 1);
    assert_eq!(shown(&flushed[0][0]), "stack main 0");
    assert_eq!(shown(&flushed[0][1]), "stack <unresolved> 1");
    assert_eq!(shown(&flushed[0][2]), "allocate 8 100 2");
    assert_eq!(shown(&flushed[0][3]), "free 100");
    assert_eq!(flushed[0].len(), 3 + pushed);
    // The frames are known now.
    assert!(writer.new_frames(&trace).1.is_empty());
}

#[test]
fn trace_buffer_is_handed_out_when_full() {
    let mut buffer = TraceBuffer::new();
    let init = TraceInstructionInit { thread_name: "t".to_owned() };
    assert!(buffer.trace(TraceInstruction::Init(init)).is_none());
    let mut entries = 1;
    loop {
        entries += 1;
        let full = buffer.trace(TraceInstruction::Free(TraceInstructionFree { ptr: 1 }));
        if let Some(contents) = full {
            assert_eq!(contents.len(), entries);
            assert_eq!(shown(&contents[0]), "init t");
            break;
        }
    }
    assert!(entries >= BUFFER_CAPACITY);
}
