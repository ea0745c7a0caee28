//! Types for representing heap allocations
use vstd::prelude::*;

verus! {

/// Environment symbol for the heap analysis address.
pub const ENV_HEAP_ANALYSIS_ADDR: &'static str = "HEAP_ANALYSIS_ADDR";

/// Address that the analysis uses where the environment names none.
pub const DEFAULT_HEAP_ANALYSIS_ADDR: &'static str = "localhost:64123";

/// Nanosecond timestamp type, not relative to a specific moment in time. Can only be used to
/// compare to each other.
pub type Timestamp = u64;

/// A timestamped trace instruction.
pub type TimestampedTraceInstruction = (TraceInstruction, Timestamp);

/// `std::path::PathBuf`: carried through, never looked into.
#[verifier::external_type_specification]
#[verifier::external_body]
pub struct ExPathBuf(std::path::PathBuf);

/// Trace index type.
#[derive(Debug, Default, Copy, Clone, Ord, PartialOrd, Eq, PartialEq, Structural)]
pub struct TraceIndex(pub u32);

impl vstd::std_specs::convert::FromSpecImpl<u32> for TraceIndex {
    open spec fn obeys_from_spec() -> bool {
        true
    }

    open spec fn from_spec(trace_index: u32) -> Self {
        TraceIndex(trace_index)
    }
}

impl From<u32> for TraceIndex {
    fn from(trace_index: u32) -> (index: Self) {
        TraceIndex(trace_index)
    }
}

/// The trace index that stands for the frame index `index`: its lower 32 bits.
pub open spec fn trace_index_of(index: nat) -> TraceIndex {
    TraceIndex((index % 0x1_0000_0000) as u32)
}

impl vstd::std_specs::convert::FromSpecImpl<usize> for TraceIndex {
    open spec fn obeys_from_spec() -> bool {
        true
    }

    open spec fn from_spec(trace_index: usize) -> Self {
        trace_index_of(trace_index as nat)
    }
}

impl From<usize> for TraceIndex {
    fn from(trace_index: usize) -> (index: Self) {
        proof {
            let wide = trace_index as u64;
            assert(wide as u32 == (wide % 0x1_0000_0000) as u32) by (bit_vector);
            assert(trace_index as u32 == wide as u32);
        }
        TraceIndex(#[verifier::truncate] (trace_index as u32))
    }
}

/// Tracing protocol. Core wire format
#[derive(Debug, Clone)]
pub enum TraceProtocol {
    /// Provide a buffer of thread-local trace instructions.
    Instructions {
        /// The current timestamp up to which all data has been shipped.
        timestamp: Timestamp,
        /// The thread's ID
        thread_id: usize,
        /// Vector of timestamped instructions
        buffer: Vec<TimestampedTraceInstruction>,
    },
    /// Update the time. All data up to this point has been shipped.
    Timestamp(Timestamp),
    /// Initialize instruction, only send once
    Init(InstrInit),
    /// Resolved stack frames
    Stack {
        /// The index of the stack frame
        index: usize,
        /// Details of the stack frame, heap allocated to reduce struct size.
        details: Box<InstrStackDetails>,
    },
}

/// A choice of trace instructions
#[derive(Debug, Clone, Ord, PartialOrd, Eq, PartialEq, Structural)]
pub enum TraceInstruction {
    /// Stack frame update
    Stack(InstrStack),
    /// Allocate memory
    Allocate(InstrAllocation),
    /// Free memory
    Deallocate(InstrAllocation),
}

impl TraceInstruction {
    /// The allocation that this instruction makes or frees, if any.
    pub open spec fn allocation(&self) -> Option<InstrAllocation> {
        match *self {
            TraceInstruction::Stack(_) => None,
            TraceInstruction::Allocate(instr) => Some(instr),
            TraceInstruction::Deallocate(instr) => Some(instr),
        }
    }

    /// Obtain the pointer this instruction references, if any.
    pub fn ptr(&self) -> (ptr: Option<u64>)
        ensures
            ptr == match self.allocation() {
                Some(instr) => Some(instr.ptr),
                None => None,
            },
    {
        match self {
            TraceInstruction::Stack(_) => None,
            TraceInstruction::Allocate(instr) | TraceInstruction::Deallocate(instr) => Some(
                instr.ptr,
            ),
        }
    }

    /// Obtain the trace index, if any.
    pub fn trace_index(&self) -> (trace_index: Option<TraceIndex>)
        ensures
            trace_index == match self.allocation() {
                Some(instr) => Some(instr.trace_index),
                None => None,
            },
    {
        match self {
            TraceInstruction::Stack(_) => None,
            TraceInstruction::Allocate(instr) | TraceInstruction::Deallocate(instr) => Some(
                instr.trace_index,
            ),
        }
    }

    /// Obtain the allocation size, if any.
    pub fn size(&self) -> (size: Option<usize>)
        ensures
            size == match self.allocation() {
                Some(instr) => Some(instr.size),
                None => None,
            },
    {
        match self {
            TraceInstruction::Stack(_) => None,
            TraceInstruction::Allocate(instr) | TraceInstruction::Deallocate(instr) => Some(
                instr.size,
            ),
        }
    }
}

/// Initialization instruction
#[derive(Debug, Clone, Ord, PartialOrd, Eq, PartialEq)]
pub struct InstrInit {
    /// Human-readable name of the thread
    pub thread_name: String,
    /// Opaque thread id, unique per thread
    pub thread_id: usize,
}

/// Announce a new stack frame
///
/// Stack frames are a thread-local tree that reference a parent stack frame. The number references
/// the n-th chronological frame on the same thread.
#[derive(Debug, Clone, Ord, PartialOrd, Eq, PartialEq, Structural)]
pub struct InstrStack {
    /// Instruction pointer on the stack.
    pub ip: u64,
    /// Index of this stack frame.
    pub index: usize,
    /// Number of the parent stack frame
    pub parent: usize,
}

/// Symbol details
///
/// The availability of some data depends on debug information, especially filename/lineno/colno.
#[derive(Debug, Default, Clone, Ord, PartialOrd, Eq, PartialEq)]
pub struct InstrStackDetails {
    /// Name of the symbol.
    pub name: Option<String>,
    /// Filename.
    pub filename: Option<std::path::PathBuf>,
    /// Line of the instruction.
    pub lineno: Option<u32>,
    /// Column of the instruction.
    pub colno: Option<u32>,
}

/// Announce a memory allocation
#[derive(Debug, Clone, Ord, PartialOrd, Eq, PartialEq, Structural)]
pub struct InstrAllocation {
    /// Size of the allocation
    pub size: usize,
    /// Pointer
    pub ptr: u64,
    /// Stack frame
    pub trace_index: TraceIndex,
}

} // verus!
