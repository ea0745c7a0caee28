# heap_analysis

Tracks the memory allocations of a Rust program and analyzes them: which thread frees what which
thread allocated, and which allocations are made twice, freed twice or never freed.

The library under `src/` is written in Verus. It holds the data structures, the protocol and the
rules. Verus proves the contracts of its functions, and the laws that hold of it as a whole. `app/`
is the ordinary Rust around it: the global allocator, threads, clocks, sockets, the dataflow graph
and the web server.

## Usage

Declare the allocator as the global one, start it first and stop it last:

```rust
#[global_allocator]
static ALLOC: TrackingAllocator<std::alloc::System> = TrackingAllocator(std::alloc::System);

fn main() {
    ALLOC.start();
    // Rest of application
    ALLOC.stop();
}
```

`stop` flushes all buffered allocation data and closes the connection to the analysis. Data is sent
to `localhost:64123`, or to the address in the environment symbol `HEAP_ANALYSIS_ADDR`. Capturing
call stacks needs the system library `unwind`.

The analysis program listens there, serves a web page on `localhost:8088`, and streams its results
to the clients that connect to `/ws`. With the argument `example` the program runs a workload that
tracks itself.

## Layout

| Module | Contents |
| --- | --- |
| `frames` | the mathematical model of a tree of stack frames |
| `stacktrace` | stack traces, the tree of one thread, the tree that merges all threads |
| `types` | instructions and protocol messages |
| `symbols` | the call stack and the symbols of instruction pointers |
| `buffer`, `writer`, `tracking` | what a thread writes down, and when |
| `gather` | merging the threads into one stream of messages |
| `trace`, `heaptrack` | a writer that names functions itself |
| `dataflow`, `output` | reading the stream, matching by pointer, grouping by time window |
| `web` | the clients of the web interface |
| `example` | a workload |
| `laws`, `analysis_laws`, `run_laws` | what holds of recording, of analysis and of a whole run |

What is taken on trust is marked `external_body`: the hash of the `fnv` crate, random identifiers of
the `uuid` crate, call stacks and symbols of the `backtrace` crate, and the capacity of a `Vec`.
`std::path::PathBuf` is carried through unread.

## Limitations

* All serialization is performed by a single thread, which can bottleneck the outgoing data.
* Obtaining the call stack is slow.
* Frame indices are sent with 32 bits.
* Records are matched in the order in which they arrive. Allocations and deallocations that
  interleave across threads can be reported as spurious double frees, double allocations or leaks.
