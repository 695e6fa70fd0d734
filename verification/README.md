# traject

An agent runtime whose unit of scheduling is the trajectory: a goal, the steps
taken towards it, and the key/value cache that those steps share.

`src/` is a Verus library: what its functions return and change is stated in
contracts, and Verus proves them.

| module | what it holds |
| --- | --- |
| `trajectory`, `step`, `agent_memory`, `pin`, `ids` | the life of a trajectory and what it is made of |
| `scheduler` | priorities, budgets, tool latencies, pinning, and one tick of the scheduler |
| `memory` | the prefix tree, the block pool, eviction, and the books that tie them together |
| `policy`, `tool` | what to do next, and the tools that may be called |
| `runtime` | the driver: steps, chunks and tools of many trajectories |
| `inference` | chunks, the paged cache, the walk of a chunk through a model, weights on disk, engines |
| `api`, `cli` | the chat interface, the tool bridge, the command line |
| `text`, `json`, `named`, `slices`, `ratio`, `clock`, `error` | building blocks |

Promises that relate several functions are public proof functions whose names
begin with `law_`. Those on the prefix tree are in `memory/prefix_laws.rs` (what
is stored is found, and shared) and `memory/prefix_radix.rs` (siblings start with
different tokens, edges are not empty, parents list a child once, paths are kept).

What comes from outside crates (`uuid`, `dashmap`, `serde_json`, `safetensors`,
`tokenizers`) and from the parts of std that vstd leaves open is called through
small trusted functions. Each says in its doc comment which function it calls
and what is claimed of it.

`app/` is the program around the library: files, sockets, clocks, threads, and
floating-point arithmetic.
