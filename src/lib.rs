//! An interpreter for AVM1, the byte code of SWF containers.
//!
//! - `gc`: a mark-and-sweep heap with root counts and explicit roots.
//! - `number`: binary64 numbers held as bit patterns, exact integer
//!   conversions and the ECMA-262 number text.
//! - `values`, `object`: the value model, objects, scopes and heap cells.
//! - `coerce`: the ECMA-262 conversions and comparisons over the heap.
//! - `avm1`: the machine, its intrinsics and one method per opcode.
//! - `error`, `host`: warnings and the sink for what a script shows.
//!
//! Binary64 arithmetic that is not exact on integers, and the shortest
//! digits of a number, come from the embedder as answers to questions that
//! the machine asks (`coerce::FloatQuery`).

pub mod avm1;
pub mod coerce;
pub mod error;
pub mod gc;
pub mod host;
pub mod number;
pub mod object;
pub mod values;
