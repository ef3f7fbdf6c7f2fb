//! Term representation and heap allocation core of a BEAM-style runtime.
//!
//! - [`utils`]: rounding and alignment arithmetic.
//! - [`layout`]: size and alignment of a block of memory, and the layout of a
//!   record field by field.
//! - [`closure_layout`]: where the fields of a closure lie, for 32-bit and
//!   64-bit targets, and the size query of generated code.
//! - [`atom`], [`number`], [`term`]: the values of the language and their
//!   views.
//! - [`encoding`]: immediates, pointers and headers as tagged words.
//! - [`heap`], [`builder`]: the heap of a process, and terms made on it.
//! - [`closure`]: closures and their definitions.
//! - [`object`]: the object of a term on a heap: its layout, header and
//!   size.
//! - [`copy`]: copies of terms, on no heap and deep onto a heap.
//! - [`order`], [`compare`], [`order_laws`]: the order of terms, and what
//!   holds of it.
//! - [`hash`], [`hash_laws`]: hashes of terms, which agree with the order.
//! - [`validity`]: whether a term from elsewhere is well formed.
//! - [`erlang`]: the built-in functions on terms.

pub mod atom;
pub mod builder;
pub mod closure;
pub mod closure_layout;
pub mod compare;
pub mod copy;
pub mod encoding;
pub mod erlang;
pub mod hash;
pub mod hash_laws;
pub mod heap;
pub mod layout;
pub mod number;
pub mod object;
pub mod order;
pub mod order_laws;
pub mod term;
pub mod utils;
pub mod validity;
