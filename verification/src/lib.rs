//! Heap-indirection and interior-mutability primitives, verified.
//!
//! The crate models a small ownership toolkit: an exclusive-owning box
//! (`HeapBox`), a shared reference-counted heap with strong and weak handles
//! (`RcHeap`, `RefCounted`, `WeakRef`), two interior-mutability wrappers
//! (`CopyCell` and a runtime-checked `RefCell`), and a singly linked node
//! graph built on top of them, including a single-pass "k-th from tail"
//! search and deliberate reference cycles.

pub mod config;
pub mod copy_cell;
pub mod fallible;
pub mod heap_box;
pub mod linked;
pub mod parse;
pub mod rc_heap;
pub mod ref_cell;
