//! Ownership and mutability primitives for single-threaded use — an
//! interior-mutability cell, a reference-counted shared-ownership pointer
//! built on it, and a runtime-checked shared/exclusive borrow cell — together
//! with a set of smaller verified exercises: comparison sorts, string
//! splitting, a toy flatten iterator, a single-threaded channel and two small
//! JSON decoders.

pub mod cell;
pub mod channels;
pub mod iterators;
pub mod rc;
pub mod refcell;
pub mod simplejson;
pub mod sorter;
pub mod list;
pub mod minijson;
pub mod strsplit;
pub mod strtok;
pub mod unbounded_lifetimes;
pub mod lifetimes_limits;
pub mod boks;
pub mod subtyping;
