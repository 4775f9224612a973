//! A minimal, verified iteration library.
//!
//! The library offers a pull-based producer capability ([`MyIterator`]): a
//! single operation `next` that either yields one more item or signals
//! exhaustion by returning `None`. Two producers are provided: a borrowing
//! cursor over a vector ([`MyVecIterator`]) and a transforming adapter
//! ([`MyMap`]) that applies a function to each item pulled from an upstream
//! producer. A collector capability ([`MyFromIterator`]) exhausts a producer
//! and materializes the items, in production order, into an owned collection.

pub mod adapter;
pub mod collect;
pub mod cursor;
pub mod producer;

pub use adapter::MyMap;
pub use collect::collect_into;
pub use collect::MyFromIterator;
pub use cursor::MyIteratorExt;
pub use cursor::MyVecIterator;
pub use producer::can_yield;
pub use producer::produces;
pub use producer::produces_all;
pub use producer::MyIterator;
