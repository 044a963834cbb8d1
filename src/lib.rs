//! A last-in-first-out stack built on two stamped slots: one heads the chain
//! of nodes that hold values, the other the chain of emptied nodes that
//! pushes reuse before they allocate.

pub mod stamped;
pub mod stack;
pub mod laws;

pub use stack::ConcurrentStack;
pub use stamped::StampedSlot;
