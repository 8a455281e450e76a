//! A max-heap over any ordered type, kept as an implicit binary tree in a
//! flat vector, with its operations proved against a model on sequences.
//!
//! `heap` holds the container, `model` the sequences it stands for, `order`
//! what is asked of the element type, `sift` the proofs that sifting
//! restores the heap property, and `laws` what follows for its users.

pub mod heap;
pub mod laws;
pub mod model;
pub mod order;
pub mod sift;

pub use crate::heap::MaxHeap;
