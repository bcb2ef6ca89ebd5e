//! Linked lists under four disciplines of ownership.
//!
//! - [`first`] and [`second`]: a stack whose nodes are owned one by the other, for `i32` and
//!   for any element type.
//! - [`third`]: an immutable list whose nodes are shared between lists by counting owners.
//! - [`fourth`]: a list linked in both directions, with access to each node checked at run
//!   time.
//! - [`fifth`]: a queue that keeps a key to its last node beside the chain that owns them.
//!
//! Every list is viewed as the sequence of its elements, and every operation says what it
//! does to that sequence in the terms of [`model`], where the laws on the order of elements
//! are proved.

mod arena;
mod chain;

pub mod fifth;
pub mod first;
pub mod fourth;
pub mod model;
pub mod second;
pub mod third;
