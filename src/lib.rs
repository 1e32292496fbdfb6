//! Layout arithmetic for memory blocks: padding, repeated layouts and array
//! layouts, with the error markers an allocator reports.

mod errors;
mod layout;

pub use errors::{AllocErr, CannotReallocInPlace, LayoutErr};
pub use layout::{lemma_round_up_aligned, padding_to, round_up, valid_size_align, Layout, UnstableLayoutMethods};
