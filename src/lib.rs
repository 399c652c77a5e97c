//! An append-only arena of differently shaped values, stored back to back in
//! one growable byte buffer and read back through a descriptor table.
pub mod element;
pub mod fuse;
pub mod iter;
pub mod layout;

pub use element::{DynMut, DynRef, Element};
pub use fuse::FuseBox;
pub use iter::{Iter, IterMut};
pub use layout::ElemLayout;
