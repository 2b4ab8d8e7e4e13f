//! Read-only inspection of a copy-on-write filesystem's on-disk format.
//!
//! The crate exposes the generic on-disk B-tree engine together with the
//! object-map translation layer and the block-integrity substrate beneath it:
//! fixed-size blocks gated by a running-sum checksum, a node codec that turns
//! a block's bytes into a table-of-contents view, a traversal engine for
//! point lookups and full scans, and the object map that resolves
//! (virtual object id, transaction id) pairs to physical block addresses.
#![allow(unused_imports)]

pub mod block;
pub mod builder;
pub mod checksum;
pub mod error;
pub mod node;
pub mod omap;
pub mod order;
pub mod pod;
pub mod records;
pub mod tree;
pub mod visitors;
