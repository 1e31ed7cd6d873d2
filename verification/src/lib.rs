//! A library for parsing and manipulating Flattened Device Tree (FDT) blobs.
//!
//! - [`fdt`] reads a blob in place: [`fdt::Fdt`] checks the header, and
//!   nodes and properties are found by scanning the blob, without copying
//!   from it.
//! - [`model`] holds a tree in memory, for building and changing it:
//!   [`model::DeviceTree`] is made from scratch or from a blob, and is
//!   serialised by [`writer`].
//! - [`model::overlay`] applies device tree overlays.
//! - [`fdt::format`] renders a blob as device tree source text.
//!
//! What each function returns is stated in its contract, over the bytes of
//! the blob or over the view of the tree, and proved. [`roundtrip`] proves
//! that a tree that is serialised and read back is the same tree.

pub mod bytes;
pub mod error;
pub mod fdt;
pub mod memreserve;
pub mod model;
pub mod path;
pub mod roundtrip;
pub mod text;
pub mod writer;

pub use memreserve::MemoryReservation;
