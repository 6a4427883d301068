//! A data-driven scene-object ("cell") pipeline.
//!
//! A cell is a small text file naming a visual asset, a collision shape, a
//! physics-body kind and an open list of named extra attributes.  This crate
//! decodes such files into immutable cell assets, keeps a store of them, and
//! reconciles live scene objects with their asset on every load or change
//! event: children are rebuilt wholesale, the collision shape is re-attached,
//! and decoded attributes are applied exactly once per change, idempotently.
//!
//! All quantities are exact decimal scalars, so decoding, halving of cuboid
//! extents and re-serialization are exact and fully specified.

pub mod apply;
pub mod bytes;
pub mod codec;
pub mod dec;
pub mod decode;
pub mod live;
pub mod parse;
pub mod record;
pub mod registry;
pub mod ser;
pub mod shape;
pub mod store;
pub mod sync;
