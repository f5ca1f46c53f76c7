//! Replay of a recorded block-device write log against a flat byte image.
//!
//! A recording stage captures every write issued to a block device, together
//! with durability flags (flush, force-unit-access), discards and named
//! checkpoint marks.  This library decodes that binary log and re-applies a
//! prefix of it, in order, to a byte-addressable target image, stopping at a
//! configured entry limit or checkpoint, and reporting the points at which an
//! external consistency check would observe a fully durable image.
//!
//! - [`model`] holds the entry and flag model and the stop-condition logic;
//! - [`codec`] decodes the binary log stream into entries;
//! - [`engine`] applies a single entry to the target image;
//! - [`replay`] drives the control loop over a whole log.

pub mod codec;
pub mod engine;
pub mod laws;
pub mod model;
pub mod replay;
