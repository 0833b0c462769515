//! Engine of a shared pixel canvas.
//!
//! Clients send small fixed-size binary commands; each command is decoded,
//! rasterised into one shared framebuffer, and re-encoded for every listener
//! that follows the canvas live.
//!
//! * [`codec`]: the wire record and its decoded form.
//! * [`canvas`]: the framebuffer as a sequence of bytes, and painting a region of it.
//! * [`line`]: one-pixel and thick line strokes.
//! * [`shapes`]: the region each command covers and the rasteriser for it.
//! * [`data`]: the store that owns the framebuffer and the listener set.
//! * [`laws`]: what holds across the modules above.

pub mod canvas;
pub mod codec;
pub mod line;
pub mod shapes;
pub mod data;
pub mod laws;

pub use codec::{Action, ClientMessage};
pub use data::{Data, Delivery};
