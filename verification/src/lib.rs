//! Byte-level inspection and patching of binary data.
//!
//! The renderer turns a window of bytes and a layout into text rows (address,
//! hex and ASCII columns); the patcher overwrites bytes at an offset. Every
//! function carries a contract that Verus proves. The proofs rest on one
//! assumption about the standard library: what `String::push` does, as stated
//! in `text`.
//!
//! - `window`: a window of bytes and its partition into rows
//! - `layout`: the layout configuration and the footprint of the hex column
//! - `render`: rows and windows as text
//! - `roundtrip`, `alignment`: what holds of every rendering
//! - `patch`: overwriting bytes, in memory or step by step on a sink outside
//! - `token`, `cli`: offsets, payload bytes and commands from the command line

pub mod alignment;
pub mod cli;
pub mod error;
pub mod hex;
pub mod layout;
pub mod patch;
pub mod render;
pub mod roundtrip;
pub mod text;
pub mod token;
pub mod window;

pub use cli::{ArgCommand, Args, Job};
pub use error::ErrorKind;
pub use layout::{hex_column_footprint, LayoutConfig, LayoutMode};
pub use patch::{patch, GrowthPolicy, PatchRequest, PatchSession, PatchStep, SinkEvent};
pub use render::{render, render_raw, render_row};
pub use token::{parse_byte, parse_offset};
pub use window::{ByteWindow, Row};
