//! Host side of a serial link to a microcontroller.
//!
//! The library verifies that a freshly opened transport speaks the expected
//! protocol ([`handshake`]), turns commands that arrive as text or as raw
//! frames ([`action`], [`request`]) into exchanges with the device
//! ([`command`], [`cooperative`], [`relay`]), and moves numbers and lines across the
//! transport ([`codec`], [`frame`], [`line`], [`port`]).
//!
//! The transport itself is not part of the library: anything that implements
//! [`transport::Transport`] will do. [`loopback::Loopback`] is one that lives
//! in memory.

pub mod action;
pub mod bytes;
pub mod codec;
pub mod command;
pub mod cooperative;
pub mod frame;
pub mod handshake;
pub mod line;
pub mod loopback;
pub mod port;
pub mod relay;
pub mod request;
pub mod text;
pub mod transport;
pub mod util;

pub use crate::action::{Action, ActionConversionError};
pub use crate::port::{
    read_dword_flipped_endian, read_dword_raw, read_i32_raw, read_i64_raw,
    read_qword_flipped_endian, read_qword_raw, read_string_until_byte, write_dword_flipped_endian,
    write_dword_raw, write_qword_flipped_endian, write_qword_raw, write_str_ends_with,
    write_str_raw,
};
pub use crate::request::{Instruction, Request};
