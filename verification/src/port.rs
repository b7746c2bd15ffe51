//! Reading and writing numbers and strings on a serial link.
//!
//! The functions named `raw` move a number in the byte order of the host,
//! those named `flipped_endian` in the opposite one. Which order the host has
//! is a property of the machine: the link asked for it when it was made, and
//! the contracts speak of that answer. [`crate::frame`] holds the functions
//! that take the arrangement as an argument.

use crate::codec::{
    lemma_codec_round_trip_exact, lemma_encoded_len, lemma_radix_pow_values,
    lemma_signed_round_trip, signed_dword, signed_qword, unsigned_bits, wire_layout, ByteOrder,
    Endianness, Width,
};
use crate::frame::{
    echoed, frame_value, is_frame_read, is_frame_write, left_waiting, read_fixed, write_fixed,
};
use crate::line::{decode_text, is_line_read, read_until, terminated, write_terminated};
use crate::loopback::Loopback;
use crate::transport::{
    carried_out, error_of, Exchange, IoError, Link, Transport,
};
use vstd::prelude::*;
use vstd::string::StringSliceAdditionalSpecFns;
use vstd::utf8::{decode_utf8_encode_utf8, encode_utf8, valid_utf8};

verus! {

/// Why no text came out of a line.
#[derive(Clone, Debug, PartialEq, Eq)]
pub enum LineError {
    /// The transport failed before the line was complete.
    Io(IoError),
    /// The line arrived and is not valid UTF-8. It is handed back as it came.
    Encoding(Vec<u8>),
}

/// Whether the step from `before` to `after` is the read of one frame in the
/// given order on a host of the given endianness.
pub open spec fn reads_frame(
    before: Seq<Exchange>,
    after: Seq<Exchange>,
    width: nat,
    order: ByteOrder,
    host: Endianness,
    outcome: Result<nat, IoError>,
) -> bool {
    is_frame_read(before, after, width, wire_layout(order, host), outcome)
}

/// Whether the step from `before` to `after` is the write of the frame of
/// `value` in the given order on a host of the given endianness.
pub open spec fn writes_frame(
    before: Seq<Exchange>,
    after: Seq<Exchange>,
    value: nat,
    width: nat,
    order: ByteOrder,
    host: Endianness,
    status: Result<(), IoError>,
) -> bool {
    is_frame_write(before, after, value, width, wire_layout(order, host), status)
}

/// What the read of a number of four bytes gave.
pub open spec fn dword_outcome(r: Result<u32, IoError>) -> Result<nat, IoError> {
    match r {
        Ok(v) => Ok(v as nat),
        Err(e) => Err(e),
    }
}

/// The bytes that came back where a signed number of the given width was read.
pub open spec fn signed_outcome(r: Result<int, IoError>, width: nat) -> Result<nat, IoError> {
    match r {
        Ok(v) => Ok(unsigned_bits(v, width)),
        Err(e) => Err(e),
    }
}

/// Reads one frame of the given width in the given order and returns the
/// value it carries. Exactly one exact-length read is made.
pub fn read_ordered<T: Transport>(port: &mut Link<T>, width: Width, order: ByteOrder) -> (r: Result<
    u64,
    IoError,
>)
    ensures
        reads_frame(
            old(port).log(),
            final(port).log(),
            width.bytes(),
            order,
            old(port).host(),
            frame_value(r),
        ),
        old(port).leads_to(final(port)),
        carried_out(old(port).port_view(), final(port).log().last(), final(port).port_view()),
{
    let layout = order.on_host(port.host_layout());
    read_fixed(port, width, layout)
}

/// Writes `value`, cut down to `width` bytes, as one frame in the given
/// order. Exactly one write is made.
pub fn write_ordered<T: Transport>(
    port: &mut Link<T>,
    value: u64,
    width: Width,
    order: ByteOrder,
) -> (status: Result<(), IoError>)
    ensures
        writes_frame(
            old(port).log(),
            final(port).log(),
            value as nat,
            width.bytes(),
            order,
            old(port).host(),
            status,
        ),
        old(port).leads_to(final(port)),
        carried_out(old(port).port_view(), final(port).log().last(), final(port).port_view()),
{
    let layout = order.on_host(port.host_layout());
    write_fixed(port, value, width, layout)
}

/// Reads eight bytes as a number in the byte order of the host.
pub fn read_qword_raw<T: Transport>(port: &mut Link<T>) -> (r: Result<u64, IoError>)
    ensures
        reads_frame(
            old(port).log(),
            final(port).log(),
            8,
            ByteOrder::Native,
            old(port).host(),
            frame_value(r),
        ),
        old(port).leads_to(final(port)),
        carried_out(old(port).port_view(), final(port).log().last(), final(port).port_view()),
{
    read_ordered(port, Width::Qword, ByteOrder::Native)
}

/// Reads eight bytes as a number in the byte order opposite to the host's.
pub fn read_qword_flipped_endian<T: Transport>(port: &mut Link<T>) -> (r: Result<u64, IoError>)
    ensures
        reads_frame(
            old(port).log(),
            final(port).log(),
            8,
            ByteOrder::Swapped,
            old(port).host(),
            frame_value(r),
        ),
        old(port).leads_to(final(port)),
        carried_out(old(port).port_view(), final(port).log().last(), final(port).port_view()),
{
    read_ordered(port, Width::Qword, ByteOrder::Swapped)
}

/// Writes a number as eight bytes in the byte order of the host.
pub fn write_qword_raw<T: Transport>(port: &mut Link<T>, val: u64) -> (status: Result<(), IoError>)
    ensures
        writes_frame(
            old(port).log(),
            final(port).log(),
            val as nat,
            8,
            ByteOrder::Native,
            old(port).host(),
            status,
        ),
        old(port).leads_to(final(port)),
        carried_out(old(port).port_view(), final(port).log().last(), final(port).port_view()),
{
    write_ordered(port, val, Width::Qword, ByteOrder::Native)
}

/// Writes a number as eight bytes in the byte order opposite to the host's.
pub fn write_qword_flipped_endian<T: Transport>(port: &mut Link<T>, val: u64) -> (status: Result<
    (),
    IoError,
>)
    ensures
        writes_frame(
            old(port).log(),
            final(port).log(),
            val as nat,
            8,
            ByteOrder::Swapped,
            old(port).host(),
            status,
        ),
        old(port).leads_to(final(port)),
        carried_out(old(port).port_view(), final(port).log().last(), final(port).port_view()),
{
    write_ordered(port, val, Width::Qword, ByteOrder::Swapped)
}

/// What the read of a signed number of eight bytes gave.
pub open spec fn i64_outcome(r: Result<i64, IoError>) -> Result<int, IoError> {
    match r {
        Ok(v) => Ok(v as int),
        Err(e) => Err(e),
    }
}

/// What the read of a signed number of four bytes gave.
pub open spec fn i32_outcome(r: Result<i32, IoError>) -> Result<int, IoError> {
    match r {
        Ok(v) => Ok(v as int),
        Err(e) => Err(e),
    }
}

/// Reads eight bytes in the byte order of the host as a two's-complement number.
pub fn read_i64_raw<T: Transport>(port: &mut Link<T>) -> (r: Result<i64, IoError>)
    ensures
        reads_frame(
            old(port).log(),
            final(port).log(),
            8,
            ByteOrder::Native,
            old(port).host(),
            signed_outcome(i64_outcome(r), 8),
        ),
        old(port).leads_to(final(port)),
        carried_out(old(port).port_view(), final(port).log().last(), final(port).port_view()),
{
    match read_qword_raw(port) {
        Ok(bits) => {
            proof {
                lemma_signed_round_trip(bits as nat, 8);
            }
            Ok(signed_qword(bits))
        },
        Err(e) => Err(e),
    }
}

/// Reads four bytes as a number in the byte order of the host.
pub fn read_dword_raw<T: Transport>(port: &mut Link<T>) -> (r: Result<u32, IoError>)
    ensures
        reads_frame(
            old(port).log(),
            final(port).log(),
            4,
            ByteOrder::Native,
            old(port).host(),
            dword_outcome(r),
        ),
        old(port).leads_to(final(port)),
        carried_out(old(port).port_view(), final(port).log().last(), final(port).port_view()),
{
    match read_ordered(port, Width::Dword, ByteOrder::Native) {
        Ok(v) => {
            proof {
                lemma_radix_pow_values();
            }
            Ok(v as u32)
        },
        Err(e) => Err(e),
    }
}

/// Reads four bytes as a number in the byte order opposite to the host's.
pub fn read_dword_flipped_endian<T: Transport>(port: &mut Link<T>) -> (r: Result<u32, IoError>)
    ensures
        reads_frame(
            old(port).log(),
            final(port).log(),
            4,
            ByteOrder::Swapped,
            old(port).host(),
            dword_outcome(r),
        ),
        old(port).leads_to(final(port)),
        carried_out(old(port).port_view(), final(port).log().last(), final(port).port_view()),
{
    match read_ordered(port, Width::Dword, ByteOrder::Swapped) {
        Ok(v) => {
            proof {
                lemma_radix_pow_values();
            }
            Ok(v as u32)
        },
        Err(e) => Err(e),
    }
}

/// Writes a number as four bytes in the byte order of the host.
pub fn write_dword_raw<T: Transport>(port: &mut Link<T>, val: u32) -> (status: Result<(), IoError>)
    ensures
        writes_frame(
            old(port).log(),
            final(port).log(),
            val as nat,
            4,
            ByteOrder::Native,
            old(port).host(),
            status,
        ),
        old(port).leads_to(final(port)),
        carried_out(old(port).port_view(), final(port).log().last(), final(port).port_view()),
{
    write_ordered(port, val as u64, Width::Dword, ByteOrder::Native)
}

/// Writes a number as four bytes in the byte order opposite to the host's.
pub fn write_dword_flipped_endian<T: Transport>(port: &mut Link<T>, val: u32) -> (status: Result<
    (),
    IoError,
>)
    ensures
        writes_frame(
            old(port).log(),
            final(port).log(),
            val as nat,
            4,
            ByteOrder::Swapped,
            old(port).host(),
            status,
        ),
        old(port).leads_to(final(port)),
        carried_out(old(port).port_view(), final(port).log().last(), final(port).port_view()),
{
    write_ordered(port, val as u64, Width::Dword, ByteOrder::Swapped)
}

/// Reads four bytes in the byte order of the host as a two's-complement number.
pub fn read_i32_raw<T: Transport>(port: &mut Link<T>) -> (r: Result<i32, IoError>)
    ensures
        reads_frame(
            old(port).log(),
            final(port).log(),
            4,
            ByteOrder::Native,
            old(port).host(),
            signed_outcome(i32_outcome(r), 4),
        ),
        old(port).leads_to(final(port)),
        carried_out(old(port).port_view(), final(port).log().last(), final(port).port_view()),
{
    match read_dword_raw(port) {
        Ok(bits) => {
            proof {
                lemma_signed_round_trip(bits as nat, 4);
            }
            Ok(signed_dword(bits))
        },
        Err(e) => Err(e),
    }
}

/// Reads a string up to and including the byte `endbyte`.
///
/// The bytes are read one at a time until `endbyte` has arrived, and then
/// decoded as UTF-8. The string holds `endbyte` as its last character.
pub fn read_string_until_byte<T: Transport>(port: &mut Link<T>, endbyte: u8) -> (r: Result<
    String,
    LineError,
>)
    ensures
        old(port).log().is_prefix_of(final(port).log()),
        old(port).leads_to(final(port)),
        ({
            let added = final(port).log().skip(old(port).log().len() as int);
            let limit = usize::MAX as nat;
            match r {
                Ok(text) => is_line_read(added, endbyte, limit, encode_utf8(text@), Ok(())),
                Err(LineError::Encoding(raw)) => {
                    &&& is_line_read(added, endbyte, limit, raw@, Ok(()))
                    &&& !valid_utf8(raw@)
                },
                Err(LineError::Io(e)) => exists|got: Seq<u8>|
                    #[trigger] is_line_read(added, endbyte, limit, got, Err(e)),
            }
        }),
{
    let mut buf: Vec<u8> = Vec::with_capacity(4096);
    let status = read_until(port, endbyte, usize::MAX, &mut buf);
    proof {
        assert(buf@.skip(0) =~= buf@);
    }
    match status {
        Ok(()) => {
            match decode_text(buf) {
                Ok(text) => {
                    proof {
                        decode_utf8_encode_utf8(buf@);
                    }
                    Ok(text)
                },
                Err(raw) => Err(LineError::Encoding(raw)),
            }
        },
        Err(e) => {
            proof {
                let added = port.log().skip(old(port).log().len() as int);
                assert(is_line_read(added, endbyte, usize::MAX as nat, buf@, Err(e)));
            }
            Err(LineError::Io(e))
        },
    }
}

/// Writes the bytes of a string, and nothing after them. One write is made.
pub fn write_str_raw<T: Transport>(port: &mut Link<T>, str_to_write: &str) -> (status: Result<
    (),
    IoError,
>)
    ensures
        final(port).log() == old(port).log().push(
            Exchange::Write { data: str_to_write.spec_bytes(), error: error_of(status) },
        ),
        old(port).leads_to(final(port)),
        carried_out(old(port).port_view(), final(port).log().last(), final(port).port_view()),
{
    port.write_all(str_to_write.as_bytes())
}

/// Writes the bytes of a string and the byte `endbyte` after them. One write is made.
pub fn write_str_ends_with<T: Transport>(
    port: &mut Link<T>,
    str_to_write: &str,
    endbyte: u8,
) -> (status: Result<(), IoError>)
    ensures
        final(port).log() == old(port).log().push(
            Exchange::Write {
                data: terminated(str_to_write.spec_bytes(), endbyte),
                error: error_of(status),
            },
        ),
        old(port).leads_to(final(port)),
        carried_out(old(port).port_view(), final(port).log().last(), final(port).port_view()),
{
    write_terminated(port, str_to_write.as_bytes(), endbyte)
}

/// Writes `value` as one frame to a loopback in the given order and reads
/// one frame of the same width back in the same order.
///
/// One write is made and, unless it fails, one read. On an echoing loopback
/// on which nothing waits the value comes back, cut down to the width: see
/// [`lemma_echoed_round_trip`].
pub fn echo_ordered(link: &mut Link<Loopback>, value: u64, width: Width, order: ByteOrder) -> (r:
    Result<u64, IoError>)
    ensures
        frame_value(r) == echoed(
            old(link).port_view(),
            value as nat,
            width.bytes(),
            wire_layout(order, old(link).host()),
        ),
        final(link).port_view().pending() == left_waiting(
            old(link).port_view(),
            value as nat,
            width.bytes(),
            wire_layout(order, old(link).host()),
        ),
        old(link).leads_to(final(link)),
        final(link).log().len() == old(link).log().len() + if old(link).port_view().is_broken() {
            1nat
        } else {
            2nat
        },
{
    let ghost layout = wire_layout(order, link.host());
    proof {
        lemma_encoded_len(value as nat, width.bytes(), layout);
    }
    let ghost start = *link;
    if let Err(e) = write_ordered(link, value, width, order) {
        return Err(e);
    }
    let ghost between = *link;
    let r = read_ordered(link, width, order);
    proof {
        start.lemma_leads_on(&between, &*link);
        if r is Ok {
            lemma_codec_round_trip_exact(r->Ok_0 as nat, width.bytes(), layout);
        }
    }
    r
}

} // verus!
