//! Fixed-width frames over a link.

use crate::codec::{
    decode_fixed, decoded, encode_fixed, encoded, lemma_codec_round_trip,
    lemma_codec_round_trip_exact, lemma_encoded_len, lemma_frame_round_trip, lemma_le_value_bound,
    radix_pow, swapped, Endianness, Width,
};
use crate::loopback::Loopback;
use crate::transport::{carried_out, error_of, Exchange, IoError, Link, Transport};
use vstd::prelude::*;

verus! {

/// What the read of one frame gave, as a number.
pub open spec fn frame_value(r: Result<u64, IoError>) -> Result<nat, IoError> {
    match r {
        Ok(v) => Ok(v as nat),
        Err(e) => Err(e),
    }
}

/// The one read behind a frame that was received: it asked for `width` bytes,
/// and where a value came out, the bytes that came back are the frame of that
/// value in the given arrangement.
pub open spec fn frame_read(
    width: nat,
    layout: Endianness,
    outcome: Result<nat, IoError>,
) -> Exchange {
    Exchange::Read {
        len: width,
        reply: match outcome {
            Ok(v) => Ok(encoded(v, width, layout)),
            Err(e) => Err(e),
        },
    }
}

/// Whether the step from the record `before` to the record `after` is the
/// exact-length read of one frame with the given outcome.
pub open spec fn is_frame_read(
    before: Seq<Exchange>,
    after: Seq<Exchange>,
    width: nat,
    layout: Endianness,
    outcome: Result<nat, IoError>,
) -> bool {
    &&& after == before.push(frame_read(width, layout, outcome))
    &&& outcome matches Ok(v) ==> v < radix_pow(width)
}

/// Whether the step from `before` to `after` is the write of the frame of
/// `value` with the given status.
pub open spec fn is_frame_write(
    before: Seq<Exchange>,
    after: Seq<Exchange>,
    value: nat,
    width: nat,
    layout: Endianness,
    status: Result<(), IoError>,
) -> bool {
    after == before.push(
        Exchange::Write { data: encoded(value, width, layout), error: error_of(status) },
    )
}

/// Round trip over an echoing transport: where a frame is written and the
/// next read gives back the very bytes that were written, the value read is
/// the value written, cut down to the width of the frame.
pub proof fn lemma_echo_round_trip(
    before: Seq<Exchange>,
    between: Seq<Exchange>,
    after: Seq<Exchange>,
    written: nat,
    read: nat,
    width: nat,
    layout: Endianness,
)
    requires
        is_frame_write(before, between, written, width, layout, Ok(())),
        is_frame_read(between, after, width, layout, Ok(read)),
        after.last() == (Exchange::Read { len: width, reply: Ok(between.last()->data) }),
    ensures
        read == written % radix_pow(width),
{
    assert(between.last() == Exchange::Write {
        data: encoded(written, width, layout),
        error: error_of(Ok(())),
    });
    assert(after.last() == frame_read(width, layout, Ok(read)));
    assert(encoded(read, width, layout) == encoded(written, width, layout));
    lemma_codec_round_trip_exact(read, width, layout);
    lemma_codec_round_trip(written, width, layout);
}

/// Reads one frame of the given width and returns the value it carries.
///
/// Exactly one exact-length read is made. A failure of the transport, a
/// timeout or a short read comes back as the error.
pub fn read_fixed<T: Transport>(link: &mut Link<T>, width: Width, layout: Endianness) -> (r:
    Result<u64, IoError>)
    ensures
        is_frame_read(old(link).log(), final(link).log(), width.bytes(), layout, frame_value(r)),
        old(link).leads_to(final(link)),
        carried_out(old(link).port_view(), final(link).log().last(), final(link).port_view()),
{
    let reply = link.read_exact(width.len());
    match reply {
        Ok(bytes) => {
            let value = decode_fixed(bytes.as_slice(), layout);
            proof {
                lemma_frame_round_trip(bytes@, layout);
                match layout {
                    Endianness::Little => lemma_le_value_bound(bytes@),
                    Endianness::Big => lemma_le_value_bound(swapped(bytes@)),
                }
            }
            Ok(value.unwrap())
        },
        Err(e) => Err(e),
    }
}

/// Writes `value`, cut down to `width` bytes, as one frame.
///
/// Exactly one write is made, of exactly `width` bytes.
pub fn write_fixed<T: Transport>(
    link: &mut Link<T>,
    value: u64,
    width: Width,
    layout: Endianness,
) -> (status: Result<(), IoError>)
    ensures
        is_frame_write(
            old(link).log(),
            final(link).log(),
            value as nat,
            width.bytes(),
            layout,
            status,
        ),
        old(link).leads_to(final(link)),
        carried_out(old(link).port_view(), final(link).log().last(), final(link).port_view()),
{
    let frame = encode_fixed(value, width, layout);
    link.write_all(frame.as_slice())
}

/// What comes back where the frame of `value` is written to a loopback and
/// one frame of the same width is read: on a broken loopback the write
/// fails; else the read takes the oldest `width` bytes waiting, the frame
/// just written among them where the loopback echoes, and times out where
/// fewer are waiting.
pub open spec fn echoed(port: Loopback, value: nat, width: nat, layout: Endianness) -> Result<
    nat,
    IoError,
> {
    let waiting = if port.echoes() {
        port.pending() + encoded(value, width, layout)
    } else {
        port.pending()
    };
    if port.is_broken() {
        Err(IoError::Failed)
    } else if waiting.len() < width {
        Err(IoError::TimedOut)
    } else {
        Ok(decoded(waiting.take(width as int), layout))
    }
}

/// What waits on the loopback after that write and that read.
pub open spec fn left_waiting(port: Loopback, value: nat, width: nat, layout: Endianness) -> Seq<
    u8,
> {
    let waiting = if port.echoes() && !port.is_broken() {
        port.pending() + encoded(value, width, layout)
    } else {
        port.pending()
    };
    if echoed(port, value, width, layout) is Ok {
        waiting.skip(width as int)
    } else {
        waiting
    }
}

/// Codec round trip over a loopback buffer: on an echoing loopback on which
/// nothing waits, what is read back is the value written, cut down to the
/// width of the frame.
pub proof fn lemma_echoed_round_trip(port: Loopback, value: nat, width: nat, layout: Endianness)
    requires
        port.echoes(),
        !port.is_broken(),
        port.pending().len() == 0,
    ensures
        echoed(port, value, width, layout) == Ok::<nat, IoError>(value % radix_pow(width)),
        left_waiting(port, value, width, layout).len() == 0,
{
    let frame = encoded(value, width, layout);
    lemma_encoded_len(value, width, layout);
    lemma_codec_round_trip(value, width, layout);
    assert((port.pending() + frame).take(width as int) =~= frame);
}

/// Writes `value` as one frame to a loopback and reads one frame of the same
/// width back, in the same arrangement.
///
/// One write is made and, unless it fails, one read.
pub fn echo_fixed(link: &mut Link<Loopback>, value: u64, width: Width, layout: Endianness) -> (r:
    Result<u64, IoError>)
    ensures
        frame_value(r) == echoed(old(link).port_view(), value as nat, width.bytes(), layout),
        old(link).leads_to(final(link)),
        final(link).log().len() == old(link).log().len() + if old(link).port_view().is_broken() {
            1nat
        } else {
            2nat
        },
        final(link).port_view().pending() == left_waiting(
            old(link).port_view(),
            value as nat,
            width.bytes(),
            layout,
        ),
        final(link).port_view().sent() == if old(link).port_view().is_broken() {
            old(link).port_view().sent()
        } else {
            old(link).port_view().sent() + encoded(value as nat, width.bytes(), layout)
        },
{
    proof {
        lemma_encoded_len(value as nat, width.bytes(), layout);
    }
    let ghost start = *link;
    if let Err(e) = write_fixed(link, value, width, layout) {
        return Err(e);
    }
    let ghost between = *link;
    let r = read_fixed(link, width, layout);
    proof {
        start.lemma_leads_on(&between, &*link);
        if r is Ok {
            lemma_codec_round_trip_exact(r->Ok_0 as nat, width.bytes(), layout);
        }
    }
    r
}

} // verus!
