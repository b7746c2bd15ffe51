//! Terminator-delimited frames over a link.
//!
//! A line is a run of bytes that ends with the terminator and holds it
//! nowhere else. The codec always hands back the whole line, terminator
//! included; who wants the content alone strips it.

use crate::bytes::append_bytes;
use crate::transport::{
    carried_out, error_of, lemma_replayed_none, lemma_replayed_push, replayed, Exchange, IoError,
    Link, Transport,
};
use vstd::prelude::*;
use vstd::slice::slice_subrange;
use vstd::utf8::{decode_utf8, valid_utf8};

verus! {

/// Whether `bytes` holds the terminator nowhere.
pub open spec fn has_no(bytes: Seq<u8>, terminator: u8) -> bool {
    forall|i: int| 0 <= i < bytes.len() ==> bytes[i] != terminator
}

/// Whether `bytes` is one line: it ends with the terminator and holds it
/// nowhere before.
pub open spec fn is_line(bytes: Seq<u8>, terminator: u8) -> bool {
    &&& bytes.len() > 0
    &&& bytes.last() == terminator
    &&& has_no(bytes.drop_last(), terminator)
}

/// The payload followed by one terminator.
pub open spec fn terminated(payload: Seq<u8>, terminator: u8) -> Seq<u8> {
    payload.push(terminator)
}

/// The bytes without the terminator at their end, if there is one.
pub open spec fn content_of(bytes: Seq<u8>, terminator: u8) -> Seq<u8> {
    if bytes.len() > 0 && bytes.last() == terminator {
        bytes.drop_last()
    } else {
        bytes
    }
}

/// One successful read of a single byte for each of `bytes`, in order.
pub open spec fn single_reads(bytes: Seq<u8>) -> Seq<Exchange> {
    Seq::new(bytes.len(), |i: int| Exchange::Read { len: 1, reply: Ok(seq![bytes[i]]) })
}

/// The calls behind the attempt to read one line, and how it ended.
///
/// `got` is what arrived. The bytes are read one at a time. The attempt ends
/// well when the terminator arrives; it fails when a read fails, with that
/// error, or when `limit` bytes have arrived without the terminator, as an
/// overrun.
pub open spec fn is_line_read(
    added: Seq<Exchange>,
    terminator: u8,
    limit: nat,
    got: Seq<u8>,
    status: Result<(), IoError>,
) -> bool {
    match status {
        Ok(()) => {
            &&& is_line(got, terminator)
            &&& got.len() <= limit
            &&& added == single_reads(got)
        },
        Err(e) => {
            &&& has_no(got, terminator)
            &&& got.len() <= limit
            &&& if got.len() < limit {
                added == single_reads(got).push(Exchange::Read { len: 1, reply: Err(e) })
            } else {
                e == IoError::Overrun && added == single_reads(got)
            }
        },
    }
}

/// Stripping the terminator from a line leaves its content, which holds no
/// terminator; putting the terminator back gives the line.
pub proof fn lemma_line_content(line: Seq<u8>, terminator: u8)
    requires
        is_line(line, terminator),
    ensures
        has_no(content_of(line, terminator), terminator),
        terminated(content_of(line, terminator), terminator) == line,
{
    assert(line.drop_last().push(terminator) =~= line);
}

/// A payload without terminator, once terminated, is a line whose content is
/// the payload.
pub proof fn lemma_terminated_is_line(payload: Seq<u8>, terminator: u8)
    requires
        has_no(payload, terminator),
    ensures
        is_line(terminated(payload, terminator), terminator),
        content_of(terminated(payload, terminator), terminator) == payload,
{
    assert(payload.push(terminator).drop_last() =~= payload);
}

/// The bytes without the terminator at their end, if there is one.
pub fn strip_terminator(bytes: &[u8], terminator: u8) -> (content: &[u8])
    ensures
        content@ == content_of(bytes@, terminator),
{
    let n: usize = bytes.len();
    if n > 0 && bytes[n - 1] == terminator {
        slice_subrange(bytes, 0, n - 1)
    } else {
        bytes
    }
}

/// The payload followed by one terminator.
pub fn terminate(payload: &[u8], terminator: u8) -> (frame: Vec<u8>)
    ensures
        frame@ == terminated(payload@, terminator),
{
    let mut frame: Vec<u8> = Vec::new();
    append_bytes(&mut frame, payload);
    frame.push(terminator);
    frame
}

/// Reads bytes into `buf` up to and including the next terminator.
///
/// The bytes are appended to `buf`, which is not cleared. They are read one
/// at a time, so that nothing after the terminator is taken from the
/// transport. At most `limit` bytes are read.
pub fn read_until<T: Transport>(
    link: &mut Link<T>,
    terminator: u8,
    limit: usize,
    buf: &mut Vec<u8>,
) -> (status: Result<(), IoError>)
    ensures
        old(link).log().is_prefix_of(final(link).log()),
        old(buf)@.is_prefix_of(final(buf)@),
        is_line_read(
            final(link).log().skip(old(link).log().len() as int),
            terminator,
            limit as nat,
            final(buf)@.skip(old(buf)@.len() as int),
            status,
        ),
        old(link).leads_to(final(link)),
{
    let ghost log0 = link.log();
    let ghost buf0 = buf@;
    let mut count: usize = 0;
    proof {
        assert(link.log().skip(log0.len() as int) =~= single_reads(Seq::<u8>::empty()));
        assert(buf@.skip(buf0.len() as int) =~= Seq::<u8>::empty());
        assert(link.log().skip(log0.len() as int) =~= Seq::<Exchange>::empty());
        lemma_replayed_none(link.port_view());
    }
    while count < limit
        invariant
            count <= limit,
            log0 == old(link).log(),
            buf0 == old(buf)@,
            link.host() == old(link).host(),
            replayed(old(link).port_view(), link.log().skip(log0.len() as int), link.port_view()),
            log0.is_prefix_of(link.log()),
            buf0.is_prefix_of(buf@),
            buf@.len() == buf0.len() + count,
            has_no(buf@.skip(buf0.len() as int), terminator),
            link.log().skip(log0.len() as int) == single_reads(buf@.skip(buf0.len() as int)),
        decreases limit - count,
    {
        let ghost got = buf@.skip(buf0.len() as int);
        let ghost log1 = link.log();
        let ghost port1 = link.port_view();
        let reply = link.read_exact(1);
        proof {
            assert(log0.is_prefix_of(link.log()));
            lemma_replayed_push(
                old(link).port_view(),
                log1.skip(log0.len() as int),
                port1,
                link.log().last(),
                link.port_view(),
            );
            assert(link.log().skip(log0.len() as int) =~= log1.skip(log0.len() as int).push(
                link.log().last(),
            ));
        }
        match reply {
            Ok(bytes) => {
                let byte: u8 = bytes[0];
                buf.push(byte);
                count = count + 1;
                proof {
                    let got1 = buf@.skip(buf0.len() as int);
                    assert(got1 =~= got.push(byte));
                    assert(bytes@ =~= seq![byte]);
                    assert(link.log().skip(log0.len() as int) =~= log1.skip(log0.len() as int).push(
                        Exchange::Read { len: 1, reply: Ok(seq![byte]) },
                    ));
                    assert(single_reads(got1) =~= single_reads(got).push(
                        Exchange::Read { len: 1, reply: Ok(seq![byte]) },
                    ));
                    assert(got1.drop_last() =~= got);
                }
                if byte == terminator {
                    return Ok(());
                }
                proof {
                    let got1 = buf@.skip(buf0.len() as int);
                    assert forall|i: int| 0 <= i < got1.len() implies got1[i] != terminator by {
                        if i < got.len() {
                            assert(got1[i] == got[i]);
                        }
                    }
                }
            },
            Err(e) => {
                proof {
                    assert(link.log().skip(log0.len() as int) =~= single_reads(got).push(
                        Exchange::Read { len: 1, reply: Err(e) },
                    ));
                }
                return Err(e);
            },
        }
    }
    Err(IoError::Overrun)
}

/// Writes the payload and one terminator after it.
///
/// Exactly one write is made, of the payload followed by the terminator, so
/// that no frame goes out half written by this function's own doing.
pub fn write_terminated<T: Transport>(link: &mut Link<T>, payload: &[u8], terminator: u8) -> (status:
    Result<(), IoError>)
    ensures
        final(link).log() == old(link).log().push(
            Exchange::Write { data: terminated(payload@, terminator), error: error_of(status) },
        ),
        old(link).leads_to(final(link)),
        carried_out(old(link).port_view(), final(link).log().last(), final(link).port_view()),
{
    let frame = terminate(payload, terminator);
    link.write_all(frame.as_slice())
}

/// Decodes bytes as UTF-8 text, through `String::from_utf8` of the standard
/// library.
///
/// Claimed without proof: there is a text exactly when the bytes are valid
/// UTF-8, and it is then the characters that the bytes encode.
#[verifier::external_body]
fn utf8_text(bytes: Vec<u8>) -> (text: Option<String>)
    ensures
        text is Some <==> valid_utf8(bytes@),
        text matches Some(s) ==> s@ == decode_utf8(bytes@),
{
    match String::from_utf8(bytes) {
        Ok(s) => Some(s),
        Err(_) => None,
    }
}

/// Decodes a frame as text. A frame that is not valid UTF-8 comes back
/// unchanged as the error.
pub fn decode_text(bytes: Vec<u8>) -> (r: Result<String, Vec<u8>>)
    ensures
        match r {
            Ok(s) => valid_utf8(bytes@) && s@ == decode_utf8(bytes@),
            Err(raw) => !valid_utf8(bytes@) && raw@ == bytes@,
        },
{
    let copy = bytes.clone();
    match utf8_text(bytes) {
        Some(s) => Ok(s),
        None => Err(copy),
    }
}

} // verus!
