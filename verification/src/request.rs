//! Requests of the binary protocol.
//!
//! A request is one frame of raw bytes. Its first byte is the opcode; a write
//! request carries its payload after it, a read request carries nothing.

use crate::action::{ActionConversionError, ConversionErrorView};
use crate::bytes::append_bytes;
use vstd::prelude::*;
use vstd::slice::slice_subrange;
use vstd::string::StringExecFns;

verus! {

/// Opcode of a read request.
pub const OPCODE_READ: u8 = 0x52;

/// Opcode of a write request.
pub const OPCODE_WRITE: u8 = 0x57;

/// Opcode of the handshake challenge and of its echo.
pub const OPCODE_HANDSHAKE: u8 = 0x48;

/// Opcode of the acknowledgement that ends a handshake.
pub const OPCODE_ACK: u8 = 0x41;

/// The bytes of one frame of the binary protocol.
pub type Instruction = Vec<u8>;

/// One request of the binary protocol.
#[derive(Clone, Debug, PartialEq, Eq)]
pub enum Request {
    /// Read one frame from the device.
    Read,
    /// Write the payload to the device.
    Write(Instruction),
}

/// A [`Request`] as plain values.
pub enum RequestView {
    Read,
    Write(Seq<u8>),
}

impl View for Request {
    type V = RequestView;

    open spec fn view(&self) -> RequestView {
        match self {
            Request::Read => RequestView::Read,
            Request::Write(payload) => RequestView::Write(payload@),
        }
    }
}

/// The message of a frame without bytes.
pub open spec fn empty_frame_message() -> Seq<char> {
    "[Request::try_from] Empty frame as input"@
}

/// The message of a frame whose first byte is no opcode of a request.
pub open spec fn undefined_opcode_message() -> Seq<char> {
    "[Request::try_from] Undefined opcode"@
}

/// The message of a read request that carries a payload.
pub open spec fn malformed_read_message() -> Seq<char> {
    "[Request::try_from] Read request with a payload"@
}

/// What a frame of input means.
pub open spec fn parsed_request(frame: Seq<u8>) -> Result<RequestView, ConversionErrorView> {
    if frame.len() == 0 {
        Err(ConversionErrorView::EmptyOpSequence(empty_frame_message()))
    } else if frame[0] == OPCODE_READ {
        if frame.len() == 1 {
            Ok(RequestView::Read)
        } else {
            Err(ConversionErrorView::MalformedOpSequence(malformed_read_message()))
        }
    } else if frame[0] == OPCODE_WRITE {
        Ok(RequestView::Write(frame.skip(1)))
    } else {
        Err(ConversionErrorView::UndefinedOpSequence(undefined_opcode_message()))
    }
}

/// The frame that carries a request.
pub open spec fn request_frame(request: RequestView) -> Seq<u8> {
    match request {
        RequestView::Read => seq![OPCODE_READ],
        RequestView::Write(payload) => seq![OPCODE_WRITE] + payload,
    }
}

/// What comes back from parsing, as plain values.
pub open spec fn request_view(r: Result<Request, ActionConversionError>) -> Result<
    RequestView,
    ConversionErrorView,
> {
    match r {
        Ok(request) => Ok(request@),
        Err(e) => Err(e@),
    }
}

/// Every request is read back from its own frame.
pub proof fn lemma_request_round_trip(request: RequestView)
    ensures
        parsed_request(request_frame(request)) == Ok::<RequestView, ConversionErrorView>(request),
{
    match request {
        RequestView::Read => {},
        RequestView::Write(payload) => {
            assert((seq![OPCODE_WRITE] + payload).skip(1) =~= payload);
        },
    }
}

/// A frame that is a request is the frame of that request.
pub proof fn lemma_frame_of_parsed(frame: Seq<u8>)
    requires
        parsed_request(frame) is Ok,
    ensures
        request_frame(parsed_request(frame)->Ok_0) == frame,
{
    if frame[0] == OPCODE_READ {
        assert(seq![OPCODE_READ] =~= frame);
    } else {
        assert(seq![OPCODE_WRITE] + frame.skip(1) =~= frame);
    }
}

impl Request {
    /// Reads one frame of input as a request.
    ///
    /// A frame without bytes is empty. The opcode of a read must stand alone;
    /// the opcode of a write is followed by the payload, which may be empty;
    /// any other first byte is undefined.
    pub fn try_from(frame: &[u8]) -> (r: Result<Request, ActionConversionError>)
        ensures
            request_view(r) == parsed_request(frame@),
    {
        if frame.len() == 0 {
            return Err(
                ActionConversionError::EmptyOpSequence(
                    String::from_str("[Request::try_from] Empty frame as input"),
                ),
            );
        }
        let opcode: u8 = frame[0];
        if opcode == OPCODE_READ {
            if frame.len() == 1 {
                Ok(Request::Read)
            } else {
                Err(
                    ActionConversionError::MalformedOpSequence(
                        String::from_str("[Request::try_from] Read request with a payload"),
                    ),
                )
            }
        } else if opcode == OPCODE_WRITE {
            let mut payload: Vec<u8> = Vec::new();
            append_bytes(&mut payload, slice_subrange(frame, 1, frame.len()));
            proof {
                assert(payload@ =~= frame@.skip(1));
            }
            Ok(Request::Write(payload))
        } else {
            Err(
                ActionConversionError::UndefinedOpSequence(
                    String::from_str("[Request::try_from] Undefined opcode"),
                ),
            )
        }
    }

    /// The frame that carries this request.
    pub fn to_bytes(&self) -> (frame: Instruction)
        ensures
            frame@ == request_frame(self@),
    {
        match self {
            Request::Read => {
                let mut frame: Vec<u8> = Vec::new();
                frame.push(OPCODE_READ);
                frame
            },
            Request::Write(payload) => {
                let mut frame: Vec<u8> = Vec::new();
                frame.push(OPCODE_WRITE);
                append_bytes(&mut frame, payload.as_slice());
                frame
            },
        }
    }
}

} // verus!
