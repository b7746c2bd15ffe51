use serial_communicator::request::{OPCODE_ACK, OPCODE_HANDSHAKE, OPCODE_READ, OPCODE_WRITE};
use serial_communicator::{ActionConversionError, Request};

#[test]
fn request_read() {
    assert_eq!(Request::try_from(&[OPCODE_READ]), Ok(Request::Read));
}

#[test]
fn request_write_carries_rest_as_payload() {
    assert_eq!(
        Request::try_from(&[OPCODE_WRITE, 1, 2, 3]),
        Ok(Request::Write(vec![1, 2, 3]))
    );
    assert_eq!(
        Request::try_from(&[OPCODE_WRITE, OPCODE_READ]),
        Ok(Request::Write(vec![OPCODE_READ]))
    );
}

#[test]
fn request_write_may_be_empty() {
    assert_eq!(Request::try_from(&[OPCODE_WRITE]), Ok(Request::Write(vec![])));
}

#[test]
fn request_empty_frame() {
    assert_eq!(
        Request::try_from(&[]),
        Err(ActionConversionError::EmptyOpSequence(String::from(
            "[Request::try_from] Empty frame as input"
        )))
    );
}

#[test]
fn request_unknown_opcode() {
    for opcode in [0u8, 1, OPCODE_HANDSHAKE, OPCODE_ACK, 0xff] {
        assert_eq!(
            Request::try_from(&[opcode, 9]),
            Err(ActionConversionError::UndefinedOpSequence(String::from(
                "[Request::try_from] Undefined opcode"
            )))
        );
    }
}

#[test]
fn request_read_with_payload_is_malformed() {
    assert_eq!(
        Request::try_from(&[OPCODE_READ, 0]),
        Err(ActionConversionError::MalformedOpSequence(String::from(
            "[Request::try_from] Read request with a payload"
        )))
    );
}

#[test]
fn request_round_trip() {
    for request in [
        Request::Read,
        Request::Write(vec![]),
        Request::Write(vec![0, 1, 2, 0xff]),
    ] {
        assert_eq!(Request::try_from(&request.to_bytes()), Ok(request));
    }
    assert_eq!(Request::Read.to_bytes(), vec![OPCODE_READ]);
    assert_eq!(
        Request::Write(vec![7, 8]).to_bytes(),
        vec![OPCODE_WRITE, 7, 8]
    );
}

#[test]
fn opcodes_are_distinct() {
    let all = [OPCODE_READ, OPCODE_WRITE, OPCODE_HANDSHAKE, OPCODE_ACK];
    for i in 0..all.len() {
        for j in 0..i {
            assert_ne!(all[i], all[j]);
        }
    }
}
