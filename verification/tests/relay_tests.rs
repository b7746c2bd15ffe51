use serial_communicator::relay::{Directive, Notice, Relay, Stage};
use serial_communicator::loopback::Loopback;
use serial_communicator::transport::{IoError, Transport};

#[test]
fn relay_happy_path() {
    let mut relay = Relay::begin(vec![1, 2, 3], 8);
    assert_eq!(relay.stage(), Stage::AwaitWritable);
    assert_eq!(relay.unsent(), &[1, 2, 3]);
    assert_eq!(relay.advance(Notice::Writable), Directive::TryWrite);
    assert_eq!(relay.advance(Notice::Wrote(3)), Directive::Flush);
    assert_eq!(relay.unsent(), &[] as &[u8]);
    assert_eq!(relay.advance(Notice::Flushed), Directive::AwaitReadable);
    assert_eq!(relay.advance(Notice::Readable), Directive::TryRead { max: 8 });
    assert!(!relay.is_over());
    assert_eq!(
        relay.advance(Notice::Received(vec![9, 9])),
        Directive::Deliver(vec![9, 9])
    );
    assert_eq!(relay.stage(), Stage::Done);
    assert!(relay.is_over());
    assert_eq!(relay.advance(Notice::Readable), Directive::Idle);
    assert_eq!(relay.advance(Notice::Failed(IoError::Failed)), Directive::Idle);
    assert_eq!(relay.stage(), Stage::Done);
}

#[test]
fn relay_would_block_on_read_waits_again() {
    let mut relay = Relay::begin(vec![1], 8);
    relay.advance(Notice::Writable);
    relay.advance(Notice::Wrote(1));
    relay.advance(Notice::Flushed);
    for _ in 0..5 {
        assert_eq!(relay.advance(Notice::Readable), Directive::TryRead { max: 8 });
        assert_eq!(
            relay.advance(Notice::Failed(IoError::WouldBlock)),
            Directive::AwaitReadable
        );
        assert_eq!(relay.stage(), Stage::AwaitReadable);
    }
    assert_eq!(relay.advance(Notice::Readable), Directive::TryRead { max: 8 });
    assert_eq!(
        relay.advance(Notice::Received(vec![])),
        Directive::Deliver(vec![])
    );
}

#[test]
fn relay_partial_write_is_resumed() {
    let mut relay = Relay::begin(vec![1, 2, 3, 4, 5], 8);
    assert_eq!(relay.advance(Notice::Writable), Directive::TryWrite);
    assert_eq!(relay.advance(Notice::Wrote(2)), Directive::AwaitWritable);
    assert_eq!(relay.unsent(), &[3, 4, 5]);
    assert_eq!(relay.advance(Notice::Writable), Directive::TryWrite);
    assert_eq!(
        relay.advance(Notice::Failed(IoError::WouldBlock)),
        Directive::AwaitWritable
    );
    assert_eq!(relay.unsent(), &[3, 4, 5]);
    assert_eq!(relay.advance(Notice::Writable), Directive::TryWrite);
    assert_eq!(relay.advance(Notice::Wrote(3)), Directive::Flush);
    assert_eq!(relay.stage(), Stage::Flush);
}

#[test]
fn relay_write_of_nothing_or_too_much_fails() {
    let mut relay = Relay::begin(vec![1, 2], 8);
    relay.advance(Notice::Writable);
    assert_eq!(
        relay.advance(Notice::Wrote(0)),
        Directive::Abort(IoError::PartialWrite)
    );
    assert_eq!(relay.stage(), Stage::Failed);
    let mut relay = Relay::begin(vec![1, 2], 8);
    relay.advance(Notice::Writable);
    assert_eq!(
        relay.advance(Notice::Wrote(3)),
        Directive::Abort(IoError::PartialWrite)
    );
    assert!(relay.is_over());
}

#[test]
fn relay_any_other_error_is_fatal() {
    let mut relay = Relay::begin(vec![1], 8);
    assert_eq!(
        relay.advance(Notice::Failed(IoError::WouldBlock)),
        Directive::Abort(IoError::WouldBlock)
    );
    assert_eq!(relay.stage(), Stage::Failed);

    let mut relay = Relay::begin(vec![1], 8);
    relay.advance(Notice::Writable);
    assert_eq!(
        relay.advance(Notice::Failed(IoError::TimedOut)),
        Directive::Abort(IoError::TimedOut)
    );

    let mut relay = Relay::begin(vec![1], 8);
    relay.advance(Notice::Writable);
    relay.advance(Notice::Wrote(1));
    assert_eq!(
        relay.advance(Notice::Failed(IoError::WouldBlock)),
        Directive::Abort(IoError::WouldBlock)
    );

    let mut relay = Relay::begin(vec![1], 8);
    relay.advance(Notice::Writable);
    relay.advance(Notice::Wrote(1));
    relay.advance(Notice::Flushed);
    relay.advance(Notice::Readable);
    assert_eq!(
        relay.advance(Notice::Failed(IoError::Failed)),
        Directive::Abort(IoError::Failed)
    );
    assert_eq!(relay.advance(Notice::Readable), Directive::Idle);
}

#[test]
fn relay_notice_out_of_turn_is_fatal() {
    let mut relay = Relay::begin(vec![1], 8);
    assert_eq!(
        relay.advance(Notice::Readable),
        Directive::Abort(IoError::Failed)
    );
    let mut relay = Relay::begin(vec![1], 8);
    relay.advance(Notice::Writable);
    assert_eq!(
        relay.advance(Notice::Received(vec![1])),
        Directive::Abort(IoError::Failed)
    );
    let mut relay = Relay::begin(vec![1], 8);
    relay.advance(Notice::Writable);
    relay.advance(Notice::Wrote(1));
    assert_eq!(
        relay.advance(Notice::Readable),
        Directive::Abort(IoError::Failed)
    );
}

#[test]
fn relay_response_over_the_bound_is_an_overrun() {
    let mut relay = Relay::begin(vec![1], 2);
    relay.advance(Notice::Writable);
    relay.advance(Notice::Wrote(1));
    relay.advance(Notice::Flushed);
    assert_eq!(relay.advance(Notice::Readable), Directive::TryRead { max: 2 });
    assert_eq!(
        relay.advance(Notice::Received(vec![1, 2, 3])),
        Directive::Abort(IoError::Overrun)
    );
    assert_eq!(relay.stage(), Stage::Failed);
}

#[test]
fn relay_empty_request_is_written_by_a_write_of_nothing() {
    let mut relay = Relay::begin(Vec::new(), 8);
    assert_eq!(relay.unsent(), &[] as &[u8]);
    assert_eq!(relay.advance(Notice::Writable), Directive::TryWrite);
    assert_eq!(relay.advance(Notice::Wrote(0)), Directive::Flush);
    assert_eq!(relay.advance(Notice::Flushed), Directive::AwaitReadable);
    assert_eq!(relay.advance(Notice::Readable), Directive::TryRead { max: 8 });
    assert_eq!(
        relay.advance(Notice::Received(vec![4, 2])),
        Directive::Deliver(vec![4, 2])
    );
    assert_eq!(relay.stage(), Stage::Done);
}

#[test]
fn relay_empty_request_does_not_take_bytes() {
    let mut relay = Relay::begin(Vec::new(), 8);
    relay.advance(Notice::Writable);
    assert_eq!(
        relay.advance(Notice::Wrote(1)),
        Directive::Abort(IoError::PartialWrite)
    );
}

#[test]
fn relay_write_of_nothing_with_bytes_left_fails() {
    let mut relay = Relay::begin(vec![1, 2, 3], 8);
    relay.advance(Notice::Writable);
    assert_eq!(relay.advance(Notice::Wrote(2)), Directive::AwaitWritable);
    relay.advance(Notice::Writable);
    assert_eq!(
        relay.advance(Notice::Wrote(0)),
        Directive::Abort(IoError::PartialWrite)
    );
}

#[test]
fn relay_never_reads_before_the_request_is_out() {
    let notices = [
        Notice::Writable,
        Notice::Readable,
        Notice::Flushed,
        Notice::Wrote(1),
        Notice::Received(vec![1]),
        Notice::Failed(IoError::WouldBlock),
    ];
    for first in &notices {
        for second in &notices {
            for third in &notices {
                let mut relay = Relay::begin(vec![1, 2], 8);
                for notice in [first, second, third] {
                    let told = relay.advance(notice.clone());
                    if matches!(told, Directive::TryRead { .. } | Directive::Deliver(_)) {
                        assert!(relay.unsent().is_empty());
                    }
                }
                assert!(!relay.unsent().is_empty() || relay.stage() != Stage::AwaitWritable);
            }
        }
    }
}

fn drive(port: &mut Loopback, mut relay: Relay) -> Result<Vec<u8>, IoError> {
    let mut told = relay.pending();
    for _ in 0..100 {
        let notice = match told {
            Directive::AwaitWritable => Notice::Writable,
            Directive::TryWrite => {
                let chunk: Vec<u8> = relay.unsent().iter().copied().take(2).collect();
                match port.write_all(&chunk) {
                    Ok(()) => Notice::Wrote(chunk.len()),
                    Err(e) => Notice::Failed(e),
                }
            }
            Directive::Flush => match port.flush() {
                Ok(()) => Notice::Flushed,
                Err(e) => Notice::Failed(e),
            },
            Directive::AwaitReadable => Notice::Readable,
            Directive::TryRead { max } => {
                let ready = port.unread().len().min(max);
                if ready == 0 {
                    Notice::Failed(IoError::WouldBlock)
                } else {
                    match port.read_exact(ready) {
                        Ok(bytes) => Notice::Received(bytes),
                        Err(e) => Notice::Failed(e),
                    }
                }
            }
            Directive::Deliver(bytes) => return Ok(bytes),
            Directive::Abort(e) => return Err(e),
            Directive::Idle => return Err(IoError::Failed),
        };
        told = relay.advance(notice);
    }
    Err(IoError::TimedOut)
}

#[test]
fn relay_exchange_over_echoing_loopback() {
    let mut port = Loopback::new();
    assert_eq!(
        drive(&mut port, Relay::begin(vec![1, 2, 3, 4, 5], 8)),
        Ok(vec![1, 2, 3, 4, 5])
    );
    assert_eq!(port.written(), &vec![1, 2, 3, 4, 5]);
    assert!(port.unread().is_empty());
}

#[test]
fn relay_exchange_takes_a_bounded_response() {
    let mut port = Loopback::scripted((0u8..20).collect());
    assert_eq!(
        drive(&mut port, Relay::begin(vec![9], 8)),
        Ok((0u8..8).collect())
    );
    assert_eq!(port.written(), &vec![9]);
    assert_eq!(port.unread().len(), 12);
}

#[test]
fn relay_listen_reads_without_writing() {
    let mut port = Loopback::scripted(vec![7, 7]);
    let relay = Relay::listen(8);
    assert_eq!(relay.stage(), Stage::AwaitReadable);
    assert_eq!(relay.pending(), Directive::AwaitReadable);
    assert_eq!(drive(&mut port, relay), Ok(vec![7, 7]));
    assert!(port.written().is_empty());
}

#[test]
fn relay_exchange_fails_on_a_broken_port() {
    let mut port = Loopback::new();
    port.set_broken(true);
    assert_eq!(
        drive(&mut port, Relay::begin(vec![1], 8)),
        Err(IoError::Failed)
    );
}

#[test]
fn relay_pending_names_the_stage() {
    let mut relay = Relay::begin(vec![1], 4);
    assert_eq!(relay.pending(), Directive::AwaitWritable);
    assert_eq!(relay.advance(Notice::Writable), relay.pending());
    assert_eq!(relay.advance(Notice::Wrote(1)), relay.pending());
    assert_eq!(relay.advance(Notice::Flushed), relay.pending());
    assert_eq!(relay.advance(Notice::Readable), relay.pending());
    assert_eq!(relay.pending(), Directive::TryRead { max: 4 });
    relay.advance(Notice::Received(vec![1]));
    assert_eq!(relay.pending(), Directive::Idle);
}

#[test]
fn relay_exchange_with_empty_request_over_loopback() {
    let mut port = Loopback::scripted(vec![5, 6, 7]);
    assert_eq!(drive(&mut port, Relay::begin(Vec::new(), 8)), Ok(vec![5, 6, 7]));
    assert!(port.written().is_empty());
}
