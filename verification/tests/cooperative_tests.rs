use serial_communicator::cooperative::{CooperativeLoop, Plan, Settled};
use serial_communicator::relay::{Directive, Stage};
use serial_communicator::request::{OPCODE_READ, OPCODE_WRITE};
use serial_communicator::transport::IoError;
use serial_communicator::ActionConversionError;

#[test]
fn plan_write_is_an_exchange_that_sends_the_payload() {
    let mut state = CooperativeLoop::new(b'\n', 8);
    let Plan::Exchange(relay) = state.plan(Some(&[OPCODE_WRITE, 1, 2, 3, b'\n'])) else {
        panic!("a write request must be exchanged");
    };
    assert_eq!(relay.stage(), Stage::AwaitWritable);
    assert_eq!(relay.unsent(), &[1, 2, 3]);
    assert!(!state.is_finished());
}

#[test]
fn plan_empty_write_is_still_an_exchange() {
    let mut state = CooperativeLoop::new(b'\n', 8);
    let Plan::Exchange(relay) = state.plan(Some(&[OPCODE_WRITE, b'\n'])) else {
        panic!("an empty write request must be exchanged");
    };
    assert_eq!(relay.stage(), Stage::AwaitWritable);
    assert!(relay.unsent().is_empty());
    assert_eq!(relay.pending(), Directive::AwaitWritable);
}

#[test]
fn plan_read_is_an_exchange_that_only_listens() {
    let mut state = CooperativeLoop::new(b'\n', 4);
    let Plan::Exchange(relay) = state.plan(Some(&[OPCODE_READ, b'\n'])) else {
        panic!("a read request must be exchanged");
    };
    assert_eq!(relay.stage(), Stage::AwaitReadable);
    assert_eq!(relay.pending(), Directive::AwaitReadable);
    let Plan::Exchange(relay) = state.plan(Some(&[OPCODE_READ])) else {
        panic!("a read request without terminator must be exchanged");
    };
    assert_eq!(relay.stage(), Stage::AwaitReadable);
}

#[test]
fn plan_strips_one_terminator_only() {
    let mut state = CooperativeLoop::new(b'\n', 8);
    let Plan::Exchange(relay) = state.plan(Some(&[OPCODE_WRITE, 7, b'\n', b'\n'])) else {
        panic!("a write request must be exchanged");
    };
    assert_eq!(relay.unsent(), &[7, b'\n']);
}

#[test]
fn plan_skips_what_is_no_request() {
    let mut state = CooperativeLoop::new(b'\n', 8);
    assert!(matches!(
        state.plan(Some(b"\n")),
        Plan::Skip(ActionConversionError::EmptyOpSequence(_))
    ));
    assert!(matches!(
        state.plan(Some(b"")),
        Plan::Skip(ActionConversionError::EmptyOpSequence(_))
    ));
    assert!(matches!(
        state.plan(Some(b"?\n")),
        Plan::Skip(ActionConversionError::UndefinedOpSequence(_))
    ));
    assert!(matches!(
        state.plan(Some(&[OPCODE_READ, 1, b'\n'])),
        Plan::Skip(ActionConversionError::MalformedOpSequence(_))
    ));
    assert!(!state.is_finished());
    assert!(matches!(
        state.plan(Some(&[OPCODE_WRITE, 1, b'\n'])),
        Plan::Exchange(_)
    ));
}

#[test]
fn plan_stops_at_the_end_of_input_for_good() {
    let mut state = CooperativeLoop::new(b'\n', 8);
    assert!(matches!(state.plan(None), Plan::Stop));
    assert!(state.is_finished());
    assert!(matches!(
        state.plan(Some(&[OPCODE_WRITE, 1, b'\n'])),
        Plan::Stop
    ));
    assert_eq!(state.settle(Ok(vec![1])), Settled::Finished);
}

#[test]
fn settle_forwards_a_response_and_goes_on() {
    let mut state = CooperativeLoop::new(b'\n', 8);
    assert_eq!(state.settle(Ok(vec![1, 2])), Settled::Forward(vec![1, 2]));
    assert_eq!(state.settle(Ok(vec![])), Settled::Forward(vec![]));
    assert!(!state.is_finished());
}

#[test]
fn settle_ends_the_loop_on_a_failed_exchange() {
    let mut state = CooperativeLoop::new(b'\n', 8);
    assert_eq!(
        state.settle(Err(IoError::TimedOut)),
        Settled::Fatal(IoError::TimedOut)
    );
    assert!(state.is_finished());
    assert_eq!(state.settle(Ok(vec![1])), Settled::Finished);
    assert!(matches!(state.plan(Some(&[OPCODE_READ])), Plan::Stop));
}
