use serial_communicator::codec::Width;
use serial_communicator::command::{CommandLoop, Step};
use serial_communicator::loopback::Loopback;
use serial_communicator::request::{OPCODE_READ, OPCODE_WRITE};
use serial_communicator::transport::{IoError, Link};
use serial_communicator::ActionConversionError;

fn text_loop() -> CommandLoop {
    CommandLoop::new(b'\n', 4096, Width::Qword)
}

#[test]
fn write_then_read_over_loopback() {
    let mut link = Link::new(Loopback::new());
    let mut state = text_loop();
    assert_eq!(state.step_line(&mut link, Some("WRITE a\n")), Step::Continue);
    assert_eq!(link.port().written(), &b"a \n".to_vec());
    assert_eq!(link.port().unread(), &b"a \n".to_vec());
    assert_eq!(state.step_line(&mut link, Some("READ\n")), Step::Forward);
    assert_eq!(state.response(), b"a \n");
    assert_eq!(state.content(), b"a ");
    assert!(link.port().unread().is_empty());
    assert_eq!(state.step_line(&mut link, None), Step::Finished);
    assert!(state.is_finished());
    assert_eq!(link.port().written(), &b"a \n".to_vec());
}

#[test]
fn read_before_write_finds_nothing() {
    let mut link = Link::new(Loopback::new());
    let mut state = text_loop();
    assert_eq!(
        state.step_line(&mut link, Some("READ\n")),
        Step::Fatal(IoError::TimedOut)
    );
    assert!(state.is_finished());
    assert!(link.port().written().is_empty());
}

#[test]
fn immediate_eof_touches_nothing() {
    let mut port = Loopback::scripted(b"waiting\n".to_vec());
    port.set_broken(true);
    let mut link = Link::new(port);
    let mut state = text_loop();
    assert!(!state.is_finished());
    assert_eq!(state.step_line(&mut link, None), Step::Finished);
    assert!(state.is_finished());
    let mut port = link.into_inner();
    assert!(port.written().is_empty());
    assert_eq!(port.unread(), &b"waiting\n".to_vec());
    port.set_broken(false);
    let mut link = Link::new(port);
    assert_eq!(state.step_line(&mut link, Some("READ\n")), Step::Finished);
    assert_eq!(link.port().unread(), &b"waiting\n".to_vec());
}

#[test]
fn parse_failure_is_not_fatal() {
    let mut link = Link::new(Loopback::new());
    let mut state = text_loop();
    assert!(matches!(
        state.step_line(&mut link, Some("PING 1\n")),
        Step::Rejected(ActionConversionError::UndefinedOpSequence(_))
    ));
    assert!(matches!(
        state.step_line(&mut link, Some("\n")),
        Step::Rejected(ActionConversionError::EmptyOpSequence(_))
    ));
    assert!(!state.is_finished());
    assert!(link.port().written().is_empty());
    assert_eq!(state.step_line(&mut link, Some("WRITE x\n")), Step::Continue);
    assert_eq!(link.port().written(), &b"x \n".to_vec());
}

#[test]
fn write_failure_is_fatal_and_final() {
    let mut port = Loopback::new();
    port.set_broken(true);
    let mut link = Link::new(port);
    let mut state = text_loop();
    assert_eq!(
        state.step_line(&mut link, Some("WRITE x\n")),
        Step::Fatal(IoError::Failed)
    );
    assert!(state.is_finished());
    let mut port = link.into_inner();
    port.set_broken(false);
    let mut link = Link::new(port);
    assert_eq!(state.step_line(&mut link, Some("WRITE y\n")), Step::Finished);
    assert!(link.port().written().is_empty());
}

#[test]
fn actions_are_carried_out_in_input_order() {
    let mut link = Link::new(Loopback::new());
    let mut state = text_loop();
    for line in ["WRITE one\n", "WRITE two three\n", "WRITE\n"] {
        assert_eq!(state.step_line(&mut link, Some(line)), Step::Continue);
    }
    assert_eq!(link.port().written(), &b"one \ntwo three \n\n".to_vec());
    assert_eq!(state.step_line(&mut link, Some("READ\n")), Step::Forward);
    assert_eq!(state.content(), b"one ");
    assert_eq!(state.step_line(&mut link, Some("READ\n")), Step::Forward);
    assert_eq!(state.content(), b"two three ");
    assert_eq!(state.step_line(&mut link, Some("READ\n")), Step::Forward);
    assert_eq!(state.response(), b"\n");
    assert_eq!(state.content(), b"");
}

#[test]
fn read_clears_the_previous_response() {
    let mut link = Link::new(Loopback::scripted(b"first line\nx\n".to_vec()));
    let mut state = text_loop();
    assert_eq!(state.step_line(&mut link, Some("READ\n")), Step::Forward);
    assert_eq!(state.content(), b"first line");
    assert_eq!(state.step_line(&mut link, Some("READ\n")), Step::Forward);
    assert_eq!(state.content(), b"x");
    assert_eq!(
        state.step_line(&mut link, Some("READ\n")),
        Step::Fatal(IoError::TimedOut)
    );
    assert_eq!(state.response(), b"");
}

#[test]
fn read_respects_the_limit() {
    let mut link = Link::new(Loopback::scripted(b"123456\n".to_vec()));
    let mut state = CommandLoop::new(b'\n', 4, Width::Byte);
    assert_eq!(
        state.step_line(&mut link, Some("READ\n")),
        Step::Fatal(IoError::Overrun)
    );
    assert_eq!(state.response(), b"1234");
}

#[test]
fn binary_write_then_read() {
    let mut link = Link::new(Loopback::new());
    let mut state = CommandLoop::new(0, 0, Width::Dword);
    assert_eq!(
        state.step_frame(&mut link, Some(&[OPCODE_WRITE, 1, 2, 3, 4, 5])),
        Step::Continue
    );
    assert_eq!(link.port().written(), &vec![1, 2, 3, 4, 5]);
    assert_eq!(state.step_frame(&mut link, Some(&[OPCODE_READ])), Step::Forward);
    assert_eq!(state.response(), &[1, 2, 3, 4]);
    assert_eq!(link.port().unread(), &vec![5]);
    assert_eq!(
        state.step_frame(&mut link, Some(&[OPCODE_READ])),
        Step::Fatal(IoError::TimedOut)
    );
    assert!(state.is_finished());
    assert_eq!(state.response(), b"");
}

#[test]
fn binary_rejects_bad_frames_and_goes_on() {
    let mut link = Link::new(Loopback::new());
    let mut state = CommandLoop::new(0, 0, Width::Byte);
    assert!(matches!(
        state.step_frame(&mut link, Some(&[])),
        Step::Rejected(ActionConversionError::EmptyOpSequence(_))
    ));
    assert!(matches!(
        state.step_frame(&mut link, Some(&[0xee])),
        Step::Rejected(ActionConversionError::UndefinedOpSequence(_))
    ));
    assert!(matches!(
        state.step_frame(&mut link, Some(&[OPCODE_READ, 1])),
        Step::Rejected(ActionConversionError::MalformedOpSequence(_))
    ));
    assert!(!state.is_finished());
    assert!(link.port().written().is_empty());
    assert_eq!(state.step_frame(&mut link, None), Step::Finished);
    assert!(state.is_finished());
    assert_eq!(
        state.step_frame(&mut link, Some(&[OPCODE_WRITE, 1])),
        Step::Finished
    );
    assert!(link.port().written().is_empty());
}

#[test]
fn scripted_write_then_read_then_eof() {
    let mut link = Link::new(Loopback::new());
    let mut state = text_loop();
    let script = [String::from("WRITE a\n"), String::from("READ\n")];
    let steps = state.run_lines(&mut link, &script);
    assert_eq!(steps, vec![Step::Continue, Step::Forward, Step::Finished]);
    assert_eq!(link.port().written(), &b"a \n".to_vec());
    assert_eq!(state.content(), b"a ");
    assert!(link.port().unread().is_empty());
    assert!(state.is_finished());
}

#[test]
fn scripted_empty_input_makes_no_call() {
    let mut port = Loopback::scripted(b"pending\n".to_vec());
    port.set_broken(true);
    let mut link = Link::new(port);
    let mut state = text_loop();
    let steps = state.run_lines(&mut link, &[]);
    assert_eq!(steps, vec![Step::Finished]);
    assert!(state.is_finished());
    assert!(link.port().written().is_empty());
    assert_eq!(link.port().unread(), &b"pending\n".to_vec());
}

#[test]
fn scripted_run_stops_at_the_first_fatal_step() {
    let mut link = Link::new(Loopback::scripted(b"only one\n".to_vec()));
    let mut state = text_loop();
    let script = [
        String::from("READ\n"),
        String::from("bogus\n"),
        String::from("READ\n"),
        String::from("WRITE never sent\n"),
    ];
    let steps = state.run_lines(&mut link, &script);
    assert_eq!(steps.len(), 3);
    assert_eq!(steps[0], Step::Forward);
    assert!(matches!(steps[1], Step::Rejected(_)));
    assert_eq!(steps[2], Step::Fatal(IoError::TimedOut));
    assert!(link.port().written().is_empty());
    assert_eq!(
        state.run_lines(&mut link, &script),
        vec![Step::Finished]
    );
}
