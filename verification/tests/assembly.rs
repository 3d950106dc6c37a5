use websocket::{Accumulator, DataFrame, Opcode, Progress, WebSocketError};

fn frame(finished: bool, opcode: Opcode, payload: &[u8]) -> DataFrame {
    DataFrame::new(finished, opcode, payload.to_vec())
}

fn protocol(text: &str) -> WebSocketError {
    WebSocketError::ProtocolError(text.to_string())
}

#[test]
fn new_accumulator_is_idle() {
    let machine = Accumulator::new();
    assert!(!machine.in_progress());
    assert_eq!(machine.len(), 0);
}

#[test]
fn single_finished_frame_completes_at_once() {
    let mut machine = Accumulator::new();
    let text = frame(true, Opcode::Text, b"hello");
    assert_eq!(
        machine.accept(text.clone()),
        Ok(Progress::Message(vec![text]))
    );
    assert!(!machine.in_progress());
    assert_eq!(machine.len(), 0);
}

#[test]
fn unfinished_first_frame_is_held() {
    let mut machine = Accumulator::new();
    assert_eq!(
        machine.accept(frame(false, Opcode::Binary, &[1])),
        Ok(Progress::Incomplete)
    );
    assert!(machine.in_progress());
    assert_eq!(machine.len(), 1);
}

#[test]
fn continuations_extend_and_complete() {
    let mut machine = Accumulator::new();
    let first = frame(false, Opcode::Text, b"ab");
    let second = frame(false, Opcode::Continuation, b"cd");
    let third = frame(true, Opcode::Continuation, b"ef");
    assert_eq!(machine.accept(first.clone()), Ok(Progress::Incomplete));
    assert_eq!(machine.accept(second.clone()), Ok(Progress::Incomplete));
    assert_eq!(machine.len(), 2);
    assert_eq!(
        machine.accept(third.clone()),
        Ok(Progress::Message(vec![first, second, third]))
    );
    assert!(!machine.in_progress());
}

#[test]
fn control_frame_between_fragments_is_handed_back() {
    let mut machine = Accumulator::new();
    let first = frame(false, Opcode::Text, b"ab");
    let ping = frame(true, Opcode::Ping, b"p");
    let last = frame(true, Opcode::Continuation, b"cd");
    assert_eq!(machine.accept(first.clone()), Ok(Progress::Incomplete));
    assert_eq!(machine.accept(ping.clone()), Ok(Progress::Control(ping)));
    assert!(machine.in_progress());
    assert_eq!(machine.len(), 1);
    assert_eq!(
        machine.accept(last.clone()),
        Ok(Progress::Message(vec![first, last]))
    );
}

#[test]
fn every_control_opcode_interleaves() {
    for opcode in [
        Opcode::Close,
        Opcode::Ping,
        Opcode::Pong,
        Opcode::Control1,
        Opcode::Control2,
        Opcode::Control3,
        Opcode::Control4,
        Opcode::Control5,
    ] {
        let mut machine = Accumulator::new();
        assert_eq!(
            machine.accept(frame(false, Opcode::Binary, &[])),
            Ok(Progress::Incomplete)
        );
        let control = frame(true, opcode, &[9]);
        assert_eq!(
            machine.accept(control.clone()),
            Ok(Progress::Control(control))
        );
        assert_eq!(machine.len(), 1);
    }
}

#[test]
fn control_frame_on_idle_machine_is_a_message_of_its_own() {
    let mut machine = Accumulator::new();
    let ping = frame(true, Opcode::Ping, b"p");
    assert_eq!(
        machine.accept(ping.clone()),
        Ok(Progress::Message(vec![ping]))
    );
    assert!(!machine.in_progress());
}

#[test]
fn continuation_on_idle_machine_is_refused() {
    let mut machine = Accumulator::new();
    assert_eq!(
        machine.accept(frame(true, Opcode::Continuation, b"x")),
        Err(protocol("unexpected continuation frame"))
    );
    assert!(!machine.in_progress());
    assert_eq!(
        machine.accept(frame(false, Opcode::Continuation, b"x")),
        Err(protocol("unexpected continuation frame"))
    );
    assert_eq!(machine.len(), 0);
}

#[test]
fn data_frame_in_open_message_is_refused() {
    let mut machine = Accumulator::new();
    let first = frame(false, Opcode::Text, b"ab");
    assert_eq!(machine.accept(first.clone()), Ok(Progress::Incomplete));
    assert_eq!(
        machine.accept(frame(true, Opcode::Text, b"cd")),
        Err(protocol("unexpected data frame opcode"))
    );
    assert_eq!(
        machine.accept(frame(false, Opcode::Binary, b"cd")),
        Err(protocol("unexpected data frame opcode"))
    );
    // The fragment held before the error is still there.
    assert_eq!(machine.len(), 1);
    let last = frame(true, Opcode::Continuation, b"ef");
    assert_eq!(
        machine.accept(last.clone()),
        Ok(Progress::Message(vec![first, last]))
    );
}

#[test]
fn machine_starts_anew_after_a_message() {
    let mut machine = Accumulator::new();
    let a1 = frame(false, Opcode::Text, b"a1");
    let a2 = frame(true, Opcode::Continuation, b"a2");
    let b1 = frame(true, Opcode::Binary, b"b1");
    assert_eq!(machine.accept(a1.clone()), Ok(Progress::Incomplete));
    assert_eq!(
        machine.accept(a2.clone()),
        Ok(Progress::Message(vec![a1, a2]))
    );
    assert_eq!(
        machine.accept(b1.clone()),
        Ok(Progress::Message(vec![b1]))
    );
}
