use amq_engine::commands::{CommandProcessor, CommandStep, InternalCommand};
use amq_engine::io_loop::{IoLoop, Status};
use amq_engine::outbound::{Outcome, Resolution};
use amq_engine::status::{Configuration, ConnectionState, ConnectionStatus, Error};
use amq_protocol::frame::AMQPFrame;

fn engine(frame_max: u32, heartbeat: u16) -> IoLoop {
    IoLoop::new(ConnectionStatus::new(), Configuration::new(frame_max, heartbeat))
}

fn heartbeat_bytes() -> Vec<u8> {
    vec![8, 0, 0, 0, 0, 0, 0, 0xCE]
}

fn body_frame(payload_len: usize) -> AMQPFrame {
    AMQPFrame::Body(1, vec![0x42; payload_len])
}

#[test]
fn new_engine_respects_the_protocol_minimum_frame_size() {
    let small = engine(16, 0);
    assert_eq!(small.frame_size, 4096);
    let large = engine(8192, 0);
    assert_eq!(large.frame_size, 8192);
}

#[test]
fn setup_adopts_negotiated_values_and_arms_heartbeat() {
    let mut e = engine(8192, 60);
    e.connection_status.advance(ConnectionState::Connecting);
    e.connection_status.advance(ConnectionState::Connected);
    assert!(e.ensure_setup());
    assert_eq!(e.status, Status::Connected);
    assert!(e.heartbeat_armed);
    assert_eq!(e.heartbeat_interval_millis, 30_000);
    e.on_loop_exit();
    assert!(!e.heartbeat_armed);
}

#[test]
fn serialize_stages_the_real_frame_encoding() {
    let mut e = engine(4096, 0);
    e.send_frame(AMQPFrame::Heartbeat, Some(1));
    assert!(e.serialize(true).is_ok());
    // One heartbeat frame: type 8, channel 0, empty payload, frame-end 0xCE.
    assert_eq!(e.outgoing(), heartbeat_bytes());
}

#[test]
fn flow_control_withholds_queued_frames() {
    let mut e = engine(4096, 0);
    e.send_frame(AMQPFrame::Heartbeat, Some(1));
    assert!(e.serialize(false).is_ok());
    assert_eq!(e.outgoing(), Vec::<u8>::new());
    assert!(e.has_data());
    // Once flow allows, the frame goes out.
    assert!(e.serialize(true).is_ok());
    assert_eq!(e.outgoing().len(), 8);
}

#[test]
fn promises_resolve_in_submission_order_across_partial_writes() {
    // Encoded sizes 10, 4000, 10: a body frame adds an 8-byte envelope.
    let mut e = engine(4096, 0);
    e.send_frame(body_frame(2), Some(1));
    e.send_frame(body_frame(3992), Some(2));
    e.send_frame(body_frame(2), Some(3));
    assert!(e.serialize(true).is_ok());
    assert_eq!(e.outgoing().len(), 4020);

    // First write: all of frame 1 and part of frame 2's bytes.
    e.on_bytes_written(2010);
    assert_eq!(e.resolved, vec![Resolution { promise: 1, outcome: Outcome::Done }]);

    // Second write: the remainder of frame 2 and all of frame 3.
    e.on_bytes_written(2010);
    assert_eq!(
        e.resolved,
        vec![
            Resolution { promise: 1, outcome: Outcome::Done },
            Resolution { promise: 2, outcome: Outcome::Done },
            Resolution { promise: 3, outcome: Outcome::Done },
        ]
    );
    assert_eq!(e.outgoing().len(), 0);
}

#[test]
fn zero_byte_write_is_would_block_only() {
    let mut e = engine(4096, 0);
    e.send_frame(AMQPFrame::Heartbeat, Some(1));
    assert!(e.serialize(true).is_ok());
    e.set_writable(true);
    e.on_bytes_written(0);
    assert!(!e.socket.writable);
    assert_eq!(e.outgoing().len(), 8);
    assert_eq!(e.resolved, Vec::new());
    assert_eq!(e.status, Status::Initial);
}

#[test]
fn zero_byte_read_is_would_block_and_moves_no_cursor() {
    let mut e = engine(4096, 0);
    e.set_readable(true);
    let budget = e.read_budget();
    assert!(e.on_bytes_read(&Vec::new()).is_ok());
    assert!(!e.socket.readable);
    assert_eq!(e.read_budget(), budget);
    assert_eq!(e.status, Status::Initial);
    assert_eq!(e.connection_status.state, ConnectionState::Initial);
}

#[test]
fn inbound_frames_are_parsed_and_dispatched_in_arrival_order() {
    let mut e = engine(4096, 0);
    let mut bytes = heartbeat_bytes();
    bytes.extend(heartbeat_bytes());
    // A trailing partial frame header awaits more bytes.
    bytes.extend(vec![8, 0]);
    assert!(e.on_bytes_read(&bytes).is_ok());
    let (frames, outcome) = e.handle_frames();
    assert!(outcome.is_ok());
    assert_eq!(frames, vec![AMQPFrame::Heartbeat, AMQPFrame::Heartbeat]);
    // The partial tail is still buffered.
    let (frames, outcome) = e.handle_frames();
    assert!(outcome.is_ok());
    assert_eq!(frames, Vec::new());
}

#[test]
fn oversized_frame_drives_the_connection_to_error_and_is_never_delivered() {
    let mut e = engine(16, 0);
    let mut encoder = engine(4096, 0);
    encoder.send_frame(body_frame(100), None);
    assert!(encoder.serialize(true).is_ok());
    let oversized = encoder.outgoing();
    assert_eq!(oversized.len(), 108);

    assert!(e.on_bytes_read(&oversized).is_ok());
    let (frames, outcome) = e.handle_frames();
    assert_eq!(frames, Vec::new());
    assert_eq!(outcome, Err(Error::FrameTooLarge));
    assert_eq!(e.connection_status.state, ConnectionState::Error);
    assert_eq!(e.connection_status.cause, Some(Error::FrameTooLarge));
    assert_eq!(e.status, Status::Stop);
    // A connection-close notification for the peer was queued.
    assert_eq!(e.command_outbox.len(), 1);
    assert!(matches!(
        e.command_outbox[0],
        InternalCommand::CloseConnection(501, _, 0, 0)
    ));
}

#[test]
fn garbage_input_is_a_fatal_parse_error() {
    let mut e = engine(4096, 0);
    assert!(e.on_bytes_read(&vec![0xFF; 8]).is_ok());
    let (frames, outcome) = e.handle_frames();
    assert_eq!(frames, Vec::new());
    assert_eq!(outcome, Err(Error::ParsingError));
    assert_eq!(e.connection_status.state, ConnectionState::Error);
}

#[test]
fn critical_error_fails_every_outstanding_promise_in_order() {
    let mut e = engine(4096, 0);
    e.send_frame(body_frame(2), Some(7));
    e.send_frame(body_frame(2), Some(8));
    assert!(e.serialize(true).is_ok());
    // A third frame is submitted but not yet serialized.
    e.send_frame(body_frame(2), Some(9));
    e.critical_error(Error::IoError);
    assert_eq!(
        e.resolved,
        vec![
            Resolution { promise: 7, outcome: Outcome::Failed(Error::IoError) },
            Resolution { promise: 8, outcome: Outcome::Failed(Error::IoError) },
            Resolution { promise: 9, outcome: Outcome::Failed(Error::IoError) },
        ]
    );
    assert_eq!(e.status, Status::Stop);
    assert_eq!(e.connection_status.cause, Some(Error::IoError));
    assert_eq!(e.outgoing().len(), 0);
}

#[test]
fn close_command_from_a_caller_thread_wakes_the_waiting_loop() {
    let mut e = engine(4096, 0);
    // Nothing readable, writable or pending: the loop would block on the
    // reactor's wait primitive.
    assert!(e.needs_wait());
    // A caller thread asks to close the connection through the command
    // channel; executing the command wakes the reactor, independent of any
    // socket traffic.
    let mut proc = CommandProcessor::new();
    let step = proc.process(
        &mut e.connection_status,
        InternalCommand::CloseConnection(200, "bye".to_string(), 0, 0),
    );
    assert!(matches!(step, CommandStep::Spawn(_)));
    assert!(CommandProcessor::wakes(&step));
    // The loop, once woken, observes a status change the same way.
    let step = proc.process(&mut e.connection_status, InternalCommand::SetConnectionClosing);
    assert!(CommandProcessor::wakes(&step));
    assert_eq!(e.connection_status.state, ConnectionState::Closing);
    e.check_connection_state();
    assert!(e.should_continue());
    let step = proc.process(
        &mut e.connection_status,
        InternalCommand::SetConnectionClosed(Error::IoError),
    );
    assert!(CommandProcessor::wakes(&step));
    e.check_connection_state();
    assert_eq!(e.status, Status::Stop);
    assert!(!e.should_continue());
}

#[test]
fn full_chunk_write_resolves_all_promises_in_order() {
    let mut e = engine(4096, 0);
    e.send_frame(body_frame(2), Some(1));
    e.send_frame(body_frame(3992), Some(2));
    e.send_frame(body_frame(2), Some(3));
    assert!(e.serialize(true).is_ok());
    // The whole staged window fits in one 4096-byte transport chunk.
    let staged = e.outgoing().len();
    assert!(staged <= 4096);
    e.on_bytes_written(staged);
    assert_eq!(
        e.resolved,
        vec![
            Resolution { promise: 1, outcome: Outcome::Done },
            Resolution { promise: 2, outcome: Outcome::Done },
            Resolution { promise: 3, outcome: Outcome::Done },
        ]
    );
}

#[test]
fn reading_is_skipped_on_a_closed_connection() {
    let mut e = engine(4096, 0);
    e.connection_status.advance(ConnectionState::Connecting);
    e.connection_status.advance(ConnectionState::Connected);
    e.connection_status.advance(ConnectionState::Closing);
    e.connection_status.advance(ConnectionState::Closed);
    assert!(e.on_bytes_read(&heartbeat_bytes()).is_ok());
    // Nothing was buffered.
    let (frames, outcome) = e.handle_frames();
    assert_eq!(frames, Vec::new());
    assert!(outcome.is_ok());
}

#[test]
fn reading_on_an_errored_connection_is_an_invalid_state() {
    let mut e = engine(4096, 0);
    e.connection_status.set_error(Error::IoError);
    assert_eq!(
        e.on_bytes_read(&heartbeat_bytes()),
        Err(Error::InvalidConnectionState(ConnectionState::Error))
    );
    assert_eq!(e.status, Status::Stop);
}

#[test]
fn frame_that_does_not_fit_is_requeued_and_sent_after_room_frees() {
    // Capacity is 32 frames of the negotiated maximum; 33 full-size frames
    // cannot all be staged at once.
    let mut e = engine(4096, 0);
    for i in 0..33u64 {
        e.send_frame(body_frame(3992), Some(i + 1));
    }
    assert!(e.serialize(true).is_ok());
    assert_eq!(e.outgoing().len(), 32 * 4000);
    // The 33rd frame was requeued at the head, not dropped or reordered.
    assert!(e.has_data());
    assert_eq!(e.resolved, Vec::new());
    // Once the staged bytes are on the wire, the requeued frame goes out.
    e.on_bytes_written(32 * 4000);
    assert_eq!(e.resolved.len(), 32);
    assert!(e.serialize(true).is_ok());
    assert_eq!(e.outgoing().len(), 4000);
    e.on_bytes_written(4000);
    assert_eq!(e.resolved.len(), 33);
    assert_eq!(e.resolved[32], Resolution { promise: 33, outcome: Outcome::Done });
}
