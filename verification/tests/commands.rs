use amq_engine::commands::{Action, CommandProcessor, CommandStep, InternalCommand};
use amq_engine::status::{ConnectionState, ConnectionStatus, Error};

#[test]
fn process_maps_each_protocol_command_to_its_action() {
    let mut proc = CommandProcessor::new();
    let mut status = ConnectionStatus::new();

    let step = proc.process(
        &mut status,
        InternalCommand::CancelConsumer(3, "tag".to_string()),
    );
    assert_eq!(step, CommandStep::Spawn(Action::CancelConsumer(3, "tag".to_string())));

    let step = proc.process(
        &mut status,
        InternalCommand::CloseChannel(4, 200, "bye".to_string()),
    );
    assert_eq!(step, CommandStep::Spawn(Action::CloseChannel(4, 200, "bye".to_string())));

    let step = proc.process(
        &mut status,
        InternalCommand::CloseConnection(320, "shutdown".to_string(), 0, 0),
    );
    assert_eq!(
        step,
        CommandStep::Spawn(Action::CloseConnection(320, "shutdown".to_string(), 0, 0))
    );

    let step = proc.process(
        &mut status,
        InternalCommand::SendConnectionCloseOk(Error::IoError),
    );
    assert_eq!(step, CommandStep::Spawn(Action::ConnectionCloseOk(Error::IoError)));

    let step = proc.process(&mut status, InternalCommand::RemoveChannel(7, Error::IoError));
    assert_eq!(step, CommandStep::Spawn(Action::RemoveChannel(7, Error::IoError)));

    // None of the protocol commands touched the shared status.
    assert_eq!(status.state, ConnectionState::Initial);
}

#[test]
fn status_commands_apply_in_place() {
    let mut proc = CommandProcessor::new();
    let mut status = ConnectionStatus::new();
    status.advance(ConnectionState::Connecting);
    status.advance(ConnectionState::Connected);

    let step = proc.process(&mut status, InternalCommand::SetConnectionClosing);
    assert_eq!(step, CommandStep::Applied);
    assert_eq!(status.state, ConnectionState::Closing);

    let step = proc.process(&mut status, InternalCommand::SetConnectionClosed(Error::IoError));
    assert_eq!(step, CommandStep::Applied);
    assert_eq!(status.state, ConnectionState::Closed);

    let step = proc.process(&mut status, InternalCommand::SetConnectionError(Error::IoError));
    assert_eq!(step, CommandStep::Applied);
    assert_eq!(status.state, ConnectionState::Error);
    assert_eq!(status.cause, Some(Error::IoError));
}

#[test]
fn stop_sentinel_drops_later_commands() {
    let mut proc = CommandProcessor::new();
    let mut status = ConnectionStatus::new();

    let step = proc.process(&mut status, InternalCommand::Stop);
    assert_eq!(step, CommandStep::Exit);

    // Anything after the sentinel is dropped without effect.
    let step = proc.process(&mut status, InternalCommand::SetConnectionClosing);
    assert_eq!(step, CommandStep::Dropped);
    assert_eq!(status.state, ConnectionState::Initial);

    let step = proc.process(
        &mut status,
        InternalCommand::CancelConsumer(1, "tag".to_string()),
    );
    assert_eq!(step, CommandStep::Dropped);
}

#[test]
fn every_executed_command_wakes_the_reactor() {
    let spawn = CommandStep::Spawn(Action::ConnectionCloseOk(Error::IoError));
    assert!(CommandProcessor::wakes(&spawn));
    assert!(CommandProcessor::wakes(&CommandStep::Applied));
    assert!(!CommandProcessor::wakes(&CommandStep::Exit));
    assert!(!CommandProcessor::wakes(&CommandStep::Dropped));
}

#[test]
fn drain_executes_each_command_once_in_order_up_to_stop() {
    let mut proc = CommandProcessor::new();
    let mut status = ConnectionStatus::new();
    let mut commands = vec![
        InternalCommand::CancelConsumer(1, "a".to_string()),
        InternalCommand::SetConnectionClosing,
        InternalCommand::RemoveChannel(2, Error::IoError),
        InternalCommand::Stop,
        InternalCommand::CloseChannel(3, 200, "late".to_string()),
    ];
    let actions = proc.run_commands(&mut status, &mut commands);
    // Exactly the pre-sentinel protocol commands became actions, in order;
    // the status command was applied in place; the post-sentinel command
    // did not run.
    assert_eq!(
        actions,
        vec![
            Action::CancelConsumer(1, "a".to_string()),
            Action::RemoveChannel(2, Error::IoError),
        ]
    );
    assert_eq!(status.state, ConnectionState::Closing);
    assert_eq!(commands, vec![InternalCommand::CloseChannel(3, 200, "late".to_string())]);
}
