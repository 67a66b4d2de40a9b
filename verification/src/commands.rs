//! Internal command channel: any thread may request a connection-level
//! action; the single command processor receives commands in order and
//! executes each exactly once. A stop sentinel ends the receive loop, and
//! commands arriving after it are dropped. After executing a command the
//! processor wakes the socket reactor so the I/O loop promptly observes the
//! resulting state change.

use vstd::prelude::*;
use crate::status::{ConnectionState, ConnectionStatus, Error};

verus! {

/// A connection-level request, created by any thread and consumed exactly
/// once by the processor.
#[derive(Clone, Debug, PartialEq)]
pub enum InternalCommand {
    /// Cancel the consumer with this tag on this channel.
    CancelConsumer(u16, String),
    /// Close this channel with a reply code and text.
    CloseChannel(u16, u16, String),
    /// Close the connection with a reply code, text, class id and method id.
    CloseConnection(u16, String, u16, u16),
    /// Acknowledge the peer's connection-close with the recorded error.
    SendConnectionCloseOk(Error),
    /// Remove this channel, failing its pending operations with the error.
    RemoveChannel(u16, Error),
    /// Mark the shared connection status as closing.
    SetConnectionClosing,
    /// Mark the shared connection status as closed.
    SetConnectionClosed(Error),
    /// Record a connection-level error.
    SetConnectionError(Error),
    /// Sentinel: stop the processor; later commands are not guaranteed to run.
    Stop,
}

/// An asynchronous action to hand to the task executor: the protocol calls
/// a command asks for are performed off the processor, by a collaborator.
#[derive(Clone, Debug, PartialEq)]
pub enum Action {
    CancelConsumer(u16, String),
    CloseChannel(u16, u16, String),
    CloseConnection(u16, String, u16, u16),
    ConnectionCloseOk(Error),
    RemoveChannel(u16, Error),
}

/// What one received command leads to.
#[derive(Clone, Debug, PartialEq)]
pub enum CommandStep {
    /// Run this action asynchronously on the task executor.
    Spawn(Action),
    /// The command was applied to the shared status in place.
    Applied,
    /// The stop sentinel: exit the receive loop.
    Exit,
    /// Received after the stop sentinel: dropped without effect.
    Dropped,
}

/// The action a command asks the executor to run, if any.
pub open spec fn spawned_action(cmd: InternalCommand) -> Option<Action> {
    match cmd {
        InternalCommand::CancelConsumer(ch, tag) => Some(Action::CancelConsumer(ch, tag)),
        InternalCommand::CloseChannel(ch, code, text) => Some(
            Action::CloseChannel(ch, code, text),
        ),
        InternalCommand::CloseConnection(code, text, class, method) => Some(
            Action::CloseConnection(code, text, class, method),
        ),
        InternalCommand::SendConnectionCloseOk(err) => Some(Action::ConnectionCloseOk(err)),
        InternalCommand::RemoveChannel(ch, err) => Some(Action::RemoveChannel(ch, err)),
        _ => None,
    }
}


/// The commands that a delivered sequence executes: every command before
/// the first stop sentinel, in order.
pub open spec fn executed_prefix(cmds: Seq<InternalCommand>) -> Seq<InternalCommand>
    decreases cmds.len(),
{
    if cmds.len() == 0 || cmds[0] == InternalCommand::Stop {
        Seq::<InternalCommand>::empty()
    } else {
        seq![cmds[0]] + executed_prefix(cmds.skip(1))
    }
}

/// The action under an optional action, as a sequence of 0 or 1 actions.
pub open spec fn opt_actions(a: Option<Action>) -> Seq<Action> {
    match a {
        Some(action) => seq![action],
        None => Seq::<Action>::empty(),
    }
}

/// The commands left undelivered: everything after the first stop
/// sentinel, which the processor does not promise to run.
pub open spec fn rest_after_stop(cmds: Seq<InternalCommand>) -> Seq<InternalCommand>
    decreases cmds.len(),
{
    if cmds.len() == 0 {
        Seq::<InternalCommand>::empty()
    } else if cmds[0] == InternalCommand::Stop {
        cmds.skip(1)
    } else {
        rest_after_stop(cmds.skip(1))
    }
}

/// The executor actions that a delivered sequence spawns, in order, up to
/// the first stop sentinel.
pub open spec fn spawn_actions(cmds: Seq<InternalCommand>) -> Seq<Action>
    decreases cmds.len(),
{
    if cmds.len() == 0 || cmds[0] == InternalCommand::Stop {
        Seq::<Action>::empty()
    } else {
        opt_actions(spawned_action(cmds[0])) + spawn_actions(cmds.skip(1))
    }
}

/// The single consumer of the internal command channel.
pub struct CommandProcessor {
    pub stopped: bool,
    /// Every command executed so far, in execution order.
    pub executed: Ghost<Seq<InternalCommand>>,
}

impl CommandProcessor {
    pub fn new() -> (r: CommandProcessor)
        ensures
            !r.stopped,
            r.executed@ == Seq::<InternalCommand>::empty(),
    {
        CommandProcessor { stopped: false, executed: Ghost(Seq::empty()) }
    }

    /// Execute one received command: status commands are applied to the
    /// shared status in place, protocol commands become executor actions, the
    /// sentinel stops the processor, and anything after the sentinel is
    /// dropped. Every executed command is recorded exactly once, in order.
    pub fn process(&mut self, status: &mut ConnectionStatus, cmd: InternalCommand) -> (r:
        CommandStep)
        requires
            old(status).wf(),
        ensures
            final(status).wf(),
            old(self).stopped ==> *final(self) == *old(self) && *final(status) == *old(status) && r
                == CommandStep::Dropped,
            !old(self).stopped && cmd == InternalCommand::Stop ==> final(self).stopped
                && final(self).executed@ == old(self).executed@ && *final(status) == *old(status)
                && r == CommandStep::Exit,
            !old(self).stopped && cmd != InternalCommand::Stop ==> {
                &&& final(self).stopped == old(self).stopped
                &&& final(self).executed@ == old(self).executed@.push(cmd)
                &&& match spawned_action(cmd) {
                    Some(a) => r == CommandStep::Spawn(a) && *final(status) == *old(status),
                    None => r == CommandStep::Applied && final(status).blocked == old(
                        status,
                    ).blocked && match cmd {
                        InternalCommand::SetConnectionClosing => final(status).state == (
                        if crate::status::state_rank(ConnectionState::Closing)
                            > crate::status::state_rank(old(status).state) {
                            ConnectionState::Closing
                        } else {
                            old(status).state
                        }),
                        InternalCommand::SetConnectionClosed(_e) => final(status).state == (
                        if crate::status::state_rank(ConnectionState::Closed)
                            > crate::status::state_rank(old(status).state) {
                            ConnectionState::Closed
                        } else {
                            old(status).state
                        }),
                        InternalCommand::SetConnectionError(e) => final(status).state
                            == ConnectionState::Error && final(status).cause == Some(e),
                        _ => false,
                    },
                }
            },
    {
        if self.stopped {
            return CommandStep::Dropped;
        }
        match cmd {
            InternalCommand::Stop => {
                self.stopped = true;
                CommandStep::Exit
            },
            InternalCommand::CancelConsumer(ch, tag) => {
                proof {
                    self.executed@ = self.executed@.push(
                        InternalCommand::CancelConsumer(ch, tag),
                    );
                }
                CommandStep::Spawn(Action::CancelConsumer(ch, tag))
            },
            InternalCommand::CloseChannel(ch, code, text) => {
                proof {
                    self.executed@ = self.executed@.push(
                        InternalCommand::CloseChannel(ch, code, text),
                    );
                }
                CommandStep::Spawn(Action::CloseChannel(ch, code, text))
            },
            InternalCommand::CloseConnection(code, text, class, method) => {
                proof {
                    self.executed@ = self.executed@.push(
                        InternalCommand::CloseConnection(code, text, class, method),
                    );
                }
                CommandStep::Spawn(Action::CloseConnection(code, text, class, method))
            },
            InternalCommand::SendConnectionCloseOk(err) => {
                proof {
                    self.executed@ = self.executed@.push(
                        InternalCommand::SendConnectionCloseOk(err),
                    );
                }
                CommandStep::Spawn(Action::ConnectionCloseOk(err))
            },
            InternalCommand::RemoveChannel(ch, err) => {
                proof {
                    self.executed@ = self.executed@.push(InternalCommand::RemoveChannel(ch, err));
                }
                CommandStep::Spawn(Action::RemoveChannel(ch, err))
            },
            InternalCommand::SetConnectionClosing => {
                proof {
                    self.executed@ = self.executed@.push(InternalCommand::SetConnectionClosing);
                }
                status.advance(ConnectionState::Closing);
                CommandStep::Applied
            },
            InternalCommand::SetConnectionClosed(err) => {
                proof {
                    self.executed@ = self.executed@.push(
                        InternalCommand::SetConnectionClosed(err),
                    );
                }
                status.advance(ConnectionState::Closed);
                CommandStep::Applied
            },
            InternalCommand::SetConnectionError(err) => {
                proof {
                    self.executed@ = self.executed@.push(
                        InternalCommand::SetConnectionError(err),
                    );
                }
                status.set_error(err);
                CommandStep::Applied
            },
        }
    }


    /// Drain a delivered command sequence as the receive loop does: execute
    /// each command in order, exactly once, stop at the sentinel, and
    /// collect the actions to spawn, in order.
    pub fn run_commands(&mut self, status: &mut ConnectionStatus, commands: &mut Vec<
        InternalCommand,
    >) -> (actions: Vec<Action>)
        requires
            old(status).wf(),
            !old(self).stopped,
        ensures
            final(status).wf(),
            final(self).executed@ == old(self).executed@ + executed_prefix(old(commands)@),
            actions@ == spawn_actions(old(commands)@),
            final(commands)@ == rest_after_stop(old(commands)@),
    {
        let ghost c0 = commands@;
        let mut actions: Vec<Action> = Vec::new();
        proof {
            assert(old(self).executed@ + Seq::<InternalCommand>::empty() =~= old(self).executed@);
            assert(Seq::<Action>::empty() + spawn_actions(commands@) =~= spawn_actions(c0));
        }
        while commands.len() > 0
            invariant
                status.wf(),
                !self.stopped,
                c0 == old(commands)@,
                self.executed@ + executed_prefix(commands@) == old(self).executed@
                    + executed_prefix(c0),
                actions@ + spawn_actions(commands@) == spawn_actions(c0),
                rest_after_stop(commands@) == rest_after_stop(c0),
            decreases commands@.len(),
        {
            let ghost cur = commands@;
            let c = commands.remove(0);
            proof {
                assert(cur[0] == c);
                assert(commands@ =~= cur.skip(1));
            }
            let step = self.process(status, c);
            match step {
                CommandStep::Spawn(a) => {
                    actions.push(a);
                    proof {
                        assert(c != InternalCommand::Stop);
                        assert(executed_prefix(cur) == seq![c] + executed_prefix(cur.skip(1)));
                        assert(spawn_actions(cur) == opt_actions(spawned_action(c))
                            + spawn_actions(cur.skip(1)));
                        assert(self.executed@ + executed_prefix(commands@) =~= old(self).executed@
                            + executed_prefix(c0));
                        assert(actions@ + spawn_actions(commands@) =~= spawn_actions(c0));
                    }
                },
                CommandStep::Applied => {
                    proof {
                        assert(c != InternalCommand::Stop);
                        assert(executed_prefix(cur) == seq![c] + executed_prefix(cur.skip(1)));
                        assert(spawn_actions(cur) == opt_actions(spawned_action(c))
                            + spawn_actions(cur.skip(1)));
                        assert(opt_actions(spawned_action(c)) =~= Seq::<Action>::empty());
                        assert(self.executed@ + executed_prefix(commands@) =~= old(self).executed@
                            + executed_prefix(c0));
                        assert(actions@ + spawn_actions(commands@) =~= spawn_actions(c0));
                    }
                },
                CommandStep::Exit => {
                    proof {
                        assert(c == InternalCommand::Stop);
                        assert(executed_prefix(cur) =~= Seq::<InternalCommand>::empty());
                        assert(spawn_actions(cur) =~= Seq::<Action>::empty());
                        assert(rest_after_stop(cur) == cur.skip(1));
                        assert(commands@ =~= rest_after_stop(c0));
                        assert(self.executed@ =~= old(self).executed@ + executed_prefix(c0));
                        assert(actions@ =~= spawn_actions(c0));
                    }
                    return actions;
                },
                CommandStep::Dropped => {
                    proof {
                        assert(false);
                    }
                },
            }
        }
        proof {
            assert(executed_prefix(commands@) =~= Seq::<InternalCommand>::empty());
            assert(spawn_actions(commands@) =~= Seq::<Action>::empty());
            assert(rest_after_stop(commands@) =~= Seq::<InternalCommand>::empty());
            assert(commands@ =~= rest_after_stop(c0));
            assert(self.executed@ =~= old(self).executed@ + executed_prefix(c0));
            assert(actions@ =~= spawn_actions(c0));
        }
        actions
    }

    /// Whether the reactor is to be woken after this step: after every
    /// executed command, so the I/O loop promptly observes state changes.
    pub fn wakes(step: &CommandStep) -> (r: bool)
        ensures
            r == (*step is Spawn || *step is Applied),
    {
        match step {
            CommandStep::Spawn(_) => true,
            CommandStep::Applied => true,
            CommandStep::Exit => false,
            CommandStep::Dropped => false,
        }
    }
}

} // verus!
