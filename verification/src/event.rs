//! The two workers that hold a command: the loop that runs the supervised
//! process, and the reactor that kills and restarts it on a change.
//!
//! Each worker is a machine that is fed what happened and answers with what
//! to do. Its phase names the one thing it waits for next; the caller waits
//! for that, hands the outcome in, performs the actions that come back in
//! their order, and goes on from the next phase.

use crate::command::{split_spaces, CommandSpec};
use crate::errors::Error;
use crate::signals::Signal;
use vstd::prelude::*;

verus! {

/// A command together with the two loops that can be run around it.
#[derive(Debug, PartialEq)]
pub struct Event {
    /// The command that the worker spawns.
    pub cmd: CommandSpec,
}

/// What the supervised-process loop waits for.
#[derive(Debug, Clone, Copy, PartialEq, Eq, Structural)]
pub enum ProcPhase {
    /// A grant to spawn; nothing is spawned before it arrives.
    AwaitingGrant,
    /// The outcome of spawning the command with its output captured.
    Spawning,
    /// The next line of the child's output, or its end.
    Draining,
    /// Nothing: the loop has failed, and the whole program with it.
    Failed,
}

/// What happened to the supervised-process loop.
#[derive(Debug, PartialEq)]
pub enum ProcInput {
    /// A grant to spawn arrived.
    Granted,
    /// The child was spawned; its output stream was obtained or not.
    Spawned { pid: u32, stdout_captured: bool },
    /// The child could not be spawned.
    SpawnFailed,
    /// The child wrote a line.
    Line(String),
    /// The child wrote something that could not be read as a line.
    Garbled,
    /// The child's output ended: it exited or was killed.
    EndOfStream,
}

/// What the supervised-process loop asks for.
#[derive(Debug, PartialEq)]
pub enum ProcAction {
    /// Report the identifier of the child just spawned.
    SendId(u32),
    /// Write the line to standard output, followed by a newline.
    Echo(String),
    /// End the program, with the error's message where there is one.
    Abort(Option<Error>),
}

/// The answer of the supervised-process loop to one input.
#[derive(Debug, PartialEq)]
pub struct ProcStep {
    /// What the loop waits for from now on.
    pub next: ProcPhase,
    /// What is to be done before waiting, in this order.
    pub actions: Vec<ProcAction>,
}

/// The supervised-process loop as a table: for a phase and an input that
/// the phase waits for, the next phase and the actions; `None` for an input
/// that the phase does not wait for.
pub open spec fn proc_step(phase: ProcPhase, input: ProcInput) -> Option<
    (ProcPhase, Seq<ProcAction>),
> {
    match (phase, input) {
        (ProcPhase::AwaitingGrant, ProcInput::Granted) => Some((ProcPhase::Spawning, seq![])),
        (ProcPhase::Spawning, ProcInput::Spawned { pid, stdout_captured }) => if stdout_captured {
            Some((ProcPhase::Draining, seq![ProcAction::SendId(pid)]))
        } else {
            Some(
                (
                    ProcPhase::Failed,
                    seq![
                        ProcAction::SendId(pid),
                        ProcAction::Abort(Some(Error::FailedStdoutCapture)),
                    ],
                ),
            )
        },
        (ProcPhase::Spawning, ProcInput::SpawnFailed) => Some(
            (ProcPhase::Failed, seq![ProcAction::Abort(None)]),
        ),
        (ProcPhase::Draining, ProcInput::Line(text)) => Some(
            (ProcPhase::Draining, seq![ProcAction::Echo(text)]),
        ),
        (ProcPhase::Draining, ProcInput::Garbled) => Some((ProcPhase::Draining, seq![])),
        (ProcPhase::Draining, ProcInput::EndOfStream) => Some(
            (ProcPhase::AwaitingGrant, seq![]),
        ),
        _ => None,
    }
}

/// A run of the supervised-process loop from `phase` over `inputs`: the
/// phase it ends in and all actions asked for on the way, or `None` when
/// some input came that was not waited for.
pub open spec fn proc_run(phase: ProcPhase, inputs: Seq<ProcInput>) -> Option<
    (ProcPhase, Seq<ProcAction>),
>
    decreases inputs.len(),
{
    if inputs.len() == 0 {
        Some((phase, seq![]))
    } else {
        match proc_run(phase, inputs.drop_last()) {
            None => None,
            Some((reached, earlier)) => match proc_step(reached, inputs.last()) {
                None => None,
                Some((next, actions)) => Some((next, earlier + actions)),
            },
        }
    }
}

/// What the change reactor waits for.
#[derive(Debug, Clone, Copy, PartialEq, Eq, Structural)]
pub enum ReactorPhase {
    /// Its own start.
    Starting,
    /// The identifier of the supervised process now running.
    AwaitingId,
    /// A change of the watched tree, with the identifier already in hand.
    AwaitingChange(u32),
}

/// What happened to the change reactor.
#[derive(Debug, Clone, Copy, PartialEq, Eq, Structural)]
pub enum ReactorInput {
    /// The reactor's loop was started.
    Started,
    /// The supervised-process loop reported an identifier.
    Id(u32),
    /// The poller announced a change.
    Changed,
}

/// What the change reactor asks for.
#[derive(Debug, Clone, Copy, PartialEq, Eq, Structural)]
pub enum ReactorAction {
    /// Send the signal to the supervised-process loop.
    Send(Signal),
    /// Send the forceful, non-catchable kill signal to this target, and
    /// disregard the outcome.
    Kill(i32),
    /// Spawn the on-change command and let it run unobserved.
    RunCommand,
}

/// The answer of the change reactor to one input.
#[derive(Debug, PartialEq)]
pub struct ReactorStep {
    /// What the reactor waits for from now on.
    pub next: ReactorPhase,
    /// What is to be done before waiting, in this order.
    pub actions: Vec<ReactorAction>,
}

/// The target that the kill signal is sent to for a process identifier: the
/// identifier read as a signed 32-bit number, so one above `i32::MAX` wraps
/// to a negative target.
pub open spec fn kill_target(pid: u32) -> int {
    if pid <= i32::MAX {
        pid as int
    } else {
        pid - 0x1_0000_0000
    }
}

/// The change reactor as a table: for a phase and the input that the phase
/// waits for, the next phase and the actions; `None` for any other input.
pub open spec fn reactor_step(phase: ReactorPhase, input: ReactorInput) -> Option<
    (ReactorPhase, Seq<ReactorAction>),
> {
    match (phase, input) {
        (ReactorPhase::Starting, ReactorInput::Started) => Some(
            (ReactorPhase::AwaitingId, seq![ReactorAction::Send(Signal::ProcProceed)]),
        ),
        (ReactorPhase::AwaitingId, ReactorInput::Id(pid)) => Some(
            (ReactorPhase::AwaitingChange(pid), seq![]),
        ),
        (ReactorPhase::AwaitingChange(pid), ReactorInput::Changed) => Some(
            (
                ReactorPhase::AwaitingId,
                seq![
                    ReactorAction::Kill(kill_target(pid) as i32),
                    ReactorAction::RunCommand,
                    ReactorAction::Send(Signal::ProcProceed),
                ],
            ),
        ),
        _ => None,
    }
}

/// A run of the change reactor from `phase` over `inputs`: the phase it
/// ends in and all actions asked for on the way, or `None` when some input
/// came that was not waited for.
pub open spec fn reactor_run(phase: ReactorPhase, inputs: Seq<ReactorInput>) -> Option<
    (ReactorPhase, Seq<ReactorAction>),
>
    decreases inputs.len(),
{
    if inputs.len() == 0 {
        Some((phase, seq![]))
    } else {
        match reactor_run(phase, inputs.drop_last()) {
            None => None,
            Some((reached, earlier)) => match reactor_step(reached, inputs.last()) {
                None => None,
                Some((next, actions)) => Some((next, earlier + actions)),
            },
        }
    }
}

/// The kill target of a process identifier.
pub fn target_of(pid: u32) -> (target: i32)
    ensures
        target == kill_target(pid),
{
    if pid <= 0x7fff_ffff {
        pid as i32
    } else {
        let wrapped: i64 = pid as i64 - 0x1_0000_0000;
        wrapped as i32
    }
}

impl Event {
    /// The worker for a command line, split on its single spaces.
    pub fn build(cmdargs: &str) -> (event: Event)
        ensures
            event.cmd.tokens() == split_spaces(cmdargs@),
    {
        Event { cmd: CommandSpec::parse(cmdargs) }
    }

    /// One turn of the supervised-process loop. The loop starts in
    /// `ProcPhase::AwaitingGrant`; each grant leads to one spawn, the
    /// child's identifier is reported before any of its output is echoed,
    /// and the end of its output leads back to waiting for a grant.
    pub fn init_proc_loop(phase: ProcPhase, input: ProcInput) -> (step: Option<ProcStep>)
        ensures
            match proc_step(phase, input) {
                Some((next, actions)) => step is Some && step->Some_0.next == next
                    && step->Some_0.actions@ == actions,
                None => step is None,
            },
    {
        match phase {
            ProcPhase::AwaitingGrant => match input {
                ProcInput::Granted => Some(
                    ProcStep { next: ProcPhase::Spawning, actions: Vec::new() },
                ),
                _ => None,
            },
            ProcPhase::Spawning => match input {
                ProcInput::Spawned { pid, stdout_captured } => {
                    let mut actions: Vec<ProcAction> = Vec::new();
                    actions.push(ProcAction::SendId(pid));
                    if stdout_captured {
                        Some(ProcStep { next: ProcPhase::Draining, actions })
                    } else {
                        actions.push(ProcAction::Abort(Some(Error::FailedStdoutCapture)));
                        Some(ProcStep { next: ProcPhase::Failed, actions })
                    }
                },
                ProcInput::SpawnFailed => {
                    let mut actions: Vec<ProcAction> = Vec::new();
                    actions.push(ProcAction::Abort(None));
                    Some(ProcStep { next: ProcPhase::Failed, actions })
                },
                _ => None,
            },
            ProcPhase::Draining => match input {
                ProcInput::Line(text) => {
                    let mut actions: Vec<ProcAction> = Vec::new();
                    actions.push(ProcAction::Echo(text));
                    Some(ProcStep { next: ProcPhase::Draining, actions })
                },
                ProcInput::Garbled => Some(
                    ProcStep { next: ProcPhase::Draining, actions: Vec::new() },
                ),
                ProcInput::EndOfStream => Some(
                    ProcStep { next: ProcPhase::AwaitingGrant, actions: Vec::new() },
                ),
                _ => None,
            },
            ProcPhase::Failed => None,
        }
    }

    /// One turn of the change reactor. The reactor starts in
    /// `ReactorPhase::Starting` and grants the first spawn at once; from
    /// then on it takes an identifier, then a change, and answers the
    /// change by killing that identifier's process, running the on-change
    /// command and granting the next spawn.
    pub fn listen_for_change(phase: ReactorPhase, input: ReactorInput) -> (step: Option<
        ReactorStep,
    >)
        ensures
            match reactor_step(phase, input) {
                Some((next, actions)) => step is Some && step->Some_0.next == next
                    && step->Some_0.actions@ == actions,
                None => step is None,
            },
    {
        match (phase, input) {
            (ReactorPhase::Starting, ReactorInput::Started) => {
                let mut actions: Vec<ReactorAction> = Vec::new();
                actions.push(ReactorAction::Send(Signal::ProcProceed));
                Some(ReactorStep { next: ReactorPhase::AwaitingId, actions })
            },
            (ReactorPhase::AwaitingId, ReactorInput::Id(pid)) => Some(
                ReactorStep { next: ReactorPhase::AwaitingChange(pid), actions: Vec::new() },
            ),
            (ReactorPhase::AwaitingChange(pid), ReactorInput::Changed) => {
                let mut actions: Vec<ReactorAction> = Vec::new();
                actions.push(ReactorAction::Kill(target_of(pid)));
                actions.push(ReactorAction::RunCommand);
                actions.push(ReactorAction::Send(Signal::ProcProceed));
                Some(ReactorStep { next: ReactorPhase::AwaitingId, actions })
            },
            _ => None,
        }
    }
}

} // verus!
