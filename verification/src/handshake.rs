//! What holds of every run of the two workers of the restart handshake.

use crate::event::{
    proc_run, proc_step, reactor_run, reactor_step, kill_target, ProcAction, ProcInput, ProcPhase,
    ReactorAction, ReactorInput, ReactorPhase,
};
use crate::signals::Signal;
use vstd::prelude::*;

verus! {

/// The number of signals sent among `actions`.
pub open spec fn grants_in(actions: Seq<ReactorAction>) -> nat
    decreases actions.len(),
{
    if actions.len() == 0 {
        0
    } else if actions.last() is Send {
        grants_in(actions.drop_last()) + 1
    } else {
        grants_in(actions.drop_last())
    }
}

/// The number of kills among `actions`.
pub open spec fn kills_in(actions: Seq<ReactorAction>) -> nat
    decreases actions.len(),
{
    if actions.len() == 0 {
        0
    } else if actions.last() is Kill {
        kills_in(actions.drop_last()) + 1
    } else {
        kills_in(actions.drop_last())
    }
}

/// The number of identifiers among `inputs`.
pub open spec fn ids_in(inputs: Seq<ReactorInput>) -> nat
    decreases inputs.len(),
{
    if inputs.len() == 0 {
        0
    } else if inputs.last() is Id {
        ids_in(inputs.drop_last()) + 1
    } else {
        ids_in(inputs.drop_last())
    }
}

/// The number of changes among `inputs`.
pub open spec fn changes_in(inputs: Seq<ReactorInput>) -> nat
    decreases inputs.len(),
{
    if inputs.len() == 0 {
        0
    } else if inputs.last() is Changed {
        changes_in(inputs.drop_last()) + 1
    } else {
        changes_in(inputs.drop_last())
    }
}

proof fn lemma_reactor_counts_add(a: Seq<ReactorAction>, b: Seq<ReactorAction>)
    ensures
        grants_in(a + b) == grants_in(a) + grants_in(b),
        kills_in(a + b) == kills_in(a) + kills_in(b),
    decreases b.len(),
{
    if b.len() == 0 {
        assert(a + b =~= a);
    } else {
        lemma_reactor_counts_add(a, b.drop_last());
        assert((a + b).drop_last() =~= a + b.drop_last());
    }
}

proof fn lemma_reactor_counts_of_step(phase: ReactorPhase, input: ReactorInput)
    requires
        reactor_step(phase, input) is Some,
    ensures
        grants_in(reactor_step(phase, input)->Some_0.1) == (if input is Id {
            0nat
        } else {
            1nat
        }),
        kills_in(reactor_step(phase, input)->Some_0.1) == (if input is Changed {
            1nat
        } else {
            0nat
        }),
{
    reveal_with_fuel(grants_in, 4);
    reveal_with_fuel(kills_in, 4);
}

/// Starting the reactor grants the first spawn, once, with no identifier
/// and no change asked for first.
pub proof fn lemma_initial_grant()
    ensures
        reactor_run(ReactorPhase::Starting, seq![ReactorInput::Started]) == Some(
            (ReactorPhase::AwaitingId, seq![ReactorAction::Send(Signal::ProcProceed)]),
        ),
        reactor_step(ReactorPhase::Starting, ReactorInput::Changed) is None,
        reactor_step(ReactorPhase::Starting, ReactorInput::Id(0)) is None,
{
    let inputs = seq![ReactorInput::Started];
    assert(inputs.drop_last() =~= Seq::<ReactorInput>::empty());
    assert(reactor_run(ReactorPhase::Starting, inputs.drop_last()) == Some(
        (ReactorPhase::Starting, Seq::<ReactorAction>::empty()),
    ));
    assert(Seq::<ReactorAction>::empty() + seq![ReactorAction::Send(Signal::ProcProceed)]
        =~= seq![ReactorAction::Send(Signal::ProcProceed)]);
}

/// One restart cycle: a reactor that waits for an identifier, fed that
/// identifier and then a change, kills the identified process, runs the
/// on-change command and grants exactly one further spawn, and waits for
/// the next identifier.
pub proof fn lemma_respawn_cycle(pid: u32)
    ensures
        reactor_run(ReactorPhase::AwaitingId, seq![ReactorInput::Id(pid), ReactorInput::Changed])
            == Some(
            (
                ReactorPhase::AwaitingId,
                seq![
                    ReactorAction::Kill(kill_target(pid) as i32),
                    ReactorAction::RunCommand,
                    ReactorAction::Send(Signal::ProcProceed),
                ],
            ),
        ),
        grants_in(
            seq![
                ReactorAction::Kill(kill_target(pid) as i32),
                ReactorAction::RunCommand,
                ReactorAction::Send(Signal::ProcProceed),
            ],
        ) == 1,
{
    let inputs = seq![ReactorInput::Id(pid), ReactorInput::Changed];
    let first = inputs.drop_last();
    assert(first =~= seq![ReactorInput::Id(pid)]);
    assert(first.drop_last() =~= Seq::<ReactorInput>::empty());
    assert(reactor_run(ReactorPhase::AwaitingId, first.drop_last()) == Some(
        (ReactorPhase::AwaitingId, Seq::<ReactorAction>::empty()),
    ));
    assert(reactor_run(ReactorPhase::AwaitingId, first) == Some(
        (ReactorPhase::AwaitingChange(pid), Seq::<ReactorAction>::empty() + seq![]),
    ));
    let actions = seq![
        ReactorAction::Kill(kill_target(pid) as i32),
        ReactorAction::RunCommand,
        ReactorAction::Send(Signal::ProcProceed),
    ];
    assert(Seq::<ReactorAction>::empty() + Seq::<ReactorAction>::empty() + actions =~= actions);
    lemma_reactor_counts_of_step(ReactorPhase::AwaitingChange(pid), ReactorInput::Changed);
}

/// The handshake of the reactor, over every run from its start. The inputs
/// it takes are its start, then an identifier and a change in turn, in that
/// order. Each kill answers one change and targets the identifier taken
/// just before it: the changes answered never outnumber the identifiers
/// taken. The grants are one more than the kills: no second spawn is
/// granted before the identifier of the process running was taken and that
/// process was sent its kill.
pub proof fn lemma_reactor_handshake(inputs: Seq<ReactorInput>)
    requires
        reactor_run(ReactorPhase::Starting, inputs) is Some,
    ensures
        ({
            let (phase, actions) = reactor_run(ReactorPhase::Starting, inputs)->Some_0;
            &&& inputs.len() == 0 ==> phase == ReactorPhase::Starting && actions.len() == 0
            &&& inputs.len() > 0 ==> inputs[0] == ReactorInput::Started && grants_in(actions)
                == kills_in(actions) + 1
            &&& forall|i: int| 0 < i < inputs.len() && i % 2 == 1 ==> inputs[i] is Id
            &&& forall|i: int| 0 < i < inputs.len() && i % 2 == 0 ==> inputs[i] is Changed
            &&& inputs.len() > 0 && inputs.len() % 2 == 1 ==> phase == ReactorPhase::AwaitingId
            &&& inputs.len() > 0 && inputs.len() % 2 == 0 ==> phase
                == ReactorPhase::AwaitingChange(inputs.last()->Id_0)
            &&& kills_in(actions) == changes_in(inputs)
            &&& ids_in(inputs) == changes_in(inputs) + (if phase is AwaitingChange {
                1nat
            } else {
                0nat
            })
        }),
    decreases inputs.len(),
{
    if inputs.len() > 0 {
        let front = inputs.drop_last();
        lemma_reactor_handshake(front);
        let (reached, earlier) = reactor_run(ReactorPhase::Starting, front)->Some_0;
        let (next, actions) = reactor_step(reached, inputs.last())->Some_0;
        lemma_reactor_counts_of_step(reached, inputs.last());
        lemma_reactor_counts_add(earlier, actions);
        assert forall|i: int| 0 < i < inputs.len() && i % 2 == 1 implies inputs[i] is Id by {
            if i < front.len() {
                assert(front[i] == inputs[i]);
            }
        }
        assert forall|i: int| 0 < i < inputs.len() && i % 2 == 0 implies inputs[i] is Changed by {
            if i < front.len() {
                assert(front[i] == inputs[i]);
            }
        }
        if front.len() > 0 {
            assert(front[0] == inputs[0]);
        }
    }
}

/// The number of identifiers reported among `actions`.
pub open spec fn reports_in(actions: Seq<ProcAction>) -> nat
    decreases actions.len(),
{
    if actions.len() == 0 {
        0
    } else if actions.last() is SendId {
        reports_in(actions.drop_last()) + 1
    } else {
        reports_in(actions.drop_last())
    }
}

/// The number of grants among `inputs`.
pub open spec fn granted_in(inputs: Seq<ProcInput>) -> nat
    decreases inputs.len(),
{
    if inputs.len() == 0 {
        0
    } else if inputs.last() is Granted {
        granted_in(inputs.drop_last()) + 1
    } else {
        granted_in(inputs.drop_last())
    }
}

/// The number of children whose output is being read after `inputs`: those
/// spawned with their output captured, less those whose output has ended.
pub open spec fn attached_after(inputs: Seq<ProcInput>) -> int
    decreases inputs.len(),
{
    if inputs.len() == 0 {
        0
    } else {
        attached_after(inputs.drop_last()) + match inputs.last() {
            ProcInput::Spawned { pid, stdout_captured } => if stdout_captured {
                1int
            } else {
                0int
            },
            ProcInput::EndOfStream => -1int,
            _ => 0int,
        }
    }
}

proof fn lemma_reports_add(a: Seq<ProcAction>, b: Seq<ProcAction>)
    ensures
        reports_in(a + b) == reports_in(a) + reports_in(b),
    decreases b.len(),
{
    if b.len() == 0 {
        assert(a + b =~= a);
    } else {
        lemma_reports_add(a, b.drop_last());
        assert((a + b).drop_last() =~= a + b.drop_last());
    }
}

proof fn lemma_reports_of_step(phase: ProcPhase, input: ProcInput)
    requires
        proc_step(phase, input) is Some,
    ensures
        reports_in(proc_step(phase, input)->Some_0.1) == (if input is Spawned {
            1nat
        } else {
            0nat
        }),
{
    reveal_with_fuel(reports_in, 3);
}

/// Every line echoed among `actions` comes right after the report of an
/// identifier or after another line.
pub open spec fn lines_follow_report(actions: Seq<ProcAction>) -> bool {
    forall|j: int|
        0 <= j < actions.len() && (#[trigger] actions[j]) is Echo ==> j > 0 && (actions[j
            - 1] is Echo || actions[j - 1] is SendId)
}

/// The order of the supervised-process loop, over every run from its start.
/// A line is echoed only right after the child's identifier was reported or
/// after another of its lines, so after each grant the new identifier goes
/// out before any output does. Nothing is spawned before a grant: the
/// identifiers reported never outnumber the grants taken, and they equal
/// them whenever the loop waits for a grant or for a line. And the loop
/// reads the output of at most one child at a time, of exactly one while it
/// waits for a line.
pub proof fn lemma_proc_loop_order(inputs: Seq<ProcInput>)
    requires
        proc_run(ProcPhase::AwaitingGrant, inputs) is Some,
    ensures
        ({
            let (phase, actions) = proc_run(ProcPhase::AwaitingGrant, inputs)->Some_0;
            &&& lines_follow_report(actions)
            &&& phase == ProcPhase::Draining ==> actions.len() > 0 && (actions.last() is Echo
                || actions.last() is SendId)
            &&& reports_in(actions) <= granted_in(inputs) <= reports_in(actions) + 1
            &&& phase == ProcPhase::Spawning ==> granted_in(inputs) == reports_in(actions) + 1
            &&& phase == ProcPhase::AwaitingGrant || phase == ProcPhase::Draining
                ==> granted_in(inputs) == reports_in(actions)
            &&& 0 <= attached_after(inputs) <= 1
            &&& attached_after(inputs) == 1 <==> phase == ProcPhase::Draining
        }),
    decreases inputs.len(),
{
    if inputs.len() > 0 {
        let front = inputs.drop_last();
        lemma_proc_loop_order(front);
        let (reached, earlier) = proc_run(ProcPhase::AwaitingGrant, front)->Some_0;
        let (next, added) = proc_step(reached, inputs.last())->Some_0;
        let actions = earlier + added;
        lemma_reports_of_step(reached, inputs.last());
        lemma_reports_add(earlier, added);
        assert forall|j: int|
            0 <= j < actions.len() && (#[trigger] actions[j]) is Echo implies j > 0 && (actions[j
            - 1] is Echo || actions[j - 1] is SendId) by {
            if j < earlier.len() {
                assert(actions[j] == earlier[j]);
                assert(actions[j - 1] == earlier[j - 1]);
            } else {
                assert(actions[j] == added[j - earlier.len()]);
                assert(reached == ProcPhase::Draining);
                assert(j == earlier.len());
                assert(actions[j - 1] == earlier.last());
            }
        }
    }
}

} // verus!
