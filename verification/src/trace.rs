//! What holds of whole runs of the installer: of every sequence of events,
//! whatever the caller reports.

use crate::installer::{
    lemma_step_keeps_wf, step_order, Action, Cause, CauseModel, ErrorModel, EventModel,
    NoticeModel, Phase, RunModel, Step,
};
use vstd::prelude::*;

verus! {

/// The run after the events, taken in order.
pub open spec fn run(m: RunModel, events: Seq<EventModel>) -> RunModel
    decreases events.len(),
{
    if events.len() == 0 {
        m
    } else {
        run(m, events.drop_last()).step(events.last()).0
    }
}

/// What the caller is asked to do in answer to the event at `i`.
pub open spec fn answer(m: RunModel, events: Seq<EventModel>, i: int) -> Action {
    run(m, events.take(i)).step(events[i]).1
}

/// The run after one event more is the run so far, taken one event
/// further.
pub proof fn lemma_run_unfolds(m: RunModel, events: Seq<EventModel>, k: int)
    requires
        0 <= k < events.len(),
    ensures
        run(m, events.take(k + 1)) == run(m, events.take(k)).step(events[k]).0,
{
    assert(events.take(k + 1).drop_last() =~= events.take(k));
    assert(events.take(k + 1).last() == events[k]);
}

/// A run that is as it should be stays so, whatever the events.
pub proof fn lemma_run_keeps_wf(m: RunModel, events: Seq<EventModel>)
    requires
        m.wf(),
    ensures
        run(m, events).wf(),
    decreases events.len(),
{
    if events.len() > 0 {
        lemma_run_keeps_wf(m, events.drop_last());
        lemma_step_keeps_wf(run(m, events.drop_last()), events.last());
    }
}

/// Once a run has failed, no event changes why, no step is run, storage is
/// not flushed for a next step, nothing is mounted, and nothing more is
/// reported.
pub proof fn law_failure_is_final(m: RunModel, e: EventModel)
    requires
        m.wf(),
        m.failure is Some,
    ensures
        m.step(e).0.failure == m.failure,
        m.step(e).0.completed == m.completed,
        m.step(e).0.outbox == m.outbox,
        !(m.step(e).1 is Run),
        m.step(e).1 != Action::Sync,
        m.step(e).1 != Action::MountTargets,
        m.step(e).1 != Action::RestoreBackup,
{
}

/// A step is run only when all the steps before it have succeeded, in
/// their order, and nothing has failed.
pub proof fn law_steps_in_order(m: RunModel, e: EventModel, s: Step)
    requires
        m.wf(),
        m.step(e).1 == Action::Run(s),
    ensures
        m.failure is None,
        m.step(e).0.failure is None,
        m.completed == step_order().take(s.index() as int),
        m.step(e).0.phase == Phase::Running(s),
        m.step(e).0.status.step == s,
{
}

/// The steps that have succeeded stay: an event adds at most one step to
/// them, the one that was at work, and only when it is reported to have
/// succeeded.
pub proof fn law_completed_only_grows(m: RunModel, e: EventModel)
    requires
        m.wf(),
    ensures
        match (m.phase, e) {
            (Phase::Running(s), EventModel::Done(Ok(_))) => m.step(e).0.completed
                == m.completed.push(s),
            _ => m.step(e).0.completed == m.completed,
        },
{
    if m.phase == Phase::Idle {
        assert(m.completed =~= Seq::<Step>::empty());
    }
}

/// When the step at work fails, the error that is reported names that step
/// and that cause, it is reported once, and the run is asked to clean up
/// or to finish.
pub proof fn law_error_names_failing_step(m: RunModel, s: Step, c: CauseModel)
    requires
        m.wf(),
        m.phase == Phase::Running(s),
    ensures
        ({
            let after = m.step(EventModel::Done(Err(c)));
            &&& after.0.failure == Some(c)
            &&& after.0.completed == m.completed
            &&& after.0.outbox == if m.error_cb {
                m.outbox.push(NoticeModel::Error(ErrorModel { step: s, err: c }))
            } else {
                m.outbox
            }
            &&& (after.1 == Action::UnmountAll || after.1 == Action::Finish)
        }),
{
}

/// When the stop flag is found set before a step, that step is not run,
/// nothing is reported, the steps that have succeeded stay as they are, and
/// the run fails as interrupted.
pub proof fn law_cancel_skips_step(m: RunModel, s: Step)
    requires
        m.wf(),
        m.phase == Phase::Syncing(s),
    ensures
        ({
            let after = m.step(EventModel::Synced { cancelled: true });
            &&& after.0.failure == Some(Cause::interrupted())
            &&& after.0.completed == m.completed
            &&& after.0.outbox == m.outbox
            &&& (after.1 == Action::UnmountAll || after.1 == Action::Finish)
        }),
{
}

/// After a failure no later event of the run is answered with a step, and
/// the failure, the steps that have succeeded and the reports stay as they
/// are.
pub proof fn lemma_failed_run(m: RunModel, events: Seq<EventModel>, i: int, j: int)
    requires
        m.wf(),
        0 <= i <= j < events.len(),
        run(m, events.take(i)).failure is Some,
    ensures
        !(answer(m, events, j) is Run),
        run(m, events.take(j + 1)).failure == run(m, events.take(i)).failure,
        run(m, events.take(j + 1)).completed == run(m, events.take(i)).completed,
        run(m, events.take(j + 1)).outbox == run(m, events.take(i)).outbox,
    decreases j - i,
{
    lemma_run_keeps_wf(m, events.take(j));
    lemma_run_unfolds(m, events, j);
    if i < j {
        lemma_failed_run(m, events, i, j - 1);
    }
    law_failure_is_final(run(m, events.take(j)), events[j]);
}

/// No step is run after a step has failed: when the event at `i` reports
/// that the step at work has failed, no event from there on is answered
/// with a step, the run keeps that cause as its failure, and the one error
/// that it reports names the step that failed.
pub proof fn law_no_step_after_failure(
    m: RunModel,
    events: Seq<EventModel>,
    i: int,
    j: int,
    s: Step,
    c: CauseModel,
)
    requires
        m.wf(),
        0 <= i <= j < events.len(),
        run(m, events.take(i)).phase == Phase::Running(s),
        events[i] == EventModel::Done(Err(c)),
    ensures
        !(answer(m, events, j) is Run),
        run(m, events.take(j + 1)).failure == Some(c),
        run(m, events.take(j + 1)).completed == run(m, events.take(i)).completed,
        run(m, events.take(j + 1)).outbox == if m.error_cb {
            run(m, events.take(i)).outbox.push(NoticeModel::Error(ErrorModel { step: s, err: c }))
        } else {
            run(m, events.take(i)).outbox
        },
{
    let before = run(m, events.take(i));
    lemma_run_keeps_wf(m, events.take(i));
    lemma_run_unfolds(m, events, i);
    lemma_listeners_stay(m, events.take(i));
    law_error_names_failing_step(before, s, c);
    if i < j {
        lemma_failed_run(m, events, i + 1, j);
    }
}

/// No step is run after the stop flag was found set: when the event at `i`
/// reports the flag set before a step, no event from there on is answered
/// with a step, the steps that have succeeded and the reports stay as they
/// were, and the run fails as interrupted.
pub proof fn law_no_step_after_cancel(
    m: RunModel,
    events: Seq<EventModel>,
    i: int,
    j: int,
    s: Step,
)
    requires
        m.wf(),
        0 <= i <= j < events.len(),
        run(m, events.take(i)).phase == Phase::Syncing(s),
        events[i] == (EventModel::Synced { cancelled: true }),
    ensures
        !(answer(m, events, j) is Run),
        run(m, events.take(j + 1)).failure == Some(Cause::interrupted()),
        run(m, events.take(j + 1)).completed == run(m, events.take(i)).completed,
        run(m, events.take(j + 1)).outbox == run(m, events.take(i)).outbox,
        run(m, events.take(j + 1)).phase == Phase::Finished ==> run(
            m,
            events.take(j + 1),
        ).result() == Some(Err::<(), CauseModel>(Cause::interrupted())),
{
    let before = run(m, events.take(i));
    lemma_run_keeps_wf(m, events.take(i));
    lemma_run_unfolds(m, events, i);
    law_cancel_skips_step(before, s);
    if i < j {
        lemma_failed_run(m, events, i + 1, j);
    }
}

/// Who listens is not changed by any event.
pub proof fn lemma_listeners_stay(m: RunModel, events: Seq<EventModel>)
    ensures
        run(m, events).error_cb == m.error_cb,
        run(m, events).status_cb == m.status_cb,
    decreases events.len(),
{
    if events.len() > 0 {
        lemma_listeners_stay(m, events.drop_last());
    }
}

/// When the checks that come before any change fail, the run is over: no
/// step has run or will run, nothing is reported, and the run fails with
/// the cause of the check.
pub proof fn law_failed_validation_changes_nothing(m: RunModel, c: CauseModel)
    requires
        m.wf(),
        m.phase == Phase::Validating,
    ensures
        ({
            let after = m.step(EventModel::Done(Err(c)));
            &&& after.1 == Action::Finish
            &&& after.0.result() == Some(Err::<(), CauseModel>(c))
            &&& after.0.completed == Seq::<Step>::empty()
            &&& after.0.outbox == m.outbox
            &&& forall|e: EventModel| after.0.step(e) == (after.0, Action::Finish)
        }),
{
    assert(m.completed =~= Seq::<Step>::empty());
}

/// How many errors the reports hold.
pub open spec fn errors_in(outbox: Seq<NoticeModel>) -> nat
    decreases outbox.len(),
{
    if outbox.len() == 0 {
        0
    } else {
        errors_in(outbox.drop_last()) + if outbox.last() is Error {
            1nat
        } else {
            0nat
        }
    }
}

/// The events of a run add at most one error to the reports, and none
/// while the run has not failed.
pub proof fn law_at_most_one_error(m: RunModel, events: Seq<EventModel>)
    requires
        m.wf(),
        m.failure is None,
    ensures
        errors_in(run(m, events).outbox) <= errors_in(m.outbox) + 1,
        run(m, events).failure is None ==> errors_in(run(m, events).outbox) == errors_in(m.outbox),
    decreases events.len(),
{
    if events.len() > 0 {
        let rest = events.drop_last();
        let before = run(m, rest);
        let e = events.last();
        law_at_most_one_error(m, rest);
        lemma_run_keeps_wf(m, rest);
        if before.failure is Some {
            law_failure_is_final(before, e);
        } else {
            let after = before.step(e).0;
            if after.outbox != before.outbox {
                assert(after.outbox.drop_last() =~= before.outbox);
            }
        }
    }
}

} // verus!
