//! Waiting for the tasks of the program.

use vstd::prelude::*;

verus! {

/// What happens while the tasks run.
#[derive(Debug, Clone, Copy, PartialEq, Eq, Structural)]
pub enum TaskEvent {
    /// The program is told to stop.
    Cancelled,
    /// A task ended without an error.
    Finished,
    /// A task failed.
    Failed,
    /// All tasks have ended.
    AllEnded,
}

/// What is done about it.
#[derive(Debug, Clone, Copy, PartialEq, Eq, Structural)]
pub enum TaskAction {
    /// Wait for the next event.
    Wait,
    /// Report the error.
    Report,
    /// Stop.
    Stop,
}

/// Whether tasks are still started and watched, or only waited for.
#[derive(Debug, Clone, Copy, PartialEq, Eq, Structural)]
pub enum Phase {
    Running,
    Draining,
}

/// The next phase and what is done, after an event.
pub open spec fn next(phase: Phase, event: TaskEvent) -> (Phase, TaskAction) {
    match event {
        TaskEvent::AllEnded => (phase, TaskAction::Stop),
        TaskEvent::Cancelled => (Phase::Draining, TaskAction::Wait),
        TaskEvent::Failed => (Phase::Draining, TaskAction::Report),
        TaskEvent::Finished => (phase, TaskAction::Wait),
    }
}

/// What is done next, and in which phase. A task that fails, or the order to stop,
/// makes the rest of the tasks be waited for until all have ended; errors are
/// reported in both phases.
pub fn wait(phase: Phase, event: TaskEvent) -> (r: (Phase, TaskAction))
    ensures
        r == next(phase, event),
{
    match event {
        TaskEvent::AllEnded => (phase, TaskAction::Stop),
        TaskEvent::Cancelled => (Phase::Draining, TaskAction::Wait),
        TaskEvent::Failed => (Phase::Draining, TaskAction::Report),
        TaskEvent::Finished => (phase, TaskAction::Wait),
    }
}

/// The phase after some events, and what was done about each.
pub open spec fn after(phase: Phase, events: Seq<TaskEvent>) -> (Phase, Seq<TaskAction>)
    decreases events.len(),
{
    if events.len() == 0 {
        (phase, Seq::<TaskAction>::empty())
    } else {
        let (before, done) = after(phase, events.drop_last());
        let (now, action) = next(before, events.last());
        (now, done.push(action))
    }
}

/// How many events are failures.
pub open spec fn failures(events: Seq<TaskEvent>) -> nat {
    events.filter(|e: TaskEvent| e == TaskEvent::Failed).len()
}

/// How many actions are reports.
pub open spec fn reports(actions: Seq<TaskAction>) -> nat {
    actions.filter(|a: TaskAction| a == TaskAction::Report).len()
}

/// Whether something happened that makes the tasks be only waited for.
pub open spec fn is_stopping(events: Seq<TaskEvent>) -> bool {
    exists|i: int|
        0 <= i < events.len() && (#[trigger] events[i] == TaskEvent::Failed || events[i]
            == TaskEvent::Cancelled)
}

/// However the tasks run, the program stops exactly when all of them have ended;
/// each failure is reported, and there are as many reports as failures; once a task
/// failed or the program was told to stop, the tasks are only waited for, whatever
/// follows, and they are not before.
pub proof fn tasks_run_to_their_end(phase: Phase, events: Seq<TaskEvent>)
    ensures
        after(phase, events).1.len() == events.len(),
        forall|i: int|
            0 <= i < events.len() ==> (#[trigger] after(phase, events).1[i] == TaskAction::Stop
                <==> events[i] == TaskEvent::AllEnded),
        forall|i: int|
            0 <= i < events.len() ==> (#[trigger] after(phase, events).1[i] == TaskAction::Report
                <==> events[i] == TaskEvent::Failed),
        reports(after(phase, events).1) == failures(events),
        after(phase, events).0 == (if phase == Phase::Draining || is_stopping(events) {
            Phase::Draining
        } else {
            Phase::Running
        }),
    decreases events.len(),
{
    reveal(Seq::filter);
    if events.len() > 0 {
        let front = events.drop_last();
        tasks_run_to_their_end(phase, front);
        let done = after(phase, front).1;
        let all = after(phase, events).1;
        assert(all.drop_last() =~= done);
        assert(forall|i: int| 0 <= i < front.len() ==> #[trigger] front[i] == events[i]);
        assert(forall|i: int| 0 <= i < front.len() ==> #[trigger] all[i] == done[i]);
        let last = events.len() - 1;
        assert(events.last() == events[last]);
        assert(is_stopping(events) == (is_stopping(front) || events[last] == TaskEvent::Failed
            || events[last] == TaskEvent::Cancelled)) by {
            if is_stopping(front) {
                let i = choose|i: int|
                    0 <= i < front.len() && (#[trigger] front[i] == TaskEvent::Failed || front[i]
                        == TaskEvent::Cancelled);
                assert(events[i] == front[i]);
            }
            if is_stopping(events) {
                let i = choose|i: int|
                    0 <= i < events.len() && (#[trigger] events[i] == TaskEvent::Failed
                        || events[i] == TaskEvent::Cancelled);
                if i < last {
                    assert(front[i] == events[i]);
                }
            }
        }
    }
}

} // verus!
