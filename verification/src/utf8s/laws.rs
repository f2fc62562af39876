//! What holds of every walk, whatever steps are taken and in whatever
//! order: its slots are never overdrawn, its depth limit is kept, every
//! unit of work runs once, a failure stays where it happened, and the walk
//! can always go on until it is over.

use crate::utf8s::entry::Entry;
use crate::utf8s::walk::{
    holds_slot, running, under, Answer, Move, Policy, TaskKind, TaskState, Unit, Walk, WalkStatus,
};
use vstd::prelude::*;

verus! {

/// The running units of two lists put together are those of the one and
/// those of the other.
pub proof fn lemma_running_append(a: Seq<Unit>, b: Seq<Unit>)
    ensures
        running(a + b) == running(a) + running(b),
    decreases b.len(),
{
    if b.len() > 0 {
        lemma_running_append(a, b.drop_last());
        assert((a + b).drop_last() =~= a + b.drop_last());
    }
}

/// Replacing one unit changes the count by what that unit stops and starts
/// to hold.
pub proof fn lemma_running_update(units: Seq<Unit>, i: int, unit: Unit)
    requires
        0 <= i < units.len(),
    ensures
        running(units.update(i, unit)) + holds_slot(units[i]) == running(units) + holds_slot(unit),
    decreases units.len(),
{
    if i == units.len() - 1 {
        assert(units.update(i, unit).drop_last() =~= units.drop_last());
    } else {
        lemma_running_update(units.drop_last(), i, unit);
        assert(units.update(i, unit).drop_last() =~= units.drop_last().update(i, unit));
    }
}

/// No more units run than there are, and none runs exactly if the count
/// is zero.
pub proof fn lemma_running_bounds(units: Seq<Unit>)
    ensures
        running(units) <= units.len(),
        running(units) == 0 <==> forall|i: int|
            0 <= i < units.len() ==> (#[trigger] units[i]).state != TaskState::Running,
    decreases units.len(),
{
    if units.len() > 0 {
        let front = units.drop_last();
        lemma_running_bounds(front);
        if running(units) == 0 {
            assert forall|i: int| 0 <= i < units.len() implies (#[trigger] units[i]).state
                != TaskState::Running by {
                if i < units.len() - 1 {
                    assert(front[i] == units[i]);
                }
            }
        }
        if forall|i: int| 0 <= i < units.len() ==> (#[trigger] units[i]).state != TaskState::Running {
            assert forall|i: int| 0 <= i < front.len() implies (#[trigger] front[i]).state
                != TaskState::Running by {}
        }
    }
}

/// There are no more planned units than entries, and every planned unit is
/// what `spawns` gives for some entry of the listing.
pub proof fn lemma_plan_sources(policy: Policy, depth: nat, parent: nat, entries: Seq<Entry>)
    ensures
        policy.plan(depth, parent, entries).len() <= entries.len(),
        forall|i: int|
            0 <= i < policy.plan(depth, parent, entries).len() ==> exists|j: int|
                0 <= j < entries.len() && policy.spawns(depth, parent, entries[j]) == Some(
                    #[trigger] policy.plan(depth, parent, entries)[i],
                ),
    decreases entries.len(),
{
    if entries.len() > 0 {
        let front = entries.drop_last();
        lemma_plan_sources(policy, depth, parent, front);
        let plan = policy.plan(depth, parent, entries);
        assert forall|i: int| 0 <= i < plan.len() implies exists|j: int|
            0 <= j < entries.len() && policy.spawns(depth, parent, entries[j]) == Some(
                #[trigger] plan[i],
            ) by {}
    }
}

/// Planned units wait, hang on the listing that spawned them, and lie no
/// deeper than the rules allow if the directory listed does not.
pub proof fn lemma_plan_waiting(policy: Policy, depth: nat, parent: nat, entries: Seq<Entry>)
    ensures
        running(policy.plan(depth, parent, entries)) == 0,
        forall|i: int|
            0 <= i < policy.plan(depth, parent, entries).len() ==> {
                let unit = #[trigger] policy.plan(depth, parent, entries)[i];
                &&& unit.state == TaskState::Waiting
                &&& unit.parent == Some(parent)
                &&& policy.allows_depth(depth) ==> policy.allows_depth(unit.depth)
            },
{
    lemma_plan_sources(policy, depth, parent, entries);
    lemma_running_bounds(policy.plan(depth, parent, entries));
}

/// A walk starts in a state that is well formed.
pub proof fn lemma_start_wf(policy: Policy, capacity: nat, root: Seq<char>)
    requires
        capacity >= 1,
    ensures
        Walk::start(policy, capacity, root).wf(),
{
    let w = Walk::start(policy, capacity, root);
    assert(running(w.units.drop_last()) == 0);
}

/// Starting a unit keeps the walk well formed.
pub proof fn lemma_dispatch_wf(w: Walk)
    requires
        w.wf(),
    ensures
        w.dispatch().wf(),
{
    if w.can_dispatch() {
        let after = w.dispatch();
        let unit = w.units[w.dispatched as int];
        lemma_running_update(
            w.units,
            w.dispatched as int,
            Unit { state: TaskState::Running, ..unit },
        );
        assert forall|i: int| 0 < i < after.units.len() implies #[trigger] after.linked(i) by {
            assert(w.linked(i));
        }
    }
}

/// The end of a unit keeps the walk well formed.
pub proof fn lemma_complete_wf(w: Walk, id: nat, answer: Answer)
    requires
        w.wf(),
    ensures
        w.complete(id, answer).wf(),
{
    if w.rejection(id, answer) is None {
        let after = w.complete(id, answer);
        let unit = w.units[id as int];
        let ended = after.units[id as int];
        let spawned = match answer {
            Answer::Listed { entries } => w.policy.plan(unit.depth, id, entries),
            _ => Seq::empty(),
        };
        match answer {
            Answer::Listed { entries } => {
                lemma_plan_waiting(w.policy, unit.depth, id, entries);
                lemma_plan_sources(w.policy, unit.depth, id, entries);
            },
            _ => {},
        }
        lemma_running_update(w.units, id as int, ended);
        lemma_running_append(w.units.update(id as int, ended), spawned);
        lemma_running_bounds(w.units);
        assert forall|i: int| 0 < i < after.units.len() implies #[trigger] after.linked(i) by {
            if i < w.units.len() {
                assert(w.linked(i));
            }
        }
    }
}

/// Every unit of a walk is the root's or descends from it.
pub proof fn lemma_under_root(w: Walk, i: nat)
    requires
        w.wf(),
        i < w.units.len(),
    ensures
        under(w.units, 0, i),
    decreases i,
{
    if i > 0 {
        assert(w.linked(i as int));
        lemma_under_root(w, w.units[i as int].parent->Some_0);
    }
}

/// The walk is over exactly when the traversal step of the root is: the
/// root's step waits for every unit that was ever spawned.
pub proof fn lemma_finished_is_root_joined(w: Walk)
    requires
        w.wf(),
    ensures
        w.finished() == w.joined(0),
{
    if w.joined(0) {
        assert forall|i: int| 0 <= i < w.units.len() implies (#[trigger] w.units[i]).settled() by {
            lemma_under_root(w, i as nat);
        }
    }
}

/// Which units descend from which depends on the parents alone: it stays
/// as it is when units change their state and new units come behind.
proof fn lemma_under_kept(before: Seq<Unit>, after: Seq<Unit>, top: nat, i: nat)
    requires
        before.len() <= after.len(),
        forall|j: int| 0 <= j < before.len() ==> (#[trigger] after[j]).parent == before[j].parent,
        i < before.len(),
    ensures
        under(after, top, i) == under(before, top, i),
    decreases i,
{
    if i != top {
        match before[i as int].parent {
            Some(p) => {
                if p < i {
                    lemma_under_kept(before, after, top, p);
                }
            },
            None => {},
        }
    }
}

/// A traversal step that is over stays over: once a directory and all that
/// descends from it have ended, no step of the walk brings a new unit
/// below it or sets one of its units going again.
pub proof fn lemma_joined_is_stable(w: Walk, top: nat, m: Move)
    requires
        w.wf(),
        top < w.units.len(),
        w.joined(top),
    ensures
        w.step(m).joined(top),
{
    let after = w.step(m);
    match m {
        Move::Dispatch => {
            if w.can_dispatch() {
                assert forall|i: int|
                    0 <= i < after.units.len() && under(after.units, top, i as nat) implies (
                #[trigger] after.units[i]).settled() by {
                    lemma_under_kept(w.units, after.units, top, i as nat);
                }
            }
        },
        Move::Complete { id, answer } => {
            if w.rejection(id, answer) is None {
                lemma_complete_wf(w, id, answer);
                assert forall|i: int|
                    0 <= i < after.units.len() && under(after.units, top, i as nat) implies (
                #[trigger] after.units[i]).settled() by {
                    if i < w.units.len() {
                        lemma_under_kept(w.units, after.units, top, i as nat);
                    } else {
                        match answer {
                            Answer::Listed { entries } => {
                                lemma_plan_waiting(w.policy, w.units[id as int].depth, id, entries);
                            },
                            _ => {},
                        }
                        lemma_under_kept(w.units, after.units, top, id);
                    }
                }
            }
        },
    }
}

/// Whatever steps are taken, in whatever order, a walk stays well formed.
pub proof fn lemma_run_wf(w: Walk, moves: Seq<Move>)
    requires
        w.wf(),
    ensures
        w.run(moves).wf(),
    decreases moves.len(),
{
    if moves.len() > 0 {
        let before = w.run(moves.drop_last());
        lemma_run_wf(w, moves.drop_last());
        match moves.last() {
            Move::Dispatch => lemma_dispatch_wf(before),
            Move::Complete { id, answer } => lemma_complete_wf(before, id, answer),
        }
    }
}

/// The rules and the number of slots of a walk never change.
pub proof fn lemma_run_keeps_rules(w: Walk, moves: Seq<Move>)
    ensures
        w.run(moves).policy == w.policy,
        w.run(moves).capacity == w.capacity,
    decreases moves.len(),
{
    if moves.len() > 0 {
        lemma_run_keeps_rules(w, moves.drop_last());
    }
}

/// For every number of slots from one up, and at every point of every run,
/// the units of work that hold a slot are exactly those that are running,
/// and they are no more than there are slots.
pub proof fn lemma_never_over_capacity(
    policy: Policy,
    capacity: nat,
    root: Seq<char>,
    moves: Seq<Move>,
)
    requires
        capacity >= 1,
    ensures
        running(Walk::start(policy, capacity, root).run(moves).units) <= capacity,
        Walk::start(policy, capacity, root).run(moves).held == running(
            Walk::start(policy, capacity, root).run(moves).units,
        ),
{
    let w = Walk::start(policy, capacity, root);
    lemma_start_wf(policy, capacity, root);
    lemma_run_wf(w, moves);
    lemma_run_keeps_rules(w, moves);
}

/// At every point of every run, no unit of work lies deeper than the rules
/// allow. Under a depth limit no directory below that level is listed and no
/// file below it is processed; without recursion only the root is listed
/// and only files directly inside it are processed.
pub proof fn lemma_depth_limit_respected(
    policy: Policy,
    capacity: nat,
    root: Seq<char>,
    moves: Seq<Move>,
    i: int,
)
    requires
        capacity >= 1,
        0 <= i < Walk::start(policy, capacity, root).run(moves).units.len(),
    ensures
        policy.max_depth matches Some(limit) ==> Walk::start(policy, capacity, root).run(
            moves,
        ).units[i].depth <= limit,
        !policy.recursive ==> Walk::start(policy, capacity, root).run(moves).units[i].depth == 0,
        !policy.recursive && i > 0 ==> Walk::start(policy, capacity, root).run(moves).units[i].kind
            == TaskKind::Process,
{
    let w = Walk::start(policy, capacity, root);
    lemma_start_wf(policy, capacity, root);
    lemma_run_wf(w, moves);
    lemma_run_keeps_rules(w, moves);
    if !policy.recursive && i > 0 {
        lemma_flat_run(w, moves, i);
    }
}

/// Without recursion, every unit but the first processes a file.
proof fn lemma_flat_run(w: Walk, moves: Seq<Move>, i: int)
    requires
        w.units.len() == 1,
        !w.policy.recursive,
        0 < i < w.run(moves).units.len(),
    ensures
        w.run(moves).units[i].kind == TaskKind::Process,
    decreases moves.len(),
{
    if moves.len() > 0 {
        let before = w.run(moves.drop_last());
        lemma_run_keeps_rules(w, moves.drop_last());
        if i < before.units.len() {
            lemma_flat_run(w, moves.drop_last(), i);
        } else {
            match moves.last() {
                Move::Dispatch => {},
                Move::Complete { id, answer } => {
                    if before.rejection(id, answer) is None {
                        match answer {
                            Answer::Listed { entries } => {
                                // No directory spawns a unit, so the
                                // new unit comes from a file.
                                lemma_plan_sources(
                                    before.policy,
                                    before.units[id as int].depth,
                                    id,
                                    entries,
                                );
                            },
                            _ => {},
                        }
                    }
                },
            }
        }
    }
}

/// Every unit of work runs once. Units start in the order of their
/// numbers, one per step at most; a unit that has started never waits
/// again, and a unit that has ended stays as it is for good.
pub proof fn lemma_units_run_once(w: Walk, m: Move)
    requires
        w.wf(),
    ensures
        w.dispatched <= w.step(m).dispatched <= w.dispatched + 1,
        w.units.len() <= w.step(m).units.len(),
        forall|i: int|
            0 <= i < w.dispatched ==> (#[trigger] w.step(m).units[i]).state != TaskState::Waiting,
        forall|i: int|
            0 <= i < w.units.len() && w.units[i].settled() ==> #[trigger] w.step(m).units[i]
                == w.units[i],
{
    match m {
        Move::Dispatch => lemma_dispatch_wf(w),
        Move::Complete { id, answer } => lemma_complete_wf(w, id, answer),
    }
}

/// A walk never gets stuck: as long as it is not over, a unit is running
/// or one can start.
pub proof fn lemma_walk_can_go_on(w: Walk)
    requires
        w.wf(),
        !w.finished(),
    ensures
        w.held >= 1 || w.can_dispatch(),
{
    if w.held == 0 {
        lemma_running_bounds(w.units);
    }
}

/// A failure stays where it happened. The unit that failed is marked
/// failed; no unit is spawned, every other unit is as it was, and those
/// that wait can still start.
pub proof fn lemma_failure_is_local(w: Walk, id: nat, answer: Answer)
    requires
        w.wf(),
        w.rejection(id, answer) is None,
        !answer.ok(),
    ensures
        w.complete(id, answer).units.len() == w.units.len(),
        w.complete(id, answer).units[id as int].state == TaskState::Failed,
        forall|i: int|
            0 <= i < w.units.len() && i != id ==> #[trigger] w.complete(id, answer).units[i]
                == w.units[i],
        w.complete(id, answer).dispatched == w.dispatched,
        w.complete(id, answer).held == w.held - 1,
{
    lemma_running_bounds(w.units);
}

/// Only the root can fail the walk: a walk that is over counts as
/// completed unless the listing of the root itself failed, whatever
/// happened to the units below it.
pub proof fn lemma_only_root_fails_walk(w: Walk)
    requires
        w.wf(),
        w.finished(),
    ensures
        w.status() == WalkStatus::RootUnreadable <==> w.units[0].state == TaskState::Failed,
        w.status() == WalkStatus::Completed <==> w.units[0].state == TaskState::Done,
{
}

} // verus!
