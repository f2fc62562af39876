//! How much work a walk does: a walk over a tree spawns one unit of work for
//! the root and one for each entry that calls for it, starts and ends each
//! of them once, and is over after that.

use crate::utf8s::laws::{
    lemma_complete_wf, lemma_dispatch_wf, lemma_run_keeps_rules, lemma_start_wf,
};
use crate::utf8s::tree::{listing, work_among, work_below, Node};
use crate::utf8s::visit::{chosen, faithful, shadow};
use crate::utf8s::walk::{Answer, Move, Policy, TaskKind, TaskState, Unit, Walk};
use vstd::prelude::*;

verus! {

/// How many of the units have ended.
pub open spec fn ended(units: Seq<Unit>) -> nat
    decreases units.len(),
{
    if units.len() == 0 {
        0
    } else {
        ended(units.drop_last()) + if units.last().settled() {
            1nat
        } else {
            0nat
        }
    }
}

impl Walk {
    /// Whether the step `m` changes the walk: a unit can start, or the
    /// report is taken.
    pub open spec fn moved_by(self, m: Move) -> bool {
        match m {
            Move::Dispatch => self.can_dispatch(),
            Move::Complete { id, answer } => self.rejection(id, answer) is None,
        }
    }

    /// Whether each of the steps `moves`, taken in order, changes the walk.
    pub open spec fn moved_by_all(self, moves: Seq<Move>) -> bool
        decreases moves.len(),
    {
        moves.len() == 0 || (self.moved_by_all(moves.drop_last()) && self.run(
            moves.drop_last(),
        ).moved_by(moves.last()))
    }
}

/// The units that a unit of work will still give rise to: all that the
/// listing of its directory spawns, directly and further down, as long as
/// the listing has not ended.
spec fn work_left(policy: Policy, unit: Unit, node: Node) -> nat {
    if unit.kind == TaskKind::List && !unit.settled() {
        work_below(policy, node, unit.depth)
    } else {
        0
    }
}

/// The units that the units will still give rise to together.
spec fn total_work_left(policy: Policy, units: Seq<Unit>, nodes: Seq<Node>) -> nat
    decreases units.len(),
{
    if units.len() == 0 {
        0
    } else {
        total_work_left(policy, units.drop_last(), nodes.drop_last()) + work_left(
            policy,
            units.last(),
            nodes.last(),
        )
    }
}

/// Units put behind others add the work that they will give rise to.
proof fn lemma_work_left_append(
    policy: Policy,
    units: Seq<Unit>,
    nodes: Seq<Node>,
    more_units: Seq<Unit>,
    more_nodes: Seq<Node>,
)
    requires
        units.len() == nodes.len(),
        more_units.len() == more_nodes.len(),
    ensures
        total_work_left(policy, units + more_units, nodes + more_nodes) == total_work_left(
            policy,
            units,
            nodes,
        ) + total_work_left(policy, more_units, more_nodes),
    decreases more_units.len(),
{
    if more_units.len() > 0 {
        lemma_work_left_append(
            policy,
            units,
            nodes,
            more_units.drop_last(),
            more_nodes.drop_last(),
        );
        assert((units + more_units).drop_last() =~= units + more_units.drop_last());
        assert((nodes + more_nodes).drop_last() =~= nodes + more_nodes.drop_last());
    }
}

/// Replacing one unit changes the work to come by what that unit stops and
/// starts to give rise to.
proof fn lemma_work_left_update(
    policy: Policy,
    units: Seq<Unit>,
    nodes: Seq<Node>,
    i: int,
    unit: Unit,
)
    requires
        units.len() == nodes.len(),
        0 <= i < units.len(),
    ensures
        total_work_left(policy, units.update(i, unit), nodes) + work_left(
            policy,
            units[i],
            nodes[i],
        ) == total_work_left(policy, units, nodes) + work_left(policy, unit, nodes[i]),
    decreases units.len(),
{
    if i == units.len() - 1 {
        assert(units.update(i, unit).drop_last() =~= units.drop_last());
    } else {
        lemma_work_left_update(policy, units.drop_last(), nodes.drop_last(), i, unit);
        assert(units.update(i, unit).drop_last() =~= units.drop_last().update(i, unit));
    }
}

/// The ended units of two lists put together are those of the one and
/// those of the other.
proof fn lemma_ended_append(a: Seq<Unit>, b: Seq<Unit>)
    ensures
        ended(a + b) == ended(a) + ended(b),
    decreases b.len(),
{
    if b.len() > 0 {
        lemma_ended_append(a, b.drop_last());
        assert((a + b).drop_last() =~= a + b.drop_last());
    }
}

/// Replacing one unit changes the count by whether that unit had ended and
/// has ended now.
proof fn lemma_ended_update(units: Seq<Unit>, i: int, unit: Unit)
    requires
        0 <= i < units.len(),
    ensures
        ended(units.update(i, unit)) + (if units[i].settled() {
            1nat
        } else {
            0nat
        }) == ended(units) + if unit.settled() {
            1nat
        } else {
            0nat
        },
    decreases units.len(),
{
    if i == units.len() - 1 {
        assert(units.update(i, unit).drop_last() =~= units.drop_last());
    } else {
        lemma_ended_update(units.drop_last(), i, unit);
        assert(units.update(i, unit).drop_last() =~= units.drop_last().update(i, unit));
    }
}

/// No more units have ended than there are, and all have exactly if every
/// unit has ended.
proof fn lemma_ended_bounds(units: Seq<Unit>)
    ensures
        ended(units) <= units.len(),
        ended(units) == units.len() <==> forall|i: int|
            0 <= i < units.len() ==> (#[trigger] units[i]).settled(),
    decreases units.len(),
{
    if units.len() > 0 {
        let front = units.drop_last();
        lemma_ended_bounds(front);
        if ended(units) == units.len() {
            assert forall|i: int| 0 <= i < units.len() implies (#[trigger] units[i]).settled() by {
                if i < units.len() - 1 {
                    assert(front[i] == units[i]);
                }
            }
        }
        if forall|i: int| 0 <= i < units.len() ==> (#[trigger] units[i]).settled() {
            assert forall|i: int| 0 <= i < front.len() implies (#[trigger] front[i]).settled() by {}
        }
    }
}

/// The units that a listing spawns, and those that they will give rise to,
/// are all the units that the children listed give rise to.
proof fn lemma_plan_work(policy: Policy, depth: nat, parent: nat, children: Seq<Node>)
    ensures
        policy.plan(depth, parent, listing(children)).len() == chosen(policy, depth, children).len(),
        policy.plan(depth, parent, listing(children)).len() + total_work_left(
            policy,
            policy.plan(depth, parent, listing(children)),
            chosen(policy, depth, children),
        ) == work_among(policy, children, depth),
        ended(policy.plan(depth, parent, listing(children))) == 0,
    decreases children.len(),
{
    if children.len() > 0 {
        let front = children.drop_last();
        lemma_plan_work(policy, depth, parent, front);
        assert(listing(children).drop_last() =~= listing(front));
        let plan = policy.plan(depth, parent, listing(front));
        let nodes = chosen(policy, depth, front);
        match policy.spawns(depth, parent, children.last().entry) {
            Some(unit) => {
                assert(plan.push(unit).drop_last() =~= plan);
                assert(nodes.push(children.last()).drop_last() =~= nodes);
            },
            None => {},
        }
    }
}

/// Units that have all ended give rise to no more units.
proof fn lemma_no_work_left(policy: Policy, units: Seq<Unit>, nodes: Seq<Node>)
    requires
        forall|i: int| 0 <= i < units.len() ==> (#[trigger] units[i]).settled(),
    ensures
        total_work_left(policy, units, nodes) == 0,
    decreases units.len(),
{
    if units.len() > 0 {
        assert forall|i: int| 0 <= i < units.drop_last().len() implies (
        #[trigger] units.drop_last()[i]).settled() by {}
        lemma_no_work_left(policy, units.drop_last(), nodes.drop_last());
    }
}

/// What holds of the amount of work after steps that tell the truth about
/// the tree and that each change the walk: the units spawned and those
/// still to come are as many as the tree gives rise to, and every step has
/// started a unit or ended one.
proof fn lemma_run_work(root: Node, start: Walk, moves: Seq<Move>)
    requires
        start.wf(),
        start.units.len() == 1,
        start.units[0].state == TaskState::Waiting,
        start.dispatched == 0,
        faithful(root, start, moves),
        start.moved_by_all(moves),
    ensures
        start.run(moves).wf(),
        shadow(root, start, moves).len() == start.run(moves).units.len(),
        start.run(moves).units.len() + total_work_left(
            start.policy,
            start.run(moves).units,
            shadow(root, start, moves),
        ) == 1 + work_below(start.policy, root, 0),
        start.run(moves).dispatched + ended(start.run(moves).units) == moves.len(),
    decreases moves.len(),
{
    let policy = start.policy;
    if moves.len() == 0 {
        // The one unit lists the root, has not ended, and gives rise to
        // all the work below the root.
        assert(total_work_left(policy, start.units.drop_last(), seq![root].drop_last()) == 0);
        assert(ended(start.units.drop_last()) == 0);
    } else {
        let earlier = moves.drop_last();
        lemma_run_work(root, start, earlier);
        lemma_run_keeps_rules(start, earlier);
        let walk = start.run(earlier);
        let nodes = shadow(root, start, earlier);
        match moves.last() {
            Move::Dispatch => {
                lemma_dispatch_wf(walk);
                let i = walk.dispatched as int;
                let unit = Unit { state: TaskState::Running, ..walk.units[i] };
                lemma_work_left_update(policy, walk.units, nodes, i, unit);
                lemma_ended_update(walk.units, i, unit);
            },
            Move::Complete { id, answer } => {
                lemma_complete_wf(walk, id, answer);
                let i = id as int;
                let unit = walk.units[i];
                let done = Unit {
                    state: if answer.ok() {
                        TaskState::Done
                    } else {
                        TaskState::Failed
                    },
                    ..unit
                };
                lemma_work_left_update(policy, walk.units, nodes, i, done);
                lemma_ended_update(walk.units, i, done);
                let settled = walk.units.update(i, done);
                match answer {
                    Answer::Listed { entries } => {
                        let children = nodes[i].offspring();
                        lemma_plan_work(policy, unit.depth, id, children);
                        lemma_work_left_append(
                            policy,
                            settled,
                            nodes,
                            policy.plan(unit.depth, id, entries),
                            chosen(policy, unit.depth, children),
                        );
                        lemma_ended_append(settled, policy.plan(unit.depth, id, entries));
                    },
                    // Nothing is spawned, and a listing that fails is of a
                    // directory that gives rise to nothing.
                    _ => {},
                }
            },
        }
    }
}

/// A walk over a tree comes to an end, and does no more work than the tree
/// calls for.
///
/// Take any tree, any rules and any number of slots from one up, and any
/// steps that are answered as the tree has it and that each change the
/// walk. Then the walk has spawned no more units of work than the root and
/// the entries that give rise to one, and the steps are no more than twice
/// that number: each one starts a unit or ends one, and every unit starts
/// and ends once. When the walk is finished, both bounds are met exactly.
pub proof fn lemma_walk_ends(root: Node, policy: Policy, capacity: nat, moves: Seq<Move>)
    requires
        capacity >= 1,
        faithful(root, Walk::start(policy, capacity, root.entry.path), moves),
        Walk::start(policy, capacity, root.entry.path).moved_by_all(moves),
    ensures
        Walk::start(policy, capacity, root.entry.path).run(moves).units.len() <= 1 + work_below(
            policy,
            root,
            0,
        ),
        moves.len() <= 2 * (1 + work_below(policy, root, 0)),
        Walk::start(policy, capacity, root.entry.path).run(moves).finished() ==> {
            &&& Walk::start(policy, capacity, root.entry.path).run(moves).units.len() == 1
                + work_below(policy, root, 0)
            &&& moves.len() == 2 * (1 + work_below(policy, root, 0))
        },
{
    let start = Walk::start(policy, capacity, root.entry.path);
    lemma_start_wf(policy, capacity, root.entry.path);
    lemma_run_work(root, start, moves);
    lemma_run_keeps_rules(start, moves);
    let walk = start.run(moves);
    let nodes = shadow(root, start, moves);
    lemma_ended_bounds(walk.units);
    if walk.finished() {
        lemma_no_work_left(policy, walk.units, nodes);
    }
}

} // verus!
