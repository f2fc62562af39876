//! What a walk visits: a walk whose listings come from a tree hands exactly
//! the selected files of the tree to the processor, each of them once,
//! whatever the order of the work.

use crate::utf8s::laws::{
    lemma_complete_wf, lemma_dispatch_wf, lemma_run_keeps_rules, lemma_start_wf,
};
use crate::utf8s::tree::{
    all_matching_below, lemma_depth_limit_bounds_selection, lemma_flat_selection,
    lemma_selection_matches, lemma_unlimited_selection, listing, matching_below, selected_among,
    selected_below, Node,
};
use crate::utf8s::walk::{Answer, Move, Policy, TaskKind, TaskState, Unit, Walk};
use vstd::multiset::Multiset;
use vstd::prelude::*;

verus! {

/// The files that have been handed to the processor: the paths of the
/// processing units that have started, each as often as it occurs.
pub open spec fn handed(units: Seq<Unit>) -> Multiset<Seq<char>>
    decreases units.len(),
{
    if units.len() == 0 {
        Multiset::empty()
    } else {
        let unit = units.last();
        let file = if unit.kind == TaskKind::Process && unit.state != TaskState::Waiting {
            Multiset::singleton(unit.path)
        } else {
            Multiset::empty()
        };
        handed(units.drop_last()).add(file)
    }
}

/// The children that give rise to a unit of work, in order: one for each
/// unit that the listing of their directory, at level `depth`, spawns.
pub open spec fn chosen(policy: Policy, depth: nat, children: Seq<Node>) -> Seq<Node>
    decreases children.len(),
{
    if children.len() == 0 {
        Seq::empty()
    } else {
        let before = chosen(policy, depth, children.drop_last());
        if policy.picks(depth, children.last().entry) {
            before.push(children.last())
        } else {
            before
        }
    }
}

/// The node that each unit of work stands for, after the steps `moves` of a
/// walk that started at `root`: the root for the first unit, and for each
/// unit that a listing spawned, the child it was spawned for.
pub open spec fn shadow(root: Node, start: Walk, moves: Seq<Move>) -> Seq<Node>
    decreases moves.len(),
{
    if moves.len() == 0 {
        seq![root]
    } else {
        let nodes = shadow(root, start, moves.drop_last());
        let walk = start.run(moves.drop_last());
        match moves.last() {
            Move::Complete { id, answer } => {
                if walk.rejection(id, answer) is None && answer is Listed {
                    nodes + chosen(
                        walk.policy,
                        walk.units[id as int].depth,
                        nodes[id as int].offspring(),
                    )
                } else {
                    nodes
                }
            },
            Move::Dispatch => nodes,
        }
    }
}

/// Whether the steps `moves` of a walk that started at `root` tell the
/// truth about the tree: whenever a listing is reported to have ended, it
/// ended as listing that directory of the tree does.
pub open spec fn faithful(root: Node, start: Walk, moves: Seq<Move>) -> bool
    decreases moves.len(),
{
    moves.len() == 0 || {
        let nodes = shadow(root, start, moves.drop_last());
        let walk = start.run(moves.drop_last());
        &&& faithful(root, start, moves.drop_last())
        &&& moves.last() matches Move::Complete { id, answer } ==> (walk.rejection(id, answer)
            is None && walk.units[id as int].kind == TaskKind::List ==> answer
            == nodes[id as int].answer())
    }
}

/// The files that a unit of work accounts for: its own file if it processes
/// one, and all that is to be found below its directory as long as the
/// listing has not ended.
spec fn owed(policy: Policy, unit: Unit, node: Node) -> Multiset<Seq<char>> {
    match unit.kind {
        TaskKind::Process => Multiset::singleton(unit.path),
        TaskKind::List => if unit.settled() {
            Multiset::empty()
        } else {
            selected_below(policy, node, unit.depth)
        },
    }
}

/// The files that the units account for together.
spec fn total_owed(policy: Policy, units: Seq<Unit>, nodes: Seq<Node>) -> Multiset<Seq<char>>
    decreases units.len(),
{
    if units.len() == 0 {
        Multiset::empty()
    } else {
        total_owed(policy, units.drop_last(), nodes.drop_last()).add(
            owed(policy, units.last(), nodes.last()),
        )
    }
}

/// Units put behind others add what they account for.
proof fn lemma_total_append(
    policy: Policy,
    units: Seq<Unit>,
    nodes: Seq<Node>,
    more_units: Seq<Unit>,
    more_nodes: Seq<Node>,
)
    requires
        units.len() == nodes.len(),
        more_units.len() == more_nodes.len(),
    ensures
        total_owed(policy, units + more_units, nodes + more_nodes) =~= total_owed(
            policy,
            units,
            nodes,
        ).add(total_owed(policy, more_units, more_nodes)),
    decreases more_units.len(),
{
    if more_units.len() > 0 {
        lemma_total_append(policy, units, nodes, more_units.drop_last(), more_nodes.drop_last());
        assert((units + more_units).drop_last() =~= units + more_units.drop_last());
        assert((nodes + more_nodes).drop_last() =~= nodes + more_nodes.drop_last());
    }
}

/// Replacing one unit changes the total by what that unit stops and starts
/// to account for.
proof fn lemma_total_update(
    policy: Policy,
    units: Seq<Unit>,
    nodes: Seq<Node>,
    i: int,
    unit: Unit,
)
    requires
        units.len() == nodes.len(),
        0 <= i < units.len(),
    ensures
        total_owed(policy, units.update(i, unit), nodes).add(owed(policy, units[i], nodes[i]))
            =~= total_owed(policy, units, nodes).add(owed(policy, unit, nodes[i])),
    decreases units.len(),
{
    let front = total_owed(policy, units.drop_last(), nodes.drop_last());
    if i == units.len() - 1 {
        assert(units.update(i, unit).drop_last() =~= units.drop_last());
    } else {
        lemma_total_update(policy, units.drop_last(), nodes.drop_last(), i, unit);
        assert(units.update(i, unit).drop_last() =~= units.drop_last().update(i, unit));
        // The last unit is not the one replaced; its share is added to
        // both sides.
        let last = owed(policy, units.last(), nodes.last());
        let share = owed(policy, unit, nodes[i]);
        assert(front.add(last).add(share) =~= front.add(share).add(last));
    }
}

/// The units that a listing spawns account, with the children they were
/// spawned for, for exactly the files that are to be found among those
/// children and below them.
proof fn lemma_plan_owes(policy: Policy, depth: nat, parent: nat, children: Seq<Node>)
    ensures
        policy.plan(depth, parent, listing(children)).len() == chosen(policy, depth, children).len(),
        total_owed(
            policy,
            policy.plan(depth, parent, listing(children)),
            chosen(policy, depth, children),
        ) =~= selected_among(policy, children, depth),
    decreases children.len(),
{
    if children.len() > 0 {
        let front = children.drop_last();
        lemma_plan_owes(policy, depth, parent, front);
        assert(listing(children).drop_last() =~= listing(front));
        let plan = policy.plan(depth, parent, listing(front));
        let nodes = chosen(policy, depth, front);
        match policy.spawns(depth, parent, children.last().entry) {
            Some(unit) => {
                assert(plan.push(unit).drop_last() =~= plan);
                assert(nodes.push(children.last()).drop_last() =~= nodes);
            },
            None => {},
        }
    }
}

/// What has been handed to the processor is part of what the units account
/// for, and all of it once every unit has ended.
proof fn lemma_handed_within_total(policy: Policy, units: Seq<Unit>, nodes: Seq<Node>)
    requires
        units.len() == nodes.len(),
    ensures
        handed(units).subset_of(total_owed(policy, units, nodes)),
        (forall|i: int| 0 <= i < units.len() ==> (#[trigger] units[i]).settled()) ==> handed(units)
            =~= total_owed(policy, units, nodes),
    decreases units.len(),
{
    if units.len() > 0 {
        lemma_handed_within_total(policy, units.drop_last(), nodes.drop_last());
        if forall|i: int| 0 <= i < units.len() ==> (#[trigger] units[i]).settled() {
            assert forall|i: int| 0 <= i < units.drop_last().len() implies (
            #[trigger] units.drop_last()[i]).settled() by {}
        }
    }
}

/// What holds of a walk after any steps that tell the truth about the
/// tree: every unit stands for a node, and together the units account for
/// exactly the files that the walk is to find.
proof fn lemma_run_accounts(root: Node, start: Walk, moves: Seq<Move>)
    requires
        start.wf(),
        start.units.len() == 1,
        start.units[0].kind == TaskKind::List,
        start.units[0].depth == 0,
        start.units[0].state == TaskState::Waiting,
        faithful(root, start, moves),
    ensures
        start.run(moves).wf(),
        shadow(root, start, moves).len() == start.run(moves).units.len(),
        total_owed(start.policy, start.run(moves).units, shadow(root, start, moves))
            =~= selected_below(start.policy, root, 0),
    decreases moves.len(),
{
    let policy = start.policy;
    if moves.len() == 0 {
        // The one unit lists the root and accounts for all that is to be
        // found below it.
        assert(total_owed(policy, start.units.drop_last(), seq![root].drop_last())
            =~= Multiset::empty());
    } else {
        let earlier = moves.drop_last();
        lemma_run_accounts(root, start, earlier);
        lemma_run_keeps_rules(start, earlier);
        let walk = start.run(earlier);
        let nodes = shadow(root, start, earlier);
        let before = total_owed(policy, walk.units, nodes);
        match moves.last() {
            Move::Dispatch => {
                lemma_dispatch_wf(walk);
                if walk.can_dispatch() {
                    // A unit that starts accounts for what it accounted for
                    // while it waited.
                    let i = walk.dispatched as int;
                    let unit = Unit { state: TaskState::Running, ..walk.units[i] };
                    lemma_total_update(policy, walk.units, nodes, i, unit);
                    let share = owed(policy, unit, nodes[i]);
                    let after = total_owed(policy, walk.units.update(i, unit), nodes);
                    assert forall|v: Seq<char>| after.count(v) == before.count(v) by {
                        assert(after.add(share).count(v) == before.add(share).count(v));
                    }
                }
            },
            Move::Complete { id, answer } => {
                lemma_complete_wf(walk, id, answer);
                if walk.rejection(id, answer) is None {
                    let i = id as int;
                    let unit = walk.units[i];
                    let ended = Unit {
                        state: if answer.ok() {
                            TaskState::Done
                        } else {
                            TaskState::Failed
                        },
                        ..unit
                    };
                    lemma_total_update(policy, walk.units, nodes, i, ended);
                    let settled = walk.units.update(i, ended);
                    let after = total_owed(policy, settled, nodes);
                    let old_share = owed(policy, unit, nodes[i]);
                    let new_share = owed(policy, ended, nodes[i]);
                    match answer {
                        Answer::Listed { entries } => {
                            // The listing has ended and accounts for
                            // nothing any more; the units it spawned
                            // account for what it accounted for.
                            let children = nodes[i].offspring();
                            lemma_plan_owes(policy, unit.depth, id, children);
                            lemma_total_append(
                                policy,
                                settled,
                                nodes,
                                policy.plan(unit.depth, id, entries),
                                chosen(policy, unit.depth, children),
                            );
                        },
                        _ => {
                            // A file accounts for itself whether it runs
                            // or has ended, and a listing that fails is of
                            // a directory that holds nothing to find.
                            assert forall|v: Seq<char>| after.count(v) == before.count(v) by {
                                assert(after.add(old_share).count(v) == before.add(
                                    new_share,
                                ).count(v));
                            }
                        },
                    }
                }
            },
        }
    }
}

/// Every file that the walk is to find is handed to the processor exactly
/// once, and nothing else ever is.
///
/// Take any tree, any rules and any number of slots from one up, and let a
/// walk run in any order, with every listing answered as the tree has it.
/// At every point, the files handed to the processor so far are among the
/// selected files of the tree, none more often than it occurs there. Once
/// the walk is finished they are exactly the selected files: each regular
/// file whose name the rule selects and that lies in a directory which the
/// walk could list and was allowed to enter, once for each time it occurs.
pub proof fn lemma_selected_files_visited_once(
    root: Node,
    policy: Policy,
    capacity: nat,
    moves: Seq<Move>,
)
    requires
        capacity >= 1,
        faithful(root, Walk::start(policy, capacity, root.entry.path), moves),
    ensures
        handed(Walk::start(policy, capacity, root.entry.path).run(moves).units).subset_of(
            selected_below(policy, root, 0),
        ),
        Walk::start(policy, capacity, root.entry.path).run(moves).finished() ==> handed(
            Walk::start(policy, capacity, root.entry.path).run(moves).units,
        ) == selected_below(policy, root, 0),
{
    let start = Walk::start(policy, capacity, root.entry.path);
    lemma_start_wf(policy, capacity, root.entry.path);
    lemma_run_accounts(root, start, moves);
    lemma_run_keeps_rules(start, moves);
    lemma_handed_within_total(policy, start.run(moves).units, shadow(root, start, moves));
}

/// A recursive walk without a depth limit visits every matching file of the
/// tree exactly once.
///
/// Take any tree and any number of slots from one up, and let a recursive
/// walk without a depth limit run in any order, with every listing answered
/// as the tree has it. Once it is finished, the files handed to the
/// processor are all files whose name the rule selects and that lie in a
/// directory that can be listed, however deep, each exactly as often as it
/// occurs in the tree.
pub proof fn lemma_unlimited_walk_visits_all(
    root: Node,
    policy: Policy,
    capacity: nat,
    moves: Seq<Move>,
)
    requires
        capacity >= 1,
        policy.recursive,
        policy.max_depth is None,
        faithful(root, Walk::start(policy, capacity, root.entry.path), moves),
        Walk::start(policy, capacity, root.entry.path).run(moves).finished(),
    ensures
        handed(Walk::start(policy, capacity, root.entry.path).run(moves).units)
            == all_matching_below(policy.rule, root),
{
    lemma_selected_files_visited_once(root, policy, capacity, moves);
    lemma_unlimited_selection(policy, root.offspring(), 0);
}

/// A walk never hands a file to the processor that the rule does not
/// select, nor any file more often than it occurs in the tree.
pub proof fn lemma_walk_visits_matching_files_only(
    root: Node,
    policy: Policy,
    capacity: nat,
    moves: Seq<Move>,
)
    requires
        capacity >= 1,
        faithful(root, Walk::start(policy, capacity, root.entry.path), moves),
    ensures
        handed(Walk::start(policy, capacity, root.entry.path).run(moves).units).subset_of(
            all_matching_below(policy.rule, root),
        ),
{
    lemma_selected_files_visited_once(root, policy, capacity, moves);
    lemma_selection_matches(policy, root.offspring(), 0);
}

/// Under a depth limit, no file more than that many levels below the root
/// is visited, and every matching file within the limit is.
///
/// At every point of a recursive walk with the limit `limit`, the files
/// handed to the processor are among the matching files that lie no more
/// than `limit` levels below the root; once the walk is finished they are
/// exactly those.
pub proof fn lemma_limited_walk_stays_within_depth(
    root: Node,
    policy: Policy,
    capacity: nat,
    moves: Seq<Move>,
    limit: nat,
)
    requires
        capacity >= 1,
        policy.recursive,
        policy.max_depth == Some(limit),
        limit <= usize::MAX,
        faithful(root, Walk::start(policy, capacity, root.entry.path), moves),
    ensures
        handed(Walk::start(policy, capacity, root.entry.path).run(moves).units).subset_of(
            matching_below(policy.rule, root, limit),
        ),
        Walk::start(policy, capacity, root.entry.path).run(moves).finished() ==> handed(
            Walk::start(policy, capacity, root.entry.path).run(moves).units,
        ) == matching_below(policy.rule, root, limit),
{
    lemma_selected_files_visited_once(root, policy, capacity, moves);
    lemma_depth_limit_bounds_selection(policy, root.offspring(), 0, limit);
}

/// Without recursion, only files directly inside the root are visited, and
/// every matching one of them is.
pub proof fn lemma_flat_walk_stays_in_root(
    root: Node,
    policy: Policy,
    capacity: nat,
    moves: Seq<Move>,
)
    requires
        capacity >= 1,
        !policy.recursive,
        faithful(root, Walk::start(policy, capacity, root.entry.path), moves),
    ensures
        handed(Walk::start(policy, capacity, root.entry.path).run(moves).units).subset_of(
            matching_below(policy.rule, root, 0),
        ),
        Walk::start(policy, capacity, root.entry.path).run(moves).finished() ==> handed(
            Walk::start(policy, capacity, root.entry.path).run(moves).units,
        ) == matching_below(policy.rule, root, 0),
{
    lemma_selected_files_visited_once(root, policy, capacity, moves);
    lemma_flat_selection(policy, root.offspring(), 0);
}

} // verus!
