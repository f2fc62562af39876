//! Directory trees, and the files that a walk is to find in them.
//!
//! A walk learns of a tree only through the listings it is given. This
//! module says what a tree is and which of its files a walk under given
//! rules is to hand to the processor.

use crate::cmd::Rule;
use crate::utf8s::entry::{Entry, EntryKind};
use crate::utf8s::walk::{next_depth, Answer, Policy};
use vstd::multiset::Multiset;
use vstd::prelude::*;

verus! {

/// A directory tree: an entry and, for a directory, what lies in it.
/// `children` is `None` for a directory that cannot be listed; for an entry
/// that is no directory it has no meaning.
pub struct Node {
    /// The path, the name and the kind of the node.
    pub entry: Entry,
    /// What lies in the directory, in the order in which it is listed.
    pub children: Option<Seq<Node>>,
}

/// The entries of the nodes, in order: what listing their directory gives.
pub open spec fn listing(children: Seq<Node>) -> Seq<Entry> {
    children.map_values(|n: Node| n.entry)
}

impl Node {
    /// How listing this directory ends: with its entries, or in failure if
    /// it cannot be listed.
    pub open spec fn answer(self) -> Answer {
        match self.children {
            Some(children) => Answer::Listed { entries: listing(children) },
            None => Answer::ListFailed,
        }
    }

    /// The nodes in this directory; none if it cannot be listed.
    pub open spec fn offspring(self) -> Seq<Node> {
        match self.children {
            Some(children) => children,
            None => Seq::empty(),
        }
    }
}

/// The files in and below the directory `dir` at level `depth` that a walk
/// under `policy` is to hand to the processor, each as often as it occurs.
/// A directory that cannot be listed holds none.
pub open spec fn selected_below(policy: Policy, dir: Node, depth: nat) -> Multiset<Seq<char>>
    decreases dir,
{
    match dir.children {
        Some(children) => selected_among(policy, children, depth),
        None => Multiset::empty(),
    }
}

/// The files among `children`, which lie in a directory at level `depth`,
/// and below them that a walk under `policy` is to hand to the processor: a
/// file whose name the rule selects, and what lies below a directory if the
/// walk descends from this level.
pub open spec fn selected_among(policy: Policy, children: Seq<Node>, depth: nat) -> Multiset<
    Seq<char>,
>
    decreases children,
{
    if children.len() == 0 {
        Multiset::empty()
    } else {
        let child = children.last();
        let found = if child.entry.kind == EntryKind::File && policy.selects(child.entry.name) {
            Multiset::singleton(child.entry.path)
        } else if child.entry.kind == EntryKind::Dir && policy.recurses_below(depth) {
            selected_below(policy, child, next_depth(depth))
        } else {
            Multiset::empty()
        };
        selected_among(policy, children.drop_last(), depth).add(found)
    }
}

/// The files in and below the directory `dir` whose name `rule` selects
/// and that lie no more than `levels` levels below it, each as often as it
/// occurs. A directory that cannot be listed holds none.
pub open spec fn matching_below(rule: Rule, dir: Node, levels: nat) -> Multiset<Seq<char>>
    decreases dir,
{
    match dir.children {
        Some(children) => matching_among(rule, children, levels),
        None => Multiset::empty(),
    }
}

/// The files among `children` whose name `rule` selects, and those that
/// lie up to `levels` levels below them.
pub open spec fn matching_among(rule: Rule, children: Seq<Node>, levels: nat) -> Multiset<
    Seq<char>,
>
    decreases children,
{
    if children.len() == 0 {
        Multiset::empty()
    } else {
        let child = children.last();
        let found = if child.entry.kind == EntryKind::File && rule.matches(child.entry.name) {
            Multiset::singleton(child.entry.path)
        } else if child.entry.kind == EntryKind::Dir && levels > 0 {
            matching_below(rule, child, (levels - 1) as nat)
        } else {
            Multiset::empty()
        };
        matching_among(rule, children.drop_last(), levels).add(found)
    }
}

/// All files in and below the directory `dir` whose name `rule` selects,
/// however deep they lie, each as often as it occurs.
pub open spec fn all_matching_below(rule: Rule, dir: Node) -> Multiset<Seq<char>>
    decreases dir,
{
    match dir.children {
        Some(children) => all_matching_among(rule, children),
        None => Multiset::empty(),
    }
}

/// All files among `children` and below them whose name `rule` selects.
pub open spec fn all_matching_among(rule: Rule, children: Seq<Node>) -> Multiset<Seq<char>>
    decreases children,
{
    if children.len() == 0 {
        Multiset::empty()
    } else {
        let child = children.last();
        let found = if child.entry.kind == EntryKind::File && rule.matches(child.entry.name) {
            Multiset::singleton(child.entry.path)
        } else if child.entry.kind == EntryKind::Dir {
            all_matching_below(rule, child)
        } else {
            Multiset::empty()
        };
        all_matching_among(rule, children.drop_last()).add(found)
    }
}

/// How many units of work the listing of the directory `dir` at level
/// `depth` gives rise to in all, directly and further down. None if it
/// cannot be listed.
pub open spec fn work_below(policy: Policy, dir: Node, depth: nat) -> nat
    decreases dir,
{
    match dir.children {
        Some(children) => work_among(policy, children, depth),
        None => 0,
    }
}

/// How many units of work the children of a directory at level `depth`
/// give rise to in all, once everything below them has been listed: one for
/// each selected file, and for each directory that is entered one and those
/// of its own children.
pub open spec fn work_among(policy: Policy, children: Seq<Node>, depth: nat) -> nat
    decreases children,
{
    if children.len() == 0 {
        0
    } else {
        let child = children.last();
        let here: nat = if child.entry.kind == EntryKind::File && policy.selects(
            child.entry.name,
        ) {
            1
        } else if child.entry.kind == EntryKind::Dir && policy.recurses_below(depth) {
            1 + work_below(policy, child, next_depth(depth))
        } else {
            0
        };
        work_among(policy, children.drop_last(), depth) + here
    }
}

/// Under a depth limit, the files that a walk is to find are the matching
/// files that lie within the limit, and no file below it.
pub proof fn lemma_depth_limit_bounds_selection(
    policy: Policy,
    children: Seq<Node>,
    depth: nat,
    limit: nat,
)
    requires
        policy.recursive,
        policy.max_depth == Some(limit),
        depth <= limit <= usize::MAX,
    ensures
        selected_among(policy, children, depth) == matching_among(
            policy.rule,
            children,
            (limit - depth) as nat,
        ),
    decreases children,
{
    if children.len() > 0 {
        lemma_depth_limit_bounds_selection(policy, children.drop_last(), depth, limit);
        let child = children.last();
        if child.entry.kind == EntryKind::Dir && depth < limit {
            match child.children {
                Some(below) => lemma_depth_limit_bounds_selection(policy, below, depth + 1, limit),
                None => {},
            }
            assert(selected_below(policy, child, next_depth(depth)) == matching_below(
                policy.rule,
                child,
                (limit - depth - 1) as nat,
            ));
        }
    }
}

/// Where the walk does not descend, be it that recursion is off or that
/// the limit is reached, the files that it is to find in a directory are
/// the matching files directly inside it.
pub proof fn lemma_flat_selection(policy: Policy, children: Seq<Node>, depth: nat)
    requires
        !policy.recurses_below(depth),
    ensures
        selected_among(policy, children, depth) == matching_among(policy.rule, children, 0),
    decreases children.len(),
{
    if children.len() > 0 {
        lemma_flat_selection(policy, children.drop_last(), depth);
    }
}

/// Without a depth limit, the files that a recursive walk is to find are
/// all matching files of the tree.
pub proof fn lemma_unlimited_selection(policy: Policy, children: Seq<Node>, depth: nat)
    requires
        policy.recursive,
        policy.max_depth is None,
    ensures
        selected_among(policy, children, depth) == all_matching_among(policy.rule, children),
    decreases children,
{
    if children.len() > 0 {
        lemma_unlimited_selection(policy, children.drop_last(), depth);
        let child = children.last();
        if child.entry.kind == EntryKind::Dir {
            match child.children {
                Some(below) => lemma_unlimited_selection(policy, below, next_depth(depth)),
                None => {},
            }
            assert(selected_below(policy, child, next_depth(depth)) == all_matching_below(
                policy.rule,
                child,
            ));
        }
    }
}

/// Whatever the rules, a walk is to find matching files of the tree only:
/// a file whose name the rule does not select is never among them, and no
/// file is among them more often than it occurs in the tree.
pub proof fn lemma_selection_matches(policy: Policy, children: Seq<Node>, depth: nat)
    ensures
        selected_among(policy, children, depth).subset_of(
            all_matching_among(policy.rule, children),
        ),
    decreases children,
{
    if children.len() > 0 {
        lemma_selection_matches(policy, children.drop_last(), depth);
        let child = children.last();
        if child.entry.kind == EntryKind::Dir {
            match child.children {
                Some(below) => lemma_selection_matches(policy, below, next_depth(depth)),
                None => {},
            }
            assert(selected_below(policy, child, next_depth(depth)).subset_of(
                all_matching_below(policy.rule, child),
            ));
        }
    }
}

/// A directory that cannot be listed costs the walk the files below it and
/// nothing else: what is to be found among its siblings is what would be
/// found if the directory were not there.
pub proof fn lemma_unreadable_directory_costs_its_own(
    policy: Policy,
    before: Seq<Node>,
    locked: Node,
    after: Seq<Node>,
    depth: nat,
)
    requires
        locked.entry.kind == EntryKind::Dir,
        locked.children is None,
    ensures
        selected_among(policy, before.push(locked) + after, depth) == selected_among(
            policy,
            before + after,
            depth,
        ),
    decreases after.len(),
{
    if after.len() == 0 {
        assert(before.push(locked).drop_last() =~= before);
        assert(selected_below(policy, locked, next_depth(depth)) == Multiset::<Seq<char>>::empty());
    } else {
        lemma_unreadable_directory_costs_its_own(policy, before, locked, after.drop_last(), depth);
        assert((before.push(locked) + after).drop_last() =~= before.push(locked)
            + after.drop_last());
        assert((before + after).drop_last() =~= before + after.drop_last());
    }
}

} // verus!
