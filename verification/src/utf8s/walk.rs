//! A walk as a mathematical value: its units of work, the steps that change
//! it, and what holds of it at every moment.

use crate::cmd::Rule;
use crate::utf8s::entry::{Entry, EntryKind};
use vstd::prelude::*;

verus! {

/// What a unit of work does.
#[derive(Clone, Copy, Debug, PartialEq, Eq, Structural)]
pub enum TaskKind {
    /// List the children of one directory.
    List,
    /// Hand one file to the processor.
    Process,
}

/// How far a unit of work has come.
#[derive(Clone, Copy, Debug, PartialEq, Eq, Structural)]
pub enum TaskState {
    /// Spawned, and waiting for an admission slot.
    Waiting,
    /// Holding an admission slot.
    Running,
    /// Ended well; its slot is free again.
    Done,
    /// Ended in failure; its slot is free again.
    Failed,
}

/// A unit of work as a mathematical value.
pub struct Unit {
    /// What the unit does.
    pub kind: TaskKind,
    /// The directory to list, or the file to process.
    pub path: Seq<char>,
    /// For a directory, its level below the root, which is level 0; for a
    /// file, the level of the directory that holds it.
    pub depth: nat,
    /// The number of the unit whose listing spawned this one; `None` for
    /// the unit that lists the root.
    pub parent: Option<nat>,
    /// How far the unit has come.
    pub state: TaskState,
}

impl Unit {
    /// Whether the unit has ended, well or not.
    pub open spec fn settled(self) -> bool {
        self.state == TaskState::Done || self.state == TaskState::Failed
    }
}

/// The level after `depth`. Levels are counted in a machine word and stay
/// at its largest value once they reach it.
pub open spec fn next_depth(depth: nat) -> nat {
    if depth < usize::MAX {
        depth + 1
    } else {
        depth
    }
}

/// The rules of a walk as a mathematical value: whether and how deep it
/// descends, and which files it selects.
pub struct Policy {
    /// Whether subdirectories are entered.
    pub recursive: bool,
    /// The deepest level that is entered; `None` sets no limit.
    pub max_depth: Option<nat>,
    /// The rule that selects files.
    pub rule: Rule,
}

impl Policy {
    /// Whether the subdirectories of a directory at level `depth` are
    /// entered: recursion is on, and the next level is within the limit.
    pub open spec fn recurses_below(self, depth: nat) -> bool {
        self.recursive && match self.max_depth {
            Some(limit) => depth + 1 <= limit,
            None => true,
        }
    }

    /// Whether a file of this name is handed to the processor.
    pub open spec fn selects(self, name: Seq<char>) -> bool {
        self.rule.matches(name)
    }

    /// Whether a unit at level `depth` can come up in a walk at all.
    pub open spec fn allows_depth(self, depth: nat) -> bool {
        depth == 0 || (self.recursive && match self.max_depth {
            Some(limit) => depth <= limit,
            None => true,
        })
    }

    /// Whether an entry of a directory at level `depth` gives rise to a
    /// unit of work: a file does if the rule selects its name, a directory
    /// if the walk descends from this level, and nothing else does.
    pub open spec fn picks(self, depth: nat, entry: Entry) -> bool {
        ||| entry.kind == EntryKind::File && self.selects(entry.name)
        ||| entry.kind == EntryKind::Dir && self.recurses_below(depth)
    }

    /// The unit of work that an entry of a directory at level `depth`
    /// gives rise to, if any, when the listing was unit number `parent`:
    /// a selected file is processed, a directory is listed where the walk
    /// descends, everything else is passed over.
    pub open spec fn spawns(self, depth: nat, parent: nat, entry: Entry) -> Option<Unit> {
        if entry.kind == EntryKind::File && self.selects(entry.name) {
            Some(
                Unit {
                    kind: TaskKind::Process,
                    path: entry.path,
                    depth: depth,
                    parent: Some(parent),
                    state: TaskState::Waiting,
                },
            )
        } else if entry.kind == EntryKind::Dir && self.recurses_below(depth) {
            Some(
                Unit {
                    kind: TaskKind::List,
                    path: entry.path,
                    depth: next_depth(depth),
                    parent: Some(parent),
                    state: TaskState::Waiting,
                },
            )
        } else {
            None
        }
    }

    /// The units of work that the listing of a directory at level `depth`
    /// gives rise to, in the order of the listing, when the listing was
    /// unit number `parent`.
    pub open spec fn plan(self, depth: nat, parent: nat, entries: Seq<Entry>) -> Seq<Unit>
        decreases entries.len(),
    {
        if entries.len() == 0 {
            Seq::empty()
        } else {
            let before = self.plan(depth, parent, entries.drop_last());
            match self.spawns(depth, parent, entries.last()) {
                Some(unit) => before.push(unit),
                None => before,
            }
        }
    }
}

/// The end of a unit of work as a mathematical value.
pub enum Answer {
    /// The directory was read; these are its entries.
    Listed { entries: Seq<Entry> },
    /// The directory could not be opened or read.
    ListFailed,
    /// The processor returned success for the file.
    Processed,
    /// The processor returned an error for the file.
    ProcessFailed,
}

impl Answer {
    /// The kind of unit that can end this way.
    pub open spec fn kind(self) -> TaskKind {
        match self {
            Answer::Listed { .. } | Answer::ListFailed => TaskKind::List,
            Answer::Processed | Answer::ProcessFailed => TaskKind::Process,
        }
    }

    /// Whether the unit ended well.
    pub open spec fn ok(self) -> bool {
        self is Listed || self is Processed
    }
}

/// Why the engine turns a report down. The walk is then left as it was.
#[derive(Clone, Copy, Debug, PartialEq, Eq, Structural)]
pub enum StepError {
    /// No unit of work has this number.
    UnknownTask,
    /// The unit holds no admission slot: it has not started, or it has
    /// ended already.
    NotRunning,
    /// A listing is reported for a file, or a processing result for a
    /// directory.
    WrongOutcome,
}

/// Where a walk stands.
#[derive(Clone, Copy, Debug, PartialEq, Eq, Structural)]
pub enum WalkStatus {
    /// Some unit of work has not ended yet.
    InProgress,
    /// Every unit of work has ended. Failures below the root do not change
    /// this: the walk is complete even if no file could be processed.
    Completed,
    /// The root directory could not be listed, so nothing was visited.
    RootUnreadable,
}

/// Whether unit `i` is unit `top` or descends from it: the unit itself, the
/// units that its listing spawned, those that their listings spawned, and
/// so on.
pub open spec fn under(units: Seq<Unit>, top: nat, i: nat) -> bool
    decreases i,
{
    i == top || (i < units.len() && match units[i as int].parent {
        Some(p) => p < i && under(units, top, p),
        None => false,
    })
}

/// The numbers of the units that the listing `parent` spawned and that have
/// failed, in the order of spawning: the failures that the traversal step
/// of that directory has to report, none of which fails the step itself.
pub open spec fn failed_children(units: Seq<Unit>, parent: nat) -> Seq<nat>
    decreases units.len(),
{
    if units.len() == 0 {
        Seq::empty()
    } else {
        let before = failed_children(units.drop_last(), parent);
        let last = units.last();
        if last.parent == Some(parent) && last.state == TaskState::Failed {
            before.push((units.len() - 1) as nat)
        } else {
            before
        }
    }
}

/// One if the unit holds an admission slot, zero if not.
pub open spec fn holds_slot(unit: Unit) -> nat {
    if unit.state == TaskState::Running {
        1
    } else {
        0
    }
}

/// How many of the units hold an admission slot.
pub open spec fn running(units: Seq<Unit>) -> nat
    decreases units.len(),
{
    if units.len() == 0 {
        0
    } else {
        running(units.drop_last()) + holds_slot(units.last())
    }
}

/// A walk as a mathematical value: its rules, its admission slots, and every
/// unit of work it has spawned so far, in the order of spawning. Units start
/// in that order: the first `dispatched` of them have started.
pub struct Walk {
    /// The rules of the walk.
    pub policy: Policy,
    /// The number of admission slots.
    pub capacity: nat,
    /// The number of admission slots that are held.
    pub held: nat,
    /// Every unit of work spawned so far, in the order of spawning.
    pub units: Seq<Unit>,
    /// How many units have started.
    pub dispatched: nat,
}

impl Walk {
    /// The walk before anything has run: its only unit lists the root.
    pub open spec fn start(policy: Policy, capacity: nat, root: Seq<char>) -> Walk {
        Walk {
            policy,
            capacity,
            held: 0,
            units: seq![
                Unit {
                    kind: TaskKind::List,
                    path: root,
                    depth: 0,
                    parent: None,
                    state: TaskState::Waiting,
                },
            ],
            dispatched: 0,
        }
    }

    /// Whether a unit can start now: one is waiting and a slot is free.
    pub open spec fn can_dispatch(self) -> bool {
        self.dispatched < self.units.len() && self.held < self.capacity
    }

    /// The walk after the longest-waiting unit has taken a slot; the same
    /// walk if none can start.
    pub open spec fn dispatch(self) -> Walk {
        if self.can_dispatch() {
            let unit = self.units[self.dispatched as int];
            Walk {
                held: self.held + 1,
                units: self.units.update(
                    self.dispatched as int,
                    Unit { state: TaskState::Running, ..unit },
                ),
                dispatched: self.dispatched + 1,
                ..self
            }
        } else {
            self
        }
    }

    /// Why the report that unit `id` ended with `answer` is turned down, if
    /// it is.
    pub open spec fn rejection(self, id: nat, answer: Answer) -> Option<StepError> {
        if id >= self.units.len() {
            Some(StepError::UnknownTask)
        } else if self.units[id as int].state != TaskState::Running {
            Some(StepError::NotRunning)
        } else if self.units[id as int].kind != answer.kind() {
            Some(StepError::WrongOutcome)
        } else {
            None
        }
    }

    /// The walk after unit `id` has ended with `answer`: the unit gives its
    /// slot back and is marked done or failed, and the entries of a listing
    /// spawn their units behind all others. No other unit changes. A report
    /// that is turned down changes nothing.
    pub open spec fn complete(self, id: nat, answer: Answer) -> Walk {
        if self.rejection(id, answer) is None {
            let unit = self.units[id as int];
            let ended = Unit {
                state: if answer.ok() {
                    TaskState::Done
                } else {
                    TaskState::Failed
                },
                ..unit
            };
            let spawned = match answer {
                Answer::Listed { entries } => self.policy.plan(unit.depth, id, entries),
                _ => Seq::empty(),
            };
            Walk {
                held: (self.held - 1) as nat,
                units: self.units.update(id as int, ended) + spawned,
                ..self
            }
        } else {
            self
        }
    }

    /// Whether unit `i` hangs on its parent as it should: the parent came
    /// earlier, is a listing that ended well, and lies at the level of a
    /// file it spawned and one level above a directory it spawned.
    pub open spec fn linked(self, i: int) -> bool {
        let unit = self.units[i];
        &&& unit.parent matches Some(p) && p < i && {
            let above = self.units[p as int];
            &&& above.kind == TaskKind::List
            &&& above.state == TaskState::Done
            &&& unit.depth == if unit.kind == TaskKind::List {
                next_depth(above.depth)
            } else {
                above.depth
            }
        }
    }

    /// Whether the traversal step of the directory that unit `top` lists is
    /// over: the unit itself and every unit that descends from it, however
    /// far down, have ended.
    pub open spec fn joined(self, top: nat) -> bool {
        forall|i: int|
            0 <= i < self.units.len() && under(self.units, top, i as nat) ==> (
            #[trigger] self.units[i]).settled()
    }

    /// Whether every unit that was ever spawned has ended.
    pub open spec fn finished(self) -> bool {
        forall|i: int| 0 <= i < self.units.len() ==> (#[trigger] self.units[i]).settled()
    }

    /// Where the walk stands.
    pub open spec fn status(self) -> WalkStatus {
        if !self.finished() {
            WalkStatus::InProgress
        } else if self.units[0].state == TaskState::Failed {
            WalkStatus::RootUnreadable
        } else {
            WalkStatus::Completed
        }
    }

    /// What holds of a walk at every moment.
    ///
    /// There is at least one slot, and no more slots are held than there
    /// are: the slots held are exactly the running units. The first unit
    /// lists the root, and every other unit was spawned by a listing that
    /// ended well. The units that have started are the first `dispatched`
    /// ones. No unit lies deeper than the rules allow.
    pub open spec fn wf(self) -> bool {
        &&& self.capacity >= 1
        &&& self.held <= self.capacity
        &&& self.held == running(self.units)
        &&& self.units.len() >= 1
        &&& self.units[0].kind == TaskKind::List
        &&& self.units[0].depth == 0
        &&& self.units[0].parent is None
        &&& forall|i: int| 0 < i < self.units.len() ==> #[trigger] self.linked(i)
        &&& self.dispatched <= self.units.len()
        &&& forall|i: int|
            0 <= i < self.units.len() ==> ((i < self.dispatched) <==> (#[trigger] self.units[i]).state
                != TaskState::Waiting)
        &&& forall|i: int|
            0 <= i < self.units.len() ==> self.policy.allows_depth((#[trigger] self.units[i]).depth)
    }
}

/// One step of a walk.
pub enum Move {
    /// The longest-waiting unit takes a slot, if it can.
    Dispatch,
    /// Unit `id` is reported to have ended with `answer`.
    Complete { id: nat, answer: Answer },
}

impl Walk {
    /// The walk after one step.
    pub open spec fn step(self, m: Move) -> Walk {
        match m {
            Move::Dispatch => self.dispatch(),
            Move::Complete { id, answer } => self.complete(id, answer),
        }
    }

    /// The walk after the steps `moves`, taken in order.
    pub open spec fn run(self, moves: Seq<Move>) -> Walk
        decreases moves.len(),
    {
        if moves.len() == 0 {
            self
        } else {
            self.run(moves.drop_last()).step(moves.last())
        }
    }
}

} // verus!
