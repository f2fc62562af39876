//! The traversal engine: which entries of a listing become work, when a unit
//! of work may start, and when the walk is over.
//!
//! The engine reads no directory and touches no file. It hands out units of
//! work, one per admission slot, and is told how each one ended; the caller
//! does the work in any order and as concurrently as it likes.

use crate::cmd::Expr;
use crate::utf8s::entry::{entries_view, DirEntry, EntryKind};
use crate::utf8s::laws::{
    lemma_complete_wf, lemma_dispatch_wf, lemma_running_bounds, lemma_start_wf,
};
use crate::utf8s::limiter::AdmissionLimiter;
use crate::utf8s::walk::{
    failed_children, under, Answer, Policy, StepError, TaskKind, TaskState, Unit, Walk, WalkStatus,
};
use vstd::prelude::*;

verus! {

/// One unit of work of a walk.
#[derive(Clone, Debug, PartialEq, Eq)]
pub struct Task {
    /// What the unit does.
    pub kind: TaskKind,
    /// The directory to list, or the file to process.
    pub path: String,
    /// For a directory, its level below the root, which is level 0; for a
    /// file, the level of the directory that holds it.
    pub depth: usize,
    /// The number of the unit whose listing spawned this one; `None` for
    /// the unit that lists the root.
    pub parent: Option<usize>,
    /// How far the unit has come.
    pub state: TaskState,
}

impl View for Task {
    type V = Unit;

    open spec fn view(&self) -> Unit {
        Unit {
            kind: self.kind,
            path: self.path@,
            depth: self.depth as nat,
            parent: match self.parent {
                Some(p) => Some(p as nat),
                None => None,
            },
            state: self.state,
        }
    }
}

/// The views of a list of tasks, one by one.
pub open spec fn tasks_view(tasks: Seq<Task>) -> Seq<Unit> {
    tasks.map_values(|t: Task| t@)
}

/// The depth limit as a mathematical value.
pub open spec fn limit_view(max_depth: Option<usize>) -> Option<nat> {
    match max_depth {
        Some(limit) => Some(limit as nat),
        None => None,
    }
}

/// The rules of a walk, and how many units of work it may run at a time.
#[derive(Debug)]
pub struct ScannerExec {
    recursive: bool,
    max_depth: Option<usize>,
    matcher: Expr,
    max_task: usize,
}

impl View for ScannerExec {
    type V = Policy;

    closed spec fn view(&self) -> Policy {
        Policy {
            recursive: self.recursive,
            max_depth: limit_view(self.max_depth),
            rule: self.matcher@,
        }
    }
}

impl ScannerExec {
    #[verifier::type_invariant]
    spec fn some_slot(self) -> bool {
        self.max_task >= 1
    }

    /// The number of units of work that may run at a time.
    pub closed spec fn capacity(&self) -> nat {
        self.max_task as nat
    }

    /// The rules of a walk that descends if `recursive`, no deeper than
    /// `max_depth`, selects files by `matcher` and runs at most `max_task`
    /// units of work at a time.
    pub fn new(recursive: bool, max_depth: Option<usize>, matcher: Expr, max_task: usize) -> (s:
        ScannerExec)
        requires
            max_task >= 1,
        ensures
            s@ == (Policy { recursive, max_depth: limit_view(max_depth), rule: matcher@ }),
            s.capacity() == max_task,
    {
        ScannerExec { recursive, max_depth, matcher, max_task }
    }

    /// The number of units of work that may run at a time; at least one.
    pub fn max_task(&self) -> (n: usize)
        ensures
            n == self.capacity(),
            n >= 1,
    {
        proof {
            use_type_invariant(self);
        }
        self.max_task
    }

    /// Whether the subdirectories of a directory at level `cur_depth` are
    /// entered. The root is level 0, so a limit of 0 keeps the walk in the
    /// root, and a limit of 1 lets it enter the root's subdirectories and
    /// none below them.
    pub fn should_recursive(&self, cur_depth: usize) -> (b: bool)
        ensures
            b == self@.recurses_below(cur_depth as nat),
    {
        self.recursive && match self.max_depth {
            Some(limit) => cur_depth < limit,
            None => true,
        }
    }

    /// Whether a file of this name is handed to the processor.
    pub fn match_file(&self, file_name: &str) -> (b: bool)
        ensures
            b == self@.selects(file_name@),
    {
        self.matcher.can_match(file_name)
    }

    /// The units of work that the listing of a directory at level `depth`
    /// gives rise to, in the order of the listing, when the listing was
    /// unit number `parent`.
    pub fn plan(&self, depth: usize, parent: usize, entries: &Vec<DirEntry>) -> (tasks: Vec<Task>)
        ensures
            tasks_view(tasks@) == self@.plan(depth as nat, parent as nat, entries_view(entries@)),
    {
        let mut tasks: Vec<Task> = Vec::new();
        let mut i: usize = 0;
        while i < entries.len()
            invariant
                i <= entries.len(),
                tasks_view(tasks@) == self@.plan(
                    depth as nat,
                    parent as nat,
                    entries_view(entries@).take(i as int),
                ),
            decreases entries.len() - i,
        {
            assert(entries_view(entries@).take(i + 1).drop_last() =~= entries_view(entries@).take(
                i as int,
            ));
            let entry = &entries[i];
            if entry.kind == EntryKind::File && self.match_file(entry.name.as_str()) {
                let task = Task {
                    kind: TaskKind::Process,
                    path: entry.path.clone(),
                    depth,
                    parent: Some(parent),
                    state: TaskState::Waiting,
                };
                tasks.push(task);
            } else if entry.kind == EntryKind::Dir && self.should_recursive(depth) {
                let task = Task {
                    kind: TaskKind::List,
                    path: entry.path.clone(),
                    depth: if depth < usize::MAX { depth + 1 } else { depth },
                    parent: Some(parent),
                    state: TaskState::Waiting,
                };
                tasks.push(task);
            }
            i = i + 1;
        }
        assert(entries_view(entries@).take(i as int) =~= entries_view(entries@));
        tasks
    }
}

/// How a unit of work ended, as told by whoever did the work.
#[derive(Clone, Debug, PartialEq, Eq)]
pub enum Outcome {
    /// The directory was read; these are its entries.
    Listed { entries: Vec<DirEntry> },
    /// The directory could not be opened or read.
    ListFailed,
    /// The processor returned success for the file.
    Processed,
    /// The processor returned an error for the file.
    ProcessFailed,
}

impl View for Outcome {
    type V = Answer;

    open spec fn view(&self) -> Answer {
        match self {
            Outcome::Listed { entries } => Answer::Listed { entries: entries_view(entries@) },
            Outcome::ListFailed => Answer::ListFailed,
            Outcome::Processed => Answer::Processed,
            Outcome::ProcessFailed => Answer::ProcessFailed,
        }
    }
}

/// One walk over a directory tree, from its first unit of work to its last.
///
/// The caller asks for units to start with [`Traversal::dispatch`], does
/// their work in any order, and reports each end with
/// [`Traversal::complete`]; the walk is over when [`Traversal::is_finished`]
/// says so.
#[derive(Debug)]
pub struct Traversal {
    scanner: ScannerExec,
    task_sema: AdmissionLimiter,
    tasks: Vec<Task>,
    dispatched: usize,
}

impl View for Traversal {
    type V = Walk;

    closed spec fn view(&self) -> Walk {
        Walk {
            policy: self.scanner@,
            capacity: self.task_sema.capacity(),
            held: self.task_sema.held(),
            units: tasks_view(self.tasks@),
            dispatched: self.dispatched as nat,
        }
    }
}

/// Starts a walk at the directory `path` under the rules `cfg`. Nothing has
/// run yet: the one unit of work, listing `path` at level 0, waits.
pub fn scan(path: String, cfg: ScannerExec) -> (walk: Traversal)
    ensures
        walk@ == Walk::start(cfg@, cfg.capacity(), path@),
        walk@.wf(),
{
    let task_sema = AdmissionLimiter::new(cfg.max_task());
    let ghost root = path@;
    let mut tasks: Vec<Task> = Vec::new();
    tasks.push(
        Task { kind: TaskKind::List, path, depth: 0, parent: None, state: TaskState::Waiting },
    );
    let walk = Traversal { scanner: cfg, task_sema, tasks, dispatched: 0 };
    proof {
        assert(walk@.units =~= Walk::start(cfg@, cfg.capacity(), root).units);
        lemma_start_wf(cfg@, cfg.capacity(), root);
    }
    walk
}

impl Traversal {
    /// Starts the unit of work that has waited longest, if a slot is free,
    /// and returns its number; `None` if nothing waits or every slot is
    /// held. The caller then does the work of that unit.
    pub fn dispatch(&mut self) -> (id: Option<usize>)
        requires
            old(self)@.wf(),
        ensures
            final(self)@ == old(self)@.dispatch(),
            final(self)@.wf(),
            id is Some <==> old(self)@.can_dispatch(),
            id matches Some(n) ==> n == old(self)@.dispatched,
    {
        proof {
            lemma_dispatch_wf(self@);
        }
        if self.dispatched < self.tasks.len() {
            if self.task_sema.try_acquire() {
                let id = self.dispatched;
                self.tasks[id].state = TaskState::Running;
                self.dispatched = id + 1;
                assert(self@.units =~= old(self)@.dispatch().units);
                return Some(id);
            }
        }
        None
    }

    /// Takes the report that unit `id` ended with `outcome`.
    ///
    /// The unit gives its slot back and is marked done or failed; its
    /// failure changes no other unit. The entries of a listing spawn their
    /// units of work, which wait behind all others. A report for a unit
    /// that does not exist, that is not running, or of the other kind is
    /// turned down, and the walk stays as it was.
    pub fn complete(&mut self, id: usize, outcome: Outcome) -> (r: Result<(), StepError>)
        requires
            old(self)@.wf(),
        ensures
            final(self)@ == old(self)@.complete(id as nat, outcome@),
            final(self)@.wf(),
            r == match old(self)@.rejection(id as nat, outcome@) {
                Some(e) => Err::<(), StepError>(e),
                None => Ok(()),
            },
    {
        proof {
            lemma_complete_wf(self@, id as nat, outcome@);
        }
        if id >= self.tasks.len() {
            return Err(StepError::UnknownTask);
        }
        if self.tasks[id].state != TaskState::Running {
            return Err(StepError::NotRunning);
        }
        let kind = self.tasks[id].kind;
        let depth = self.tasks[id].depth;
        let listed = match &outcome {
            Outcome::Listed { .. } | Outcome::ListFailed => true,
            Outcome::Processed | Outcome::ProcessFailed => false,
        };
        if listed != (kind == TaskKind::List) {
            return Err(StepError::WrongOutcome);
        }
        proof {
            lemma_running_bounds(self@.units);
        }
        let _ = self.task_sema.release();
        match outcome {
            Outcome::Listed { entries } => {
                self.tasks[id].state = TaskState::Done;
                let mut spawned = self.scanner.plan(depth, id, &entries);
                self.tasks.append(&mut spawned);
            },
            Outcome::Processed => {
                self.tasks[id].state = TaskState::Done;
            },
            Outcome::ListFailed | Outcome::ProcessFailed => {
                self.tasks[id].state = TaskState::Failed;
            },
        }
        assert(self@.units =~= old(self)@.complete(id as nat, outcome@).units);
        Ok(())
    }

    /// Whether every unit of work that was ever spawned has ended: nothing
    /// waits and nothing runs. Only then is the walk over.
    pub fn is_finished(&self) -> (b: bool)
        requires
            self@.wf(),
        ensures
            b == self@.finished(),
    {
        proof {
            lemma_running_bounds(self@.units);
        }
        self.dispatched == self.tasks.len() && self.task_sema.in_use() == 0
    }

    /// Where the walk stands. A walk whose root could not be listed has
    /// failed as a whole; any other walk that is over counts as completed,
    /// whatever failed below the root.
    pub fn status(&self) -> (s: WalkStatus)
        requires
            self@.wf(),
        ensures
            s == self@.status(),
    {
        if !self.is_finished() {
            WalkStatus::InProgress
        } else if self.tasks[0].state == TaskState::Failed {
            WalkStatus::RootUnreadable
        } else {
            WalkStatus::Completed
        }
    }

    /// Whether the traversal step of the directory that unit `id` lists is
    /// over: the listing and every unit of work that descends from it have
    /// ended. For a file it says whether the file's own unit has ended.
    /// `false` if there is no such unit.
    pub fn is_joined(&self, id: usize) -> (b: bool)
        ensures
            b == (id < self@.units.len() && self@.joined(id as nat)),
    {
        let n = self.tasks.len();
        if id >= n {
            return false;
        }
        let ghost units = self@.units;
        let mut below: Vec<bool> = Vec::new();
        let mut i: usize = 0;
        while i < n
            invariant
                n == self.tasks.len(),
                units == self@.units,
                id < n,
                i <= n,
                below.len() == i,
                forall|j: int| 0 <= j < i ==> #[trigger] below[j] == under(units, id as nat, j as nat),
                forall|j: int|
                    0 <= j < i && under(units, id as nat, j as nat) ==> (#[trigger] units[j]).settled(),
            decreases n - i,
        {
            let task = &self.tasks[i];
            let inside = if i == id {
                true
            } else {
                match task.parent {
                    Some(p) => p < i && below[p],
                    None => false,
                }
            };
            if inside && task.state != TaskState::Done && task.state != TaskState::Failed {
                assert(!units[i as int].settled());
                return false;
            }
            below.push(inside);
            i = i + 1;
        }
        true
    }

    /// The units of work that the listing `id` spawned and that have
    /// failed, by number and in the order of spawning: what the traversal
    /// step of that directory has to report. None of them fails the step.
    pub fn failed_children(&self, id: usize) -> (failed: Vec<usize>)
        ensures
            failed@.map_values(|i: usize| i as nat) == failed_children(self@.units, id as nat),
    {
        let ghost units = self@.units;
        let mut failed: Vec<usize> = Vec::new();
        let mut i: usize = 0;
        while i < self.tasks.len()
            invariant
                i <= self.tasks.len(),
                units == self@.units,
                failed@.map_values(|i: usize| i as nat) == failed_children(
                    units.take(i as int),
                    id as nat,
                ),
            decreases self.tasks.len() - i,
        {
            assert(units.take(i + 1).drop_last() =~= units.take(i as int));
            let task = &self.tasks[i];
            let hangs_on = match task.parent {
                Some(p) => p == id,
                None => false,
            };
            if hangs_on && task.state == TaskState::Failed {
                failed.push(i);
            }
            i = i + 1;
        }
        assert(units.take(i as int) =~= units);
        failed
    }

    /// How many units of work hold an admission slot now. Never more than
    /// there are slots.
    pub fn in_flight(&self) -> (n: usize)
        ensures
            n == self@.held,
            n <= self@.capacity,
    {
        self.task_sema.in_use()
    }

    /// How many admission slots there are.
    pub fn capacity(&self) -> (n: usize)
        ensures
            n == self@.capacity,
    {
        self.task_sema.slots()
    }

    /// How many units of work the walk has spawned so far.
    pub fn len(&self) -> (n: usize)
        ensures
            n == self@.units.len(),
    {
        self.tasks.len()
    }

    /// The unit of work with the number `id`, if there is one.
    pub fn task(&self, id: usize) -> (t: Option<&Task>)
        ensures
            match t {
                Some(task) => id < self@.units.len() && task@ == self@.units[id as int],
                None => id >= self@.units.len(),
            },
    {
        if id < self.tasks.len() {
            Some(&self.tasks[id])
        } else {
            None
        }
    }
}

} // verus!
