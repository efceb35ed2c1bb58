//! One refresh cycle: list the measurements, refresh each in a task of
//! its own with no more than a fixed number of tasks at work, and when
//! the last has ended register the files. The cycle says what it needs
//! next and goes on from what came back.

use crate::columnar::texts;
use crate::error::{SyncError, SyncOutcome};
use crate::json::Json;
use crate::layout::{sanitize, strip_quotes};
use crate::response::{listing, spec_listing, MetadataQuery};
use crate::scheduler::{Pause, ScheduledCycle};
use crate::tagset::{distinct, distinct_values, lemma_distinct};
use vstd::prelude::*;

verus! {

/// Where the task of a measurement stands.
#[derive(Clone, Copy, Debug, PartialEq, Eq, Structural)]
pub enum Slot {
    /// Not started yet.
    Waiting,
    /// At work.
    Running,
    /// Ended, with its outcome reported.
    Finished,
}

/// How the refresh of a measurement ended.
#[derive(Debug, PartialEq, Eq)]
pub struct MeasurementReport {
    pub measurement: String,
    pub outcome: SyncOutcome,
}

/// What a completed cycle reports: when it began, how each measurement
/// ended, in the order in which the tasks ended, and whether the files
/// were registered.
#[derive(Debug, PartialEq, Eq)]
pub struct CycleReport {
    pub started_at: u64,
    pub outcomes: Vec<MeasurementReport>,
    pub registration: Result<(), SyncError>,
}

/// A cycle at work, as the contracts see it.
pub struct CycleModel {
    /// The schedule, which the cycle holds until its end.
    pub scheduled: ScheduledCycle,
    /// When the cycle began.
    pub started_at: u64,
    /// The number of tasks that may be at work at once.
    pub limit: nat,
    /// The cleaned names of the measurements, each once.
    pub names: Seq<Seq<char>>,
    /// Where the task of each measurement stands.
    pub slots: Seq<Slot>,
    /// The number of tasks that were started.
    pub next: nat,
    /// The outcomes reported so far, each with its measurement.
    pub outcomes: Seq<(Seq<char>, SyncOutcome)>,
}

/// A report as the contracts see it.
pub open spec fn report_view(report: MeasurementReport) -> (Seq<char>, SyncOutcome) {
    (report.measurement@, report.outcome)
}

/// Reports as the contracts see them.
pub open spec fn reports_view(reports: Seq<MeasurementReport>) -> Seq<(Seq<char>, SyncOutcome)> {
    reports.map_values(|report: MeasurementReport| report_view(report))
}

/// The number of tasks at work.
pub open spec fn running(slots: Seq<Slot>) -> nat
    decreases slots.len(),
{
    if slots.len() == 0 {
        0
    } else {
        running(slots.drop_last()) + if slots.last() == Slot::Running {
            1nat
        } else {
            0nat
        }
    }
}

/// The names of a listing, each cleaned.
pub open spec fn cleaned_names(listed: Seq<Seq<char>>) -> Seq<Seq<char>> {
    listed.map_values(|name: Seq<char>| strip_quotes(name))
}

/// The names that a listing gives the cycle: each cleaned, none twice.
pub open spec fn cycle_names(listed: Seq<Seq<char>>) -> Seq<Seq<char>> {
    distinct(cleaned_names(listed))
}

/// The limit that a cycle works under: the one asked for, but at least 1.
pub open spec fn effective_limit(limit: nat) -> nat {
    if limit == 0 {
        1
    } else {
        limit
    }
}

impl CycleModel {
    /// A cycle over `names` of which no task was started.
    pub open spec fn fresh(
        scheduled: ScheduledCycle,
        started_at: u64,
        limit: nat,
        names: Seq<Seq<char>>,
    ) -> CycleModel {
        CycleModel {
            scheduled,
            started_at,
            limit: effective_limit(limit),
            names,
            slots: Seq::new(names.len(), |i: int| Slot::Waiting),
            next: 0,
            outcomes: Seq::empty(),
        }
    }

    /// What always holds of a cycle. The tasks are started in the order
    /// of the names; no more than the limit are at work; an outcome is
    /// reported for each ended task and for no other, once.
    pub open spec fn wf(self) -> bool {
        &&& self.limit >= 1
        &&& self.slots.len() == self.names.len()
        &&& self.next <= self.names.len()
        &&& forall|i: int|
            0 <= i < self.slots.len() ==> (#[trigger] self.slots[i] == Slot::Waiting <==> i
                >= self.next)
        &&& running(self.slots) <= self.limit
        &&& self.names.no_duplicates()
        &&& forall|k: int|
            0 <= k < self.outcomes.len() ==> self.ended((#[trigger] self.outcomes[k]).0)
        &&& forall|i: int|
            0 <= i < self.slots.len() && #[trigger] self.slots[i] == Slot::Finished
                ==> self.reported(self.names[i])
        &&& forall|k: int, l: int|
            0 <= k < l < self.outcomes.len() ==> (#[trigger] self.outcomes[k]).0 != (
            #[trigger] self.outcomes[l]).0
    }

    /// Whether the task of the measurement `name` has ended.
    pub open spec fn ended(self, name: Seq<char>) -> bool {
        exists|i: int|
            0 <= i < self.slots.len() && 0 <= i < self.names.len() && #[trigger] self.slots[i]
                == Slot::Finished && self.names[i] == name
    }

    /// Whether an outcome is reported for the measurement `name`.
    pub open spec fn reported(self, name: Seq<char>) -> bool {
        exists|k: int| 0 <= k < self.outcomes.len() && (#[trigger] self.outcomes[k]).0 == name
    }

    /// Whether a task can be started now: one is left to start, and
    /// fewer than the limit are at work.
    pub open spec fn can_spawn(self) -> bool {
        self.next < self.names.len() && running(self.slots) < self.limit
    }

    /// The cycle after the next task was started.
    pub open spec fn spawned(self) -> CycleModel {
        CycleModel {
            slots: self.slots.update(self.next as int, Slot::Running),
            next: self.next + 1,
            ..self
        }
    }

    /// Whether the task at `index` is at work.
    pub open spec fn at_work(self, index: int) -> bool {
        0 <= index < self.slots.len() && self.slots[index] == Slot::Running
    }

    /// The cycle after the task at `index` ended with `outcome`. Where
    /// no task is at work there, nothing changes.
    pub open spec fn finished(self, index: int, outcome: SyncOutcome) -> CycleModel {
        if self.at_work(index) {
            CycleModel {
                slots: self.slots.update(index, Slot::Finished),
                outcomes: self.outcomes.push((self.names[index], outcome)),
                ..self
            }
        } else {
            self
        }
    }

    /// Whether every task was started and has ended.
    pub open spec fn complete(self) -> bool {
        self.next == self.names.len() && running(self.slots) == 0
    }
}

/// Changing one slot changes the number of tasks at work by that slot
/// alone.
pub proof fn lemma_running_update(slots: Seq<Slot>, i: int, slot: Slot)
    requires
        0 <= i < slots.len(),
    ensures
        running(slots.update(i, slot)) + (if slots[i] == Slot::Running {
            1nat
        } else {
            0nat
        }) == running(slots) + (if slot == Slot::Running {
            1nat
        } else {
            0nat
        }),
    decreases slots.len(),
{
    let changed = slots.update(i, slot);
    if i == slots.len() - 1 {
        assert(changed.drop_last() =~= slots.drop_last());
    } else {
        assert(changed.drop_last() =~= slots.drop_last().update(i, slot));
        lemma_running_update(slots.drop_last(), i, slot);
    }
}

/// A task at work counts.
pub proof fn lemma_running_counts(slots: Seq<Slot>, i: int)
    requires
        0 <= i < slots.len(),
        slots[i] == Slot::Running,
    ensures
        running(slots) >= 1,
    decreases slots.len(),
{
    if i < slots.len() - 1 {
        lemma_running_counts(slots.drop_last(), i);
    }
}

/// Where no slot is at work, no task is at work.
pub proof fn lemma_running_none(slots: Seq<Slot>)
    requires
        forall|i: int| 0 <= i < slots.len() ==> #[trigger] slots[i] != Slot::Running,
    ensures
        running(slots) == 0,
    decreases slots.len(),
{
    if slots.len() > 0 {
        assert(slots[slots.len() - 1] != Slot::Running);
        assert forall|i: int| 0 <= i < slots.drop_last().len() implies #[trigger] slots.drop_last()[i]
            != Slot::Running by {
            assert(slots.drop_last()[i] == slots[i]);
        }
        lemma_running_none(slots.drop_last());
    }
}

/// A cycle of which no task was started is well formed.
pub proof fn lemma_fresh_wf(
    scheduled: ScheduledCycle,
    started_at: u64,
    limit: nat,
    names: Seq<Seq<char>>,
)
    requires
        names.no_duplicates(),
    ensures
        CycleModel::fresh(scheduled, started_at, limit, names).wf(),
{
    let model = CycleModel::fresh(scheduled, started_at, limit, names);
    lemma_running_none(model.slots);
}

/// Starting a task keeps a cycle well formed.
pub proof fn lemma_spawned_wf(model: CycleModel)
    requires
        model.wf(),
        model.can_spawn(),
    ensures
        model.spawned().wf(),
{
    let after = model.spawned();
    let at = model.next as int;
    assert(model.slots[at] == Slot::Waiting);
    lemma_running_update(model.slots, at, Slot::Running);
    assert forall|k: int| 0 <= k < after.outcomes.len() implies after.ended(
        (#[trigger] after.outcomes[k]).0,
    ) by {
        assert(model.ended(model.outcomes[k].0));
        let i = choose|i: int|
            0 <= i < model.slots.len() && 0 <= i < model.names.len() && #[trigger] model.slots[i]
                == Slot::Finished && model.names[i] == model.outcomes[k].0;
        assert(after.slots[i] == Slot::Finished);
    }
    assert forall|i: int|
        0 <= i < after.slots.len() && #[trigger] after.slots[i]
            == Slot::Finished implies after.reported(after.names[i]) by {
        assert(model.slots[i] == Slot::Finished);
        assert(model.reported(model.names[i]));
        let k = choose|k: int|
            0 <= k < model.outcomes.len() && (#[trigger] model.outcomes[k]).0 == model.names[i];
        assert(0 <= k < after.outcomes.len() && after.outcomes[k].0 == after.names[i]);
    }
    assert forall|i: int| 0 <= i < after.slots.len() implies (#[trigger] after.slots[i]
        == Slot::Waiting <==> i >= after.next) by {
        if i != at {
            assert(after.slots[i] == model.slots[i]);
        }
    }
}

/// The end of a task keeps a cycle well formed.
pub proof fn lemma_finished_wf(model: CycleModel, index: int, outcome: SyncOutcome)
    requires
        model.wf(),
    ensures
        model.finished(index, outcome).wf(),
{
    if model.at_work(index) {
        let after = model.finished(index, outcome);
        let name = model.names[index];
        lemma_running_update(model.slots, index, Slot::Finished);
        assert forall|i: int| 0 <= i < after.slots.len() implies (#[trigger] after.slots[i]
            == Slot::Waiting <==> i >= after.next) by {
            if i != index {
                assert(after.slots[i] == model.slots[i]);
            } else {
                assert(model.slots[i] != Slot::Waiting);
            }
        }
        assert forall|k: int| 0 <= k < after.outcomes.len() implies after.ended(
            (#[trigger] after.outcomes[k]).0,
        ) by {
            if k < model.outcomes.len() {
                assert(after.outcomes[k] == model.outcomes[k]);
                assert(model.ended(model.outcomes[k].0));
                let i = choose|i: int|
                    0 <= i < model.slots.len() && 0 <= i < model.names.len()
                        && #[trigger] model.slots[i] == Slot::Finished && model.names[i]
                        == model.outcomes[k].0;
                assert(after.slots[i] == Slot::Finished);
            } else {
                assert(after.slots[index] == Slot::Finished);
            }
        }
        assert forall|i: int|
            0 <= i < after.slots.len() && #[trigger] after.slots[i]
                == Slot::Finished implies after.reported(after.names[i]) by {
            assert(after.names[i] == model.names[i]);
            if i == index {
                let k = model.outcomes.len() as int;
                assert(after.outcomes[k] == (name, outcome));
                assert(0 <= k < after.outcomes.len() && after.outcomes[k].0 == after.names[i]);
            } else {
                assert(after.slots[i] == model.slots[i]);
                assert(model.slots[i] == Slot::Finished);
                assert(model.reported(model.names[i]));
                let k = choose|k: int|
                    0 <= k < model.outcomes.len() && (#[trigger] model.outcomes[k]).0
                        == model.names[i];
                assert(after.outcomes[k] == model.outcomes[k]);
                assert(0 <= k < after.outcomes.len() && after.outcomes[k].0 == after.names[i]);
            }
        }
        assert forall|k: int, l: int| 0 <= k < l < after.outcomes.len() implies (
        #[trigger] after.outcomes[k]).0 != (#[trigger] after.outcomes[l]).0 by {
            if l < model.outcomes.len() {
                assert(after.outcomes[k] == model.outcomes[k]);
                assert(after.outcomes[l] == model.outcomes[l]);
            } else {
                assert(after.outcomes[k] == model.outcomes[k]);
                assert(model.ended(model.outcomes[k].0));
                let i = choose|i: int|
                    0 <= i < model.slots.len() && 0 <= i < model.names.len()
                        && #[trigger] model.slots[i] == Slot::Finished && model.names[i]
                        == model.outcomes[k].0;
                assert(i != index);
                assert(model.names[i] != model.names[index]);
            }
        }
    }
}

/// A cycle over no measurement has nothing to start and nothing to wait
/// for: it needs the registration, and reports no outcome.
pub proof fn lemma_empty_cycle_registers(scheduled: ScheduledCycle, started_at: u64, limit: nat)
    ensures
        !CycleModel::fresh(scheduled, started_at, limit, Seq::empty()).can_spawn(),
        CycleModel::fresh(scheduled, started_at, limit, Seq::empty()).complete(),
        CycleModel::fresh(scheduled, started_at, limit, Seq::empty()).outcomes.len() == 0,
{
    let model = CycleModel::fresh(scheduled, started_at, limit, Seq::empty());
    lemma_running_none(model.slots);
}

/// No more tasks are at work than the limit allows.
pub proof fn lemma_bounded(model: CycleModel)
    requires
        model.wf(),
    ensures
        running(model.slots) <= model.limit,
        model.can_spawn() ==> running(model.spawned().slots) <= model.limit,
{
    if model.can_spawn() {
        lemma_spawned_wf(model);
    }
}

/// When a cycle is complete, the outcome of every measurement is
/// reported, of each once, and of nothing else.
pub proof fn lemma_complete_reports_each_once(model: CycleModel)
    requires
        model.wf(),
        model.complete(),
    ensures
        forall|i: int| 0 <= i < model.names.len() ==> model.reported(#[trigger] model.names[i]),
        forall|k: int|
            0 <= k < model.outcomes.len() ==> model.names.contains(
                (#[trigger] model.outcomes[k]).0,
            ),
        forall|k: int, l: int|
            0 <= k < l < model.outcomes.len() ==> (#[trigger] model.outcomes[k]).0 != (
            #[trigger] model.outcomes[l]).0,
{
    assert forall|i: int| 0 <= i < model.names.len() implies model.reported(
        #[trigger] model.names[i],
    ) by {
        assert(model.slots[i] != Slot::Waiting);
        if model.slots[i] == Slot::Running {
            lemma_running_counts(model.slots, i);
        }
        assert(model.slots[i] == Slot::Finished);
    }
    assert forall|k: int| 0 <= k < model.outcomes.len() implies model.names.contains(
        (#[trigger] model.outcomes[k]).0,
    ) by {
        assert(model.ended(model.outcomes[k].0));
    }
}

/// The end of one task leaves the others where they stood, whatever its
/// outcome was: what they were asked and what is reported of them stays,
/// and so does what may be started next.
pub proof fn lemma_tasks_are_isolated(
    model: CycleModel,
    index: int,
    outcome: SyncOutcome,
    other: SyncOutcome,
)
    requires
        model.wf(),
    ensures
        forall|j: int|
            0 <= j < model.slots.len() && j != index ==> #[trigger] model.finished(
                index,
                outcome,
            ).slots[j] == model.slots[j],
        model.finished(index, outcome).names == model.names,
        model.finished(index, outcome).next == model.next,
        model.finished(index, outcome).scheduled == model.scheduled,
        model.finished(index, outcome).outcomes.take(model.outcomes.len() as int)
            == model.outcomes,
        model.finished(index, outcome).slots == model.finished(index, other).slots,
        model.finished(index, outcome).can_spawn() == model.finished(index, other).can_spawn(),
{
    assert(model.finished(index, outcome).outcomes.take(model.outcomes.len() as int)
        =~= model.outcomes);
}

/// The right to report the end of one task. It comes with the order to
/// start the task and goes back with the task's outcome.
#[derive(Debug)]
pub struct Ticket {
    index: usize,
}

impl Ticket {
    /// The place of the task's measurement among the cycle's names.
    pub closed spec fn index(&self) -> int {
        self.index as int
    }
}

/// What a cycle needs next.
pub enum CycleStep {
    /// The listing failed: the cycle is over, nothing was written and
    /// nothing is to be registered. What follows is the pause.
    Failed(SyncError, Pause),
    /// A task started for this measurement; then `next` asked again.
    Spawn(String, Ticket, RunningCycle),
    /// The end of a task that is at work, told to `finished`.
    Wait(RunningCycle),
    /// The files registered, once, now that every task has ended.
    Register(PendingRegistration),
}

/// A cycle that waits for the list of measurements.
pub struct PendingListing {
    scheduled: ScheduledCycle,
    started_at: u64,
    limit: usize,
}

/// A cycle whose tasks are at work.
pub struct RunningCycle {
    scheduled: ScheduledCycle,
    started_at: u64,
    limit: usize,
    names: Vec<String>,
    slots: Vec<Slot>,
    next: usize,
    in_flight: usize,
    outcomes: Vec<MeasurementReport>,
}

/// A cycle that waits for the registration of its files.
pub struct PendingRegistration {
    scheduled: ScheduledCycle,
    started_at: u64,
    outcomes: Vec<MeasurementReport>,
}

/// Begins the cycle that the schedule has started, at the time
/// `started_at` and with at most `limit` tasks at work at once (one,
/// where `limit` is zero): asks for the list of measurements. The cycle
/// takes the schedule with it and gives it back at its end, as the pause.
pub fn begin(scheduled: ScheduledCycle, started_at: u64, limit: usize) -> (asked: (
    MetadataQuery,
    PendingListing,
))
    ensures
        asked.0 == MetadataQuery::Measurements,
        asked.1.scheduled() == scheduled,
        asked.1.started_at() == started_at,
        asked.1.limit() == limit,
{
    (MetadataQuery::Measurements, PendingListing { scheduled, started_at, limit })
}

/// Whether `step` is what a cycle in the state `model` needs next: a
/// task started while one is left and the limit allows it, else the end
/// of a task awaited while one is at work, else the files registered.
pub open spec fn continues(step: CycleStep, model: CycleModel) -> bool {
    if model.can_spawn() {
        &&& step matches CycleStep::Spawn(name, ticket, cycle)
        &&& name@ == model.names[model.next as int]
        &&& ticket.index() == model.next
        &&& cycle@ == model.spawned()
    } else if running(model.slots) > 0 {
        &&& step matches CycleStep::Wait(cycle)
        &&& cycle@ == model
    } else {
        &&& step matches CycleStep::Register(pending)
        &&& pending.scheduled() == model.scheduled
        &&& pending.started_at() == model.started_at
        &&& pending.outcomes() == model.outcomes
    }
}

impl PendingListing {
    /// The schedule that the cycle holds.
    pub closed spec fn scheduled(&self) -> ScheduledCycle {
        self.scheduled
    }

    /// When the cycle began.
    pub closed spec fn started_at(&self) -> u64 {
        self.started_at
    }

    /// The limit that was asked for.
    pub closed spec fn limit(&self) -> nat {
        self.limit as nat
    }

    /// Takes the list of measurements. A failure ends the cycle, and the
    /// pause follows. Else the names are cleaned, each is kept
    /// once, and the cycle goes on with the first task, or with the
    /// registration where the list is empty.
    pub fn listed(self, reply: Result<Vec<Json>, String>) -> (step: CycleStep)
        ensures
            match spec_listing(0, reply) {
                Err(error) => {
                    &&& step matches CycleStep::Failed(cause, pause)
                    &&& cause == error
                    &&& pause.follows(self.scheduled())
                },
                Ok(listed) => continues(
                    step,
                    CycleModel::fresh(
                        self.scheduled(),
                        self.started_at(),
                        self.limit(),
                        cycle_names(listed),
                    ),
                ),
            },
    {
        let listed = match listing(0, reply) {
            Ok(listed) => listed,
            Err(error) => { return CycleStep::Failed(error, self.scheduled.ended()); },
        };
        let mut cleaned: Vec<String> = Vec::new();
        let mut slots: Vec<Slot> = Vec::new();
        let mut i: usize = 0;
        assert(texts(cleaned@) =~= cleaned_names(texts(listed@).take(0)));
        while i < listed.len()
            invariant
                i <= listed.len(),
                texts(cleaned@) == cleaned_names(texts(listed@).take(i as int)),
            decreases listed.len() - i,
        {
            let ghost before = cleaned@;
            cleaned.push(sanitize(listed[i].as_str()));
            assert(texts(cleaned@) =~= texts(before).push(strip_quotes(listed@[i as int]@)));
            assert(cleaned_names(texts(listed@).take(i + 1)) =~= cleaned_names(
                texts(listed@).take(i as int),
            ).push(strip_quotes(listed@[i as int]@)));
            i += 1;
        }
        assert(texts(listed@).take(listed.len() as int) =~= texts(listed@));
        let names = distinct_values(&cleaned);
        let mut j: usize = 0;
        while j < names.len()
            invariant
                j <= names.len(),
                slots@ =~= Seq::new(j as nat, |i: int| Slot::Waiting),
            decreases names.len() - j,
        {
            slots.push(Slot::Waiting);
            j += 1;
        }
        let limit = if self.limit == 0 {
            1
        } else {
            self.limit
        };
        let outcomes: Vec<MeasurementReport> = Vec::new();
        proof {
            let fresh = CycleModel::fresh(
                self.scheduled,
                self.started_at,
                self.limit as nat,
                texts(names@),
            );
            lemma_distinct(texts(cleaned@));
            lemma_fresh_wf(self.scheduled, self.started_at, self.limit as nat, texts(names@));
            lemma_running_none(slots@);
            assert(reports_view(outcomes@) =~= Seq::empty());
            assert(slots@ =~= fresh.slots);
        }
        let cycle = RunningCycle {
            scheduled: self.scheduled,
            started_at: self.started_at,
            limit,
            names,
            slots,
            next: 0,
            in_flight: 0,
            outcomes,
        };
        cycle.next()
    }
}

impl View for RunningCycle {
    type V = CycleModel;

    closed spec fn view(&self) -> CycleModel {
        CycleModel {
            scheduled: self.scheduled,
            started_at: self.started_at,
            limit: self.limit as nat,
            names: texts(self.names@),
            slots: self.slots@,
            next: self.next as nat,
            outcomes: reports_view(self.outcomes@),
        }
    }
}

impl RunningCycle {
    #[verifier::type_invariant]
    closed spec fn valid(&self) -> bool {
        self@.wf() && self.in_flight == running(self.slots@)
    }

    /// Says what the cycle needs next: a task started while one is left
    /// and the limit allows it, else the end of a task awaited while one
    /// is at work, else the files registered.
    pub fn next(self) -> (step: CycleStep)
        ensures
            self@.wf(),
            continues(step, self@),
    {
        proof {
            use_type_invariant(&self);
        }
        if self.next < self.names.len() && self.in_flight < self.limit {
            proof {
                lemma_spawned_wf(self@);
                lemma_running_update(self.slots@, self.next as int, Slot::Running);
            }
            let at = self.next;
            let name = self.names[at].clone();
            let mut slots = self.slots;
            slots.set(at, Slot::Running);
            let cycle = RunningCycle {
                scheduled: self.scheduled,
                started_at: self.started_at,
                limit: self.limit,
                names: self.names,
                slots,
                next: at + 1,
                in_flight: self.in_flight + 1,
                outcomes: self.outcomes,
            };
            CycleStep::Spawn(name, Ticket { index: at }, cycle)
        } else if self.in_flight > 0 {
            CycleStep::Wait(self)
        } else {
            CycleStep::Register(
                PendingRegistration {
                    scheduled: self.scheduled,
                    started_at: self.started_at,
                    outcomes: self.outcomes,
                },
            )
        }
    }

    /// Takes the end of a task: its outcome is reported and its place is
    /// free for the next task. A ticket for which no task is at work
    /// changes nothing.
    pub fn finished(self, ticket: Ticket, outcome: SyncOutcome) -> (cycle: RunningCycle)
        ensures
            self@.wf(),
            cycle@ == self@.finished(ticket.index(), outcome),
            cycle@.wf(),
    {
        proof {
            use_type_invariant(&self);
            lemma_finished_wf(self@, ticket.index(), outcome);
        }
        let index = ticket.index;
        if index < self.slots.len() && self.slots[index] == Slot::Running {
            proof {
                lemma_running_update(self.slots@, index as int, Slot::Finished);
            }
            let measurement = self.names[index].clone();
            let mut slots = self.slots;
            slots.set(index, Slot::Finished);
            let mut outcomes = self.outcomes;
            let ghost before = outcomes@;
            outcomes.push(MeasurementReport { measurement, outcome });
            assert(reports_view(outcomes@) =~= reports_view(before).push(
                (self@.names[index as int], outcome),
            ));
            RunningCycle {
                scheduled: self.scheduled,
                started_at: self.started_at,
                limit: self.limit,
                names: self.names,
                slots,
                next: self.next,
                in_flight: self.in_flight - 1,
                outcomes,
            }
        } else {
            self
        }
    }
}

impl PendingRegistration {
    /// The schedule that the cycle holds.
    pub closed spec fn scheduled(&self) -> ScheduledCycle {
        self.scheduled
    }

    /// When the cycle began.
    pub closed spec fn started_at(&self) -> u64 {
        self.started_at
    }

    /// The outcomes of the cycle's tasks, each with its measurement.
    pub closed spec fn outcomes(&self) -> Seq<(Seq<char>, SyncOutcome)> {
        reports_view(self.outcomes@)
    }

    /// Takes the end of the registration and ends the cycle: gives its
    /// report, and the pause that follows. A registration that failed is
    /// reported; the files stay as written.
    pub fn registered(self, registration: Result<(), SyncError>) -> (end: (CycleReport, Pause))
        ensures
            end.0.started_at == self.started_at(),
            reports_view(end.0.outcomes@) == self.outcomes(),
            end.0.registration == registration,
            end.1.follows(self.scheduled()),
    {
        let report =
            CycleReport { started_at: self.started_at, outcomes: self.outcomes, registration };
        (report, self.scheduled.ended())
    }
}

} // verus!
