//! The admission gate of the transfer engine, and the tally of a run.
//!
//! The engine holds the descriptors of one batch and decides which transfer
//! may start: never more than the budget at once, and never two that write
//! the same destination file. It does not run the transfers; whoever drives
//! it starts what [`TransferEngine::dispatch`] hands out and reports each end
//! with [`TransferEngine::complete`].

use crate::download::{last_segment, LargeFileInformation};
use crate::transfer::TransferStatus;
use vstd::prelude::*;
use vstd::string::*;

verus! {

/// Where one descriptor of the batch stands.
#[derive(Clone, Copy, Debug, PartialEq, Eq, Structural)]
pub enum Slot {
    /// Not started yet.
    Waiting,
    /// Started; its transfer holds one of the engine's places.
    Active,
    /// Over, with the status its transfer ended in.
    Done(TransferStatus),
}

/// How many of `slots` are active.
pub open spec fn active_count(slots: Seq<Slot>) -> nat
    decreases slots.len(),
{
    if slots.len() == 0 {
        0
    } else {
        active_count(slots.drop_last()) + if slots.last() is Active {
            1nat
        } else {
            0nat
        }
    }
}

/// The engine as a mathematical value.
pub struct EngineModel {
    /// How many transfers may run at once.
    pub limit: nat,
    /// The destination file name of each descriptor.
    pub names: Seq<Seq<char>>,
    /// Where each descriptor stands.
    pub slots: Seq<Slot>,
    /// Whether the run was called off.
    pub cancelled: bool,
}

impl EngineModel {
    /// A batch of which nothing has started.
    pub open spec fn initial(limit: nat, names: Seq<Seq<char>>) -> EngineModel {
        EngineModel {
            limit,
            names,
            slots: Seq::new(names.len(), |i: int| Slot::Waiting),
            cancelled: false,
        }
    }

    /// How many transfers hold a place.
    pub open spec fn active(self) -> nat {
        active_count(self.slots)
    }

    /// Whether an active transfer writes the file `name`.
    pub open spec fn busy(self, name: Seq<char>) -> bool {
        exists|j: int| 0 <= j < self.slots.len() && self.slots[j] is Active && self.names[j] == name
    }

    /// What every engine satisfies: no more transfers are active than the
    /// limit allows, no two active transfers write the same file, and what
    /// is over has ended.
    pub open spec fn wf(self) -> bool {
        &&& self.names.len() == self.slots.len()
        &&& self.active() <= self.limit
        &&& forall|i: int, j: int|
            0 <= i < j < self.slots.len() && self.slots[i] is Active && self.slots[j] is Active
                ==> self.names[i] != self.names[j]
        &&& forall|i: int|
            0 <= i < self.slots.len() ==> (#[trigger] self.slots[i] matches Slot::Done(status)
                ==> status.terminal())
    }

    /// Whether descriptor `i` could start if a place were free: it waits,
    /// and no active transfer writes its file.
    pub open spec fn startable(self, i: int) -> bool {
        &&& 0 <= i < self.slots.len()
        &&& self.slots[i] is Waiting
        &&& !self.busy(self.names[i])
    }

    /// The least startable descriptor from `from` on, or the size of the
    /// batch when there is none.
    pub open spec fn first_startable(self, from: int) -> int
        decreases self.slots.len() - from,
    {
        if from < 0 || from >= self.slots.len() {
            self.slots.len() as int
        } else if self.startable(from) {
            from
        } else {
            self.first_startable(from + 1)
        }
    }

    /// The descriptor to start next: the first startable one, while the run
    /// is not called off and a place is free.
    pub open spec fn next(self) -> Option<int> {
        let i = self.first_startable(0);
        if !self.cancelled && self.active() < self.limit && i < self.slots.len() {
            Some(i)
        } else {
            None
        }
    }

    /// The engine after a dispatch: the next descriptor, if there is one,
    /// becomes active.
    pub open spec fn dispatch(self) -> EngineModel {
        match self.next() {
            Some(i) => EngineModel { slots: self.slots.update(i, Slot::Active), ..self },
            None => self,
        }
    }

    /// Whether the end of descriptor `i` with `status` can be recorded: `i`
    /// is active and `status` is an end.
    pub open spec fn completes(self, i: int, status: TransferStatus) -> bool {
        &&& 0 <= i < self.slots.len()
        &&& self.slots[i] is Active
        &&& status.terminal()
    }

    /// The engine after descriptor `i` has ended with `status`: its place is
    /// free, and nothing else has changed.
    pub open spec fn complete(self, i: int, status: TransferStatus) -> EngineModel {
        if self.completes(i, status) {
            EngineModel { slots: self.slots.update(i, Slot::Done(status)), ..self }
        } else {
            self
        }
    }

    /// The engine after the run was called off: nothing is started any
    /// more, and what was waiting is over, cancelled.
    pub open spec fn cancel(self) -> EngineModel {
        EngineModel {
            slots: Seq::new(
                self.slots.len(),
                |i: int|
                    if self.slots[i] is Waiting {
                        Slot::Done(TransferStatus::Cancelled)
                    } else {
                        self.slots[i]
                    },
            ),
            cancelled: true,
            ..self
        }
    }

    /// Whether every descriptor is over.
    pub open spec fn finished(self) -> bool {
        forall|i: int| 0 <= i < self.slots.len() ==> #[trigger] self.slots[i] is Done
    }
}

/// `first_startable` is the least startable descriptor at or after `from`.
pub proof fn lemma_first_startable(model: EngineModel, from: int)
    requires
        0 <= from <= model.slots.len(),
    ensures
        from <= model.first_startable(from) <= model.slots.len(),
        model.first_startable(from) < model.slots.len() ==> model.startable(
            model.first_startable(from),
        ),
        forall|i: int| from <= i < model.first_startable(from) ==> !model.startable(i),
    decreases model.slots.len() - from,
{
    if from < model.slots.len() && !model.startable(from) {
        lemma_first_startable(model, from + 1);
    }
}

/// Changing one slot changes the count of active slots by that slot alone.
pub proof fn lemma_active_count_update(slots: Seq<Slot>, i: int, slot: Slot)
    requires
        0 <= i < slots.len(),
    ensures
        active_count(slots.update(i, slot)) + (if slots[i] is Active {
            1nat
        } else {
            0nat
        }) == active_count(slots) + (if slot is Active {
            1nat
        } else {
            0nat
        }),
    decreases slots.len(),
{
    let changed = slots.update(i, slot);
    if i == slots.len() - 1 {
        assert(changed.drop_last() =~= slots.drop_last());
    } else {
        assert(changed.drop_last() =~= slots.drop_last().update(i, slot));
        lemma_active_count_update(slots.drop_last(), i, slot);
    }
}

/// Slots of which none is active count no active one.
pub proof fn lemma_active_count_none(slots: Seq<Slot>)
    requires
        forall|i: int| 0 <= i < slots.len() ==> !(#[trigger] slots[i] is Active),
    ensures
        active_count(slots) == 0,
    decreases slots.len(),
{
    if slots.len() > 0 {
        lemma_active_count_none(slots.drop_last());
    }
}

/// What can happen to an engine.
pub enum EngineOp {
    /// The next descriptor is asked for.
    Dispatch,
    /// The end of a transfer is reported.
    Complete { descriptor: int, status: TransferStatus },
    /// The run is called off.
    Cancel,
}

impl EngineModel {
    /// The engine after `op`.
    pub open spec fn apply(self, op: EngineOp) -> EngineModel {
        match op {
            EngineOp::Dispatch => self.dispatch(),
            EngineOp::Complete { descriptor, status } => self.complete(descriptor, status),
            EngineOp::Cancel => self.cancel(),
        }
    }

    /// The engine after `ops`, one after another.
    pub open spec fn run(self, ops: Seq<EngineOp>) -> EngineModel
        decreases ops.len(),
    {
        if ops.len() == 0 {
            self
        } else {
            self.run(ops.drop_last()).apply(ops.last())
        }
    }
}

/// Whatever happens to an engine, it stays as every engine is: within its
/// limit, and with no two active transfers on one file.
pub proof fn lemma_apply_keeps_wf(model: EngineModel, op: EngineOp)
    requires
        model.wf(),
    ensures
        model.apply(op).wf(),
{
    match op {
        EngineOp::Dispatch => {
            lemma_first_startable(model, 0);
            match model.next() {
                Some(i) => {
                    lemma_active_count_update(model.slots, i, Slot::Active);
                },
                None => {},
            }
        },
        EngineOp::Complete { descriptor, status } => {
            if model.completes(descriptor, status) {
                lemma_active_count_update(model.slots, descriptor, Slot::Done(status));
            }
        },
        EngineOp::Cancel => {
            lemma_same_activity(model.slots, model.cancel().slots);
        },
    }
}

/// Slots that are active at the same places count the same number of
/// active ones.
pub proof fn lemma_same_activity(first: Seq<Slot>, second: Seq<Slot>)
    requires
        first.len() == second.len(),
        forall|i: int| 0 <= i < first.len() ==> (first[i] is Active <==> second[i] is Active),
    ensures
        active_count(first) == active_count(second),
    decreases first.len(),
{
    if first.len() > 0 {
        lemma_same_activity(first.drop_last(), second.drop_last());
    }
}

/// The concurrency bound. From the start of a run on, whatever is asked of
/// the engine and whatever is reported to it, never more transfers are
/// active than the limit allows, and never two of them write the same
/// destination file.
pub proof fn lemma_concurrency_bound(limit: nat, names: Seq<Seq<char>>, ops: Seq<EngineOp>)
    ensures
        EngineModel::initial(limit, names).run(ops).wf(),
        EngineModel::initial(limit, names).run(ops).active() <= limit,
    decreases ops.len(),
{
    let start = EngineModel::initial(limit, names);
    if ops.len() == 0 {
        lemma_active_count_none(start.slots);
    } else {
        lemma_concurrency_bound(limit, names, ops.drop_last());
        lemma_apply_keeps_wf(start.run(ops.drop_last()), ops.last());
        assert(start.run(ops).limit == limit) by {
            lemma_run_keeps_batch(start, ops);
        }
    }
}

/// Nothing that happens to an engine changes its limit or its batch.
pub proof fn lemma_run_keeps_batch(model: EngineModel, ops: Seq<EngineOp>)
    ensures
        model.run(ops).limit == model.limit,
        model.run(ops).names == model.names,
        model.run(ops).slots.len() == model.slots.len(),
    decreases ops.len(),
{
    if ops.len() > 0 {
        lemma_run_keeps_batch(model, ops.drop_last());
        lemma_first_startable(model.run(ops.drop_last()), 0);
    }
}

/// A descriptor is taken up once. What is over stays as it ended, and what
/// is active does not go back to waiting, whatever happens to the engine.
pub proof fn lemma_no_second_start(model: EngineModel, ops: Seq<EngineOp>, i: int)
    requires
        0 <= i < model.slots.len(),
        model.names.len() == model.slots.len(),
    ensures
        model.slots[i] is Done ==> model.run(ops).slots[i] == model.slots[i],
        model.slots[i] is Active ==> !(model.run(ops).slots[i] is Waiting),
    decreases ops.len(),
{
    if ops.len() > 0 {
        lemma_no_second_start(model, ops.drop_last(), i);
        lemma_run_keeps_batch(model, ops.drop_last());
        lemma_first_startable(model.run(ops.drop_last()), 0);
    }
}

/// `op`, telling of the end `status` if it reports the end of descriptor
/// `i`.
pub open spec fn with_end(op: EngineOp, i: int, status: TransferStatus) -> EngineOp {
    match op {
        EngineOp::Complete { descriptor, status: _ } => if descriptor == i {
            EngineOp::Complete { descriptor, status }
        } else {
            op
        },
        _ => op,
    }
}

/// Whether two engines differ at most in how descriptor `i` ended.
pub open spec fn differ_in_end_of(first: EngineModel, second: EngineModel, i: int) -> bool {
    &&& first.limit == second.limit
    &&& first.names == second.names
    &&& first.cancelled == second.cancelled
    &&& first.slots.len() == second.slots.len()
    &&& first.names.len() == first.slots.len()
    &&& forall|j: int| 0 <= j < first.slots.len() && j != i ==> first.slots[j] == second.slots[j]
    &&& 0 <= i < first.slots.len() ==> {
        &&& first.slots[i] is Waiting <==> second.slots[i] is Waiting
        &&& first.slots[i] is Active <==> second.slots[i] is Active
        &&& first.slots[i] is Done <==> second.slots[i] is Done
    }
}

/// Engines that differ at most in how one descriptor ended hand out the same
/// descriptor next.
proof fn lemma_same_next(first: EngineModel, second: EngineModel, i: int)
    requires
        differ_in_end_of(first, second, i),
    ensures
        first.active() == second.active(),
        first.next() == second.next(),
{
    lemma_same_activity(first.slots, second.slots);
    lemma_same_first_startable(first, second, i, 0);
}

/// Engines that differ at most in how one descriptor ended have the same
/// descriptors startable.
proof fn lemma_same_first_startable(first: EngineModel, second: EngineModel, i: int, from: int)
    requires
        differ_in_end_of(first, second, i),
        0 <= from,
    ensures
        first.first_startable(from) == second.first_startable(from),
    decreases first.slots.len() - from,
{
    if from < first.slots.len() {
        assert(first.busy(first.names[from]) == second.busy(second.names[from])) by {
            if first.busy(first.names[from]) {
                let j = choose|j: int|
                    0 <= j < first.slots.len() && first.slots[j] is Active && first.names[j]
                        == first.names[from];
                assert(second.slots[j] is Active);
            }
            if second.busy(second.names[from]) {
                let j = choose|j: int|
                    0 <= j < second.slots.len() && second.slots[j] is Active && second.names[j]
                        == second.names[from];
                assert(first.slots[j] is Active);
            }
        }
        if !first.startable(from) {
            lemma_same_first_startable(first, second, i, from + 1);
        }
    }
}

/// Isolation. How the transfer of one descriptor ends, verified, mismatched,
/// failed or cancelled, changes nothing for any other descriptor of the
/// batch: under the same requests and reports, every other descriptor is
/// started at the same moment and stands where it would have stood. Here
/// `ops` is any run in which the reports about descriptor `i` tell of an
/// end, and the second run is the same with `status` as that end.
pub proof fn lemma_isolation(
    model: EngineModel,
    ops: Seq<EngineOp>,
    i: int,
    status: TransferStatus,
)
    requires
        model.names.len() == model.slots.len(),
        status.terminal(),
        forall|k: int|
            0 <= k < ops.len() ==> (#[trigger] ops[k] matches EngineOp::Complete {
                descriptor,
                status: told,
            } ==> descriptor != i || told.terminal()),
    ensures
        differ_in_end_of(
            model.run(ops),
            model.run(ops.map_values(|op: EngineOp| with_end(op, i, status))),
            i,
        ),
        forall|j: int|
            0 <= j < model.slots.len() && j != i ==> model.run(ops).slots[j] == model.run(
                ops.map_values(|op: EngineOp| with_end(op, i, status)),
            ).slots[j],
    decreases ops.len(),
{
    let other = ops.map_values(|op: EngineOp| with_end(op, i, status));
    lemma_run_keeps_batch(model, ops);
    if ops.len() > 0 {
        assert(other.drop_last() =~= ops.drop_last().map_values(
            |op: EngineOp| with_end(op, i, status),
        ));
        lemma_isolation(model, ops.drop_last(), i, status);
        let first = model.run(ops.drop_last());
        let second = model.run(other.drop_last());
        lemma_same_next(first, second, i);
        lemma_first_startable(first, 0);
    }
}

/// How many of `slots` are over with a status among `statuses`.
pub open spec fn ended_in(slots: Seq<Slot>, statuses: Set<TransferStatus>) -> nat
    decreases slots.len(),
{
    if slots.len() == 0 {
        0
    } else {
        ended_in(slots.drop_last(), statuses) + if slots.last() matches Slot::Done(status)
            && statuses.contains(status) {
            1nat
        } else {
            0nat
        }
    }
}

/// The statuses of a transfer whose body was streamed to its end.
pub open spec fn completed_statuses() -> Set<TransferStatus> {
    set![TransferStatus::Verified, TransferStatus::Mismatched]
}

/// The destination file name of each of `files`.
pub open spec fn destinations(files: Seq<LargeFileInformation>) -> Seq<Seq<char>> {
    files.map_values(|file: LargeFileInformation| file.destination())
}

/// How a run ended: how many transfers there were, how many streamed their
/// body to the end, and which of those ended with another hash than the
/// declared one.
pub struct Tally {
    /// The size of the batch.
    pub total: usize,
    /// How many transfers streamed their body to the end, mismatches
    /// included.
    pub completed: usize,
    /// How many transfers were given up.
    pub failed: usize,
    /// How many transfers were called off.
    pub cancelled: usize,
    /// The descriptors whose content has another hash than the declared one,
    /// in ascending order.
    pub mismatched: Vec<usize>,
}

/// The transfer engine's gate over one batch of descriptors.
pub struct TransferEngine {
    limit: usize,
    files: Vec<LargeFileInformation>,
    names: Vec<String>,
    slots: Vec<Slot>,
    cancelled: bool,
}

impl View for TransferEngine {
    type V = EngineModel;

    closed spec fn view(&self) -> EngineModel {
        EngineModel {
            limit: self.limit as nat,
            names: destinations(self.files@),
            slots: self.slots@,
            cancelled: self.cancelled,
        }
    }
}

impl TransferEngine {
    /// The descriptors of the batch, in the order they were given. It never
    /// changes.
    pub closed spec fn batch(&self) -> Seq<LargeFileInformation> {
        self.files@
    }

    /// The engine is within its limit, and `names` holds the destination
    /// file name of each descriptor.
    #[verifier::type_invariant]
    spec fn inv(self) -> bool {
        &&& self@.wf()
        &&& self.files.len() == self.names.len()
        &&& forall|i: int|
            0 <= i < self.names.len() ==> (#[trigger] self.names[i])@ == self.files[i].destination()
    }

    /// The engine for the batch `files`, of which at most `tasks` are to
    /// download at once. Nothing has started.
    pub fn new(tasks: usize, files: Vec<LargeFileInformation>) -> (engine: TransferEngine)
        ensures
            engine@ == EngineModel::initial(tasks as nat, destinations(files@)),
            engine@.wf(),
            engine.batch() == files@,
    {
        let mut names: Vec<String> = Vec::new();
        let mut slots: Vec<Slot> = Vec::new();
        let mut i: usize = 0;
        while i < files.len()
            invariant
                i <= files.len(),
                names.len() == i,
                slots.len() == i,
                forall|k: int| 0 <= k < i ==> (#[trigger] names[k])@ == files[k].destination(),
                forall|k: int| 0 <= k < i ==> #[trigger] slots[k] == Slot::Waiting,
            decreases files.len() - i,
        {
            names.push(last_segment(files[i].url.as_str()));
            slots.push(Slot::Waiting);
            i = i + 1;
        }
        proof {
            assert(slots@ =~= Seq::new(files.len() as nat, |k: int| Slot::Waiting));
            lemma_active_count_none(slots@);
        }
        TransferEngine { limit: tasks, files, names, slots, cancelled: false }
    }

    /// The size of the batch.
    pub fn len(&self) -> (n: usize)
        ensures
            n == self@.slots.len(),
    {
        self.slots.len()
    }

    /// How many transfers may run at once.
    pub fn limit(&self) -> (n: usize)
        ensures
            n == self@.limit,
    {
        self.limit
    }

    /// Whether the run was called off.
    pub fn is_cancelled(&self) -> (b: bool)
        ensures
            b == self@.cancelled,
    {
        self.cancelled
    }

    /// Where descriptor `i` stands; `None` when the batch has no such
    /// descriptor.
    pub fn slot(&self, i: usize) -> (slot: Option<Slot>)
        ensures
            slot == if i < self@.slots.len() {
                Some(self@.slots[i as int])
            } else {
                None
            },
    {
        if i < self.slots.len() {
            Some(self.slots[i])
        } else {
            None
        }
    }

    /// Descriptor `i`; `None` when the batch has no such descriptor.
    pub fn file(&self, i: usize) -> (file: Option<&LargeFileInformation>)
        ensures
            file is Some <==> i < self@.slots.len(),
            file matches Some(f) ==> *f == self.batch()[i as int] && f.destination()
                == self@.names[i as int],
            self.batch().len() == self@.slots.len(),
    {
        proof {
            use_type_invariant(self);
        }
        if i < self.files.len() {
            Some(&self.files[i])
        } else {
            None
        }
    }

    /// How many transfers hold a place. Never more than the limit.
    pub fn active(&self) -> (n: usize)
        ensures
            n == self@.active(),
            n <= self@.limit,
    {
        proof {
            use_type_invariant(self);
        }
        let mut n: usize = 0;
        let mut i: usize = 0;
        while i < self.slots.len()
            invariant
                i <= self.slots.len(),
                n == active_count(self.slots@.take(i as int)),
                n <= i,
            decreases self.slots.len() - i,
        {
            assert(self.slots@.take(i + 1).drop_last() =~= self.slots@.take(i as int));
            match self.slots[i] {
                Slot::Active => {
                    n = n + 1;
                },
                _ => {},
            }
            i = i + 1;
        }
        assert(self.slots@.take(i as int) =~= self.slots@);
        n
    }

    /// Whether an active transfer writes the destination file of
    /// descriptor `i`.
    fn busy(&self, i: usize) -> (b: bool)
        requires
            i < self@.slots.len(),
        ensures
            b == self@.busy(self@.names[i as int]),
    {
        proof {
            use_type_invariant(self);
        }
        let mut j: usize = 0;
        while j < self.slots.len()
            invariant
                j <= self.slots.len(),
                i < self.slots.len(),
                self.files.len() == self.names.len(),
                self.names.len() == self.slots.len(),
                forall|k: int|
                    0 <= k < self.names.len() ==> (#[trigger] self.names[k])@
                        == self.files[k].destination(),
                forall|k: int|
                    0 <= k < j ==> !(self.slots[k] is Active && self@.names[k]
                        == self@.names[i as int]),
            decreases self.slots.len() - j,
        {
            match self.slots[j] {
                Slot::Active => {
                    if self.names[j] == self.names[i] {
                        assert(self@.names[j as int] == self@.names[i as int]);
                        return true;
                    }
                },
                _ => {},
            }
            j = j + 1;
        }
        false
    }

    /// The least startable descriptor, or the size of the batch when there
    /// is none.
    fn first_startable(&self) -> (i: usize)
        ensures
            i == self@.first_startable(0),
            i <= self@.slots.len(),
    {
        let mut i: usize = 0;
        while i < self.slots.len()
            invariant
                i <= self.slots.len(),
                self@.first_startable(0) == self@.first_startable(i as int),
            decreases self.slots.len() - i,
        {
            let waiting = match self.slots[i] {
                Slot::Waiting => true,
                _ => false,
            };
            if waiting && !self.busy(i) {
                return i;
            }
            i = i + 1;
        }
        i
    }

    /// Hands out the descriptor to start next, which then holds a place:
    /// the first one that waits and whose destination file no active
    /// transfer writes. `None`, and nothing changes, when there is no such
    /// descriptor, when every place is taken, or when the run was called
    /// off.
    pub fn dispatch(self) -> (next: (TransferEngine, Option<usize>))
        ensures
            next.0@ == self@.dispatch(),
            next.0@.wf(),
            next.0.batch() == self.batch(),
            match next.1 {
                Some(i) => self@.next() == Some(i as int),
                None => self@.next() is None,
            },
    {
        proof {
            use_type_invariant(&self);
        }
        if self.cancelled || self.active() >= self.limit {
            return (self, None);
        }
        let i = self.first_startable();
        if i >= self.slots.len() {
            return (self, None);
        }
        proof {
            lemma_first_startable(self@, 0);
            lemma_active_count_update(self.slots@, i as int, Slot::Active);
        }
        let TransferEngine { limit, files, names, slots, cancelled } = self;
        let mut slots = slots;
        slots.set(i, Slot::Active);
        (TransferEngine { limit, files, names, slots, cancelled }, Some(i))
    }

    /// Records that the transfer of descriptor `i` is over with `status`,
    /// which frees its place. Nothing is recorded, and `false` returned,
    /// unless `i` is active and `status` is an end.
    pub fn complete(self, i: usize, status: TransferStatus) -> (next: (TransferEngine, bool))
        ensures
            next.0@ == self@.complete(i as int, status),
            next.0@.wf(),
            next.0.batch() == self.batch(),
            next.1 == self@.completes(i as int, status),
    {
        proof {
            use_type_invariant(&self);
        }
        if i >= self.slots.len() || !status.is_terminal() {
            return (self, false);
        }
        match self.slots[i] {
            Slot::Active => {
                proof {
                    lemma_active_count_update(self.slots@, i as int, Slot::Done(status));
                }
                let TransferEngine { limit, files, names, slots, cancelled } = self;
                let mut slots = slots;
                slots.set(i, Slot::Done(status));
                (TransferEngine { limit, files, names, slots, cancelled }, true)
            },
            _ => (self, false),
        }
    }

    /// Calls the run off: nothing is started any more, and what was waiting
    /// is over, cancelled. Active transfers keep their places until their
    /// end is recorded.
    pub fn cancel(self) -> (next: TransferEngine)
        ensures
            next@ == self@.cancel(),
            next@.wf(),
            next.batch() == self.batch(),
    {
        proof {
            use_type_invariant(&self);
        }
        let TransferEngine { limit, files, names, slots, cancelled: _ } = self;
        let ghost before = slots@;
        let mut slots = slots;
        let mut i: usize = 0;
        while i < slots.len()
            invariant
                i <= slots.len(),
                slots.len() == before.len(),
                forall|k: int|
                    0 <= k < i ==> #[trigger] slots[k] == if before[k] is Waiting {
                        Slot::Done(TransferStatus::Cancelled)
                    } else {
                        before[k]
                    },
                forall|k: int| i <= k < slots.len() ==> #[trigger] slots[k] == before[k],
                active_count(slots@) == active_count(before),
            decreases slots.len() - i,
        {
            match slots[i] {
                Slot::Waiting => {
                    proof {
                        lemma_active_count_update(
                            slots@,
                            i as int,
                            Slot::Done(TransferStatus::Cancelled),
                        );
                    }
                    slots.set(i, Slot::Done(TransferStatus::Cancelled));
                },
                _ => {},
            }
            i = i + 1;
        }
        let next = TransferEngine { limit, files, names, slots, cancelled: true };
        assert(next@.slots =~= self@.cancel().slots);
        next
    }

    /// Whether every descriptor is over.
    pub fn is_finished(&self) -> (b: bool)
        ensures
            b == self@.finished(),
    {
        let mut i: usize = 0;
        while i < self.slots.len()
            invariant
                i <= self.slots.len(),
                forall|k: int| 0 <= k < i ==> #[trigger] self.slots[k] is Done,
            decreases self.slots.len() - i,
        {
            match self.slots[i] {
                Slot::Done(_) => {},
                _ => {
                    return false;
                },
            }
            i = i + 1;
        }
        true
    }

    /// The tally of the run so far.
    pub fn tally(&self) -> (tally: Tally)
        ensures
            tally.total == self@.slots.len(),
            tally.completed == ended_in(self@.slots, completed_statuses()),
            tally.failed == ended_in(self@.slots, set![TransferStatus::Failed]),
            tally.cancelled == ended_in(self@.slots, set![TransferStatus::Cancelled]),
            forall|i: int|
                0 <= i < self@.slots.len() ==> (tally.mismatched@.contains(i as usize)
                    <==> self@.slots[i] == Slot::Done(TransferStatus::Mismatched)),
            forall|a: int, b: int|
                0 <= a < b < tally.mismatched.len() ==> tally.mismatched[a] < tally.mismatched[b],
            forall|a: int|
                0 <= a < tally.mismatched.len() ==> (#[trigger] tally.mismatched[a])
                    < self@.slots.len(),
    {
        let mut completed: usize = 0;
        let mut failed: usize = 0;
        let mut cancelled: usize = 0;
        let mut mismatched: Vec<usize> = Vec::new();
        let mut i: usize = 0;
        while i < self.slots.len()
            invariant
                i <= self.slots.len(),
                completed == ended_in(self.slots@.take(i as int), completed_statuses()),
                failed == ended_in(self.slots@.take(i as int), set![TransferStatus::Failed]),
                cancelled == ended_in(self.slots@.take(i as int), set![TransferStatus::Cancelled]),
                completed <= i,
                failed <= i,
                cancelled <= i,
                forall|k: int|
                    0 <= k < i ==> (mismatched@.contains(k as usize) <==> self.slots[k]
                        == Slot::Done(TransferStatus::Mismatched)),
                forall|a: int, b: int|
                    0 <= a < b < mismatched.len() ==> mismatched[a] < mismatched[b],
                forall|a: int| 0 <= a < mismatched.len() ==> (#[trigger] mismatched[a]) < i,
            decreases self.slots.len() - i,
        {
            assert(self.slots@.take(i + 1).drop_last() =~= self.slots@.take(i as int));
            let ghost before = mismatched@;
            match self.slots[i] {
                Slot::Done(TransferStatus::Verified) => {
                    completed = completed + 1;
                },
                Slot::Done(TransferStatus::Mismatched) => {
                    completed = completed + 1;
                    mismatched.push(i);
                },
                Slot::Done(TransferStatus::Failed) => {
                    failed = failed + 1;
                },
                Slot::Done(TransferStatus::Cancelled) => {
                    cancelled = cancelled + 1;
                },
                _ => {},
            }
            proof {
                assert forall|k: int| 0 <= k < i + 1 implies (mismatched@.contains(k as usize)
                    <==> self.slots[k] == Slot::Done(TransferStatus::Mismatched)) by {
                    if mismatched.len() > before.len() {
                        assert(mismatched@[before.len() as int] == i);
                        if before.contains(k as usize) {
                            let w = choose|w: int| 0 <= w < before.len() && before[w] == k as usize;
                            assert(mismatched@[w] == k as usize);
                        }
                    }
                }
            }
            i = i + 1;
        }
        assert(self.slots@.take(i as int) =~= self.slots@);
        Tally { total: self.slots.len(), completed, failed, cancelled, mismatched }
    }
}

} // verus!
