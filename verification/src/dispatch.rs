//! The bounded-concurrency dispatch protocol.
//!
//! A [`Dispatcher`] walks a fixed batch of work items in submission order.
//! For each item it announces a "before calling" record, checks the in-flight
//! counter against the ceiling, waits (bounded by the configured timeout) for
//! one completion when the ceiling is reached, has the item spawned, and then
//! records the spawn in the counter.  After the last item it drains the
//! remaining operations without any bound.  Every failure is fatal: a failed
//! remote call, a backpressure wait that times out, and contention on the
//! counter each end the whole flow.
//!
//! The dispatcher itself never performs the remote work: a driver asks it for
//! the [`Action`] to take next, performs that action, and reports the outcome
//! back.  Every decision the protocol makes is therefore verified here, for
//! every interleaving of completions the driver may observe.

use vstd::prelude::*;
use vstd::seq_lib::group_to_multiset_ensures;
use vstd::multiset::Multiset;

verus! {

/// One unit of submitted work: a sequence id, unique within the batch and
/// assigned in submission order, and the target of the remote call.
#[derive(Debug)]
pub struct WorkItem {
    pub sequence_id: u32,
    pub target: String,
}

/// How one operation's remote call ended: the response status on success, or
/// a description of the cause on failure.
#[derive(Debug)]
pub enum Outcome {
    Success(u16),
    Failure(String),
}

/// Produced exactly once for each spawned operation that the flow joins.
#[derive(Debug)]
pub struct OperationResult {
    pub sequence_id: u32,
    pub outcome: Outcome,
}

/// The fatal conditions that can end the flow before the drain is complete.
#[derive(Clone, Copy, Debug, PartialEq, Eq, Structural)]
pub enum FailureKind {
    /// An operation's remote call failed.
    RemoteCall,
    /// No operation completed within the timeout while the ceiling was full.
    BackpressureTimeout,
    /// The counter's non-blocking acquisition failed.
    Contention,
}

/// Where the flow stands between two steps.
#[derive(Clone, Copy, Debug, PartialEq, Eq, Structural)]
pub enum Phase {
    /// No item is mid-dispatch: the next item awaits its announcement, or,
    /// once every item is announced, the remaining operations drain.
    Ready,
    /// The current item is announced but not yet spawned; the backpressure
    /// check against the ceiling stands before it.
    Gate,
    /// The current item is spawned but the counter has not yet recorded it.
    /// The live operation count may exceed the counter by one exactly here.
    Gap,
    /// A fatal condition ended the flow.
    Failed(FailureKind),
}

/// What the driver must do next, as decided by the protocol.
#[derive(Clone, Copy, Debug, PartialEq, Eq, Structural)]
pub enum Action {
    /// Emit the "before calling" record for the current item, then report
    /// `on_announced`.
    Announce,
    /// Wait for the next completion, bounded by the configured timeout; then
    /// report `on_completion` or `on_wait_timeout`.
    WaitBounded,
    /// Spawn the current item as a concurrent operation, then report
    /// `on_spawned`.
    Spawn,
    /// Record the spawn in the counter via `tally`.
    Tally,
    /// Wait for the next completion with no bound, then report
    /// `on_completion`.
    WaitDrain,
    /// Every item was dispatched and every operation joined.
    Finish,
    /// A fatal condition ended the flow.
    Abort,
}

/// The sequence ids of a batch, in submission order.
pub open spec fn ids_of(items: Seq<WorkItem>) -> Seq<u32> {
    items.map_values(|w: WorkItem| w.sequence_id)
}

/// The sequence ids of a run of results, in consumption order.
pub open spec fn result_ids(results: Seq<OperationResult>) -> Seq<u32> {
    results.map_values(|r: OperationResult| r.sequence_id)
}

/// The dispatch flow over one batch of work items.
///
/// The `announced`, `pending` and `completed` fields record the observable
/// history of a run: which ids were announced (in order), which spawned
/// operations are not yet joined, and which results were consumed (in order).
pub struct Dispatcher {
    /// The fixed batch, in submission order.
    pub items: Vec<WorkItem>,
    /// The soft in-flight ceiling; at least one.
    pub ceiling: u64,
    /// The bound, in seconds, on backpressure waits during dispatch.
    pub timeout_secs: u64,
    /// How many items have been announced so far.
    pub next: usize,
    /// How many items have been spawned so far.
    pub spawned_count: usize,
    /// The in-flight counter: spawned operations recorded and not yet joined.
    pub counter: u64,
    pub phase: Phase,
    /// Sequence ids in the order their "before calling" records were emitted.
    pub announced: Vec<u32>,
    /// Sequence ids of spawned operations whose result is not yet consumed.
    pub pending: Vec<u32>,
    /// The consumed results, in consumption order.
    pub completed: Vec<OperationResult>,
}

impl Dispatcher {
    /// The ids of the operations spawned so far, in spawn order.
    pub open spec fn spawned_ids(self) -> Seq<u32> {
        ids_of(self.items@).take(self.spawned_count as int)
    }

    /// The number of spawned operations whose result is not yet consumed.
    /// Between a spawn and its tally this exceeds the counter by one.
    pub open spec fn live(self) -> int {
        self.pending@.len() as int
    }

    /// The well-formedness every reachable state satisfies.
    pub open spec fn wf(self) -> bool {
        &&& self.ceiling >= 1
        &&& self.next <= self.items@.len()
        &&& ids_of(self.items@).no_duplicates()
        &&& self.announced@ == ids_of(self.items@).take(self.next as int)
        &&& match self.phase {
            Phase::Ready => self.spawned_count == self.next,
            Phase::Gate => self.spawned_count + 1 == self.next,
            Phase::Gap => self.spawned_count == self.next,
            Phase::Failed(_) => self.spawned_count <= self.next
                && self.next <= self.spawned_count + 1,
        }
        &&& self.pending@.to_multiset().add(result_ids(self.completed@).to_multiset())
            == self.spawned_ids().to_multiset()
        &&& result_ids(self.completed@).no_duplicates()
        &&& match self.phase {
            Phase::Ready => self.pending@.len() == self.counter,
            Phase::Gate => self.pending@.len() == self.counter,
            Phase::Gap => self.pending@.len() == self.counter + 1,
            Phase::Failed(_) => self.counter <= self.pending@.len()
                && self.pending@.len() <= self.counter + 1,
        }
        &&& self.counter <= self.ceiling
        &&& (self.phase is Gap ==> self.counter < self.ceiling)
    }

    /// The action the protocol prescribes in this state.
    pub open spec fn spec_action(self) -> Action {
        match self.phase {
            Phase::Ready => if self.next < self.items@.len() {
                Action::Announce
            } else if self.pending@.len() > 0 {
                Action::WaitDrain
            } else {
                Action::Finish
            },
            Phase::Gate => if self.counter >= self.ceiling {
                Action::WaitBounded
            } else {
                Action::Spawn
            },
            Phase::Gap => Action::Tally,
            Phase::Failed(_) => Action::Abort,
        }
    }

    /// The flow ended with every item dispatched and every result consumed.
    pub open spec fn finished(self) -> bool {
        &&& self.phase is Ready
        &&& self.next == self.items@.len()
        &&& self.pending@.len() == 0
    }

    /// The index of the item currently mid-dispatch (announced, or announced
    /// and spawned), or of the item to announce next.
    pub open spec fn current_index(self) -> int {
        if self.phase is Gate { self.next - 1 } else { self.next as int }
    }

    /// A fresh flow over `items`, with nothing announced, spawned or joined.
    pub fn new(items: Vec<WorkItem>, ceiling: u64, timeout_secs: u64) -> (d: Dispatcher)
        requires
            ceiling >= 1,
            ids_of(items@).no_duplicates(),
        ensures
            d.wf(),
            d.items@ == items@,
            d.ceiling == ceiling,
            d.timeout_secs == timeout_secs,
            d.phase == Phase::Ready,
            d.next == 0,
            d.counter == 0,
            d.announced@ == Seq::<u32>::empty(),
            d.pending@ == Seq::<u32>::empty(),
            d.completed@ == Seq::<OperationResult>::empty(),
    {
        let d = Dispatcher {
            items,
            ceiling,
            timeout_secs,
            next: 0,
            spawned_count: 0,
            counter: 0,
            phase: Phase::Ready,
            announced: Vec::new(),
            pending: Vec::new(),
            completed: Vec::new(),
        };
        proof {
            lemma_to_multiset_empty::<u32>();
            lemma_to_multiset_empty::<OperationResult>();
            assert(d.announced@ =~= ids_of(d.items@).take(0));
            assert(d.spawned_ids() =~= Seq::<u32>::empty());
            assert(result_ids(d.completed@) =~= Seq::<u32>::empty());
            assert(d.pending@.to_multiset().add(result_ids(d.completed@).to_multiset())
                =~= d.spawned_ids().to_multiset());
        }
        d
    }

    /// What the driver must do next.
    pub fn next_action(&self) -> (a: Action)
        requires
            self.wf(),
        ensures
            a == self.spec_action(),
    {
        match self.phase {
            Phase::Ready => {
                if self.next < self.items.len() {
                    Action::Announce
                } else if self.pending.len() > 0 {
                    Action::WaitDrain
                } else {
                    Action::Finish
                }
            },
            Phase::Gate => {
                if self.counter >= self.ceiling {
                    Action::WaitBounded
                } else {
                    Action::Spawn
                }
            },
            Phase::Gap => Action::Tally,
            Phase::Failed(_) => Action::Abort,
        }
    }

    /// The item to announce or spawn.
    pub fn current_item(&self) -> (w: &WorkItem)
        requires
            self.wf(),
            self.phase is Gate || (self.phase is Ready && self.next < self.items@.len()),
        ensures
            *w == self.items@[self.current_index()],
    {
        match self.phase {
            Phase::Gate => &self.items[self.next - 1],
            _ => &self.items[self.next],
        }
    }

    /// The "before calling" record for the next item was emitted.  Emission
    /// follows submission order exactly.
    pub fn on_announced(&mut self)
        requires
            old(self).wf(),
            old(self).spec_action() == Action::Announce,
        ensures
            final(self).wf(),
            final(self).phase == Phase::Gate,
            final(self).next == old(self).next + 1,
            final(self).announced@ == old(self).announced@.push(
                old(self).items@[old(self).next as int].sequence_id,
            ),
            final(self).items == old(self).items,
            final(self).ceiling == old(self).ceiling,
            final(self).timeout_secs == old(self).timeout_secs,
            final(self).counter == old(self).counter,
            final(self).pending == old(self).pending,
            final(self).completed == old(self).completed,
    {
        let id = self.items[self.next].sequence_id;
        self.announced.push(id);
        let n = self.items.len();
        proof {
            assert(self.next < n);
        }
        self.next = self.next + 1;
        self.phase = Phase::Gate;
        proof {
            assert(self.announced@ =~= ids_of(self.items@).take(self.next as int));
            assert(self.spawned_ids() =~= old(self).spawned_ids());
        }
    }

    /// The current item was spawned as a concurrent operation.  The live
    /// count grows here; the counter records it only at the following tally.
    pub fn on_spawned(&mut self)
        requires
            old(self).wf(),
            old(self).spec_action() == Action::Spawn,
        ensures
            final(self).wf(),
            final(self).phase == Phase::Gap,
            final(self).pending@ == old(self).pending@.push(
                old(self).items@[old(self).next - 1].sequence_id,
            ),
            final(self).live() == old(self).live() + 1,
            final(self).items == old(self).items,
            final(self).ceiling == old(self).ceiling,
            final(self).timeout_secs == old(self).timeout_secs,
            final(self).next == old(self).next,
            final(self).counter == old(self).counter,
            final(self).announced == old(self).announced,
            final(self).completed == old(self).completed,
    {
        let id = self.items[self.next - 1].sequence_id;
        self.pending.push(id);
        self.spawned_count = self.spawned_count + 1;
        self.phase = Phase::Gap;
        proof {
            broadcast use group_to_multiset_ensures;

            let ghost gid = old(self).items@[old(self).next - 1].sequence_id;
            assert(self.spawned_ids() =~= old(self).spawned_ids().push(gid));
            assert(self.pending@ == old(self).pending@.push(gid));
            let ghost p0 = old(self).pending@.to_multiset();
            let ghost c0 = result_ids(self.completed@).to_multiset();
            assert(self.pending@.to_multiset() =~= p0.insert(gid));
            assert(self.spawned_ids().to_multiset() =~= old(self).spawned_ids().to_multiset().insert(gid));
            assert(p0.insert(gid).add(c0) =~= p0.add(c0).insert(gid));
        }
    }

    /// The counter was re-acquired and the spawn recorded in it; the new
    /// count is returned for the driver's record of it.
    pub fn tally(&mut self) -> (c: u64)
        requires
            old(self).wf(),
            old(self).spec_action() == Action::Tally,
        ensures
            final(self).wf(),
            final(self).phase == Phase::Ready,
            final(self).counter == old(self).counter + 1,
            c == final(self).counter,
            final(self).items == old(self).items,
            final(self).ceiling == old(self).ceiling,
            final(self).timeout_secs == old(self).timeout_secs,
            final(self).next == old(self).next,
            final(self).announced == old(self).announced,
            final(self).pending == old(self).pending,
            final(self).completed == old(self).completed,
    {
        self.counter = self.counter + 1;
        self.phase = Phase::Ready;
        self.counter
    }

    /// Whether a spawned operation with this id is not yet joined.
    pub fn is_pending(&self, sequence_id: u32) -> (b: bool)
        ensures
            b == self.pending@.contains(sequence_id),
    {
        let mut j: usize = 0;
        while j < self.pending.len()
            invariant
                j <= self.pending@.len(),
                forall|k: int| 0 <= k < j ==> self.pending@[k] != sequence_id,
            decreases self.pending@.len() - j,
        {
            if self.pending[j] == sequence_id {
                return true;
            }
            j = j + 1;
        }
        false
    }

    /// The flow is blocked on a completion: either a backpressure wait during
    /// dispatch or an unbounded wait during the drain.
    pub open spec fn awaiting(self) -> bool {
        self.spec_action() == Action::WaitBounded || self.spec_action() == Action::WaitDrain
    }

    /// A wait yielded the result of a pending operation.  A successful result
    /// is consumed and the counter decremented; a failed remote call is fatal
    /// and its result is never reported.
    pub fn on_completion(&mut self, r: OperationResult)
        requires
            old(self).wf(),
            old(self).awaiting(),
            old(self).pending@.contains(r.sequence_id),
        ensures
            final(self).wf(),
            r.outcome is Failure ==> {
                &&& final(self).phase == Phase::Failed(FailureKind::RemoteCall)
                &&& final(self).completed == old(self).completed
                &&& final(self).counter == old(self).counter
                &&& final(self).pending == old(self).pending
            },
            r.outcome is Success ==> {
                &&& final(self).phase == old(self).phase
                &&& final(self).completed@ == old(self).completed@.push(r)
                &&& final(self).counter + 1 == old(self).counter
                &&& final(self).pending@.len() + 1 == old(self).pending@.len()
                &&& final(self).pending@.to_multiset()
                    == old(self).pending@.to_multiset().remove(r.sequence_id)
            },
            final(self).items == old(self).items,
            final(self).ceiling == old(self).ceiling,
            final(self).timeout_secs == old(self).timeout_secs,
            final(self).next == old(self).next,
            final(self).announced == old(self).announced,
    {
        if matches!(r.outcome, Outcome::Failure(_)) {
            self.phase = Phase::Failed(FailureKind::RemoteCall);
            return;
        }
        let j = self.index_of_pending(r.sequence_id);
        proof {
            broadcast use group_to_multiset_ensures;

            let ghost gid = r.sequence_id;
            let ghost p0 = old(self).pending@.to_multiset();
            let ghost c0 = result_ids(old(self).completed@).to_multiset();
            let ghost s0 = old(self).spawned_ids().to_multiset();
            // every id occurs at most once among the spawned ones
            assert(ids_of(old(self).items@).take(old(self).spawned_count as int).no_duplicates())
                by {
                take_of_no_duplicates(ids_of(old(self).items@), old(self).spawned_count as int);
            }
            old(self).spawned_ids().lemma_multiset_has_no_duplicates();
            assert(s0.count(gid) <= 1);
            assert(p0.count(gid) >= 1);
            assert(c0.count(gid) == 0);
            assert(!result_ids(old(self).completed@).contains(gid));
        }
        let ghost id = r.sequence_id;
        self.pending.remove(j);
        self.completed.push(r);
        self.counter = self.counter - 1;
        proof {
            broadcast use group_to_multiset_ensures;

            let ghost p0 = old(self).pending@.to_multiset();
            let ghost c0 = result_ids(old(self).completed@).to_multiset();
            assert(self.pending@.to_multiset() =~= p0.remove(id));
            assert(result_ids(self.completed@) =~= result_ids(old(self).completed@).push(id));
            assert(result_ids(self.completed@).to_multiset() =~= c0.insert(id));
            assert(p0.count(id) >= 1);
            assert(p0.remove(id).add(c0.insert(id)) =~= p0.add(c0)) by {
                assert forall|x: u32|
                    p0.remove(id).add(c0.insert(id)).count(x) == p0.add(c0).count(x) by {}
            }
            assert(result_ids(self.completed@).no_duplicates()) by {
                let s = result_ids(old(self).completed@);
                assert(!s.contains(id));
                assert forall|i: int, jj: int|
                    0 <= i < jj < s.push(id).len() implies s.push(id)[i] != s.push(id)[jj] by {
                    if jj < s.len() {
                        assert(s[i] != s[jj]);
                    } else {
                        assert(s.push(id)[jj] == id);
                        assert(s.push(id)[i] == s[i]);
                        assert(s.contains(s[i]));
                    }
                }
            }
        }
    }

    /// Find the position of a pending id.
    fn index_of_pending(&self, sequence_id: u32) -> (j: usize)
        requires
            self.pending@.contains(sequence_id),
        ensures
            j < self.pending@.len(),
            self.pending@[j as int] == sequence_id,
    {
        let mut j: usize = 0;
        while j < self.pending.len()
            invariant
                j <= self.pending@.len(),
                self.pending@.contains(sequence_id),
                forall|k: int| 0 <= k < j ==> self.pending@[k] != sequence_id,
            decreases self.pending@.len() - j,
        {
            if self.pending[j] == sequence_id {
                return j;
            }
            j = j + 1;
        }
        proof {
            assert(false);
        }
        0
    }

    /// A backpressure wait ran the whole timeout without a completion; this
    /// is fatal and the flow never reaches the drain.
    pub fn on_wait_timeout(&mut self)
        requires
            old(self).wf(),
            old(self).spec_action() == Action::WaitBounded,
        ensures
            final(self).wf(),
            final(self).phase == Phase::Failed(FailureKind::BackpressureTimeout),
            final(self).items == old(self).items,
            final(self).ceiling == old(self).ceiling,
            final(self).timeout_secs == old(self).timeout_secs,
            final(self).next == old(self).next,
            final(self).counter == old(self).counter,
            final(self).announced == old(self).announced,
            final(self).pending == old(self).pending,
            final(self).completed == old(self).completed,
    {
        self.phase = Phase::Failed(FailureKind::BackpressureTimeout);
    }

    /// The counter's non-blocking acquisition failed.  Under the single-flow
    /// assumption this cannot happen; its occurrence is fatal.
    pub fn on_contention(&mut self)
        requires
            old(self).wf(),
            !(old(self).phase is Failed),
        ensures
            final(self).wf(),
            final(self).phase == Phase::Failed(FailureKind::Contention),
            final(self).items == old(self).items,
            final(self).ceiling == old(self).ceiling,
            final(self).timeout_secs == old(self).timeout_secs,
            final(self).next == old(self).next,
            final(self).counter == old(self).counter,
            final(self).announced == old(self).announced,
            final(self).pending == old(self).pending,
            final(self).completed == old(self).completed,
    {
        self.phase = Phase::Failed(FailureKind::Contention);
    }
}

/// Assign sequence ids in submission order, starting at one.
pub fn make_work_items(targets: Vec<String>) -> (items: Vec<WorkItem>)
    requires
        targets@.len() < u32::MAX,
    ensures
        items@.len() == targets@.len(),
        forall|i: int| 0 <= i < items@.len() ==> {
            &&& (#[trigger] items@[i]).sequence_id == i + 1
            &&& items@[i].target == targets@[i]
        },
        ids_of(items@).no_duplicates(),
{
    let mut items: Vec<WorkItem> = Vec::new();
    let mut i: usize = 0;
    while i < targets.len()
        invariant
            i <= targets@.len(),
            targets@.len() < u32::MAX,
            items@.len() == i,
            forall|k: int| 0 <= k < i ==> {
                &&& (#[trigger] items@[k]).sequence_id == k + 1
                &&& items@[k].target == targets@[k]
            },
        decreases targets@.len() - i,
    {
        let t = targets[i].clone();
        items.push(WorkItem { sequence_id: (i as u32) + 1, target: t });
        i = i + 1;
    }
    proof {
        assert forall|a: int, b: int|
            0 <= a < b < ids_of(items@).len() implies ids_of(items@)[a] != ids_of(items@)[b] by {
            assert(ids_of(items@)[a] == a + 1);
            assert(ids_of(items@)[b] == b + 1);
        }
    }
    items
}

/// Every seq of a seq without duplicates taken from the front is itself
/// without duplicates.
proof fn take_of_no_duplicates<A>(s: Seq<A>, n: int)
    requires
        s.no_duplicates(),
        0 <= n <= s.len(),
    ensures
        s.take(n).no_duplicates(),
{
    assert forall|i: int, j: int|
        0 <= i < j < s.take(n).len() implies s.take(n)[i] != s.take(n)[j] by {
        assert(s.take(n)[i] == s[i]);
        assert(s.take(n)[j] == s[j]);
    }
}

/// The multiset of an empty seq is empty.
proof fn lemma_to_multiset_empty<A>()
    ensures
        Seq::<A>::empty().to_multiset() =~= Multiset::<A>::empty(),
{
    broadcast use group_to_multiset_ensures;

    assert forall|x: A| Seq::<A>::empty().to_multiset().count(x) == 0 by {
        assert(!Seq::<A>::empty().contains(x));
    }
}

/// At no sampled instant does the in-flight count pass the soft bound: the
/// counter itself never passes the ceiling, and the live operation count
/// never passes the ceiling plus one.
pub proof fn lemma_soft_ceiling(d: Dispatcher)
    requires
        d.wf(),
    ensures
        d.counter <= d.ceiling,
        d.live() <= d.ceiling + 1,
{
}

/// "Before calling" records are emitted in strict submission order: the k-th
/// record ever emitted carries the k-th submitted item's sequence id,
/// whatever completions arrived in between.
pub proof fn lemma_submission_order(d: Dispatcher)
    requires
        d.wf(),
    ensures
        d.announced@.len() <= d.items@.len(),
        forall|i: int| 0 <= i < d.announced@.len()
            ==> d.announced@[i] == d.items@[i].sequence_id,
{
}

/// A flow that finishes — every remote call succeeded and no backpressure
/// wait timed out — consumed exactly one result per submitted item: the
/// results' sequence ids are the items' ids, each appearing exactly once.
pub proof fn lemma_all_results_once(d: Dispatcher)
    requires
        d.wf(),
        d.finished(),
    ensures
        d.completed@.len() == d.items@.len(),
        result_ids(d.completed@).no_duplicates(),
        forall|id: u32| ids_of(d.items@).contains(id) <==> result_ids(d.completed@).contains(id),
{
    broadcast use group_to_multiset_ensures;

    lemma_to_multiset_empty::<u32>();
    let p = d.pending@.to_multiset();
    let c = result_ids(d.completed@).to_multiset();
    let s = d.spawned_ids().to_multiset();
    assert(d.pending@ =~= Seq::<u32>::empty());
    assert(p =~= Multiset::<u32>::empty());
    assert(c =~= p.add(c));
    assert(d.spawned_ids() =~= ids_of(d.items@));
    assert(c =~= ids_of(d.items@).to_multiset());
    assert(result_ids(d.completed@).len() == c.len());
    assert(ids_of(d.items@).len() == ids_of(d.items@).to_multiset().len());
    assert forall|id: u32|
        ids_of(d.items@).contains(id) <==> result_ids(d.completed@).contains(id) by {
        assert(ids_of(d.items@).contains(id) <==> ids_of(d.items@).to_multiset().count(id) > 0);
        assert(result_ids(d.completed@).contains(id) <==> c.count(id) > 0);
    }
}

} // verus!
