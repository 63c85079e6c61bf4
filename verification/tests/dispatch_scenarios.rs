//! Driving the dispatch protocol through whole runs with a simulated
//! scheduler: the test decides each operation's latency and whether its
//! remote call fails, and the dispatcher decides everything else.

use service::dispatch::{
    make_work_items, Action, Dispatcher, FailureKind, OperationResult, Outcome, Phase,
};

/// One simulated in-flight operation: its sequence id, the instant it
/// completes, and whether its remote call fails.
struct Running {
    id: u32,
    done_at: u64,
    fails: bool,
}

/// What a whole simulated run observed.
struct RunReport {
    /// The order results were consumed in.
    consumed: Vec<u32>,
    /// The largest number of spawned-but-unjoined operations ever seen.
    peak_live: usize,
    /// The final action the dispatcher settled on.
    last: Action,
}

fn targets(n: usize) -> Vec<String> {
    let mut v = Vec::new();
    for _ in 0..n {
        v.push("https://petstore.swagger.io/v2/pet/1".to_string());
    }
    v
}

/// Run the dispatcher to its end against operations whose latency in seconds
/// is `latency(id)` and whose remote call fails when `fails(id)`.
fn drive(d: &mut Dispatcher, latency: &dyn Fn(u32) -> u64, fails: &dyn Fn(u32) -> bool) -> RunReport {
    let mut running: Vec<Running> = Vec::new();
    let mut now: u64 = 0;
    let mut consumed = Vec::new();
    let mut peak_live: usize = 0;
    loop {
        if d.pending.len() > peak_live {
            peak_live = d.pending.len();
        }
        match d.next_action() {
            Action::Announce => {
                // the driver would emit the "before calling" record here
                d.on_announced();
            }
            Action::Spawn => {
                let id = d.current_item().sequence_id;
                running.push(Running { id, done_at: now + latency(id), fails: fails(id) });
                d.on_spawned();
            }
            Action::Tally => {
                d.tally();
            }
            Action::WaitBounded => {
                let j = earliest(&running);
                if running[j].done_at > now + d.timeout_secs {
                    d.on_wait_timeout();
                } else {
                    let op = running.remove(j);
                    if op.done_at > now {
                        now = op.done_at;
                    }
                    consumed.push(op.id);
                    d.on_completion(result_of(&op));
                }
            }
            Action::WaitDrain => {
                let j = earliest(&running);
                let op = running.remove(j);
                if op.done_at > now {
                    now = op.done_at;
                }
                consumed.push(op.id);
                d.on_completion(result_of(&op));
            }
            Action::Finish => {
                return RunReport { consumed, peak_live, last: Action::Finish };
            }
            Action::Abort => {
                return RunReport { consumed, peak_live, last: Action::Abort };
            }
        }
    }
}

/// The running operation that completes first; ties go to the earliest spawn.
fn earliest(running: &[Running]) -> usize {
    let mut best = 0;
    for j in 1..running.len() {
        if running[j].done_at < running[best].done_at {
            best = j;
        }
    }
    best
}

fn result_of(op: &Running) -> OperationResult {
    if op.fails {
        OperationResult { sequence_id: op.id, outcome: Outcome::Failure("target unreachable".to_string()) }
    } else {
        OperationResult { sequence_id: op.id, outcome: Outcome::Success(200) }
    }
}

#[test]
fn all_items_complete_exactly_once() {
    let items = make_work_items(targets(10));
    let mut d = Dispatcher::new(items, 3, 25);
    let report = drive(&mut d, &|_| 0, &|_| false);
    assert_eq!(report.last, Action::Finish);
    assert_eq!(d.completed.len(), 10);
    let mut ids: Vec<u32> = d.completed.iter().map(|r| r.sequence_id).collect();
    ids.sort();
    assert_eq!(ids, (1..=10).collect::<Vec<u32>>());
}

#[test]
fn before_calling_records_follow_submission_order() {
    let items = make_work_items(targets(10));
    let mut d = Dispatcher::new(items, 3, 25);
    // completions arrive far out of submission order
    let report = drive(&mut d, &|id| (11 - id as u64) * 3, &|_| false);
    assert_eq!(report.last, Action::Finish);
    assert_eq!(d.announced, (1..=10).collect::<Vec<u32>>());
}

#[test]
fn counter_stays_under_ceiling() {
    let items = make_work_items(targets(10));
    let mut d = Dispatcher::new(items, 3, 25);
    let report = drive(&mut d, &|id| if id % 2 == 0 { 4 } else { 1 }, &|_| false);
    assert_eq!(report.last, Action::Finish);
    assert!(report.peak_live <= 3 + 1);
}

#[test]
fn slow_items_finish_last_within_generous_timeout() {
    // ceiling 3, timeout 25 s, ten items of near-zero latency except item 4
    // (20 s) and item 6 (15 s)
    let items = make_work_items(targets(10));
    let mut d = Dispatcher::new(items, 3, 25);
    let report = drive(&mut d, &|id| match id {
        4 => 20,
        6 => 15,
        _ => 0,
    }, &|_| false);
    assert_eq!(report.last, Action::Finish);
    assert_eq!(d.completed.len(), 10);
    assert!(report.peak_live <= 4);
    // every fast item produced its result before the two delayed ones, and
    // the fifteen-second item came back before the twenty-second one
    assert_eq!(report.consumed[8], 6);
    assert_eq!(report.consumed[9], 4);
    for k in 0..8 {
        assert!(report.consumed[k] != 4 && report.consumed[k] != 6);
    }
}

#[test]
fn backpressure_timeout_is_fatal_before_the_drain() {
    // a wait with every occupied slot slower than the ten-second timeout
    // times out; a single slow item among fast ones never blocks that long,
    // so items two through four all carry the twenty-second delay
    let items = make_work_items(targets(10));
    let mut d = Dispatcher::new(items, 3, 10);
    let report = drive(&mut d, &|id| if (2..=4).contains(&id) { 20 } else { 0 }, &|_| false);
    assert_eq!(report.last, Action::Abort);
    assert_eq!(d.phase, Phase::Failed(FailureKind::BackpressureTimeout));
    // the drain was never reached: later items were never announced
    assert!(d.announced.len() < 10);
    // the delayed operations' results were never consumed
    assert!(!report.consumed.contains(&4));
}

#[test]
fn failed_remote_call_aborts_everything() {
    // the third operation's remote call fails while the first two are still
    // in flight; consuming its result ends the flow at once
    let items = make_work_items(targets(10));
    let mut d = Dispatcher::new(items, 3, 25);
    let report = drive(
        &mut d,
        &|id| if id == 3 { 0 } else { 5 },
        &|id| id == 3,
    );
    assert_eq!(report.last, Action::Abort);
    assert_eq!(d.phase, Phase::Failed(FailureKind::RemoteCall));
    // no result is reported for the failing item
    assert!(d.completed.iter().all(|r| r.sequence_id != 3));
    // no later item was announced or dispatched
    assert_eq!(d.announced, vec![1, 2, 3, 4]);
    assert_eq!(d.spawned_count, 3);
}

#[test]
fn drain_outlasts_the_dispatch_timeout() {
    // the last operation takes fifteen seconds against a ten-second dispatch
    // timeout; the drain has no bound and still counts it
    let items = make_work_items(targets(5));
    let mut d = Dispatcher::new(items, 3, 10);
    let report = drive(&mut d, &|id| if id == 5 { 15 } else { 0 }, &|_| false);
    assert_eq!(report.last, Action::Finish);
    assert_eq!(d.completed.len(), 5);
    assert!(report.consumed.contains(&5));
    assert_eq!(d.counter, 0);
}

#[test]
fn contention_is_fatal() {
    let items = make_work_items(targets(2));
    let mut d = Dispatcher::new(items, 1, 5);
    d.on_contention();
    assert_eq!(d.phase, Phase::Failed(FailureKind::Contention));
    assert_eq!(d.next_action(), Action::Abort);
}

#[test]
fn work_items_get_sequence_ids_in_submission_order() {
    let items = make_work_items(targets(3));
    let ids: Vec<u32> = items.iter().map(|w| w.sequence_id).collect();
    assert_eq!(ids, vec![1, 2, 3]);
    assert_eq!(items[0].target, "https://petstore.swagger.io/v2/pet/1");
}

#[test]
fn empty_batch_finishes_at_once() {
    let d = Dispatcher::new(Vec::new(), 3, 10);
    assert_eq!(d.next_action(), Action::Finish);
}

#[test]
fn pending_tracks_unjoined_operations() {
    let items = make_work_items(targets(2));
    let mut d = Dispatcher::new(items, 2, 10);
    d.on_announced();
    d.on_spawned();
    d.tally();
    assert!(d.is_pending(1));
    assert!(!d.is_pending(2));
    assert_eq!(d.counter, 1);
}
