use doit::counter::{
    decrement_counter, remaining_uses, reset_counter, CounterStore, EXTEND_LIMIT,
};
use doit::counter_file::{
    with_counter, with_counter_by, CounterEvent, CounterRequest, CounterStage, Transaction,
};

fn text(s: &str) -> String {
    s.to_string()
}

fn store(entries: &[(&str, usize)]) -> CounterStore {
    CounterStore::from_entries(entries.iter().map(|(u, n)| (text(u), *n)).collect())
}

#[test]
fn ten_free_uses_then_none() {
    let mut counters = CounterStore::new();
    assert_eq!(counters.get("carol"), None);
    for left in (0..EXTEND_LIMIT).rev() {
        assert_eq!(decrement_counter(&mut counters, "carol"), left);
    }
    assert_eq!(EXTEND_LIMIT, 10);
    assert_eq!(counters.get("carol"), Some(0));
    assert_eq!(decrement_counter(&mut counters, "carol"), 0);
    reset_counter(&mut counters, "carol");
    assert_eq!(counters.get("carol"), Some(10));
    assert_eq!(decrement_counter(&mut counters, "carol"), 9);
}

#[test]
fn other_users_keep_their_counters() {
    let mut counters = store(&[("alice", 3), ("carol", 0)]);
    decrement_counter(&mut counters, "alice");
    reset_counter(&mut counters, "dave");
    assert_eq!(counters.get("alice"), Some(2));
    assert_eq!(counters.get("carol"), Some(0));
    assert_eq!(counters.get("dave"), Some(10));
    assert_eq!(counters.entries().len(), 3);
}

#[test]
fn the_later_of_two_entries_counts() {
    let counters = store(&[("alice", 3), ("bob", 4), ("alice", 5)]);
    assert_eq!(counters.get("alice"), Some(5));
    assert_eq!(counters.entries().len(), 2);
}

#[test]
fn counters_above_the_limit_are_taken_as_they_are() {
    let mut counters = store(&[("alice", 12)]);
    assert_eq!(decrement_counter(&mut counters, "alice"), 11);
}

#[test]
fn uses_that_are_left() {
    assert_eq!(remaining_uses(&None, "carol"), 10);
    assert_eq!(remaining_uses(&Some(store(&[("carol", 0)])), "carol"), 0);
    assert_eq!(remaining_uses(&Some(store(&[("carol", 4)])), "carol"), 4);
    assert_eq!(remaining_uses(&Some(store(&[("carol", 4)])), "alice"), 10);
}

fn step(t: Transaction, event: CounterEvent, stage: CounterStage) -> Transaction {
    let (next, message) = with_counter(t, event);
    assert_eq!(next.stage, stage);
    assert_eq!(message, None);
    next
}

fn opened(request: CounterRequest) -> Transaction {
    let t = Transaction::new(request, "carol");
    assert_eq!(t.stage, CounterStage::ProbeDirectory);
    let t = step(t, CounterEvent::Present(true), CounterStage::OpenFile);
    let t = step(t, CounterEvent::Done, CounterStage::LockFile);
    step(t, CounterEvent::Done, CounterStage::ReadFile)
}

fn written(t: Transaction, encoded: &str) -> Transaction {
    assert_eq!(t.stage, CounterStage::EncodeStore);
    let t = step(t, CounterEvent::Encoded(text(encoded)), CounterStage::TruncateFile);
    let t = step(t, CounterEvent::Done, CounterStage::RewindFile);
    let t = step(t, CounterEvent::Done, CounterStage::WriteFile);
    assert_eq!(t.encoded, encoded);
    let t = step(t, CounterEvent::Done, CounterStage::FlushFile);
    step(t, CounterEvent::Done, CounterStage::Finished)
}

#[test]
fn a_counter_is_taken_from_the_file_and_written_back() {
    let t = opened(CounterRequest::Decrement);
    let t = step(t, CounterEvent::Contents(text("{}")), CounterStage::ParseContents);
    assert_eq!(t.contents, "{}");
    let parsed = CounterEvent::Parsed(store(&[("alice", 1), ("carol", 7)]));
    let t = step(t, parsed, CounterStage::EncodeStore);
    assert_eq!(t.store.get("carol"), Some(6));
    assert_eq!(t.store.get("alice"), Some(1));
    let t = written(t, "json");
    assert_eq!(t.result(), 6);
    let (t, message) = with_counter(t, CounterEvent::Failed(text("late")));
    assert_eq!((t.stage, message), (CounterStage::Finished, None));
}

#[test]
fn an_empty_file_holds_no_counters() {
    let t = opened(CounterRequest::Decrement);
    let t = step(t, CounterEvent::Contents(text("")), CounterStage::EncodeStore);
    assert_eq!(written(t, "json").result(), 9);
}

#[test]
fn a_reset_recharges() {
    let t = opened(CounterRequest::Reset);
    let t = step(t, CounterEvent::Contents(text("{}")), CounterStage::ParseContents);
    let t = step(t, CounterEvent::Parsed(store(&[("carol", 0)])), CounterStage::EncodeStore);
    assert_eq!(written(t, "json").result(), 10);
}

#[test]
fn updates_in_a_row_add_up() {
    let t = opened(CounterRequest::Decrement);
    let t = step(t, CounterEvent::Contents(text("{}")), CounterStage::ParseContents);
    let parsed = CounterEvent::Parsed(store(&[("alice", 1), ("carol", 7)]));
    let first = written(step(t, parsed, CounterStage::EncodeStore), "first");
    assert_eq!(first.result(), 6);

    let t = opened(CounterRequest::Decrement);
    let t = step(t, CounterEvent::Contents(text("first")), CounterStage::ParseContents);
    let t = step(t, CounterEvent::Parsed(first.store), CounterStage::EncodeStore);
    let second = written(t, "second");
    assert_eq!(second.result(), 5);
    assert_eq!(second.store.get("alice"), Some(1));

    let t = opened(CounterRequest::Reset);
    let t = step(t, CounterEvent::Contents(text("second")), CounterStage::ParseContents);
    let t = step(t, CounterEvent::Parsed(second.store), CounterStage::EncodeStore);
    let third = written(t, "third");
    assert_eq!(third.result(), 10);
    assert_eq!(third.store.get("alice"), Some(1));
}

fn changed(read: CounterStore, update: impl FnOnce(CounterStore) -> CounterStore) -> CounterStore {
    let t = opened(CounterRequest::Reset);
    let t = step(t, CounterEvent::Contents(text("{}")), CounterStage::ParseContents);
    let (t, message) = with_counter_by(t, CounterEvent::Parsed(read), update);
    assert_eq!((t.stage, message), (CounterStage::EncodeStore, None));
    written(t, "json").store
}

fn counts(store: &CounterStore) -> (Option<usize>, Option<usize>) {
    (store.get("alice"), store.get("carol"))
}

#[test]
fn any_update_can_be_made() {
    let full = || store(&[("alice", 1), ("carol", 7)]);
    assert_eq!(counts(&changed(full(), |s| s)), (Some(1), Some(7)));
    assert_eq!(counts(&changed(full(), |_| CounterStore::new())), (None, None));

    let first = |mut s: CounterStore| {
        s.set("carol", 3);
        s
    };
    let second = |mut s: CounterStore| {
        let n = s.get("carol").unwrap();
        s.set("alice", n + 1);
        s
    };
    let left = changed(full(), first);
    assert_eq!(counts(&left), (Some(1), Some(3)));
    assert_eq!(counts(&changed(left, second)), (Some(4), Some(3)));
    assert_eq!(counts(&changed(full(), |s| second(first(s)))), (Some(4), Some(3)));

    let t = Transaction::new(CounterRequest::Reset, "carol");
    let (t, message) = with_counter_by(t, CounterEvent::Present(false), |s| s);
    assert_eq!((t.stage, message), (CounterStage::CreateDirectory, None));
}

#[test]
fn updates_of_two_users_commute() {
    let mut a = store(&[("alice", 1)]);
    let mut b = store(&[("alice", 1)]);
    decrement_counter(&mut a, "alice");
    decrement_counter(&mut a, "carol");
    reset_counter(&mut a, "dave");
    reset_counter(&mut b, "dave");
    decrement_counter(&mut b, "carol");
    decrement_counter(&mut b, "alice");
    for user in ["alice", "carol", "dave"] {
        assert_eq!(a.get(user), b.get(user));
    }
    assert_eq!(counts(&a), (Some(0), Some(9)));
}

#[test]
fn a_corrupt_file_is_reset_with_a_warning() {
    let t = opened(CounterRequest::Decrement);
    let t = step(t, CounterEvent::Contents(text("oops")), CounterStage::ParseContents);
    let (t, message) = with_counter(t, CounterEvent::Failed(text("expected value")));
    assert_eq!(
        message.as_deref(),
        Some("warning: corrupt counter file (expected value), resetting")
    );
    assert_eq!(written(t, "json").result(), 9);

    let t = opened(CounterRequest::Decrement);
    let (t, message) = with_counter(t, CounterEvent::Failed(text("not UTF-8")));
    assert_eq!(
        message.as_deref(),
        Some("warning: corrupt counter file (not UTF-8), resetting")
    );
    assert_eq!(written(t, "json").result(), 9);
}

fn abort(t: Transaction) -> String {
    let (t, message) = with_counter(t, CounterEvent::Failed(text("why")));
    assert_eq!(t.stage, CounterStage::Aborted);
    message.unwrap()
}

#[test]
fn failures_abort_with_a_reason() {
    let t = Transaction::new(CounterRequest::Reset, "carol");
    let t = step(t, CounterEvent::Present(false), CounterStage::CreateDirectory);
    assert_eq!(abort(t), "failed to create counter directory '/var/lib/doit': why");
    let t = Transaction::new(CounterRequest::Reset, "carol");
    let t = step(t, CounterEvent::Present(false), CounterStage::CreateDirectory);
    let t = step(t, CounterEvent::Done, CounterStage::OpenFile);
    assert_eq!(abort(t), "failed to open counter file '/var/lib/doit/counter.json': why");

    let messages = [
        (CounterStage::LockFile, "failed to lock counter file '/var/lib/doit/counter.json': why"),
        (CounterStage::EncodeStore, "failed to serialise counter data: why"),
        (CounterStage::TruncateFile, "failed to truncate counter file: why"),
        (CounterStage::RewindFile, "failed to seek in counter file: why"),
        (CounterStage::WriteFile, "failed to write counter file: why"),
        (CounterStage::FlushFile, "failed to flush counter file: why"),
    ];
    for (stage, expected) in messages {
        let mut t = Transaction::new(CounterRequest::Reset, "carol");
        t.stage = stage;
        assert_eq!(abort(t), expected);
    }
}

#[test]
fn an_event_out_of_place_aborts() {
    let t = opened(CounterRequest::Reset);
    let (t, message) = with_counter(t, CounterEvent::Encoded(text("json")));
    assert_eq!(t.stage, CounterStage::Aborted);
    assert_eq!(message.as_deref(), Some("counter update: unexpected event"));
}
