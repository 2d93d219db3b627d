//! The update of the counter file, as decisions.
//!
//! An update is a [`Transaction`]. Its stage says what is to be done next; the
//! caller does it and hands the outcome to [`with_counter`], which moves the
//! transaction on. The file is locked before it is read, and it is truncated
//! only after its new contents have been encoded.
use vstd::prelude::*;

use crate::counter::{
    decrement_counter, lemma_updates_of_two_users_commute, reset_counter, CounterStore, COUNTER_DIR, COUNTER_PATH,
};

verus! {

/// What is to happen to the counter of a user.
#[derive(Debug, Clone, Copy, PartialEq, Eq, Structural)]
pub enum CounterRequest {
    /// One use is taken from it.
    Decrement,
    /// It is set back to the limit.
    Reset,
}

/// What is to be done next.
#[derive(Debug, Clone, Copy, PartialEq, Eq, Structural)]
pub enum CounterStage {
    /// Find out whether the directory exists.
    ProbeDirectory,
    /// Create the directory.
    CreateDirectory,
    /// Open the file for reading and writing, creating it if there is none.
    OpenFile,
    /// Lock the file exclusively.
    LockFile,
    /// Read the whole file.
    ReadFile,
    /// Turn the contents into counters.
    ParseContents,
    /// Turn the counters into contents.
    EncodeStore,
    /// Set the length of the file to zero.
    TruncateFile,
    /// Go back to the start of the file.
    RewindFile,
    /// Write the encoded counters.
    WriteFile,
    /// Flush the file.
    FlushFile,
    /// The update is done.
    Finished,
    /// The update has failed.
    Aborted,
}

/// The outcome of a stage.
#[derive(Debug)]
pub enum CounterEvent {
    /// Whether the directory exists.
    Present(bool),
    /// It was done.
    Done,
    /// It failed, for the given reason.
    Failed(String),
    /// What the file holds.
    Contents(String),
    /// The counters that the contents stand for.
    Parsed(CounterStore),
    /// The contents that stand for the counters.
    Encoded(String),
}

/// A [`CounterEvent`] by its values.
#[verifier::ext_equal]
pub enum CounterEventView {
    Present(bool),
    Done,
    Failed(Seq<char>),
    Contents(Seq<char>),
    Parsed(Map<Seq<char>, usize>),
    Encoded(Seq<char>),
}

impl View for CounterEvent {
    type V = CounterEventView;

    open spec fn view(&self) -> CounterEventView {
        match self {
            CounterEvent::Present(b) => CounterEventView::Present(*b),
            CounterEvent::Done => CounterEventView::Done,
            CounterEvent::Failed(e) => CounterEventView::Failed(e@),
            CounterEvent::Contents(c) => CounterEventView::Contents(c@),
            CounterEvent::Parsed(s) => CounterEventView::Parsed(s@),
            CounterEvent::Encoded(j) => CounterEventView::Encoded(j@),
        }
    }
}

/// An update of the counter file.
#[derive(Debug)]
pub struct Transaction {
    /// What is to happen.
    pub request: CounterRequest,
    /// Whose counter it is about.
    pub user: String,
    /// What is to be done next.
    pub stage: CounterStage,
    /// What the file held, once it was read.
    pub contents: String,
    /// The counters: those after the update, once they were read.
    pub store: CounterStore,
    /// What the file is to hold, once it was encoded.
    pub encoded: String,
}

/// A [`Transaction`] by its values.
#[verifier::ext_equal]
pub struct TransactionView {
    pub request: CounterRequest,
    pub user: Seq<char>,
    pub stage: CounterStage,
    pub contents: Seq<char>,
    pub store: Map<Seq<char>, usize>,
    pub encoded: Seq<char>,
}

impl View for Transaction {
    type V = TransactionView;

    open spec fn view(&self) -> TransactionView {
        TransactionView {
            request: self.request,
            user: self.user@,
            stage: self.stage,
            contents: self.contents@,
            store: self.store@,
            encoded: self.encoded@,
        }
    }
}

/// The text in an optional message.
pub open spec fn message_of(m: Option<String>) -> Option<Seq<char>> {
    match m {
        Some(s) => Some(s@),
        None => None,
    }
}

/// The counters after the requested update.
pub open spec fn updated(
    request: CounterRequest,
    store: Map<Seq<char>, usize>,
    user: Seq<char>,
) -> Map<Seq<char>, usize> {
    match request {
        CounterRequest::Decrement => crate::counter::decremented(store, user),
        CounterRequest::Reset => crate::counter::recharged(store, user),
    }
}

/// The requested update as a function of the counters.
pub open spec fn updating(request: CounterRequest, user: Seq<char>) -> spec_fn(
    Map<Seq<char>, usize>,
) -> Map<Seq<char>, usize> {
    |store: Map<Seq<char>, usize>| updated(request, store, user)
}

/// The update that changes nothing.
pub open spec fn unchanged() -> spec_fn(Map<Seq<char>, usize>) -> Map<Seq<char>, usize> {
    |store: Map<Seq<char>, usize>| store
}

/// The update that comes to the given counters, whatever they were.
pub open spec fn always(after: Map<Seq<char>, usize>) -> spec_fn(Map<Seq<char>, usize>) -> Map<
    Seq<char>,
    usize,
> {
    |store: Map<Seq<char>, usize>| after
}

/// Two updates, one after the other.
pub open spec fn in_turn(
    first: spec_fn(Map<Seq<char>, usize>) -> Map<Seq<char>, usize>,
    second: spec_fn(Map<Seq<char>, usize>) -> Map<Seq<char>, usize>,
) -> spec_fn(Map<Seq<char>, usize>) -> Map<Seq<char>, usize> {
    |store: Map<Seq<char>, usize>| second(first(store))
}

/// A transaction that has not begun.
pub open spec fn transaction_start(request: CounterRequest, user: Seq<char>) -> TransactionView {
    TransactionView {
        request,
        user,
        stage: CounterStage::ProbeDirectory,
        contents: Seq::empty(),
        store: Map::empty(),
        encoded: Seq::empty(),
    }
}

/// The transaction at another stage, with nothing to report.
pub open spec fn at_stage(t: TransactionView, stage: CounterStage) -> (
    TransactionView,
    Option<Seq<char>>,
) {
    (TransactionView { stage, ..t }, None)
}

/// The transaction given up, with the reason.
pub open spec fn aborted(t: TransactionView, what: Seq<char>, reason: Seq<char>) -> (
    TransactionView,
    Option<Seq<char>>,
) {
    (
        TransactionView { stage: CounterStage::Aborted, ..t },
        Some(what + ": "@ + reason),
    )
}

/// The transaction with the update made to `store`.
pub open spec fn with_update(
    t: TransactionView,
    update: spec_fn(Map<Seq<char>, usize>) -> Map<Seq<char>, usize>,
    store: Map<Seq<char>, usize>,
) -> TransactionView {
    TransactionView { stage: CounterStage::EncodeStore, store: update(store), ..t }
}

/// The warning that the file did not hold counters.
pub open spec fn corrupt_warning(reason: Seq<char>) -> Seq<char> {
    "warning: corrupt counter file ("@ + reason + "), resetting"@
}

/// Whether nothing is left to be done.
pub open spec fn is_over(stage: CounterStage) -> bool {
    stage == CounterStage::Finished || stage == CounterStage::Aborted
}

/// Where a transaction that makes the given update goes on an event, and what is
/// to be reported.
///
/// An event that does not belong to the stage aborts the transaction.
pub open spec fn counter_step(
    update: spec_fn(Map<Seq<char>, usize>) -> Map<Seq<char>, usize>,
    t: TransactionView,
    e: CounterEventView,
) -> (TransactionView, Option<Seq<char>>) {
    if is_over(t.stage) {
        (t, None)
    } else {
        match (t.stage, e) {
            (CounterStage::ProbeDirectory, CounterEventView::Present(b)) => at_stage(
                t,
                if b {
                    CounterStage::OpenFile
                } else {
                    CounterStage::CreateDirectory
                },
            ),
            (CounterStage::CreateDirectory, CounterEventView::Done) => at_stage(
                t,
                CounterStage::OpenFile,
            ),
            (CounterStage::CreateDirectory, CounterEventView::Failed(r)) => aborted(
                t,
                "failed to create counter directory '"@ + COUNTER_DIR@ + "'"@,
                r,
            ),
            (CounterStage::OpenFile, CounterEventView::Done) => at_stage(t, CounterStage::LockFile),
            (CounterStage::OpenFile, CounterEventView::Failed(r)) => aborted(
                t,
                "failed to open counter file '"@ + COUNTER_PATH@ + "'"@,
                r,
            ),
            (CounterStage::LockFile, CounterEventView::Done) => at_stage(t, CounterStage::ReadFile),
            (CounterStage::LockFile, CounterEventView::Failed(r)) => aborted(
                t,
                "failed to lock counter file '"@ + COUNTER_PATH@ + "'"@,
                r,
            ),
            (CounterStage::ReadFile, CounterEventView::Contents(c)) => if c.len() == 0 {
                (with_update(t, update, Map::empty()), None)
            } else {
                (TransactionView { stage: CounterStage::ParseContents, contents: c, ..t }, None)
            },
            (CounterStage::ReadFile, CounterEventView::Failed(r)) => (
                with_update(t, update, Map::empty()),
                Some(corrupt_warning(r)),
            ),
            (CounterStage::ParseContents, CounterEventView::Parsed(s)) => (
                with_update(t, update, s),
                None,
            ),
            (CounterStage::ParseContents, CounterEventView::Failed(r)) => (
                with_update(t, update, Map::empty()),
                Some(corrupt_warning(r)),
            ),
            (CounterStage::EncodeStore, CounterEventView::Encoded(j)) => (
                TransactionView { stage: CounterStage::TruncateFile, encoded: j, ..t },
                None,
            ),
            (CounterStage::EncodeStore, CounterEventView::Failed(r)) => aborted(
                t,
                "failed to serialise counter data"@,
                r,
            ),
            (CounterStage::TruncateFile, CounterEventView::Done) => at_stage(
                t,
                CounterStage::RewindFile,
            ),
            (CounterStage::TruncateFile, CounterEventView::Failed(r)) => aborted(
                t,
                "failed to truncate counter file"@,
                r,
            ),
            (CounterStage::RewindFile, CounterEventView::Done) => at_stage(
                t,
                CounterStage::WriteFile,
            ),
            (CounterStage::RewindFile, CounterEventView::Failed(r)) => aborted(
                t,
                "failed to seek in counter file"@,
                r,
            ),
            (CounterStage::WriteFile, CounterEventView::Done) => at_stage(
                t,
                CounterStage::FlushFile,
            ),
            (CounterStage::WriteFile, CounterEventView::Failed(r)) => aborted(
                t,
                "failed to write counter file"@,
                r,
            ),
            (CounterStage::FlushFile, CounterEventView::Done) => at_stage(
                t,
                CounterStage::Finished,
            ),
            (CounterStage::FlushFile, CounterEventView::Failed(r)) => aborted(
                t,
                "failed to flush counter file"@,
                r,
            ),
            _ => aborted(t, "counter update"@, "unexpected event"@),
        }
    }
}

/// Where a transaction goes on an event, and what is to be reported.
pub open spec fn counter_next(t: TransactionView, e: CounterEventView) -> (
    TransactionView,
    Option<Seq<char>>,
) {
    counter_step(updating(t.request, t.user), t, e)
}

/// Whether `update` does to a store what `f` does to the counters in it.
pub open spec fn makes<F: FnOnce(CounterStore) -> CounterStore>(
    update: F,
    f: spec_fn(Map<Seq<char>, usize>) -> Map<Seq<char>, usize>,
) -> bool {
    forall|before: CounterStore, after: CounterStore| #[trigger]
        call_ensures(update, (before,), after) ==> after@ == f(before@)
}

impl Transaction {
    /// A transaction that has not begun.
    pub fn new(request: CounterRequest, user: &str) -> (r: Transaction)
        ensures
            r@ == transaction_start(request, user@),
    {
        Transaction {
            request,
            user: user.to_owned(),
            stage: CounterStage::ProbeDirectory,
            contents: String::new(),
            store: CounterStore::new(),
            encoded: String::new(),
        }
    }

    fn to(self, stage: CounterStage) -> (r: (Transaction, Option<String>))
        ensures
            (r.0@, message_of(r.1)) == at_stage(self@, stage),
    {
        let mut t = self;
        t.stage = stage;
        (t, None)
    }

    fn abort(self, what: &str, reason: &str) -> (r: (Transaction, Option<String>))
        ensures
            (r.0@, message_of(r.1)) == aborted(self@, what@, reason@),
    {
        let mut t = self;
        t.stage = CounterStage::Aborted;
        (t, Some(what.to_owned().concat(": ").concat(reason)))
    }

    fn update<F: FnOnce(CounterStore) -> CounterStore>(self, update: F, store: CounterStore) -> (r:
        Transaction)
        requires
            call_requires(update, (store,)),
        ensures
            forall|f: spec_fn(Map<Seq<char>, usize>) -> Map<Seq<char>, usize>| #[trigger]
                makes(update, f) ==> r@ == with_update(self@, f, store@),
            r@ == with_update(self@, always(r@.store), store@),
    {
        let mut t = self;
        t.store = update(store);
        t.stage = CounterStage::EncodeStore;
        t
    }

    /// The uses that are left to the user after the update.
    pub fn result(&self) -> (r: usize)
        ensures
            r == crate::counter::remaining_of(self@.store, self@.user),
    {
        match self.store.get(self.user.as_str()) {
            Some(n) => n,
            None => crate::counter::EXTEND_LIMIT,
        }
    }
}

fn corrupt(reason: &str) -> (r: String)
    ensures
        r@ == corrupt_warning(reason@),
{
    "warning: corrupt counter file (".to_owned().concat(reason).concat("), resetting")
}

/// `prefix`, then `path` in quotes.
fn quoted(prefix: &str, path: &str) -> (r: String)
    ensures
        r@ == prefix@ + path@ + "'"@,
{
    prefix.to_owned().concat(path).concat("'")
}

/// Moves a transaction on by the outcome of its stage, with `update` as what is
/// done to the counters once they were read. The second part of the result is a
/// warning for the user or, where the transaction has been aborted, the reason.
///
/// Where `update` is a function of the counters, the result is the step with that
/// function; whatever it is, everything but the counters is settled.
pub fn with_counter_by<F: FnOnce(CounterStore) -> CounterStore>(
    t: Transaction,
    event: CounterEvent,
    update: F,
) -> (r: (Transaction, Option<String>))
    requires
        forall|store: CounterStore| call_requires(update, (store,)),
    ensures
        forall|f: spec_fn(Map<Seq<char>, usize>) -> Map<Seq<char>, usize>| #[trigger]
            makes(update, f) ==> (r.0@, message_of(r.1)) == counter_step(f, t@, event@),
        (r.0@, message_of(r.1)) == counter_step(always(r.0@.store), t@, event@),
{
    match (t.stage, event) {
        (CounterStage::Finished, _) => (t, None),
        (CounterStage::Aborted, _) => (t, None),
        (CounterStage::ProbeDirectory, CounterEvent::Present(b)) => if b {
            t.to(CounterStage::OpenFile)
        } else {
            t.to(CounterStage::CreateDirectory)
        },
        (CounterStage::CreateDirectory, CounterEvent::Done) => t.to(CounterStage::OpenFile),
        (CounterStage::CreateDirectory, CounterEvent::Failed(e)) => {
            t.abort(
                quoted("failed to create counter directory '", COUNTER_DIR).as_str(),
                e.as_str(),
            )
        },
        (CounterStage::OpenFile, CounterEvent::Done) => t.to(CounterStage::LockFile),
        (CounterStage::OpenFile, CounterEvent::Failed(e)) => {
            t.abort(quoted("failed to open counter file '", COUNTER_PATH).as_str(), e.as_str())
        },
        (CounterStage::LockFile, CounterEvent::Done) => t.to(CounterStage::ReadFile),
        (CounterStage::LockFile, CounterEvent::Failed(e)) => {
            t.abort(quoted("failed to lock counter file '", COUNTER_PATH).as_str(), e.as_str())
        },
        (CounterStage::ReadFile, CounterEvent::Contents(c)) => if c.as_str().is_empty() {
            (t.update(update, CounterStore::new()), None)
        } else {
            let mut u = t;
            u.contents = c;
            u.to(CounterStage::ParseContents)
        },
        (CounterStage::ReadFile, CounterEvent::Failed(e)) => {
            (t.update(update, CounterStore::new()), Some(corrupt(e.as_str())))
        },
        (CounterStage::ParseContents, CounterEvent::Parsed(s)) => (t.update(update, s), None),
        (CounterStage::ParseContents, CounterEvent::Failed(e)) => {
            (t.update(update, CounterStore::new()), Some(corrupt(e.as_str())))
        },
        (CounterStage::EncodeStore, CounterEvent::Encoded(j)) => {
            let mut u = t;
            u.encoded = j;
            u.to(CounterStage::TruncateFile)
        },
        (CounterStage::EncodeStore, CounterEvent::Failed(e)) => t.abort(
            "failed to serialise counter data",
            e.as_str(),
        ),
        (CounterStage::TruncateFile, CounterEvent::Done) => t.to(CounterStage::RewindFile),
        (CounterStage::TruncateFile, CounterEvent::Failed(e)) => t.abort(
            "failed to truncate counter file",
            e.as_str(),
        ),
        (CounterStage::RewindFile, CounterEvent::Done) => t.to(CounterStage::WriteFile),
        (CounterStage::RewindFile, CounterEvent::Failed(e)) => t.abort(
            "failed to seek in counter file",
            e.as_str(),
        ),
        (CounterStage::WriteFile, CounterEvent::Done) => t.to(CounterStage::FlushFile),
        (CounterStage::WriteFile, CounterEvent::Failed(e)) => t.abort(
            "failed to write counter file",
            e.as_str(),
        ),
        (CounterStage::FlushFile, CounterEvent::Done) => t.to(CounterStage::Finished),
        (CounterStage::FlushFile, CounterEvent::Failed(e)) => t.abort(
            "failed to flush counter file",
            e.as_str(),
        ),
        _ => t.abort("counter update", "unexpected event"),
    }
}

/// Moves a transaction on by the outcome of its stage: [`with_counter_by`], with
/// the update that the transaction is for.
pub fn with_counter(t: Transaction, event: CounterEvent) -> (r: (Transaction, Option<String>))
    ensures
        (r.0@, message_of(r.1)) == counter_next(t@, event@),
{
    let request = t.request;
    let user = t.user.clone();
    let update = |store: CounterStore| -> (after: CounterStore)
        ensures
            after@ == updated(request, store@, user@),
        {
            let mut s = store;
            match request {
                CounterRequest::Decrement => {
                    decrement_counter(&mut s, user.as_str());
                },
                CounterRequest::Reset => {
                    reset_counter(&mut s, user.as_str());
                },
            }
            s
        };
    proof {
        assert(makes(update, updating(t@.request, t@.user)));
    }
    with_counter_by(t, event, update)
}

/// A transaction that makes the given update, after a sequence of events.
pub open spec fn counter_run(
    update: spec_fn(Map<Seq<char>, usize>) -> Map<Seq<char>, usize>,
    start: TransactionView,
    events: Seq<CounterEventView>,
) -> TransactionView
    decreases events.len(),
{
    if events.len() == 0 {
        start
    } else {
        counter_step(update, counter_run(update, start, events.drop_last()), events.last()).0
    }
}

/// A transaction for the request, after a sequence of events.
pub open spec fn request_run(
    request: CounterRequest,
    user: Seq<char>,
    events: Seq<CounterEventView>,
) -> TransactionView {
    counter_run(updating(request, user), transaction_start(request, user), events)
}

/// Whether the outcome of `stage` was `event` at some point of the sequence.
#[verifier::opaque]
pub open spec fn passed(
    update: spec_fn(Map<Seq<char>, usize>) -> Map<Seq<char>, usize>,
    start: TransactionView,
    events: Seq<CounterEventView>,
    stage: CounterStage,
    event: CounterEventView,
) -> bool {
    exists|k: int|
        0 <= k < events.len() && #[trigger] events[k] == event && counter_run(
            update,
            start,
            events.take(k),
        ).stage == stage
}

/// The place of a stage in the order in which a transaction goes through them.
pub open spec fn rank(stage: CounterStage) -> nat {
    match stage {
        CounterStage::ProbeDirectory => 0,
        CounterStage::CreateDirectory => 1,
        CounterStage::OpenFile => 2,
        CounterStage::LockFile => 3,
        CounterStage::ReadFile => 4,
        CounterStage::ParseContents => 5,
        CounterStage::EncodeStore => 6,
        CounterStage::TruncateFile => 7,
        CounterStage::RewindFile => 8,
        CounterStage::WriteFile => 9,
        CounterStage::FlushFile => 10,
        CounterStage::Finished => 11,
        CounterStage::Aborted => 12,
    }
}

/// Every event takes a transaction to a later stage, until it is over; it is
/// over after at most as many events as there are stages.
pub proof fn lemma_transaction_ends(
    update: spec_fn(Map<Seq<char>, usize>) -> Map<Seq<char>, usize>,
    start: TransactionView,
    events: Seq<CounterEventView>,
)
    ensures
        is_over(counter_run(update, start, events).stage) || rank(
            counter_run(update, start, events).stage,
        ) >= rank(start.stage) + events.len(),
        events.len() >= rank(CounterStage::Finished) ==> is_over(
            counter_run(update, start, events).stage,
        ),
    decreases events.len(),
{
    if events.len() > 0 {
        lemma_transaction_ends(update, start, events.drop_last());
    }
}

/// A transaction keeps its request and its user, so the events that are handed to
/// [`with_counter`] one by one make one run.
pub proof fn lemma_steps_make_a_run(
    request: CounterRequest,
    user: Seq<char>,
    events: Seq<CounterEventView>,
    event: CounterEventView,
)
    ensures
        request_run(request, user, events).request == request,
        request_run(request, user, events).user == user,
        request_run(request, user, events.push(event)) == counter_next(
            request_run(request, user, events),
            event,
        ).0,
    decreases events.len(),
{
    if events.len() > 0 {
        lemma_steps_make_a_run(request, user, events.drop_last(), events.last());
        assert(events.drop_last().push(events.last()) =~= events);
    }
    assert(events.push(event).drop_last() =~= events);
}

proof fn lemma_passed_stays(
    update: spec_fn(Map<Seq<char>, usize>) -> Map<Seq<char>, usize>,
    start: TransactionView,
    events: Seq<CounterEventView>,
    stage: CounterStage,
    event: CounterEventView,
)
    requires
        events.len() > 0,
        passed(update, start, events.drop_last(), stage, event),
    ensures
        passed(update, start, events, stage, event),
{
    reveal(passed);
    let front = events.drop_last();
    let k = choose|k: int|
        0 <= k < front.len() && #[trigger] front[k] == event && counter_run(
            update,
            start,
            front.take(k),
        ).stage == stage;
    assert(front.take(k) =~= events.take(k));
    assert(events[k] == event);
}

proof fn lemma_passes_last(
    update: spec_fn(Map<Seq<char>, usize>) -> Map<Seq<char>, usize>,
    start: TransactionView,
    events: Seq<CounterEventView>,
)
    requires
        events.len() > 0,
    ensures
        passed(
            update,
            start,
            events,
            counter_run(update, start, events.drop_last()).stage,
            events.last(),
        ),
{
    reveal(passed);
    let k = events.len() - 1;
    assert(events.take(k) =~= events.drop_last());
    assert(events[k] == events.last());
}

/// The counters that were read from the file: those that its contents stood
/// for, or none where it was empty, could not be read or did not hold counters.
pub open spec fn was_read(
    update: spec_fn(Map<Seq<char>, usize>) -> Map<Seq<char>, usize>,
    start: TransactionView,
    events: Seq<CounterEventView>,
    store: Map<Seq<char>, usize>,
) -> bool {
    ||| passed(update, start, events, CounterStage::ParseContents, CounterEventView::Parsed(store))
    ||| store == Map::<Seq<char>, usize>::empty() && read_nothing(update, start, events)
}

/// The file was empty, could not be read or did not hold counters.
pub open spec fn read_nothing(
    update: spec_fn(Map<Seq<char>, usize>) -> Map<Seq<char>, usize>,
    start: TransactionView,
    events: Seq<CounterEventView>,
) -> bool {
    let empty = CounterEventView::Contents(Seq::empty());
    ||| passed(update, start, events, CounterStage::ReadFile, empty)
    ||| exists|r: Seq<char>|
        passed(update, start, events, CounterStage::ReadFile, CounterEventView::Failed(r))
    ||| exists|r: Seq<char>|
        passed(update, start, events, CounterStage::ParseContents, CounterEventView::Failed(r))
}

/// The counters that a transaction for the request read from the file.
pub open spec fn request_read(
    request: CounterRequest,
    user: Seq<char>,
    events: Seq<CounterEventView>,
    store: Map<Seq<char>, usize>,
) -> bool {
    was_read(updating(request, user), transaction_start(request, user), events, store)
}

proof fn lemma_read_nothing_stays(
    update: spec_fn(Map<Seq<char>, usize>) -> Map<Seq<char>, usize>,
    start: TransactionView,
    events: Seq<CounterEventView>,
)
    requires
        events.len() > 0,
        read_nothing(update, start, events.drop_last()),
    ensures
        read_nothing(update, start, events),
{
    let front = events.drop_last();
    let read = CounterStage::ReadFile;
    let parse = CounterStage::ParseContents;
    let empty = CounterEventView::Contents(Seq::empty());
    if passed(update, start, front, read, empty) {
        lemma_passed_stays(update, start, events, read, empty);
    } else if exists|r: Seq<char>| passed(update, start, front, read, CounterEventView::Failed(r)) {
        let r = choose|r: Seq<char>|
            passed(update, start, front, read, CounterEventView::Failed(r));
        lemma_passed_stays(update, start, events, read, CounterEventView::Failed(r));
    } else {
        let r = choose|r: Seq<char>|
            passed(update, start, front, parse, CounterEventView::Failed(r));
        lemma_passed_stays(update, start, events, parse, CounterEventView::Failed(r));
    }
}

/// The file is locked before it is read or changed, it is changed only after
/// its new contents were encoded, and what they encode is the update of the
/// counters that were read.
#[verifier::rlimit(40)]
pub proof fn lemma_file_changes_are_safe(
    update: spec_fn(Map<Seq<char>, usize>) -> Map<Seq<char>, usize>,
    start: TransactionView,
    events: Seq<CounterEventView>,
)
    requires
        start.stage == CounterStage::ProbeDirectory,
    ensures
        ({
            let t = counter_run(update, start, events);
            &&& rank(t.stage) >= rank(CounterStage::ReadFile) && t.stage
                != CounterStage::Aborted ==> passed(
                update,
                start,
                events,
                CounterStage::LockFile,
                CounterEventView::Done,
            )
            &&& rank(t.stage) >= rank(CounterStage::EncodeStore) && t.stage
                != CounterStage::Aborted ==> exists|
                store: Map<Seq<char>, usize>,
            | #[trigger]
                was_read(update, start, events, store) && t.store == update(store)
            &&& rank(t.stage) >= rank(CounterStage::TruncateFile) && t.stage
                != CounterStage::Aborted ==> passed(
                update,
                start,
                events,
                CounterStage::EncodeStore,
                CounterEventView::Encoded(t.encoded),
            )
        }),
    decreases events.len(),
{
    let t = counter_run(update, start, events);
    if events.len() > 0 {
        let front = events.drop_last();
        let before = counter_run(update, start, front);
        let e = events.last();
        lemma_file_changes_are_safe(update, start, front);
        lemma_passes_last(update, start, events);
        if t.stage != CounterStage::Aborted {
            if rank(before.stage) >= rank(CounterStage::ReadFile) {
                lemma_passed_stays(
                    update,
                    start,
                    events,
                    CounterStage::LockFile,
                    CounterEventView::Done,
                );
            }
            if rank(before.stage) >= rank(CounterStage::EncodeStore) {
                let store = choose|store: Map<Seq<char>, usize>| #[trigger]
                    was_read(update, start, front, store) && before.store == update(store);
                let parsed = CounterEventView::Parsed(store);
                if passed(update, start, front, CounterStage::ParseContents, parsed) {
                    lemma_passed_stays(update, start, events, CounterStage::ParseContents, parsed);
                } else {
                    lemma_read_nothing_stays(update, start, events);
                }
                assert(was_read(update, start, events, store));
            } else if rank(t.stage) >= rank(CounterStage::EncodeStore) {
                match e {
                    CounterEventView::Parsed(store) => {
                        assert(was_read(update, start, events, store));
                    },
                    CounterEventView::Contents(c) => {
                        assert(c =~= Seq::<char>::empty());
                        assert(was_read(update, start, events, Map::empty()));
                    },
                    _ => {
                        assert(read_nothing(update, start, events));
                        assert(was_read(update, start, events, Map::empty()));
                    },
                }
            }
            if rank(before.stage) >= rank(CounterStage::TruncateFile) {
                lemma_passed_stays(
                    update,
                    start,
                    events,
                    CounterStage::EncodeStore,
                    CounterEventView::Encoded(before.encoded),
                );
            }
        }
    }
}

/// Once the update was made, the counters stay as they are.
proof fn lemma_update_stays(
    update: spec_fn(Map<Seq<char>, usize>) -> Map<Seq<char>, usize>,
    start: TransactionView,
    events: Seq<CounterEventView>,
    k: int,
)
    requires
        0 <= k <= events.len(),
        rank(counter_run(update, start, events.take(k)).stage) >= rank(CounterStage::EncodeStore),
    ensures
        rank(counter_run(update, start, events).stage) >= rank(CounterStage::EncodeStore),
        counter_run(update, start, events).store == counter_run(
            update,
            start,
            events.take(k),
        ).store,
    decreases events.len(),
{
    if k == events.len() {
        assert(events.take(k) =~= events);
    } else {
        assert(events.drop_last().take(k) =~= events.take(k));
        lemma_update_stays(update, start, events.drop_last(), k);
    }
}

/// Where an event at a place of the sequence made the update to `store`, the
/// counters are the update of it.
proof fn lemma_update_at(
    update: spec_fn(Map<Seq<char>, usize>) -> Map<Seq<char>, usize>,
    start: TransactionView,
    events: Seq<CounterEventView>,
    stage: CounterStage,
    event: CounterEventView,
    store: Map<Seq<char>, usize>,
)
    requires
        passed(update, start, events, stage, event),
        forall|t: TransactionView| #[trigger]
            counter_step(update, t, event).0 == with_update(t, update, store) || t.stage != stage,
    ensures
        counter_run(update, start, events).store == update(store),
{
    reveal(passed);
    let k = choose|k: int|
        0 <= k < events.len() && #[trigger] events[k] == event && counter_run(
            update,
            start,
            events.take(k),
        ).stage == stage;
    let before = counter_run(update, start, events.take(k));
    assert(events.take(k + 1).drop_last() =~= events.take(k));
    assert(counter_step(update, before, event).0 == with_update(before, update, store));
    lemma_update_stays(update, start, events, k + 1);
}

/// The counters that were read are the ones that are updated: whatever the update
/// is and whatever came after, the counters of the transaction are the update of
/// those that were read.
pub proof fn lemma_what_was_read_is_updated(
    update: spec_fn(Map<Seq<char>, usize>) -> Map<Seq<char>, usize>,
    start: TransactionView,
    events: Seq<CounterEventView>,
    store: Map<Seq<char>, usize>,
)
    requires
        was_read(update, start, events, store),
    ensures
        counter_run(update, start, events).store == update(store),
{
    let read = CounterStage::ReadFile;
    let parse = CounterStage::ParseContents;
    let empty = CounterEventView::Contents(Seq::empty());
    if passed(update, start, events, parse, CounterEventView::Parsed(store)) {
        lemma_update_at(update, start, events, parse, CounterEventView::Parsed(store), store);
    } else if passed(update, start, events, read, empty) {
        lemma_update_at(update, start, events, read, empty, store);
    } else if exists|r: Seq<char>| passed(update, start, events, read, CounterEventView::Failed(r)) {
        let r = choose|r: Seq<char>|
            passed(update, start, events, read, CounterEventView::Failed(r));
        lemma_update_at(update, start, events, read, CounterEventView::Failed(r), store);
    } else {
        let r = choose|r: Seq<char>|
            passed(update, start, events, parse, CounterEventView::Failed(r));
        lemma_update_at(update, start, events, parse, CounterEventView::Failed(r), store);
    }
}

/// An update that changes nothing leaves the counters as they were read.
pub proof fn lemma_no_change_keeps_the_counters(
    start: TransactionView,
    events: Seq<CounterEventView>,
    store: Map<Seq<char>, usize>,
)
    requires
        was_read(unchanged(), start, events, store),
    ensures
        counter_run(unchanged(), start, events).store == store,
{
    lemma_what_was_read_is_updated(unchanged(), start, events, store);
}

/// Two updates in a row add up, whatever they are: where the second reads the
/// counters that the first came to, it is made to what the first left, and comes
/// to what one transaction comes to that reads what the first had read and makes
/// both updates, one after the other.
pub proof fn lemma_updates_add_up(
    first: spec_fn(Map<Seq<char>, usize>) -> Map<Seq<char>, usize>,
    first_start: TransactionView,
    first_events: Seq<CounterEventView>,
    second: spec_fn(Map<Seq<char>, usize>) -> Map<Seq<char>, usize>,
    second_start: TransactionView,
    second_events: Seq<CounterEventView>,
    both_start: TransactionView,
    both_events: Seq<CounterEventView>,
    store: Map<Seq<char>, usize>,
)
    requires
        was_read(first, first_start, first_events, store),
        was_read(
            second,
            second_start,
            second_events,
            counter_run(first, first_start, first_events).store,
        ),
        was_read(in_turn(first, second), both_start, both_events, store),
    ensures
        counter_run(first, first_start, first_events).store == first(store),
        counter_run(second, second_start, second_events).store == second(first(store)),
        counter_run(in_turn(first, second), both_start, both_events).store == counter_run(
            second,
            second_start,
            second_events,
        ).store,
{
    lemma_what_was_read_is_updated(first, first_start, first_events, store);
    lemma_what_was_read_is_updated(second, second_start, second_events, first(store));
    lemma_what_was_read_is_updated(in_turn(first, second), both_start, both_events, store);
}

/// Two requests in a row add up: where the second reads the counters that the
/// first came to, it comes to both updates of the counters that the first had
/// read.
pub proof fn lemma_requests_add_up(
    first: CounterRequest,
    first_user: Seq<char>,
    first_events: Seq<CounterEventView>,
    second: CounterRequest,
    second_user: Seq<char>,
    second_events: Seq<CounterEventView>,
    store: Map<Seq<char>, usize>,
)
    requires
        request_read(first, first_user, first_events, store),
        request_read(
            second,
            second_user,
            second_events,
            request_run(first, first_user, first_events).store,
        ),
    ensures
        request_run(second, second_user, second_events).store == updated(
            second,
            updated(first, store, first_user),
            second_user,
        ),
{
    lemma_what_was_read_is_updated(
        updating(first, first_user),
        transaction_start(first, first_user),
        first_events,
        store,
    );
    lemma_what_was_read_is_updated(
        updating(second, second_user),
        transaction_start(second, second_user),
        second_events,
        request_run(first, first_user, first_events).store,
    );
}

/// Requests for different users can be made in either order.
pub proof fn lemma_requests_of_two_users_commute(
    one: CounterRequest,
    one_user: Seq<char>,
    other: CounterRequest,
    other_user: Seq<char>,
    store: Map<Seq<char>, usize>,
)
    requires
        one_user != other_user,
    ensures
        updated(other, updated(one, store, one_user), other_user) == updated(
            one,
            updated(other, store, other_user),
            one_user,
        ),
{
    lemma_updates_of_two_users_commute(store, one_user, other_user);
    lemma_updates_of_two_users_commute(store, other_user, one_user);
}

/// The counters after the given uses by `user`, one transaction each.
pub open spec fn counters_after(
    store: Map<Seq<char>, usize>,
    user: Seq<char>,
    uses: Seq<Seq<CounterEventView>>,
) -> Map<Seq<char>, usize> {
    if uses.len() == 0 {
        store
    } else {
        request_run(CounterRequest::Decrement, user, uses.last()).store
    }
}

/// Whether the given uses by `user` followed each other: the first read `store`,
/// and every other one read what the one before it came to.
pub open spec fn in_a_row(
    store: Map<Seq<char>, usize>,
    user: Seq<char>,
    uses: Seq<Seq<CounterEventView>>,
) -> bool
    decreases uses.len(),
{
    uses.len() > 0 ==> {
        &&& in_a_row(store, user, uses.drop_last())
        &&& request_read(
            CounterRequest::Decrement,
            user,
            uses.last(),
            counters_after(store, user, uses.drop_last()),
        )
    }
}

/// Uses that follow each other are taken from the counter one by one.
pub proof fn lemma_uses_in_a_row(
    store: Map<Seq<char>, usize>,
    user: Seq<char>,
    uses: Seq<Seq<CounterEventView>>,
)
    requires
        in_a_row(store, user, uses),
    ensures
        counters_after(store, user, uses) == crate::counter::decremented_times(
            store,
            user,
            uses.len(),
        ),
    decreases uses.len(),
{
    if uses.len() > 0 {
        let front = uses.drop_last();
        lemma_uses_in_a_row(store, user, front);
        lemma_what_was_read_is_updated(
            updating(CounterRequest::Decrement, user),
            transaction_start(CounterRequest::Decrement, user),
            uses.last(),
            counters_after(store, user, front),
        );
    }
}

/// The stage that a success leads to.
pub open spec fn follows(stage: CounterStage, next: CounterStage) -> bool {
    match stage {
        CounterStage::CreateDirectory => next == CounterStage::OpenFile,
        CounterStage::OpenFile => next == CounterStage::LockFile,
        CounterStage::LockFile => next == CounterStage::ReadFile,
        CounterStage::TruncateFile => next == CounterStage::RewindFile,
        CounterStage::RewindFile => next == CounterStage::WriteFile,
        CounterStage::WriteFile => next == CounterStage::FlushFile,
        CounterStage::FlushFile => next == CounterStage::Finished,
        _ => false,
    }
}

/// A step that succeeds leads to the next stage, with nothing to report, and
/// changes nothing but what it brings: the contents that were read, the update of
/// the counters that they stand for, the contents that were encoded. The directory
/// is created where there is none, and an empty file is not parsed.
pub proof fn lemma_successes_lead_on(
    update: spec_fn(Map<Seq<char>, usize>) -> Map<Seq<char>, usize>,
    t: TransactionView,
    next: CounterStage,
    text: Seq<char>,
    store: Map<Seq<char>, usize>,
)
    ensures
        t.stage == CounterStage::ProbeDirectory ==> counter_step(
            update,
            t,
            CounterEventView::Present(true),
        ) == (TransactionView { stage: CounterStage::OpenFile, ..t }, None::<Seq<char>>),
        t.stage == CounterStage::ProbeDirectory ==> counter_step(
            update,
            t,
            CounterEventView::Present(false),
        ) == (TransactionView { stage: CounterStage::CreateDirectory, ..t }, None::<Seq<char>>),
        follows(t.stage, next) ==> counter_step(update, t, CounterEventView::Done) == (
            TransactionView { stage: next, ..t },
            None::<Seq<char>>,
        ),
        t.stage == CounterStage::ReadFile && text.len() > 0 ==> counter_step(
            update,
            t,
            CounterEventView::Contents(text),
        ) == (
            TransactionView { stage: CounterStage::ParseContents, contents: text, ..t },
            None::<Seq<char>>,
        ),
        t.stage == CounterStage::ReadFile ==> counter_step(
            update,
            t,
            CounterEventView::Contents(Seq::empty()),
        ) == (
            TransactionView {
                stage: CounterStage::EncodeStore,
                store: update(Map::empty()),
                ..t
            },
            None::<Seq<char>>,
        ),
        t.stage == CounterStage::ParseContents ==> counter_step(
            update,
            t,
            CounterEventView::Parsed(store),
        ) == (
            TransactionView { stage: CounterStage::EncodeStore, store: update(store), ..t },
            None::<Seq<char>>,
        ),
        t.stage == CounterStage::EncodeStore ==> counter_step(
            update,
            t,
            CounterEventView::Encoded(text),
        ) == (
            TransactionView { stage: CounterStage::TruncateFile, encoded: text, ..t },
            None::<Seq<char>>,
        ),
{
}

/// A file that cannot be read or does not hold counters is no failure: the user is
/// warned, and the update is made to no counters at all.
pub proof fn lemma_corrupt_files_are_reset(
    update: spec_fn(Map<Seq<char>, usize>) -> Map<Seq<char>, usize>,
    t: TransactionView,
    reason: Seq<char>,
)
    requires
        t.stage == CounterStage::ReadFile || t.stage == CounterStage::ParseContents,
    ensures
        counter_step(update, t, CounterEventView::Failed(reason)) == (
            TransactionView {
                stage: CounterStage::EncodeStore,
                store: update(Map::empty()),
                ..t
            },
            Some("warning: corrupt counter file ("@ + reason + "), resetting"@),
        ),
{
}

/// Any other failure aborts the transaction, which keeps all that it holds, and is
/// reported with its reason.
pub proof fn lemma_failures_abort(
    update: spec_fn(Map<Seq<char>, usize>) -> Map<Seq<char>, usize>,
    t: TransactionView,
    reason: Seq<char>,
)
    ensures
        ({
            let (after, message) = counter_step(update, t, CounterEventView::Failed(reason));
            let dir = "failed to create counter directory '"@ + COUNTER_DIR@ + "'"@;
            let open = "failed to open counter file '"@ + COUNTER_PATH@ + "'"@;
            let lock = "failed to lock counter file '"@ + COUNTER_PATH@ + "'"@;
            &&& t.stage != CounterStage::ReadFile && t.stage != CounterStage::ParseContents
                && t.stage != CounterStage::Finished ==> after == (TransactionView {
                stage: CounterStage::Aborted,
                ..t
            })
            &&& t.stage == CounterStage::CreateDirectory ==> message == Some(
                dir + ": "@ + reason,
            )
            &&& t.stage == CounterStage::OpenFile ==> message == Some(open + ": "@ + reason)
            &&& t.stage == CounterStage::LockFile ==> message == Some(lock + ": "@ + reason)
            &&& t.stage == CounterStage::EncodeStore ==> message == Some(
                "failed to serialise counter data"@ + ": "@ + reason,
            )
            &&& t.stage == CounterStage::TruncateFile ==> message == Some(
                "failed to truncate counter file"@ + ": "@ + reason,
            )
            &&& t.stage == CounterStage::RewindFile ==> message == Some(
                "failed to seek in counter file"@ + ": "@ + reason,
            )
            &&& t.stage == CounterStage::WriteFile ==> message == Some(
                "failed to write counter file"@ + ": "@ + reason,
            )
            &&& t.stage == CounterStage::FlushFile ==> message == Some(
                "failed to flush counter file"@ + ": "@ + reason,
            )
        }),
{
}

/// Whether an event is an outcome that a stage can have.
pub open spec fn is_outcome_of(stage: CounterStage, event: CounterEventView) -> bool {
    match event {
        CounterEventView::Present(_) => stage == CounterStage::ProbeDirectory,
        CounterEventView::Done => exists|next: CounterStage| follows(stage, next),
        CounterEventView::Failed(_) => stage != CounterStage::ProbeDirectory,
        CounterEventView::Contents(_) => stage == CounterStage::ReadFile,
        CounterEventView::Parsed(_) => stage == CounterStage::ParseContents,
        CounterEventView::Encoded(_) => stage == CounterStage::EncodeStore,
    }
}

/// An event that is no outcome of the stage aborts the transaction; one that comes
/// when it is over changes nothing and is not reported.
pub proof fn lemma_events_out_of_place(
    update: spec_fn(Map<Seq<char>, usize>) -> Map<Seq<char>, usize>,
    t: TransactionView,
    event: CounterEventView,
)
    ensures
        t.stage == CounterStage::Finished || t.stage == CounterStage::Aborted ==> counter_step(
            update,
            t,
            event,
        ) == (t, None::<Seq<char>>),
        t.stage != CounterStage::Finished && t.stage != CounterStage::Aborted && !is_outcome_of(
            t.stage,
            event,
        ) ==> counter_step(update, t, event) == (
            TransactionView { stage: CounterStage::Aborted, ..t },
            Some("counter update"@ + ": "@ + "unexpected event"@),
        ),
{
    if event == CounterEventView::Done && !is_outcome_of(t.stage, event) {
        assert(!follows(t.stage, CounterStage::OpenFile));
        assert(!follows(t.stage, CounterStage::LockFile));
        assert(!follows(t.stage, CounterStage::ReadFile));
        assert(!follows(t.stage, CounterStage::RewindFile));
        assert(!follows(t.stage, CounterStage::WriteFile));
        assert(!follows(t.stage, CounterStage::FlushFile));
        assert(!follows(t.stage, CounterStage::Finished));
    }
}

proof fn lemma_run_push(
    update: spec_fn(Map<Seq<char>, usize>) -> Map<Seq<char>, usize>,
    start: TransactionView,
    events: Seq<CounterEventView>,
    event: CounterEventView,
)
    ensures
        counter_run(update, start, events.push(event)) == counter_step(
            update,
            counter_run(update, start, events),
            event,
        ).0,
{
    assert(events.push(event).drop_last() =~= events);
}

/// The events of a transaction that meets no failure, up to the reading of the
/// file, where the directory has to be created or not.
pub open spec fn opening(create: bool) -> Seq<CounterEventView> {
    if create {
        seq![
            CounterEventView::Present(false),
            CounterEventView::Done,
            CounterEventView::Done,
            CounterEventView::Done,
        ]
    } else {
        seq![CounterEventView::Present(true), CounterEventView::Done, CounterEventView::Done]
    }
}

/// The events of a transaction that meets no failure, after the reading.
pub open spec fn closing(json: Seq<char>) -> Seq<CounterEventView> {
    seq![
        CounterEventView::Encoded(json),
        CounterEventView::Done,
        CounterEventView::Done,
        CounterEventView::Done,
        CounterEventView::Done,
    ]
}

proof fn lemma_opening(
    update: spec_fn(Map<Seq<char>, usize>) -> Map<Seq<char>, usize>,
    start: TransactionView,
    create: bool,
)
    requires
        start.stage == CounterStage::ProbeDirectory,
    ensures
        counter_run(update, start, opening(create)) == (TransactionView {
            stage: CounterStage::ReadFile,
            ..start
        }),
{
    let none = Seq::<CounterEventView>::empty();
    let a = none.push(CounterEventView::Present(!create));
    lemma_run_push(update, start, none, CounterEventView::Present(!create));
    if create {
        let b = a.push(CounterEventView::Done);
        let c = b.push(CounterEventView::Done);
        lemma_run_push(update, start, a, CounterEventView::Done);
        lemma_run_push(update, start, b, CounterEventView::Done);
        lemma_run_push(update, start, c, CounterEventView::Done);
        assert(opening(create) =~= c.push(CounterEventView::Done));
    } else {
        let b = a.push(CounterEventView::Done);
        lemma_run_push(update, start, a, CounterEventView::Done);
        lemma_run_push(update, start, b, CounterEventView::Done);
        assert(opening(create) =~= b.push(CounterEventView::Done));
    }
}

proof fn lemma_closing(
    update: spec_fn(Map<Seq<char>, usize>) -> Map<Seq<char>, usize>,
    start: TransactionView,
    events: Seq<CounterEventView>,
    json: Seq<char>,
)
    requires
        counter_run(update, start, events).stage == CounterStage::EncodeStore,
    ensures
        counter_run(update, start, events + closing(json)) == (TransactionView {
            stage: CounterStage::Finished,
            encoded: json,
            ..counter_run(update, start, events)
        }),
{
    let a = events.push(CounterEventView::Encoded(json));
    let b = a.push(CounterEventView::Done);
    let c = b.push(CounterEventView::Done);
    let d = c.push(CounterEventView::Done);
    lemma_run_push(update, start, events, CounterEventView::Encoded(json));
    lemma_run_push(update, start, a, CounterEventView::Done);
    lemma_run_push(update, start, b, CounterEventView::Done);
    lemma_run_push(update, start, c, CounterEventView::Done);
    lemma_run_push(update, start, d, CounterEventView::Done);
    assert(events + closing(json) =~= d.push(CounterEventView::Done));
}

/// A transaction that meets no failure finishes, with the update of the counters
/// that the file held and with what they were encoded to: whatever the contents
/// are, whether or not the directory had to be created. A file that is empty,
/// cannot be read or does not hold counters counts as one without counters.
pub proof fn lemma_updates_succeed(
    update: spec_fn(Map<Seq<char>, usize>) -> Map<Seq<char>, usize>,
    start: TransactionView,
    create: bool,
    contents: Seq<char>,
    store: Map<Seq<char>, usize>,
    reason: Seq<char>,
    json: Seq<char>,
)
    requires
        start.stage == CounterStage::ProbeDirectory,
        contents.len() > 0,
    ensures
        ({
            let read = CounterEventView::Contents(contents);
            let empty = CounterEventView::Contents(Seq::empty());
            let failed = CounterEventView::Failed(reason);
            let parsed = CounterEventView::Parsed(store);
            let reset = TransactionView {
                stage: CounterStage::Finished,
                store: update(Map::empty()),
                encoded: json,
                ..start
            };
            &&& counter_run(update, start, opening(create) + seq![read, parsed] + closing(json))
                == (TransactionView {
                stage: CounterStage::Finished,
                contents,
                store: update(store),
                encoded: json,
                ..start
            })
            &&& counter_run(update, start, opening(create) + seq![empty] + closing(json)) == reset
            &&& counter_run(update, start, opening(create) + seq![failed] + closing(json))
                == reset
            &&& counter_run(update, start, opening(create) + seq![read, failed] + closing(json))
                == (TransactionView { contents, ..reset })
        }),
{
    let read = CounterEventView::Contents(contents);
    let empty = CounterEventView::Contents(Seq::empty());
    let failed = CounterEventView::Failed(reason);
    let parsed = CounterEventView::Parsed(store);
    let o = opening(create);
    lemma_opening(update, start, create);
    lemma_run_push(update, start, o, read);
    lemma_run_push(update, start, o.push(read), parsed);
    lemma_run_push(update, start, o.push(read), failed);
    lemma_run_push(update, start, o, empty);
    lemma_run_push(update, start, o, failed);
    assert(o + seq![read, parsed] =~= o.push(read).push(parsed));
    assert(o + seq![read, failed] =~= o.push(read).push(failed));
    assert(o + seq![empty] =~= o.push(empty));
    assert(o + seq![failed] =~= o.push(failed));
    lemma_closing(update, start, o + seq![read, parsed], json);
    lemma_closing(update, start, o + seq![read, failed], json);
    lemma_closing(update, start, o + seq![empty], json);
    lemma_closing(update, start, o + seq![failed], json);
}

/// What a request does: a use takes one from the counter of its user, unless it is
/// zero, and an authentication sets it to ten. The counters of the others stay.
pub proof fn lemma_requests(store: Map<Seq<char>, usize>, user: Seq<char>, n: usize)
    ensures
        n > 0 ==> updated(CounterRequest::Decrement, store.insert(user, n), user) == store.insert(
            user,
            (n - 1) as usize,
        ),
        updated(CounterRequest::Decrement, store.insert(user, 0), user) == store.insert(user, 0),
        updated(CounterRequest::Decrement, store.remove(user), user) == store.insert(user, 9),
        updated(CounterRequest::Reset, store, user) == store.insert(user, 10),
        updating(CounterRequest::Decrement, user)(store) == updated(
            CounterRequest::Decrement,
            store,
            user,
        ),
        updating(CounterRequest::Reset, user)(store) == updated(
            CounterRequest::Reset,
            store,
            user,
        ),
{
    let m = store.insert(user, n);
    assert(updated(CounterRequest::Decrement, m, user) =~= store.insert(
        user,
        if n > 0 {
            (n - 1) as usize
        } else {
            0
        },
    ));
    assert(updated(CounterRequest::Decrement, store.insert(user, 0), user) =~= store.insert(
        user,
        0,
    ));
    assert(updated(CounterRequest::Decrement, store.remove(user), user) =~= store.insert(user, 9));
}

/// A transaction begins with the directory, for the request and the user that it
/// was made for, and makes the update that was requested.
pub proof fn lemma_transactions_begin(
    request: CounterRequest,
    user: Seq<char>,
    t: TransactionView,
    event: CounterEventView,
)
    ensures
        transaction_start(request, user).stage == CounterStage::ProbeDirectory,
        transaction_start(request, user).request == request,
        transaction_start(request, user).user == user,
        transaction_start(request, user).contents.len() == 0,
        transaction_start(request, user).store == Map::<Seq<char>, usize>::empty(),
        transaction_start(request, user).encoded.len() == 0,
        t.request == request && t.user == user ==> counter_next(t, event) == counter_step(
            updating(request, user),
            t,
            event,
        ),
{
}

/// Events, messages and transactions stand for what they hold.
pub proof fn lemma_values_of_transactions(
    t: Transaction,
    b: bool,
    text: String,
    store: CounterStore,
)
    ensures
        CounterEvent::Present(b)@ == CounterEventView::Present(b),
        CounterEvent::Done@ == CounterEventView::Done,
        CounterEvent::Failed(text)@ == CounterEventView::Failed(text@),
        CounterEvent::Contents(text)@ == CounterEventView::Contents(text@),
        CounterEvent::Parsed(store)@ == CounterEventView::Parsed(store@),
        CounterEvent::Encoded(text)@ == CounterEventView::Encoded(text@),
        message_of(Some(text)) == Some(text@),
        message_of(None) is None,
        t@.request == t.request,
        t@.user == t.user@,
        t@.stage == t.stage,
        t@.contents == t.contents@,
        t@.store == t.store@,
        t@.encoded == t.encoded@,
{
}

/// An update makes a function of the counters where every store that it can come to
/// is that function of the store that it was given.
pub proof fn lemma_what_an_update_makes<F: FnOnce(CounterStore) -> CounterStore>(
    update: F,
    f: spec_fn(Map<Seq<char>, usize>) -> Map<Seq<char>, usize>,
)
    ensures
        makes(update, f) <==> forall|before: CounterStore, after: CounterStore| #[trigger]
            call_ensures(update, (before,), after) ==> after@ == f(before@),
{
}

} // verus!
