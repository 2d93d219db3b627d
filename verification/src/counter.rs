//! Counters of password-free uses.
//!
//! A user with an `extend` entry may run [`EXTEND_LIMIT`] commands without a
//! password; an authentication recharges the counter. The counters live in one
//! file, [`COUNTER_PATH`]; how it is updated is decided in
//! [`counter_file`](crate::counter_file).
use vstd::prelude::*;

use crate::text::same;

verus! {

/// Number of password-free invocations granted after an authentication.
pub const EXTEND_LIMIT: usize = 10;

/// Path of the file that keeps the counters.
pub const COUNTER_PATH: &'static str = "/var/lib/doit/counter.json";

/// Directory of [`COUNTER_PATH`].
pub const COUNTER_DIR: &'static str = "/var/lib/doit";

/// The map that a list of users and counts stands for; of two pairs with one
/// user the later counts.
pub open spec fn counts(entries: Seq<(String, usize)>) -> Map<Seq<char>, usize>
    decreases entries.len(),
{
    if entries.len() == 0 {
        Map::empty()
    } else {
        counts(entries.drop_last()).insert(entries.last().0@, entries.last().1)
    }
}

/// No user occurs twice.
pub open spec fn distinct_users(entries: Seq<(String, usize)>) -> bool {
    forall|i: int, j: int|
        0 <= i < j < entries.len() ==> #[trigger] entries[i].0@ != #[trigger] entries[j].0@
}

/// The uses that are left to `user`: all of them where no counter is kept.
pub open spec fn remaining_of(store: Map<Seq<char>, usize>, user: Seq<char>) -> usize {
    if store.dom().contains(user) {
        store[user]
    } else {
        EXTEND_LIMIT
    }
}

/// The counters after one more use by `user`.
pub open spec fn decremented(store: Map<Seq<char>, usize>, user: Seq<char>) -> Map<
    Seq<char>,
    usize,
> {
    let n = remaining_of(store, user);
    store.insert(user, if n > 0 { (n - 1) as usize } else { 0 })
}

/// The counters after `user` has authenticated.
pub open spec fn recharged(store: Map<Seq<char>, usize>, user: Seq<char>) -> Map<Seq<char>, usize> {
    store.insert(user, EXTEND_LIMIT)
}

/// The counters after `n` more uses by `user`.
pub open spec fn decremented_times(
    store: Map<Seq<char>, usize>,
    user: Seq<char>,
    n: nat,
) -> Map<Seq<char>, usize>
    decreases n,
{
    if n == 0 {
        store
    } else {
        decremented(decremented_times(store, user, (n - 1) as nat), user)
    }
}

proof fn lemma_counts(entries: Seq<(String, usize)>)
    ensures
        forall|u: Seq<char>| #[trigger]
            counts(entries).dom().contains(u) <==> exists|i: int|
                0 <= i < entries.len() && #[trigger] entries[i].0@ == u,
        distinct_users(entries) ==> forall|i: int|
            0 <= i < entries.len() ==> counts(entries)[#[trigger] entries[i].0@] == entries[i].1,
    decreases entries.len(),
{
    if entries.len() > 0 {
        let front = entries.drop_last();
        lemma_counts(front);
        let m = counts(entries);
        assert forall|u: Seq<char>| #[trigger] m.dom().contains(u) <==> exists|i: int|
            0 <= i < entries.len() && #[trigger] entries[i].0@ == u by {
            if m.dom().contains(u) {
                if u == entries.last().0@ {
                    assert(entries[entries.len() - 1].0@ == u);
                } else {
                    assert(counts(front).dom().contains(u));
                    let i = choose|i: int| 0 <= i < front.len() && #[trigger] front[i].0@ == u;
                    assert(entries[i].0@ == u);
                }
            }
            if exists|i: int| 0 <= i < entries.len() && #[trigger] entries[i].0@ == u {
                let i = choose|i: int| 0 <= i < entries.len() && #[trigger] entries[i].0@ == u;
                if i < front.len() {
                    assert(front[i].0@ == u);
                    assert(counts(front).dom().contains(u));
                }
            }
        }
        if distinct_users(entries) {
            assert forall|i: int, j: int| 0 <= i < j < front.len() implies #[trigger] front[i].0@
                != #[trigger] front[j].0@ by {
                assert(entries[i].0@ != entries[j].0@);
            }
            assert forall|i: int| 0 <= i < entries.len() implies m[#[trigger] entries[i].0@]
                == entries[i].1 by {
                if i < front.len() {
                    assert(front[i] == entries[i]);
                    assert(counts(front)[front[i].0@] == front[i].1);
                    assert(entries[i].0@ != entries[entries.len() - 1].0@);
                }
            }
        }
    }
}

/// Counters of the password-free uses that are left, by user.
#[derive(Debug)]
pub struct CounterStore {
    remaining: Vec<(String, usize)>,
}

impl View for CounterStore {
    type V = Map<Seq<char>, usize>;

    closed spec fn view(&self) -> Map<Seq<char>, usize> {
        counts(self.remaining@)
    }
}

impl CounterStore {
    #[verifier::type_invariant]
    spec fn well_formed(self) -> bool {
        distinct_users(self.remaining@)
    }

    /// A store that keeps no counter.
    pub fn new() -> (r: CounterStore)
        ensures
            r@ == Map::<Seq<char>, usize>::empty(),
    {
        CounterStore { remaining: Vec::new() }
    }

    /// A store with the given counters; of two pairs with one user the later counts.
    pub fn from_entries(entries: Vec<(String, usize)>) -> (r: CounterStore)
        ensures
            r@ == counts(entries@),
    {
        let mut store = CounterStore::new();
        let mut i: usize = 0;
        while i < entries.len()
            invariant
                i <= entries.len(),
                store@ == counts(entries@.take(i as int)),
            decreases entries.len() - i,
        {
            store.set(entries[i].0.as_str(), entries[i].1);
            proof {
                assert(entries@.take(i + 1).drop_last() =~= entries@.take(i as int));
            }
            i += 1;
        }
        proof {
            assert(entries@.take(i as int) =~= entries@);
        }
        store
    }

    /// The users and their counters.
    pub fn entries(&self) -> (r: &Vec<(String, usize)>)
        ensures
            counts(r@) == self@,
            distinct_users(r@),
    {
        proof {
            use_type_invariant(self);
        }
        &self.remaining
    }

    /// Where the counter of `user` stands, if there is one.
    fn position(&self, user: &str) -> (r: Option<usize>)
        ensures
            match r {
                Some(i) => i < self.remaining@.len() && self.remaining@[i as int].0@ == user@,
                None => forall|i: int|
                    0 <= i < self.remaining@.len() ==> #[trigger] self.remaining@[i].0@ != user@,
            },
    {
        let mut i: usize = 0;
        while i < self.remaining.len()
            invariant
                i <= self.remaining@.len(),
                forall|k: int| 0 <= k < i ==> #[trigger] self.remaining@[k].0@ != user@,
            decreases self.remaining@.len() - i,
        {
            if same(self.remaining[i].0.as_str(), user) {
                return Some(i);
            }
            i += 1;
        }
        None
    }

    /// The counter of `user`, if one is kept.
    pub fn get(&self, user: &str) -> (r: Option<usize>)
        ensures
            r == (if self@.dom().contains(user@) {
                Some(self@[user@])
            } else {
                None
            }),
    {
        proof {
            use_type_invariant(self);
            lemma_counts(self.remaining@);
        }
        match self.position(user) {
            Some(i) => Some(self.remaining[i].1),
            None => None,
        }
    }

    /// Sets the counter of `user`.
    pub fn set(&mut self, user: &str, count: usize)
        ensures
            final(self)@ == old(self)@.insert(user@, count),
    {
        proof {
            use_type_invariant(&*self);
            lemma_counts(self.remaining@);
        }
        let found = self.position(user);
        let mut entries: Vec<(String, usize)> = Vec::new();
        std::mem::swap(&mut entries, &mut self.remaining);
        let ghost before = entries@;
        match found {
            Some(i) => {
                entries.set(i, (user.to_owned(), count));
                proof {
                    assert forall|a: int, b: int| 0 <= a < b < entries@.len() implies #[trigger] entries@[a].0@
                        != #[trigger] entries@[b].0@ by {
                        assert(before[a].0@ != before[b].0@);
                        assert(before[i as int].0@ == user@);
                    }
                    lemma_counts(entries@);
                    let m = counts(entries@);
                    let n = counts(before).insert(user@, count);
                    assert forall|u: Seq<char>| m.dom().contains(u) == n.dom().contains(u) by {
                        if m.dom().contains(u) {
                            let k = choose|k: int|
                                0 <= k < entries@.len() && #[trigger] entries@[k].0@ == u;
                            assert(before[k].0@ == u);
                        }
                        if n.dom().contains(u) {
                            if u == user@ {
                                assert(entries@[i as int].0@ == u);
                            } else {
                                let k = choose|k: int|
                                    0 <= k < before.len() && #[trigger] before[k].0@ == u;
                                assert(entries@[k].0@ == u);
                            }
                        }
                    }
                    assert forall|u: Seq<char>| m.dom().contains(u) implies m[u] == n[u] by {
                        let k = choose|k: int|
                            0 <= k < entries@.len() && #[trigger] entries@[k].0@ == u;
                        if k != i {
                            assert(before[k] == entries@[k]);
                            assert(counts(before)[before[k].0@] == before[k].1);
                            if k < i {
                                assert(entries@[k].0@ != entries@[i as int].0@);
                            } else {
                                assert(entries@[i as int].0@ != entries@[k].0@);
                            }
                        }
                    }
                    assert(m =~= n);
                }
            },
            None => {
                entries.push((user.to_owned(), count));
                proof {
                    assert(entries@.drop_last() =~= before);
                    assert forall|a: int, b: int| 0 <= a < b < entries@.len() implies #[trigger] entries@[a].0@
                        != #[trigger] entries@[b].0@ by {
                        assert(entries@[a] == before[a]);
                        if b < before.len() {
                            assert(entries@[b] == before[b]);
                            assert(before[a].0@ != before[b].0@);
                        }
                    }
                }
            },
        }
        self.remaining = entries;
    }
}

/// The uses that are left to `user` according to the counters that could be
/// read, if any could.
pub fn remaining_uses(store: &Option<CounterStore>, user: &str) -> (r: usize)
    ensures
        r == remaining_of(
            match store {
                Some(s) => s@,
                None => Map::empty(),
            },
            user@,
        ),
{
    match store {
        Some(s) => match s.get(user) {
            Some(n) => n,
            None => EXTEND_LIMIT,
        },
        None => EXTEND_LIMIT,
    }
}

/// Takes one use from the counter of `user` and returns what is left. A counter
/// that is not kept yet starts at [`EXTEND_LIMIT`]; one at zero stays there.
pub fn decrement_counter(store: &mut CounterStore, user: &str) -> (r: usize)
    ensures
        final(store)@ == decremented(old(store)@, user@),
        r == final(store)@[user@],
{
    let n: usize = match store.get(user) {
        Some(n) => n,
        None => EXTEND_LIMIT,
    };
    let left: usize = if n > 0 {
        n - 1
    } else {
        0
    };
    store.set(user, left);
    left
}

/// Sets the counter of `user` back to [`EXTEND_LIMIT`].
pub fn reset_counter(store: &mut CounterStore, user: &str)
    ensures
        final(store)@ == recharged(old(store)@, user@),
{
    store.set(user, EXTEND_LIMIT);
}

/// Each use takes one from the counter until none is left, and none is taken after that.
pub proof fn lemma_uses_count_down(store: Map<Seq<char>, usize>, user: Seq<char>, n: nat)
    ensures
        remaining_of(decremented_times(store, user, n), user) == (if n <= remaining_of(store, user) {
            remaining_of(store, user) - n
        } else {
            0
        }),
    decreases n,
{
    if n > 0 {
        lemma_uses_count_down(store, user, (n - 1) as nat);
    }
}

/// A user without a counter, and a user who has just authenticated, have exactly
/// [`EXTEND_LIMIT`] uses without a password: before each of them a use is left,
/// after the last of them none is.
pub proof fn lemma_limit_of_free_uses(store: Map<Seq<char>, usize>, user: Seq<char>, n: nat)
    ensures
        remaining_of(decremented_times(recharged(store, user), user, n), user) > 0 <==> n
            < EXTEND_LIMIT,
        !store.dom().contains(user) ==> (remaining_of(decremented_times(store, user, n), user) > 0
            <==> n < EXTEND_LIMIT),
{
    lemma_uses_count_down(recharged(store, user), user, n);
    lemma_uses_count_down(store, user, n);
}

/// An authentication recharges the counter, whatever it was.
pub proof fn lemma_recharge_restores_limit(store: Map<Seq<char>, usize>, user: Seq<char>)
    ensures
        remaining_of(recharged(store, user), user) == EXTEND_LIMIT,
        recharged(decremented(store, user), user) == recharged(store, user),
{
    assert(recharged(decremented(store, user), user) =~= recharged(store, user));
}

/// What happens to the counter of one user leaves those of the others alone.
pub proof fn lemma_other_users_keep_their_counters(
    store: Map<Seq<char>, usize>,
    user: Seq<char>,
    other: Seq<char>,
)
    requires
        user != other,
    ensures
        remaining_of(decremented(store, user), other) == remaining_of(store, other),
        remaining_of(recharged(store, user), other) == remaining_of(store, other),
{
}

/// Updates of the counters of two users can be made in either order.
pub proof fn lemma_updates_of_two_users_commute(
    store: Map<Seq<char>, usize>,
    user: Seq<char>,
    other: Seq<char>,
)
    requires
        user != other,
    ensures
        decremented(decremented(store, user), other) == decremented(
            decremented(store, other),
            user,
        ),
        recharged(recharged(store, user), other) == recharged(recharged(store, other), user),
        recharged(decremented(store, user), other) == decremented(recharged(store, other), user),
{
    assert(decremented(decremented(store, user), other) =~= decremented(
        decremented(store, other),
        user,
    ));
    assert(recharged(recharged(store, user), other) =~= recharged(recharged(store, other), user));
    assert(recharged(decremented(store, user), other) =~= decremented(
        recharged(store, other),
        user,
    ));
}

/// Where no counter is above the limit, none is after an update.
pub proof fn lemma_counters_stay_within_limit(store: Map<Seq<char>, usize>, user: Seq<char>)
    requires
        forall|u: Seq<char>| remaining_of(store, u) <= EXTEND_LIMIT,
    ensures
        forall|u: Seq<char>| remaining_of(decremented(store, user), u) <= EXTEND_LIMIT,
        forall|u: Seq<char>| remaining_of(recharged(store, user), u) <= EXTEND_LIMIT,
{
    assert forall|u: Seq<char>| remaining_of(decremented(store, user), u) <= EXTEND_LIMIT by {
        assert(remaining_of(store, u) <= EXTEND_LIMIT);
        assert(remaining_of(store, user) <= EXTEND_LIMIT);
    }
    assert forall|u: Seq<char>| remaining_of(recharged(store, user), u) <= EXTEND_LIMIT by {
        assert(remaining_of(store, u) <= EXTEND_LIMIT);
    }
}

/// The uses that are left are what the counter says, and ten where there is none.
pub proof fn lemma_remaining_uses(store: Map<Seq<char>, usize>, user: Seq<char>, n: usize)
    ensures
        remaining_of(store.insert(user, n), user) == n,
        remaining_of(store.remove(user), user) == 10,
{
}

/// After a use or an authentication there is a counter for the user, lower by one
/// unless it was zero, or full; every other user has a counter exactly where there
/// was one before, with the same value.
pub proof fn lemma_what_an_update_changes(
    store: Map<Seq<char>, usize>,
    user: Seq<char>,
    n: usize,
    u: Seq<char>,
)
    ensures
        n > 0 ==> decremented(store.insert(user, n), user).dom().contains(user) && decremented(
            store.insert(user, n),
            user,
        )[user] == n - 1,
        decremented(store.insert(user, 0), user).dom().contains(user) && decremented(
            store.insert(user, 0),
            user,
        )[user] == 0,
        decremented(store.remove(user), user).dom().contains(user) && decremented(
            store.remove(user),
            user,
        )[user] == 9,
        recharged(store, user).dom().contains(user) && recharged(store, user)[user] == 10,
        u != user ==> {
            &&& decremented(store, user).dom().contains(u) <==> store.dom().contains(u)
            &&& recharged(store, user).dom().contains(u) <==> store.dom().contains(u)
            &&& store.dom().contains(u) ==> decremented(store, user)[u] == store[u]
                && recharged(store, user)[u] == store[u]
        },
{
}

/// A list of users and counts stands for a counter of exactly the users in it,
/// each with the count that is given last.
pub proof fn lemma_last_count_counts(entries: Seq<(String, usize)>, user: Seq<char>, i: int)
    ensures
        counts(entries).dom().contains(user) <==> exists|k: int|
            0 <= k < entries.len() && #[trigger] entries[k].0@ == user,
        0 <= i < entries.len() && entries[i].0@ == user && (forall|k: int|
            i < k < entries.len() ==> #[trigger] entries[k].0@ != user) ==> counts(entries)[user]
            == entries[i].1,
    decreases entries.len(),
{
    lemma_counts(entries);
    if entries.len() > 0 && 0 <= i < entries.len() - 1 && entries[i].0@ == user {
        let front = entries.drop_last();
        lemma_last_count_counts(front, user, i);
        if forall|k: int| i < k < entries.len() ==> #[trigger] entries[k].0@ != user {
            assert(entries[entries.len() - 1].0@ != user);
            assert forall|k: int| i < k < front.len() implies #[trigger] front[k].0@ != user by {
                assert(front[k] == entries[k]);
            }
        }
    }
}

} // verus!
