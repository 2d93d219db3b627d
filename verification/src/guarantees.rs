//! What holds of every invocation, whatever the events are.
//!
//! An invocation is the run of a [`Session`](crate::session::Session) on a
//! sequence of events. The laws here speak of all such runs.
use vstd::prelude::*;

use crate::config::{granted, PermitType};
use crate::counter::{lemma_limit_of_free_uses, remaining_of, EXTEND_LIMIT};
use crate::counter_file::{
    counters_after, in_a_row, lemma_uses_in_a_row, lemma_what_was_read_is_updated, request_read,
    request_run, transaction_start, updating, CounterEventView, CounterRequest,
};
use crate::environment::{
    dangerous_names, lemma_dangerous_variables_are_stripped, lemma_values_in_the_environment,
    sanitised, value_of, PlanView, SAFE_PATH,
};
use crate::password::{is_checkable, verdict};
use crate::permissions::{is_secure, FileStatus, PathKind};
use crate::session::{
    authorised, session_next, session_start, AccessView, EventView, PhaseView, Purpose, SessionView,
};

verus! {

/// The session after a sequence of events.
pub open spec fn session_run(start: SessionView, events: Seq<EventView>) -> SessionView
    decreases events.len(),
{
    if events.len() == 0 {
        start
    } else {
        session_next(session_run(start, events.drop_last()), events.last()).0
    }
}

/// Whether an event of the given sort has come in a phase of the given sort.
#[verifier::opaque]
pub open spec fn occurred(
    start: SessionView,
    events: Seq<EventView>,
    sort: spec_fn(PhaseView, EventView) -> bool,
) -> bool {
    exists|k: int|
        0 <= k < events.len() && sort(
            session_run(start, events.take(k)).phase,
            #[trigger] events[k],
        )
}

/// The configuration file was read, and grants `user` the given level.
pub open spec fn config_grants(user: Seq<char>, permit: PermitType) -> spec_fn(
    PhaseView,
    EventView,
) -> bool {
    |p: PhaseView, e: EventView|
        match (p, e) {
            (PhaseView::ReadConfig, EventView::Config(t)) => granted(t, user) == Some(permit),
            _ => false,
        }
}

/// A password that is not empty was verified, and is that of `user`.
pub open spec fn password_matches(user: Seq<char>) -> spec_fn(PhaseView, EventView) -> bool {
    |p: PhaseView, e: EventView|
        match (p, e) {
            (PhaseView::ReadShadow(_, w), EventView::Shadow(t)) => w.len() > 0 && is_checkable(
                user,
                t,
            ) && verdict(user, w, t) == Ok::<bool, Seq<char>>(true),
            _ => false,
        }
}

/// The counters were read, and leave `user` a free use.
pub open spec fn free_use_is_left(user: Seq<char>) -> spec_fn(PhaseView, EventView) -> bool {
    |p: PhaseView, e: EventView|
        match (p, e) {
            (PhaseView::ReadCounters, EventView::Counters(c)) => remaining_of(c, user) > 0,
            _ => false,
        }
}

/// The counter was updated as requested.
pub open spec fn counter_updated(request: CounterRequest) -> spec_fn(PhaseView, EventView) -> bool {
    |p: PhaseView, e: EventView|
        match (p, e) {
            (PhaseView::UpdateCounter(q), EventView::Remaining(_)) => q == request,
            _ => false,
        }
}

/// The process has switched to root, with both user IDs.
pub open spec fn root_was_confirmed() -> spec_fn(PhaseView, EventView) -> bool {
    |p: PhaseView, e: EventView| p == PhaseView::BecomeRoot && e == EventView::Switched(0, 0)
}

/// The environment of the caller was handed over, and is `env`.
pub open spec fn environment_was(env: Seq<(Seq<char>, Seq<char>)>) -> spec_fn(
    PhaseView,
    EventView,
) -> bool {
    |p: PhaseView, e: EventView| p == PhaseView::ReadEnvironment && e == EventView::Environment(env)
}

/// The path that is looked at in the given phase was found secure.
pub open spec fn found_secure(phase: PhaseView, kind: PathKind) -> spec_fn(
    PhaseView,
    EventView,
) -> bool {
    |p: PhaseView, e: EventView|
        p == phase && match e {
            EventView::Status(Ok(st)) => is_secure(kind, st),
            _ => false,
        }
}

/// The path that is looked for in the given phase was not there.
pub open spec fn found_absent(phase: PhaseView) -> spec_fn(PhaseView, EventView) -> bool {
    |p: PhaseView, e: EventView| p == phase && e == EventView::Present(false)
}

/// `user` was authorised: without a password where the configuration asks for
/// none; otherwise with the password, or by a free use that was taken from the
/// counter. A password that makes up for the lack of a free use recharges the
/// counter.
pub open spec fn was_authorised(
    start: SessionView,
    events: Seq<EventView>,
    user: Seq<char>,
) -> bool {
    ||| occurred(start, events, config_grants(user, PermitType::NoPass))
    ||| {
        &&& occurred(start, events, config_grants(user, PermitType::Password))
        &&& occurred(start, events, password_matches(user))
    }
    ||| {
        &&& occurred(start, events, config_grants(user, PermitType::Extend))
        &&& occurred(start, events, free_use_is_left(user))
        &&& occurred(start, events, counter_updated(CounterRequest::Decrement))
    }
    ||| {
        &&& occurred(start, events, config_grants(user, PermitType::Extend))
        &&& occurred(start, events, password_matches(user))
        &&& occurred(start, events, counter_updated(CounterRequest::Reset))
    }
}

/// The configuration file was found secure, and so were the counter directory
/// and the counter file as far as they were there.
pub open spec fn files_were_secure(start: SessionView, events: Seq<EventView>) -> bool {
    &&& occurred(start, events, found_secure(PhaseView::StatConfig, PathKind::File))
    &&& {
        ||| occurred(start, events, found_absent(PhaseView::ProbeCounterDir))
        ||| {
            &&& occurred(
                start,
                events,
                found_secure(PhaseView::StatCounterDir, PathKind::Directory),
            )
            &&& {
                ||| occurred(start, events, found_absent(PhaseView::ProbeCounterFile))
                ||| occurred(
                    start,
                    events,
                    found_secure(PhaseView::StatCounterFile, PathKind::File),
                )
            }
        }
    }
}

/// What follows for a user with an `extend` entry who has taken `uses` free uses
/// since the counter was full.
pub open spec fn next_for_extend(uses: nat) -> PhaseView {
    if uses < EXTEND_LIMIT {
        PhaseView::UpdateCounter(CounterRequest::Decrement)
    } else {
        PhaseView::AskPassword(Purpose::Recharge)
    }
}

/// The place of a phase in the order in which a session goes through them.
pub open spec fn phase_rank(phase: PhaseView) -> nat {
    match phase {
        PhaseView::CheckShadow => 0,
        PhaseView::ProbeConfig => 1,
        PhaseView::CreateConfig(_) => 2,
        PhaseView::StatConfig => 3,
        PhaseView::ProbeCounterDir => 4,
        PhaseView::StatCounterDir => 5,
        PhaseView::ProbeCounterFile => 6,
        PhaseView::StatCounterFile => 7,
        PhaseView::ReadConfig => 8,
        PhaseView::ReadCounters => 9,
        PhaseView::AskPassword(_) => 10,
        PhaseView::ReadShadow(_, _) => 11,
        PhaseView::UpdateCounter(_) => 12,
        PhaseView::BecomeRoot => 13,
        PhaseView::ReadEnvironment => 14,
        PhaseView::Execute(_) => 15,
        PhaseView::Exit => 16,
    }
}

proof fn lemma_occurred_stays(
    start: SessionView,
    events: Seq<EventView>,
    sort: spec_fn(PhaseView, EventView) -> bool,
)
    requires
        events.len() > 0,
        occurred(start, events.drop_last(), sort),
    ensures
        occurred(start, events, sort),
{
    reveal(occurred);
    let front = events.drop_last();
    let k = choose|k: int|
        0 <= k < front.len() && sort(
            session_run(start, front.take(k)).phase,
            #[trigger] front[k],
        );
    assert(front.take(k) =~= events.take(k));
    assert(events[k] == front[k]);
}

proof fn lemma_occurs_last(
    start: SessionView,
    events: Seq<EventView>,
    sort: spec_fn(PhaseView, EventView) -> bool,
)
    requires
        events.len() > 0,
        sort(session_run(start, events.drop_last()).phase, events.last()),
    ensures
        occurred(start, events, sort),
{
    reveal(occurred);
    let k = events.len() - 1;
    assert(events.take(k) =~= events.drop_last());
    assert(events[k] == events.last());
}

/// What a phase tells of the events before it.
spec fn history(start: SessionView, events: Seq<EventView>) -> bool {
    let s = session_run(start, events);
    let user = start.user;
    let every_time = occurred(start, events, config_grants(user, PermitType::Password));
    let extend = occurred(start, events, config_grants(user, PermitType::Extend));
    &&& s.user == start.user && s.command == start.command && s.args == start.args
    &&& match s.phase {
        PhaseView::ReadCounters => extend,
        PhaseView::AskPassword(p) => if p == Purpose::EveryTime {
            every_time
        } else {
            extend
        },
        PhaseView::ReadShadow(p, w) => w.len() > 0 && if p == Purpose::EveryTime {
            every_time
        } else {
            extend
        },
        PhaseView::UpdateCounter(q) => extend && if q == CounterRequest::Decrement {
            occurred(start, events, free_use_is_left(user))
        } else {
            occurred(start, events, password_matches(user))
        },
        PhaseView::BecomeRoot => was_authorised(start, events, user),
        PhaseView::ReadEnvironment => was_authorised(start, events, user) && occurred(
            start,
            events,
            root_was_confirmed(),
        ),
        PhaseView::Execute(_) => was_authorised(start, events, user) && occurred(
            start,
            events,
            root_was_confirmed(),
        ),
        _ => true,
    }
}

/// What a phase tells of the event that has led to it.
proof fn lemma_step(s: SessionView, e: EventView)
    ensures
        ({
            let after = session_next(s, e).0;
            let user = s.user;
            &&& after.user == s.user && after.command == s.command && after.args == s.args
            &&& match after.phase {
                PhaseView::ReadCounters => config_grants(user, PermitType::Extend)(s.phase, e),
                PhaseView::AskPassword(p) => {
                    ||| s.phase == PhaseView::AskPassword(p)
                    ||| p == Purpose::EveryTime && config_grants(user, PermitType::Password)(
                        s.phase,
                        e,
                    )
                    ||| p == Purpose::Recharge && s.phase == PhaseView::ReadCounters
                },
                PhaseView::ReadShadow(p, w) => w.len() > 0 && s.phase == PhaseView::AskPassword(p),
                PhaseView::UpdateCounter(q) => if q == CounterRequest::Decrement {
                    s.phase == PhaseView::ReadCounters && free_use_is_left(user)(s.phase, e)
                } else {
                    s.phase matches PhaseView::ReadShadow(p, w) && p == Purpose::Recharge && (
                    w.len() > 0 ==> password_matches(user)(s.phase, e))
                },
                PhaseView::BecomeRoot => {
                    ||| config_grants(user, PermitType::NoPass)(s.phase, e)
                    ||| s.phase matches PhaseView::ReadShadow(p, w) && p == Purpose::EveryTime && (
                    w.len() > 0 ==> password_matches(user)(s.phase, e))
                    ||| s.phase matches PhaseView::UpdateCounter(q) && counter_updated(q)(
                        s.phase,
                        e,
                    )
                },
                PhaseView::ReadEnvironment => s.phase == PhaseView::BecomeRoot
                    && root_was_confirmed()(s.phase, e),
                PhaseView::Execute(_) => s.phase == PhaseView::ReadEnvironment,
                _ => true,
            }
        }),
{
}

#[verifier::rlimit(40)]
proof fn lemma_history(start: SessionView, events: Seq<EventView>)
    requires
        start.phase == PhaseView::CheckShadow,
    ensures
        history(start, events),
    decreases events.len(),
{
    if events.len() > 0 {
        let front = events.drop_last();
        let before = session_run(start, front);
        let user = start.user;
        lemma_history(start, front);
        lemma_step(before, events.last());
        lemma_carry(start, events, config_grants(user, PermitType::NoPass));
        lemma_carry(start, events, config_grants(user, PermitType::Password));
        lemma_carry(start, events, config_grants(user, PermitType::Extend));
        lemma_carry(start, events, password_matches(user));
        lemma_carry(start, events, free_use_is_left(user));
        lemma_carry(start, events, counter_updated(CounterRequest::Decrement));
        lemma_carry(start, events, counter_updated(CounterRequest::Reset));
        lemma_carry(start, events, root_was_confirmed());
    }
}

/// What has occurred stays so, and what the last event makes occur has occurred.
proof fn lemma_carry(
    start: SessionView,
    events: Seq<EventView>,
    sort: spec_fn(PhaseView, EventView) -> bool,
)
    requires
        events.len() > 0,
    ensures
        occurred(start, events.drop_last(), sort) ==> occurred(start, events, sort),
        sort(session_run(start, events.drop_last()).phase, events.last()) ==> occurred(
            start,
            events,
            sort,
        ),
{
    if occurred(start, events.drop_last(), sort) {
        lemma_occurred_stays(start, events, sort);
    }
    if sort(session_run(start, events.drop_last()).phase, events.last()) {
        lemma_occurs_last(start, events, sort);
    }
}

/// No command is executed, and root is not become, for a user who was not
/// authorised; and a command is executed only once the process has become root.
pub proof fn lemma_commands_need_authorization(
    user: Seq<char>,
    command: Seq<char>,
    args: Seq<Seq<char>>,
    events: Seq<EventView>,
)
    ensures
        ({
            let start = session_start(user, command, args);
            let phase = session_run(start, events).phase;
            &&& phase == PhaseView::BecomeRoot ==> was_authorised(start, events, user)
            &&& phase is Execute ==> was_authorised(start, events, user) && occurred(
                start,
                events,
                root_was_confirmed(),
            )
        }),
{
    lemma_history(session_start(user, command, args), events);
}

/// Once the environment was asked for, every event leads further.
proof fn lemma_environment_is_asked_for_once(start: SessionView, events: Seq<EventView>, k: int)
    requires
        0 <= k < events.len(),
        session_run(start, events.take(k)).phase == PhaseView::ReadEnvironment,
    ensures
        phase_rank(session_run(start, events).phase) > phase_rank(PhaseView::ReadEnvironment),
    decreases events.len(),
{
    let front = events.drop_last();
    lemma_sessions_move_forward(session_run(start, front), events.last());
    if k == events.len() - 1 {
        assert(events.take(k) =~= front);
    } else {
        assert(front.take(k) =~= events.take(k));
        lemma_environment_is_asked_for_once(start, front, k);
    }
}

/// What is executed is the command that was given, with the arguments that were
/// given and the environment that was handed over, sanitised: without dangerous
/// variables, and with the safe `PATH`.
pub proof fn lemma_executed_command_is_the_given_one(
    user: Seq<char>,
    command: Seq<char>,
    args: Seq<Seq<char>>,
    events: Seq<EventView>,
)
    ensures
        session_run(session_start(user, command, args), events).phase matches PhaseView::Execute(
            plan,
        ) ==> {
            &&& plan.program == command
            &&& plan.args == args
            &&& exists|env: Seq<(Seq<char>, Seq<char>)>|
                occurred(session_start(user, command, args), events, environment_was(env))
                    && plan.env == #[trigger] sanitised(env)
            &&& forall|env: Seq<(Seq<char>, Seq<char>)>|
                occurred(session_start(user, command, args), events, #[trigger] environment_was(env))
                    ==> plan.env == sanitised(env)
            &&& forall|k: int|
                0 <= k < plan.env.len() ==> !dangerous_names().contains(
                    (#[trigger] plan.env[k]).0,
                )
            &&& value_of(plan.env, "PATH"@) == Some(SAFE_PATH@)
        },
    decreases events.len(),
{
    let start = session_start(user, command, args);
    lemma_history(start, events);
    if events.len() > 0 {
        let before = session_run(start, events.drop_last());
        lemma_history(start, events.drop_last());
        match session_run(start, events).phase {
            PhaseView::Execute(plan) => {
                match events.last() {
                    EventView::Environment(env) => {
                        assert(before.phase == PhaseView::ReadEnvironment);
                        assert(plan.env == sanitised(env));
                        lemma_occurs_last(start, events, environment_was(env));
                        assert forall|other: Seq<(Seq<char>, Seq<char>)>|
                            occurred(start, events, #[trigger] environment_was(other))
                            implies plan.env == sanitised(other) by {
                            reveal(occurred);
                            let sort = environment_was(other);
                            let k = choose|k: int|
                                0 <= k < events.len() && sort(
                                    session_run(start, events.take(k)).phase,
                                    #[trigger] events[k],
                                );
                            if k < events.len() - 1 {
                                assert(events.drop_last().take(k) =~= events.take(k));
                                lemma_environment_is_asked_for_once(start, events.drop_last(), k);
                            }
                        }
                        assert forall|k: int|
                            0 <= k < plan.env.len() implies !dangerous_names().contains(
                            (#[trigger] plan.env[k]).0,
                        ) by {
                            lemma_dangerous_variables_are_stripped(env, k);
                        }
                        lemma_values_in_the_environment(env, "PATH"@);
                    },
                    _ => {
                        assert(false);
                    },
                }
            },
            _ => {},
        }
    }
}

/// The configuration is read, and anything later is done, only after the files
/// that are relied on were found secure.
pub proof fn lemma_files_are_checked_first(
    user: Seq<char>,
    command: Seq<char>,
    args: Seq<Seq<char>>,
    events: Seq<EventView>,
)
    ensures
        ({
            let start = session_start(user, command, args);
            let phase = session_run(start, events).phase;
            phase_rank(phase) >= phase_rank(PhaseView::ReadConfig) && phase != PhaseView::Exit
                ==> files_were_secure(start, events)
        }),
    decreases events.len(),
{
    lemma_checks(session_start(user, command, args), events);
}

spec fn checks(start: SessionView, events: Seq<EventView>) -> bool {
    let phase = session_run(start, events).phase;
    let config = occurred(start, events, found_secure(PhaseView::StatConfig, PathKind::File));
    let dir = occurred(
        start,
        events,
        found_secure(PhaseView::StatCounterDir, PathKind::Directory),
    );
    &&& phase_rank(phase) >= phase_rank(PhaseView::ProbeCounterDir) && phase != PhaseView::Exit
        ==> config
    &&& phase == PhaseView::ProbeCounterFile || phase == PhaseView::StatCounterFile ==> dir
    &&& phase_rank(phase) >= phase_rank(PhaseView::ReadConfig) && phase != PhaseView::Exit
        ==> files_were_secure(start, events)
}

proof fn lemma_checks(start: SessionView, events: Seq<EventView>)
    requires
        start.phase == PhaseView::CheckShadow,
    ensures
        checks(start, events),
    decreases events.len(),
{
    if events.len() > 0 {
        lemma_checks(start, events.drop_last());
        lemma_carry(start, events, found_secure(PhaseView::StatConfig, PathKind::File));
        lemma_carry(start, events, found_secure(PhaseView::StatCounterDir, PathKind::Directory));
        lemma_carry(start, events, found_secure(PhaseView::StatCounterFile, PathKind::File));
        lemma_carry(start, events, found_absent(PhaseView::ProbeCounterDir));
        lemma_carry(start, events, found_absent(PhaseView::ProbeCounterFile));
    }
}

/// Every event takes a session to a later phase, until it has ended. The one
/// exception is an empty password, on which the user is asked again.
pub proof fn lemma_sessions_move_forward(s: SessionView, e: EventView)
    ensures
        ({
            let after = session_next(s, e).0.phase;
            ||| phase_rank(after) > phase_rank(s.phase)
            ||| s.phase == PhaseView::Exit && after == PhaseView::Exit
            ||| s.phase is AskPassword && e == EventView::Password(Seq::empty()) && after == s.phase
        }),
{
    match e {
        EventView::Password(w) => {
            if w.len() == 0 {
                assert(w =~= Seq::<char>::empty());
            }
        },
        _ => {},
    }
}

/// There is one attempt at the password: once a password was verified, none is
/// asked for or verified again.
pub proof fn lemma_one_attempt_at_the_password(
    start: SessionView,
    events: Seq<EventView>,
    j: int,
)
    requires
        0 <= j < events.len(),
        session_run(start, events.take(j)).phase is ReadShadow,
    ensures
        !(session_run(start, events).phase is AskPassword),
        !(session_run(start, events).phase is ReadShadow),
        phase_rank(session_run(start, events).phase) >= phase_rank(
            PhaseView::UpdateCounter(CounterRequest::Reset),
        ),
    decreases events.len(),
{
    let front = events.drop_last();
    lemma_sessions_move_forward(session_run(start, front), events.last());
    if j == events.len() - 1 {
        assert(events.take(j) =~= front);
    } else {
        assert(front.take(j) =~= events.take(j));
        lemma_one_attempt_at_the_password(start, front, j);
    }
}

/// A refusal is final: no event leads out of it.
pub proof fn lemma_refusals_are_final(
    start: SessionView,
    events: Seq<EventView>,
    more: Seq<EventView>,
)
    requires
        session_run(start, events).phase == PhaseView::Exit,
    ensures
        session_run(start, events + more).phase == PhaseView::Exit,
    decreases more.len(),
{
    if more.len() == 0 {
        assert(events + more =~= events);
    } else {
        assert((events + more).drop_last() =~= events + more.drop_last());
        lemma_refusals_are_final(start, events, more.drop_last());
    }
}

/// Every authorization and every refusal is logged: the first with the user, the
/// way and the command.
pub proof fn lemma_decisions_are_logged(s: SessionView, e: EventView)
    ensures
        s.phase != PhaseView::Exit && session_next(s, e).0.phase == PhaseView::Exit
            ==> session_next(s, e).1.log is Some,
        session_next(s, e).0.phase == PhaseView::BecomeRoot ==> exists|way: Seq<char>|
            session_next(s, e).1.log == #[trigger] authorised(s, way).1.log,
{
    if session_next(s, e).0.phase == PhaseView::BecomeRoot {
        match (s.phase, e) {
            (PhaseView::UpdateCounter(q), EventView::Remaining(n)) => {
                if q == CounterRequest::Decrement {
                    let way = "extend, "@ + crate::text::decimal(n as nat) + " remaining"@;
                    assert(session_next(s, e) == authorised(s, way));
                } else {
                    assert(session_next(s, e) == authorised(s, "extend, recharged"@));
                }
            },
            (PhaseView::ReadConfig, EventView::Config(t)) => {
                assert(session_next(s, e).1.log == authorised(s, "nopass"@).1.log);
            },
            _ => {
                assert(session_next(s, e) == authorised(s, "password"@));
            },
        }
    }
}

proof fn lemma_run_push(start: SessionView, events: Seq<EventView>, e: EventView)
    ensures
        session_run(start, events.push(e)) == session_next(session_run(start, events), e).0,
{
    assert(events.push(e).drop_last() =~= events);
}

/// A user who is permitted gets the command executed: at once with `nopass`;
/// with the password otherwise; with `extend` also by a free use that is left.
#[verifier::rlimit(40)]
pub proof fn lemma_permitted_users_get_their_command(
    s: SessionView,
    config: Seq<char>,
    counters: Map<Seq<char>, usize>,
    password: Seq<char>,
    shadow: Result<Seq<char>, Seq<char>>,
    remaining: usize,
    env: Seq<(Seq<char>, Seq<char>)>,
)
    requires
        s.phase == PhaseView::ReadConfig,
    ensures
        ({
            let plan = PlanView { program: s.command, args: s.args, env: sanitised(env) };
            let read = EventView::Config(config);
            let counted = EventView::Counters(counters);
            let typed = EventView::Password(password);
            let looked_up = EventView::Shadow(shadow);
            let updated = EventView::Remaining(remaining);
            let root = EventView::Switched(0, 0);
            let inherited = EventView::Environment(env);
            let matches = password.len() > 0 && is_checkable(s.user, shadow) && verdict(
                s.user,
                password,
                shadow,
            ) == Ok::<bool, Seq<char>>(true);
            &&& granted(config, s.user) == Some(PermitType::NoPass) ==> session_run(
                s,
                seq![read, root, inherited],
            ).phase == PhaseView::Execute(plan)
            &&& granted(config, s.user) == Some(PermitType::Password) && matches ==> session_run(
                s,
                seq![read, typed, looked_up, root, inherited],
            ).phase == PhaseView::Execute(plan)
            &&& granted(config, s.user) == Some(PermitType::Extend) && remaining_of(
                counters,
                s.user,
            ) > 0 ==> session_run(s, seq![read, counted, updated, root, inherited]).phase
                == PhaseView::Execute(plan)
            &&& granted(config, s.user) == Some(PermitType::Extend) && remaining_of(
                counters,
                s.user,
            ) == 0 && matches ==> session_run(
                s,
                seq![read, counted, typed, looked_up, updated, root, inherited],
            ).phase == PhaseView::Execute(plan)
        }),
{
    let read = EventView::Config(config);
    let counted = EventView::Counters(counters);
    let typed = EventView::Password(password);
    let looked_up = EventView::Shadow(shadow);
    let updated = EventView::Remaining(remaining);
    let root = EventView::Switched(0, 0);
    let inherited = EventView::Environment(env);
    let none = Seq::<EventView>::empty();
    let a = none.push(read);
    lemma_run_push(s, none, read);
    // `nopass`
    lemma_run_push(s, a, root);
    lemma_run_push(s, a.push(root), inherited);
    assert(a.push(root).push(inherited) =~= seq![read, root, inherited]);
    // `permit`
    let b = a.push(typed).push(looked_up);
    lemma_run_push(s, a, typed);
    lemma_run_push(s, a.push(typed), looked_up);
    lemma_run_push(s, b, root);
    lemma_run_push(s, b.push(root), inherited);
    assert(b.push(root).push(inherited) =~= seq![read, typed, looked_up, root, inherited]);
    // `extend`, with a free use
    let c = a.push(counted);
    let d = c.push(updated);
    lemma_run_push(s, a, counted);
    lemma_run_push(s, c, updated);
    lemma_run_push(s, d, root);
    lemma_run_push(s, d.push(root), inherited);
    assert(d.push(root).push(inherited) =~= seq![read, counted, updated, root, inherited]);
    // `extend`, without one
    let f = c.push(typed).push(looked_up).push(updated);
    lemma_run_push(s, c, typed);
    lemma_run_push(s, c.push(typed), looked_up);
    lemma_run_push(s, c.push(typed).push(looked_up), updated);
    lemma_run_push(s, f, root);
    lemma_run_push(s, f.push(root), inherited);
    assert(f.push(root).push(inherited) =~= seq![
        read,
        counted,
        typed,
        looked_up,
        updated,
        root,
        inherited,
    ]);
}

/// With an `extend` entry, a user who has authenticated has exactly
/// [`EXTEND_LIMIT`] uses without a password, over as many invocations: after the
/// given uses in a row since the counter was recharged, the next invocation takes
/// a free use where there were fewer than that, and asks for the password
/// otherwise.
pub proof fn lemma_free_uses_over_invocations(
    s: SessionView,
    recharge: Seq<CounterEventView>,
    store: Map<Seq<char>, usize>,
    uses: Seq<Seq<CounterEventView>>,
)
    requires
        s.phase == PhaseView::ReadCounters,
        request_read(CounterRequest::Reset, s.user, recharge, store),
        in_a_row(request_run(CounterRequest::Reset, s.user, recharge).store, s.user, uses),
    ensures
        session_next(
            s,
            EventView::Counters(
                counters_after(
                    request_run(CounterRequest::Reset, s.user, recharge).store,
                    s.user,
                    uses,
                ),
            ),
        ).0.phase == next_for_extend(uses.len()),
{
    let user = s.user;
    let full = request_run(CounterRequest::Reset, user, recharge).store;
    lemma_what_was_read_is_updated(
        updating(CounterRequest::Reset, user),
        transaction_start(CounterRequest::Reset, user),
        recharge,
        store,
    );
    lemma_uses_in_a_row(full, user, uses);
    lemma_limit_of_free_uses(store, user, uses.len());
}

/// A user for whom no counter was kept has as many uses without a password as one
/// who has just authenticated.
pub proof fn lemma_free_uses_of_a_new_user(
    s: SessionView,
    store: Map<Seq<char>, usize>,
    uses: Seq<Seq<CounterEventView>>,
)
    requires
        s.phase == PhaseView::ReadCounters,
        !store.dom().contains(s.user),
        in_a_row(store, s.user, uses),
    ensures
        session_next(s, EventView::Counters(counters_after(store, s.user, uses))).0.phase
            == next_for_extend(uses.len()),
{
    lemma_uses_in_a_row(store, s.user, uses);
    lemma_limit_of_free_uses(store, s.user, uses.len());
}

/// A user whose entry says `nopass` is never asked for a password, and no counter
/// is read or updated for them.
pub proof fn lemma_nopass_never_asks(
    start: SessionView,
    events: Seq<EventView>,
    j: int,
    config: Seq<char>,
)
    requires
        0 <= j < events.len(),
        session_run(start, events.take(j)).phase == PhaseView::ReadConfig,
        events[j] == EventView::Config(config),
        granted(config, session_run(start, events.take(j)).user) == Some(PermitType::NoPass),
    ensures
        phase_rank(session_run(start, events).phase) >= phase_rank(PhaseView::BecomeRoot),
    decreases events.len(),
{
    let front = events.drop_last();
    if j == events.len() - 1 {
        assert(events.take(j) =~= front);
    } else {
        assert(front.take(j) =~= events.take(j));
        lemma_nopass_never_asks(start, front, j, config);
        lemma_sessions_move_forward(session_run(start, front), events.last());
    }
}

/// Where `/etc/shadow` can be read and the files that are there are secure, a
/// session gets as far as reading the configuration, whether or not there are
/// counters, and whether the configuration file was there or had to be created.
#[verifier::rlimit(40)]
pub proof fn lemma_secure_files_let_a_session_through(
    s: SessionView,
    config: FileStatus,
    dir: FileStatus,
    file: FileStatus,
)
    requires
        s.phase == PhaseView::CheckShadow,
        is_secure(PathKind::File, config),
        is_secure(PathKind::Directory, dir),
        is_secure(PathKind::File, file),
    ensures
        ({
            let access = EventView::Access(AccessView::Granted);
            let there = EventView::Present(true);
            let missing = EventView::Present(false);
            let c = EventView::Status(Ok(config));
            let d = EventView::Status(Ok(dir));
            let f = EventView::Status(Ok(file));
            let read = PhaseView::ReadConfig;
            &&& session_run(s, seq![access, there, c, missing]).phase == read
            &&& session_run(s, seq![access, there, c, there, d, missing]).phase == read
            &&& session_run(s, seq![access, there, c, there, d, there, f]).phase == read
            &&& session_run(s, seq![access, missing, EventView::Done, c, missing]).phase == read
        }),
{
    let access = EventView::Access(AccessView::Granted);
    let there = EventView::Present(true);
    let missing = EventView::Present(false);
    let done = EventView::Done;
    let c = EventView::Status(Ok(config));
    let d = EventView::Status(Ok(dir));
    let f = EventView::Status(Ok(file));
    let none = Seq::<EventView>::empty();
    let a = none.push(access);
    lemma_run_push(s, none, access);
    assert(session_run(s, a).phase == PhaseView::ProbeConfig);
    // the configuration file is there
    let b = a.push(there).push(c);
    lemma_run_push(s, a, there);
    assert(session_run(s, a.push(there)).phase == PhaseView::StatConfig);
    lemma_run_push(s, a.push(there), c);
    assert(session_run(s, b).phase == PhaseView::ProbeCounterDir);
    lemma_run_push(s, b, missing);
    assert(b.push(missing) =~= seq![access, there, c, missing]);
    assert(session_run(s, b.push(missing)).phase == PhaseView::ReadConfig);
    let e = b.push(there).push(d);
    lemma_run_push(s, b, there);
    assert(session_run(s, b.push(there)).phase == PhaseView::StatCounterDir);
    lemma_run_push(s, b.push(there), d);
    assert(session_run(s, e).phase == PhaseView::ProbeCounterFile);
    lemma_run_push(s, e, missing);
    assert(e.push(missing) =~= seq![access, there, c, there, d, missing]);
    assert(session_run(s, e.push(missing)).phase == PhaseView::ReadConfig);
    lemma_run_push(s, e, there);
    assert(session_run(s, e.push(there)).phase == PhaseView::StatCounterFile);
    lemma_run_push(s, e.push(there), f);
    assert(e.push(there).push(f) =~= seq![access, there, c, there, d, there, f]);
    assert(session_run(s, e.push(there).push(f)).phase == PhaseView::ReadConfig);
    // it is created
    let g = a.push(missing).push(done);
    lemma_run_push(s, a, missing);
    assert(session_run(s, a.push(missing)).phase is CreateConfig);
    lemma_run_push(s, a.push(missing), done);
    assert(session_run(s, g).phase == PhaseView::StatConfig);
    lemma_run_push(s, g, c);
    assert(session_run(s, g.push(c)).phase == PhaseView::ProbeCounterDir);
    lemma_run_push(s, g.push(c), missing);
    assert(g.push(c).push(missing) =~= seq![access, missing, done, c, missing]);
    assert(session_run(s, g.push(c).push(missing)).phase == PhaseView::ReadConfig);
}

} // verus!
