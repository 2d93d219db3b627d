use doit::counter::{decrement_counter, reset_counter, CounterStore};
use doit::counter_file::CounterRequest;
use doit::permissions::FileStatus;
use doit::session::{
    become_root, check_shadow_access, get_real_username, judge_password, prompt_password, Answer,
    Event, Level, Phase, Purpose, Report, Session, ShadowAccess,
};

const SHADOW: &str = "alice:$5$9aEeVXnCiCNHUjO/$FrVBcjyJukRaE6inMYazyQv1DBnwaKfom.71ebgQR/0:1\n";

fn text(s: &str) -> String {
    s.to_string()
}

fn begin() -> Session {
    Session::new(text("alice"), text("whoami"), vec![text("-x")])
}

fn silent(session: Session, event: Event) -> Session {
    let (session, report) = session.next(event);
    assert!(report.log.is_none());
    assert!(report.lines.is_empty());
    session
}

fn log_of(report: &Report) -> Option<(Level, &str)> {
    report.log.as_ref().map(|r| (r.level, r.text.as_str()))
}

fn secure(mode: u32) -> Event {
    Event::Status(Ok(FileStatus { uid: 0, gid: 0, mode }))
}

/// A session whose configuration is about to be read.
fn checked() -> Session {
    let s = begin();
    assert!(matches!(s.phase, Phase::CheckShadow));
    let s = silent(s, Event::Access(ShadowAccess::Granted));
    assert!(matches!(s.phase, Phase::ProbeConfig));
    let s = silent(s, Event::Present(true));
    assert!(matches!(s.phase, Phase::StatConfig));
    let s = silent(s, secure(0o100600));
    assert!(matches!(s.phase, Phase::ProbeCounterDir));
    let s = silent(s, Event::Present(true));
    assert!(matches!(s.phase, Phase::StatCounterDir));
    let s = silent(s, secure(0o040700));
    assert!(matches!(s.phase, Phase::ProbeCounterFile));
    let s = silent(s, Event::Present(true));
    assert!(matches!(s.phase, Phase::StatCounterFile));
    let s = silent(s, secure(0o100600));
    assert!(matches!(s.phase, Phase::ReadConfig));
    s
}

fn authorised(session: Session, event: Event, log: &str) -> Session {
    let (session, report) = session.next(event);
    assert_eq!(log_of(&report), Some((Level::Info, log)));
    assert!(matches!(session.phase, Phase::BecomeRoot));
    session
}

fn refused(session: Session, event: Event, level: Level, log: &str, lines: &[&str]) {
    let (session, report) = session.next(event);
    assert!(matches!(session.phase, Phase::Exit));
    assert_eq!(log_of(&report), Some((level, log)));
    assert_eq!(report.lines, lines);
    let (session, report) = session.next(Event::Switched(0, 0));
    assert!(matches!(session.phase, Phase::Exit));
    assert!(report.log.is_none() && report.lines.is_empty());
}

fn executes(session: Session) -> Session {
    let s = silent(session, Event::Switched(0, 0));
    assert!(matches!(s.phase, Phase::ReadEnvironment));
    let env = vec![(text("LD_PRELOAD"), text("x")), (text("TERM"), text("vt"))];
    let s = silent(s, Event::Environment(env));
    match &s.phase {
        Phase::Execute(plan) => {
            assert_eq!(plan.program, "whoami");
            assert_eq!(plan.args, vec!["-x"]);
            assert_eq!(
                plan.env,
                vec![
                    (text("TERM"), text("vt")),
                    (text("PATH"), text("/usr/local/bin:/usr/bin:/bin")),
                ]
            );
        }
        _ => panic!("no command"),
    }
    s
}

#[test]
fn nopass_needs_no_password() {
    let s = authorised(
        checked(),
        Event::Config(text("alice permit nopass\n")),
        "alice: authorised (nopass): whoami",
    );
    let s = executes(s);
    refused(
        s,
        Event::Failed(text("No such file")),
        Level::Error,
        "alice: exec failed: whoami: No such file",
        &["doit: failed to execute 'whoami': No such file"],
    );
}

fn asked(config: &str) -> Session {
    let s = silent(checked(), Event::Config(text(config)));
    assert!(matches!(s.phase, Phase::AskPassword(Purpose::EveryTime)));
    assert_eq!(s.prompt(), "[doit] password for alice: ");
    s
}

fn typed(session: Session, password: &str) -> Session {
    let s = silent(session, Event::Password(text(password)));
    assert!(matches!(s.phase, Phase::ReadShadow(_, _)));
    s
}

#[test]
fn permit_needs_the_password() {
    let s = typed(asked("alice permit\n"), "foobar");
    let s = authorised(s, Event::Shadow(Ok(text(SHADOW))), "alice: authorised (password): whoami");
    executes(s);
}

#[test]
fn a_wrong_password_is_refused_and_logged() {
    refused(
        typed(asked("alice permit\n"), "wrong"),
        Event::Shadow(Ok(text(SHADOW))),
        Level::Warn,
        "alice: authorisation denied: incorrect password",
        &["doit: incorrect password"],
    );
    refused(
        typed(asked("alice permit\n"), "foobar"),
        Event::Shadow(Err(text("gone"))),
        Level::Warn,
        "alice: authorisation denied: failed to read /etc/shadow: gone",
        &["doit: failed to read /etc/shadow: gone"],
    );
    refused(
        typed(asked("alice permit\n"), "foobar"),
        Event::Shadow(Ok(text("alice:$y$jzzzz$x$y:1"))),
        Level::Warn,
        "alice: authorisation denied: failed to parse password hash for user 'alice' (corrupt /etc/shadow?)",
        &["doit: failed to parse password hash for user 'alice' (corrupt /etc/shadow?)"],
    );
    refused(
        typed(asked("alice permit\n"), "foobar"),
        Event::Shadow(Ok(text("alice"))),
        Level::Warn,
        "alice: authorisation denied: failed to parse password hash for user 'alice' (corrupt /etc/shadow?)",
        &["doit: failed to parse password hash for user 'alice' (corrupt /etc/shadow?)"],
    );
    refused(
        typed(asked("alice permit\n"), "foobar"),
        Event::Shadow(Ok(text("alice:$y$jjnz$LdJM$k7BX:1"))),
        Level::Warn,
        "alice: authorisation denied: password hash for user 'alice' needs more memory than can be addressed",
        &["doit: password hash for user 'alice' needs more memory than can be addressed"],
    );
}

#[test]
fn an_empty_password_is_asked_for_again() {
    let (s, report) = asked("alice permit\n").next(Event::Password(String::new()));
    assert!(matches!(s.phase, Phase::AskPassword(Purpose::EveryTime)));
    assert_eq!(log_of(&report), None);
    assert_eq!(report.lines, vec!["doit: password cannot be empty"]);
    let s = typed(s, "foobar");
    authorised(s, Event::Shadow(Ok(text(SHADOW))), "alice: authorised (password): whoami");
    refused(
        asked("alice permit\n"),
        Event::Failed(text("no tty")),
        Level::Warn,
        "alice: authorisation denied: failed to read password from terminal: no tty",
        &["doit: failed to read password from terminal: no tty"],
    );
}

fn counted(uses: Option<usize>) -> Session {
    let s = silent(checked(), Event::Config(text("alice permit extend\n")));
    assert!(matches!(s.phase, Phase::ReadCounters));
    let store = uses.map(|n| CounterStore::from_entries(vec![(text("alice"), n)]));
    silent(s, Event::Counters(store))
}

#[test]
fn extend_takes_a_free_use() {
    for uses in [None, Some(1), Some(10)] {
        let s = counted(uses);
        assert!(matches!(s.phase, Phase::UpdateCounter(CounterRequest::Decrement)));
        let s = authorised(
            s,
            Event::Remaining(9),
            "alice: authorised (extend, 9 remaining): whoami",
        );
        executes(s);
    }
    refused(
        counted(None),
        Event::Failed(text("failed to flush counter file: full")),
        Level::Warn,
        "alice: authorisation denied: failed to flush counter file: full",
        &["doit: failed to flush counter file: full"],
    );
}

#[test]
fn extend_without_a_free_use_needs_the_password() {
    let s = counted(Some(0));
    assert!(matches!(s.phase, Phase::AskPassword(Purpose::Recharge)));
    let s = silent(typed(s, "foobar"), Event::Shadow(Ok(text(SHADOW))));
    assert!(matches!(s.phase, Phase::UpdateCounter(CounterRequest::Reset)));
    let s = authorised(
        s,
        Event::Remaining(10),
        "alice: authorised (extend, recharged): whoami",
    );
    executes(s);
    refused(
        typed(counted(Some(0)), "wrong"),
        Event::Shadow(Ok(text(SHADOW))),
        Level::Warn,
        "alice: authorisation denied: incorrect password",
        &["doit: incorrect password"],
    );
}

#[test]
fn ten_free_uses_over_invocations() {
    let mut counters = CounterStore::new();
    for round in 0..2 {
        for _ in 0..10 {
            let s = counted(counters.get("alice"));
            assert!(matches!(s.phase, Phase::UpdateCounter(CounterRequest::Decrement)));
            decrement_counter(&mut counters, "alice");
        }
        let s = counted(counters.get("alice"));
        assert!(matches!(s.phase, Phase::AskPassword(Purpose::Recharge)), "{}", round);
        reset_counter(&mut counters, "alice");
    }
}

#[test]
fn users_without_an_entry_are_refused() {
    refused(
        checked(),
        Event::Config(text("bob permit nopass\nalice allow\n")),
        Level::Warn,
        "alice: authorisation denied (not in /etc/doit.conf)",
        &[
            "doit: config: malformed line (expected '<user> permit [nopass|extend]'): alice allow",
            "doit: user 'alice' is not permitted to use doit",
            "doit: add 'alice permit [nopass|extend]' to /etc/doit.conf",
        ],
    );
    refused(
        checked(),
        Event::Failed(text("not UTF-8")),
        Level::Error,
        "alice: failed to read config: not UTF-8",
        &["doit: failed to read config '/etc/doit.conf': not UTF-8"],
    );
}

#[test]
fn complaints_are_reported_to_permitted_users_too() {
    let (s, report) = checked().next(Event::Config(text("x\nalice permit nopass\n")));
    assert!(matches!(s.phase, Phase::BecomeRoot));
    assert_eq!(log_of(&report), Some((Level::Info, "alice: authorised (nopass): whoami")));
    assert_eq!(
        report.lines,
        vec!["doit: config: malformed line (expected '<user> permit [nopass|extend]'): x"]
    );
}

#[test]
fn a_missing_configuration_is_created() {
    let s = silent(begin(), Event::Access(ShadowAccess::Granted));
    let s = silent(s, Event::Present(false));
    match &s.phase {
        Phase::CreateConfig(contents) => assert_eq!(contents, "alice permit\n"),
        _ => panic!("not created"),
    }
    let (s, report) = s.next(Event::Done);
    assert!(matches!(s.phase, Phase::StatConfig));
    assert_eq!(
        log_of(&report),
        Some((Level::Info, "created /etc/doit.conf with default entry for 'alice'"))
    );
    assert_eq!(report.lines, vec!["doit: created /etc/doit.conf with entry 'alice permit'"]);

    let s = silent(begin(), Event::Access(ShadowAccess::Granted));
    refused(
        silent(s, Event::Present(false)),
        Event::Failed(text("read-only")),
        Level::Error,
        "failed to create /etc/doit.conf: read-only",
        &[
            "doit: failed to create config '/etc/doit.conf': read-only",
            "doit: create it manually with:",
            "doit:   echo 'alice permit' | sudo tee /etc/doit.conf && sudo chmod 600 /etc/doit.conf",
        ],
    );
}

#[test]
fn insecure_files_are_refused() {
    let s = silent(begin(), Event::Access(ShadowAccess::Granted));
    let s = silent(s, Event::Present(true));
    refused(
        s,
        secure(0o100644),
        Level::Warn,
        "alice: authorisation denied: config file (/etc/doit.conf) is world-readable (mode 644) \u{2014} must be mode 600",
        &["doit: config file (/etc/doit.conf) is world-readable (mode 644) \u{2014} must be mode 600"],
    );
    let s = silent(begin(), Event::Access(ShadowAccess::Granted));
    let s = silent(s, Event::Present(true));
    let s = silent(s, secure(0o100600));
    let s = silent(s, Event::Present(true));
    let s = silent(s, secure(0o040700));
    let s = silent(s, Event::Present(true));
    refused(
        s,
        Event::Status(Err(text("gone"))),
        Level::Warn,
        "alice: authorisation denied: cannot stat counter file (/var/lib/doit/counter.json): gone",
        &["doit: cannot stat counter file (/var/lib/doit/counter.json): gone"],
    );
}

#[test]
fn absent_counters_need_no_check() {
    let s = silent(begin(), Event::Access(ShadowAccess::Granted));
    let s = silent(s, Event::Present(true));
    let s = silent(s, secure(0o100600));
    let s = silent(s, Event::Present(false));
    assert!(matches!(s.phase, Phase::ReadConfig));
    let s = silent(begin(), Event::Access(ShadowAccess::Granted));
    let s = silent(s, Event::Present(true));
    let s = silent(s, secure(0o100600));
    let s = silent(s, Event::Present(true));
    let s = silent(s, secure(0o040700));
    let s = silent(s, Event::Present(false));
    assert!(matches!(s.phase, Phase::ReadConfig));
}

#[test]
fn the_shadow_file_must_be_readable() {
    assert!(check_shadow_access("alice", &ShadowAccess::Granted).is_ok());
    refused(
        begin(),
        Event::Access(ShadowAccess::Denied),
        Level::Warn,
        "alice: authorisation denied: cannot read /etc/shadow (Permission denied)",
        &[
            "doit: cannot read /etc/shadow (Permission denied)",
            "doit: the doit binary must be installed as setuid root:",
            "doit:   sudo chown root:root /path/to/doit",
            "doit:   sudo chmod u+s /path/to/doit",
        ],
    );
    refused(
        begin(),
        Event::Access(ShadowAccess::Failed(text("not found"))),
        Level::Warn,
        "alice: authorisation denied: cannot access /etc/shadow: not found",
        &["doit: cannot access /etc/shadow: not found"],
    );
}

fn becoming() -> Session {
    authorised(
        checked(),
        Event::Config(text("alice permit nopass\n")),
        "alice: authorised (nopass): whoami",
    )
}

#[test]
fn root_must_be_become() {
    assert!(become_root(&Ok((0, 0))).is_ok());
    for ids in [(1000, 0), (0, 1000), (1000, 1000)] {
        refused(
            becoming(),
            Event::Switched(ids.0, ids.1),
            Level::Error,
            "failed to verify root UID after setresuid",
            &["doit: failed to verify root UID after privilege switch"],
        );
    }
    refused(
        becoming(),
        Event::Failed(text("EPERM")),
        Level::Error,
        "failed to switch to root UID: EPERM",
        &[
            "doit: failed to switch to root UID: EPERM",
            "doit: the doit binary must be installed as setuid root:",
            "doit:   sudo chown root:root /path/to/doit",
            "doit:   sudo chmod u+s /path/to/doit",
        ],
    );
}

#[test]
fn events_out_of_place_are_refused() {
    refused(
        asked("alice permit\n"),
        Event::Switched(0, 0),
        Level::Warn,
        "alice: authorisation denied: unexpected event",
        &["doit: unexpected event"],
    );
}

#[test]
fn verdicts_and_answers() {
    assert!(judge_password("alice", &Some(Ok(true))).is_ok());
    let refusal = judge_password("alice", &Some(Err(text("corrupt")))).unwrap_err();
    assert_eq!(refusal.lines, vec!["doit: corrupt"]);
    assert_eq!(prompt_password(&Ok(text("x"))), Answer::Verify);
    assert_eq!(prompt_password(&Ok(String::new())), Answer::AskAgain);
    assert_eq!(prompt_password(&Err(text("no tty"))), Answer::GiveUp);
}

#[test]
fn the_calling_user_must_have_a_name() {
    assert_eq!(get_real_username(1000, Some(text("alice"))), Ok(text("alice")));
    assert_eq!(
        get_real_username(1234, None),
        Err(text("doit: unable to determine username for UID 1234"))
    );
}
