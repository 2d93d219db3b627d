//! One invocation of `doit`, as decisions.
//!
//! A [`Session`] is in a phase that says what is to be done next. The caller
//! does it and hands the outcome to [`Session::next`], which moves the session
//! on and says what is to be reported. A session ends in the execution of the
//! command or in a refusal; every refusal, and every authorization, is logged.
use vstd::prelude::*;

use crate::config::{
    complaints_of, default_config, find_permit, granted, read_config, sole_entry, PermitType, CONFIG_PATH,
};
use crate::counter::{
    remaining_of, remaining_uses, CounterStore, COUNTER_DIR, COUNTER_PATH,
};
use crate::counter_file::CounterRequest;
use crate::environment::{build_command, env_view, sanitised, CommandPlan, PlanView};
use crate::password::{
    is_checkable, read_text, try_verify_password, verdict,
};
use crate::permissions::{
    check_secure_file, insecurity, is_secure, lemma_secure_paths, FileStatus, PathKind,
};
use crate::text::{decimal, text_lines, texts, to_decimal};

verus! {

/// How serious a log record is.
#[derive(Debug, Clone, Copy, PartialEq, Eq, Structural)]
pub enum Level {
    Info,
    Warn,
    Error,
}

/// A record for the system log.
#[derive(Debug)]
pub struct LogRecord {
    /// How serious it is.
    pub level: Level,
    /// What it says.
    pub text: String,
}

/// What is to be reported.
#[derive(Debug)]
pub struct Report {
    /// The record for the system log, if there is one.
    pub log: Option<LogRecord>,
    /// The lines for the user.
    pub lines: Vec<String>,
}

/// A [`Report`] by its values.
#[verifier::ext_equal]
pub struct ReportView {
    pub log: Option<(Level, Seq<char>)>,
    pub lines: Seq<Seq<char>>,
}

impl View for Report {
    type V = ReportView;

    open spec fn view(&self) -> ReportView {
        ReportView {
            log: match self.log {
                Some(r) => Some((r.level, r.text@)),
                None => None,
            },
            lines: texts(self.lines@),
        }
    }
}

/// Whether `/etc/shadow` can be read.
#[derive(Debug)]
pub enum ShadowAccess {
    /// It can.
    Granted,
    /// It may not be read.
    Denied,
    /// It cannot, for the given reason.
    Failed(String),
}

/// A [`ShadowAccess`] by its values.
#[verifier::ext_equal]
pub enum AccessView {
    Granted,
    Denied,
    Failed(Seq<char>),
}

impl View for ShadowAccess {
    type V = AccessView;

    open spec fn view(&self) -> AccessView {
        match self {
            ShadowAccess::Granted => AccessView::Granted,
            ShadowAccess::Denied => AccessView::Denied,
            ShadowAccess::Failed(e) => AccessView::Failed(e@),
        }
    }
}

/// Why a password is asked for.
#[derive(Debug, Clone, Copy, PartialEq, Eq, Structural)]
pub enum Purpose {
    /// The user needs one every time.
    EveryTime,
    /// The user has no free use left.
    Recharge,
}

/// What is to be done next.
#[derive(Debug)]
pub enum Phase {
    /// Find out whether `/etc/shadow` can be read.
    CheckShadow,
    /// Find out whether the configuration file exists.
    ProbeConfig,
    /// Create the configuration file with these contents, as `root:root` with mode `600`.
    CreateConfig(String),
    /// Find out the status of the configuration file.
    StatConfig,
    /// Find out whether the counter directory exists.
    ProbeCounterDir,
    /// Find out the status of the counter directory.
    StatCounterDir,
    /// Find out whether the counter file exists.
    ProbeCounterFile,
    /// Find out the status of the counter file.
    StatCounterFile,
    /// Read the configuration file.
    ReadConfig,
    /// Read the counters.
    ReadCounters,
    /// Ask the user for the password.
    AskPassword(Purpose),
    /// Read `/etc/shadow` to verify the given password.
    ReadShadow(Purpose, String),
    /// Update the counter of the user.
    UpdateCounter(CounterRequest),
    /// Become root.
    BecomeRoot,
    /// Read the environment.
    ReadEnvironment,
    /// Execute the command.
    Execute(CommandPlan),
    /// Exit with a failure.
    Exit,
}

/// A [`Phase`] by its values.
#[verifier::ext_equal]
pub enum PhaseView {
    CheckShadow,
    ProbeConfig,
    CreateConfig(Seq<char>),
    StatConfig,
    ProbeCounterDir,
    StatCounterDir,
    ProbeCounterFile,
    StatCounterFile,
    ReadConfig,
    ReadCounters,
    AskPassword(Purpose),
    ReadShadow(Purpose, Seq<char>),
    UpdateCounter(CounterRequest),
    BecomeRoot,
    ReadEnvironment,
    Execute(PlanView),
    Exit,
}

impl View for Phase {
    type V = PhaseView;

    open spec fn view(&self) -> PhaseView {
        match self {
            Phase::CheckShadow => PhaseView::CheckShadow,
            Phase::ProbeConfig => PhaseView::ProbeConfig,
            Phase::CreateConfig(c) => PhaseView::CreateConfig(c@),
            Phase::StatConfig => PhaseView::StatConfig,
            Phase::ProbeCounterDir => PhaseView::ProbeCounterDir,
            Phase::StatCounterDir => PhaseView::StatCounterDir,
            Phase::ProbeCounterFile => PhaseView::ProbeCounterFile,
            Phase::StatCounterFile => PhaseView::StatCounterFile,
            Phase::ReadConfig => PhaseView::ReadConfig,
            Phase::ReadCounters => PhaseView::ReadCounters,
            Phase::AskPassword(p) => PhaseView::AskPassword(*p),
            Phase::ReadShadow(p, w) => PhaseView::ReadShadow(*p, w@),
            Phase::UpdateCounter(q) => PhaseView::UpdateCounter(*q),
            Phase::BecomeRoot => PhaseView::BecomeRoot,
            Phase::ReadEnvironment => PhaseView::ReadEnvironment,
            Phase::Execute(p) => PhaseView::Execute(p@),
            Phase::Exit => PhaseView::Exit,
        }
    }
}

/// The outcome of a phase.
#[derive(Debug)]
pub enum Event {
    /// Whether `/etc/shadow` can be read.
    Access(ShadowAccess),
    /// Whether the file or directory exists.
    Present(bool),
    /// It was done.
    Done,
    /// It failed, for the given reason.
    Failed(String),
    /// The status of the file or directory, or why there is none.
    Status(Result<FileStatus, String>),
    /// The contents of the configuration file.
    Config(String),
    /// The counters, if they could be read.
    Counters(Option<CounterStore>),
    /// What the user has typed.
    Password(String),
    /// The contents of `/etc/shadow`, or why they could not be read.
    Shadow(Result<String, String>),
    /// The uses that are left after the update of the counter.
    Remaining(usize),
    /// The real and the effective user ID after the switch.
    Switched(u32, u32),
    /// The environment of the caller.
    Environment(Vec<(String, String)>),
}

/// An [`Event`] by its values.
#[verifier::ext_equal]
pub enum EventView {
    Access(AccessView),
    Present(bool),
    Done,
    Failed(Seq<char>),
    Status(Result<FileStatus, Seq<char>>),
    Config(Seq<char>),
    Counters(Map<Seq<char>, usize>),
    Password(Seq<char>),
    Shadow(Result<Seq<char>, Seq<char>>),
    Remaining(usize),
    Switched(u32, u32),
    Environment(Seq<(Seq<char>, Seq<char>)>),
}

/// The counters that were read; none where they could not be.
pub open spec fn counters_view(c: Option<CounterStore>) -> Map<Seq<char>, usize> {
    match c {
        Some(s) => s@,
        None => Map::empty(),
    }
}

impl View for Event {
    type V = EventView;

    open spec fn view(&self) -> EventView {
        match self {
            Event::Access(a) => EventView::Access(a@),
            Event::Present(b) => EventView::Present(*b),
            Event::Done => EventView::Done,
            Event::Failed(e) => EventView::Failed(e@),
            Event::Status(s) => EventView::Status(crate::password::by_text(*s)),
            Event::Config(t) => EventView::Config(t@),
            Event::Counters(c) => EventView::Counters(counters_view(*c)),
            Event::Password(p) => EventView::Password(p@),
            Event::Shadow(t) => EventView::Shadow(read_text(*t)),
            Event::Remaining(n) => EventView::Remaining(*n),
            Event::Switched(u, e) => EventView::Switched(*u, *e),
            Event::Environment(v) => EventView::Environment(env_view(v@)),
        }
    }
}

/// One invocation.
#[derive(Debug)]
pub struct Session {
    /// The caller.
    pub user: String,
    /// The command to be executed.
    pub command: String,
    /// The arguments of the command.
    pub args: Vec<String>,
    /// What is to be done next.
    pub phase: Phase,
}

/// A [`Session`] by its values.
#[verifier::ext_equal]
pub struct SessionView {
    pub user: Seq<char>,
    pub command: Seq<char>,
    pub args: Seq<Seq<char>>,
    pub phase: PhaseView,
}

impl View for Session {
    type V = SessionView;

    open spec fn view(&self) -> SessionView {
        SessionView {
            user: self.user@,
            command: self.command@,
            args: texts(self.args@),
            phase: self.phase@,
        }
    }
}

/// A session that has not begun.
pub open spec fn session_start(
    user: Seq<char>,
    command: Seq<char>,
    args: Seq<Seq<char>>,
) -> SessionView {
    SessionView { user, command, args, phase: PhaseView::CheckShadow }
}

/// Nothing to report.
pub open spec fn silent() -> ReportView {
    ReportView { log: None, lines: seq![] }
}

/// A line for the user.
pub open spec fn line(text: Seq<char>) -> Seq<char> {
    "doit: "@ + text
}

/// A refusal that is logged in the general form.
pub open spec fn denial(user: Seq<char>, reason: Seq<char>, hints: Seq<Seq<char>>) -> ReportView {
    ReportView {
        log: Some((Level::Warn, user + ": authorisation denied: "@ + reason)),
        lines: seq![line(reason)] + hints,
    }
}

/// How `doit` is installed.
pub open spec fn setup_hints() -> Seq<Seq<char>> {
    seq![
        "doit: the doit binary must be installed as setuid root:"@,
        "doit:   sudo chown root:root /path/to/doit"@,
        "doit:   sudo chmod u+s /path/to/doit"@,
    ]
}

/// The refusal where `/etc/shadow` cannot be read.
pub open spec fn shadow_refusal(user: Seq<char>, access: AccessView) -> Option<ReportView> {
    match access {
        AccessView::Granted => None,
        AccessView::Denied => Some(
            denial(user, "cannot read /etc/shadow (Permission denied)"@, setup_hints()),
        ),
        AccessView::Failed(e) => Some(denial(user, "cannot access /etc/shadow: "@ + e, seq![])),
    }
}

/// What a typed password, or the failure to read one, leads to.
#[derive(Debug, Clone, Copy, PartialEq, Eq, Structural)]
pub enum Answer {
    /// It is to be verified.
    Verify,
    /// It is empty, so the user is asked again.
    AskAgain,
    /// There is none.
    GiveUp,
}

/// What a typed password leads to.
pub open spec fn answer_to(entered: Result<Seq<char>, Seq<char>>) -> Answer {
    match entered {
        Ok(p) => if p.len() == 0 {
            Answer::AskAgain
        } else {
            Answer::Verify
        },
        Err(_) => Answer::GiveUp,
    }
}

/// The refusal that follows from the verification of a password: none where it
/// matched. There is no verdict where the hash cannot be computed.
pub open spec fn password_refusal(
    user: Seq<char>,
    outcome: Option<Result<bool, Seq<char>>>,
) -> Option<ReportView> {
    match outcome {
        Some(Ok(true)) => None,
        Some(Ok(false)) => Some(denial(user, "incorrect password"@, seq![])),
        Some(Err(m)) => Some(denial(user, m, seq![])),
        None => Some(
            denial(
                user,
                "password hash for user '"@ + user + "' needs more memory than can be addressed"@,
                seq![],
            ),
        ),
    }
}

/// The verdict on a password, where there is one.
pub open spec fn outcome_of(
    user: Seq<char>,
    password: Seq<char>,
    shadow: Result<Seq<char>, Seq<char>>,
) -> Option<Result<bool, Seq<char>>> {
    if is_checkable(user, shadow) {
        Some(verdict(user, password, shadow))
    } else {
        None
    }
}

/// The refusal where root could not be become, or was not.
pub open spec fn root_refusal(switched: Result<(u32, u32), Seq<char>>) -> Option<ReportView> {
    match switched {
        Err(e) => Some(
            ReportView {
                log: Some((Level::Error, "failed to switch to root UID: "@ + e)),
                lines: seq![line("failed to switch to root UID: "@ + e)] + setup_hints(),
            },
        ),
        Ok((uid, euid)) => if uid != 0 || euid != 0 {
            Some(
                ReportView {
                    log: Some((Level::Error, "failed to verify root UID after setresuid"@)),
                    lines: seq![line("failed to verify root UID after privilege switch"@)],
                },
            )
        } else {
            None
        },
    }
}

/// The session in another phase, with a report.
pub open spec fn moved(s: SessionView, phase: PhaseView, report: ReportView) -> (
    SessionView,
    ReportView,
) {
    (SessionView { phase, ..s }, report)
}

/// The session ended by a refusal.
pub open spec fn refused(s: SessionView, report: ReportView) -> (SessionView, ReportView) {
    moved(s, PhaseView::Exit, report)
}

/// The session authorised in the given way.
pub open spec fn authorised(s: SessionView, way: Seq<char>) -> (SessionView, ReportView) {
    moved(
        s,
        PhaseView::BecomeRoot,
        ReportView {
            log: Some(
                (Level::Info, s.user + ": authorised ("@ + way + "): "@ + s.command),
            ),
            lines: seq![],
        },
    )
}

/// The session after a path was checked: refused, or in the given phase.
pub open spec fn path_checked(
    s: SessionView,
    path: Seq<char>,
    description: Seq<char>,
    kind: PathKind,
    status: Result<FileStatus, Seq<char>>,
    phase: PhaseView,
) -> (SessionView, ReportView) {
    match status {
        Ok(st) => if is_secure(kind, st) {
            moved(s, phase, silent())
        } else {
            refused(s, denial(s.user, insecurity(path, description, kind, st), seq![]))
        },
        Err(e) => refused(
            s,
            denial(s.user, "cannot stat "@ + description + " ("@ + path + "): "@ + e, seq![]),
        ),
    }
}

/// The session after the configuration file was created.
pub open spec fn config_created(s: SessionView) -> (SessionView, ReportView) {
    moved(
        s,
        PhaseView::StatConfig,
        ReportView {
            log: Some(
                (
                    Level::Info,
                    "created "@ + CONFIG_PATH@ + " with default entry for '"@ + s.user + "'"@,
                ),
            ),
            lines: seq![
                line("created "@ + CONFIG_PATH@ + " with entry '"@ + s.user + " permit'"@),
            ],
        },
    )
}

/// The session after the configuration file could not be created.
pub open spec fn config_not_created(s: SessionView, reason: Seq<char>) -> (
    SessionView,
    ReportView,
) {
    refused(
        s,
        ReportView {
            log: Some((Level::Error, "failed to create "@ + CONFIG_PATH@ + ": "@ + reason)),
            lines: seq![
                line("failed to create config '"@ + CONFIG_PATH@ + "': "@ + reason),
                "doit: create it manually with:"@,
                "doit:   echo '"@ + s.user + " permit' | sudo tee "@ + CONFIG_PATH@
                    + " && sudo chmod 600 "@ + CONFIG_PATH@,
            ],
        },
    )
}

/// The session after the configuration file could not be read.
pub open spec fn config_not_read(s: SessionView, reason: Seq<char>) -> (SessionView, ReportView) {
    refused(
        s,
        ReportView {
            log: Some((Level::Error, s.user + ": failed to read config: "@ + reason)),
            lines: seq![line("failed to read config '"@ + CONFIG_PATH@ + "': "@ + reason)],
        },
    )
}

/// The session after the configuration file was read.
pub open spec fn config_read(s: SessionView, config: Seq<char>) -> (SessionView, ReportView) {
    let complaints = complaints_of(text_lines(config));
    match granted(config, s.user) {
        None => refused(
            s,
            ReportView {
                log: Some(
                    (
                        Level::Warn,
                        s.user + ": authorisation denied (not in "@ + CONFIG_PATH@ + ")"@,
                    ),
                ),
                lines: complaints + seq![
                    line("user '"@ + s.user + "' is not permitted to use doit"@),
                    line("add '"@ + s.user + " permit [nopass|extend]' to "@ + CONFIG_PATH@),
                ],
            },
        ),
        Some(PermitType::NoPass) => (
            authorised(s, "nopass"@).0,
            ReportView { lines: complaints, ..authorised(s, "nopass"@).1 },
        ),
        Some(PermitType::Password) => moved(
            s,
            PhaseView::AskPassword(Purpose::EveryTime),
            ReportView { log: None, lines: complaints },
        ),
        Some(PermitType::Extend) => moved(
            s,
            PhaseView::ReadCounters,
            ReportView { log: None, lines: complaints },
        ),
    }
}

/// The session after the user has typed a password.
pub open spec fn password_typed(s: SessionView, purpose: Purpose, password: Seq<char>) -> (
    SessionView,
    ReportView,
) {
    if answer_to(Ok(password)) == Answer::AskAgain {
        moved(
            s,
            PhaseView::AskPassword(purpose),
            ReportView { log: None, lines: seq![line("password cannot be empty"@)] },
        )
    } else {
        moved(s, PhaseView::ReadShadow(purpose, password), silent())
    }
}

/// The session after a password was verified.
pub open spec fn password_verified(
    s: SessionView,
    purpose: Purpose,
    outcome: Option<Result<bool, Seq<char>>>,
) -> (SessionView, ReportView) {
    match password_refusal(s.user, outcome) {
        Some(report) => refused(s, report),
        None => match purpose {
            Purpose::EveryTime => authorised(s, "password"@),
            Purpose::Recharge => moved(
                s,
                PhaseView::UpdateCounter(CounterRequest::Reset),
                silent(),
            ),
        },
    }
}

/// The session after root was become, or was not.
pub open spec fn root_become(s: SessionView, switched: Result<(u32, u32), Seq<char>>) -> (
    SessionView,
    ReportView,
) {
    match root_refusal(switched) {
        Some(report) => refused(s, report),
        None => moved(s, PhaseView::ReadEnvironment, silent()),
    }
}

/// The session after the command could not be executed.
pub open spec fn not_executed(s: SessionView, reason: Seq<char>) -> (SessionView, ReportView) {
    refused(
        s,
        ReportView {
            log: Some(
                (Level::Error, s.user + ": exec failed: "@ + s.command + ": "@ + reason),
            ),
            lines: seq![line("failed to execute '"@ + s.command + "': "@ + reason)],
        },
    )
}

/// Where a session goes on an event, and what is to be reported.
///
/// An event that does not belong to the phase ends the session in a refusal.
pub open spec fn session_next(s: SessionView, e: EventView) -> (SessionView, ReportView) {
    match (s.phase, e) {
        (PhaseView::Exit, _) => (s, silent()),
        (PhaseView::CheckShadow, EventView::Access(a)) => match shadow_refusal(s.user, a) {
            Some(report) => refused(s, report),
            None => moved(s, PhaseView::ProbeConfig, silent()),
        },
        (PhaseView::ProbeConfig, EventView::Present(b)) => if b {
            moved(s, PhaseView::StatConfig, silent())
        } else {
            moved(s, PhaseView::CreateConfig(sole_entry(s.user)), silent())
        },
        (PhaseView::CreateConfig(_), EventView::Done) => config_created(s),
        (PhaseView::CreateConfig(_), EventView::Failed(r)) => config_not_created(s, r),
        (PhaseView::StatConfig, EventView::Status(st)) => path_checked(
            s,
            CONFIG_PATH@,
            "config file"@,
            PathKind::File,
            st,
            PhaseView::ProbeCounterDir,
        ),
        (PhaseView::ProbeCounterDir, EventView::Present(b)) => moved(
            s,
            if b {
                PhaseView::StatCounterDir
            } else {
                PhaseView::ReadConfig
            },
            silent(),
        ),
        (PhaseView::StatCounterDir, EventView::Status(st)) => path_checked(
            s,
            COUNTER_DIR@,
            "counter directory"@,
            PathKind::Directory,
            st,
            PhaseView::ProbeCounterFile,
        ),
        (PhaseView::ProbeCounterFile, EventView::Present(b)) => moved(
            s,
            if b {
                PhaseView::StatCounterFile
            } else {
                PhaseView::ReadConfig
            },
            silent(),
        ),
        (PhaseView::StatCounterFile, EventView::Status(st)) => path_checked(
            s,
            COUNTER_PATH@,
            "counter file"@,
            PathKind::File,
            st,
            PhaseView::ReadConfig,
        ),
        (PhaseView::ReadConfig, EventView::Config(t)) => config_read(s, t),
        (PhaseView::ReadConfig, EventView::Failed(r)) => config_not_read(s, r),
        (PhaseView::ReadCounters, EventView::Counters(c)) => moved(
            s,
            if remaining_of(c, s.user) > 0 {
                PhaseView::UpdateCounter(CounterRequest::Decrement)
            } else {
                PhaseView::AskPassword(Purpose::Recharge)
            },
            silent(),
        ),
        (PhaseView::AskPassword(p), EventView::Password(w)) => password_typed(s, p, w),
        (PhaseView::AskPassword(_), EventView::Failed(r)) => refused(
            s,
            denial(s.user, "failed to read password from terminal: "@ + r, seq![]),
        ),
        (PhaseView::ReadShadow(p, w), EventView::Shadow(t)) => password_verified(
            s,
            p,
            outcome_of(s.user, w, t),
        ),
        (PhaseView::UpdateCounter(q), EventView::Remaining(n)) => match q {
            CounterRequest::Decrement => authorised(
                s,
                "extend, "@ + decimal(n as nat) + " remaining"@,
            ),
            CounterRequest::Reset => authorised(s, "extend, recharged"@),
        },
        (PhaseView::UpdateCounter(_), EventView::Failed(r)) => refused(
            s,
            denial(s.user, r, seq![]),
        ),
        (PhaseView::BecomeRoot, EventView::Switched(u, v)) => root_become(s, Ok((u, v))),
        (PhaseView::BecomeRoot, EventView::Failed(r)) => root_become(s, Err(r)),
        (PhaseView::ReadEnvironment, EventView::Environment(v)) => moved(
            s,
            PhaseView::Execute(
                PlanView { program: s.command, args: s.args, env: sanitised(v) },
            ),
            silent(),
        ),
        (PhaseView::Execute(_), EventView::Failed(r)) => not_executed(s, r),
        _ => refused(s, denial(s.user, "unexpected event"@, seq![])),
    }
}

/// The refusal in a result, by its values.
pub open spec fn refusal_of(r: Result<(), Report>) -> Option<ReportView> {
    match r {
        Ok(_) => None,
        Err(report) => Some(report@),
    }
}

/// A verdict with its error by its text.
pub open spec fn outcome_view(r: Option<Result<bool, String>>) -> Option<Result<bool, Seq<char>>> {
    match r {
        Some(v) => Some(crate::password::by_text(v)),
        None => None,
    }
}

/// No lines.
fn no_lines() -> (r: Vec<String>)
    ensures
        texts(r@) == Seq::<Seq<char>>::empty(),
{
    let r: Vec<String> = Vec::new();
    proof {
        assert(texts(r@) =~= Seq::<Seq<char>>::empty());
    }
    r
}

/// The lines with one more at their end.
fn and_line(before: Vec<String>, text: String) -> (r: Vec<String>)
    ensures
        texts(r@) == texts(before@).push(text@),
{
    let mut r = before;
    r.push(text);
    proof {
        assert(texts(r@) =~= texts(before@).push(text@));
    }
    r
}

/// A line for the user.
fn line_text(text: &str) -> (r: String)
    ensures
        r@ == line(text@),
{
    "doit: ".to_owned().concat(text)
}

/// The lines with the hints on installation at their end.
fn and_setup_hints(before: Vec<String>) -> (r: Vec<String>)
    ensures
        texts(r@) == texts(before@) + setup_hints(),
{
    let a = and_line(
        before,
        "doit: the doit binary must be installed as setuid root:".to_owned(),
    );
    let b = and_line(a, "doit:   sudo chown root:root /path/to/doit".to_owned());
    let c = and_line(b, "doit:   sudo chmod u+s /path/to/doit".to_owned());
    proof {
        assert(texts(c@) =~= texts(before@) + setup_hints());
    }
    c
}

impl Report {
    /// Nothing to report.
    fn silent() -> (r: Report)
        ensures
            r@ == silent(),
    {
        Report { log: None, lines: no_lines() }
    }

    /// A log record, and lines for the user.
    fn logged(level: Level, text: String, lines: Vec<String>) -> (r: Report)
        ensures
            r@ == (ReportView { log: Some((level, text@)), lines: texts(lines@) }),
    {
        Report { log: Some(LogRecord { level, text }), lines }
    }

    /// Lines for the user alone.
    fn lines_only(lines: Vec<String>) -> (r: Report)
        ensures
            r@ == (ReportView { log: None, lines: texts(lines@) }),
    {
        Report { log: None, lines }
    }

    /// A refusal that is logged in the general form.
    fn denial(user: &str, reason: &str) -> (r: Report)
        ensures
            r@ == denial(user@, reason@, seq![]),
    {
        let lines = and_line(no_lines(), line_text(reason));
        proof {
            assert(texts(lines@) =~= seq![line(reason@)] + Seq::<Seq<char>>::empty());
        }
        Report::logged(
            Level::Warn,
            user.to_owned().concat(": authorisation denied: ").concat(reason),
            lines,
        )
    }
}

/// Decides whether `doit` can go on, given whether `/etc/shadow` can be read. A
/// user who may not read it is told how to install `doit`.
pub fn check_shadow_access(user: &str, access: &ShadowAccess) -> (r: Result<(), Report>)
    ensures
        refusal_of(r) == shadow_refusal(user@, access@),
{
    match access {
        ShadowAccess::Granted => Ok(()),
        ShadowAccess::Denied => {
            let d = Report::denial(user, "cannot read /etc/shadow (Permission denied)");
            let lines = and_setup_hints(d.lines);
            proof {
                assert(texts(lines@) =~= seq![line("cannot read /etc/shadow (Permission denied)"@)]
                    + setup_hints());
            }
            Err(Report { log: d.log, lines })
        },
        ShadowAccess::Failed(e) => Err(
            Report::denial(
                user,
                "cannot access /etc/shadow: ".to_owned().concat(e.as_str()).as_str(),
            ),
        ),
    }
}

/// Decides what follows from what the user has typed at the prompt, or from the
/// failure to read it. Empty passwords are rejected, and the user is asked again.
pub fn prompt_password(entered: &Result<String, String>) -> (r: Answer)
    ensures
        r == answer_to(read_text(*entered)),
{
    match entered {
        Ok(p) => if p.as_str().is_empty() {
            Answer::AskAgain
        } else {
            Answer::Verify
        },
        Err(_) => Answer::GiveUp,
    }
}

/// Decides whether a user has authenticated, given the verdict on the password.
/// There is one attempt: a password that does not match is refused.
pub fn judge_password(user: &str, outcome: &Option<Result<bool, String>>) -> (r: Result<(), Report>)
    ensures
        refusal_of(r) == password_refusal(user@, outcome_view(*outcome)),
{
    match outcome {
        Some(Ok(b)) => if *b {
            Ok(())
        } else {
            Err(Report::denial(user, "incorrect password"))
        },
        Some(Err(m)) => Err(Report::denial(user, m.as_str())),
        None => Err(
            Report::denial(
                user,
                "password hash for user '".to_owned().concat(user).concat(
                    "' needs more memory than can be addressed",
                ).as_str(),
            ),
        ),
    }
}

/// Decides whether the process has become root, given its real and effective
/// user IDs after the switch, or why there was no switch.
pub fn become_root(switched: &Result<(u32, u32), String>) -> (r: Result<(), Report>)
    ensures
        refusal_of(r) == root_refusal(crate::password::by_text(*switched)),
{
    match switched {
        Err(e) => {
            let text = "failed to switch to root UID: ".to_owned().concat(e.as_str());
            let first = and_line(no_lines(), line_text(text.as_str()));
            let lines = and_setup_hints(first);
            proof {
                assert(texts(lines@) =~= seq![line(text@)] + setup_hints());
            }
            Err(Report::logged(Level::Error, text, lines))
        },
        Ok((uid, euid)) => if *uid != 0 || *euid != 0 {
            let lines = and_line(
                no_lines(),
                line_text("failed to verify root UID after privilege switch"),
            );
            proof {
                assert(texts(lines@) =~= seq![
                    line("failed to verify root UID after privilege switch"@),
                ]);
            }
            Err(
                Report::logged(
                    Level::Error,
                    "failed to verify root UID after setresuid".to_owned(),
                    lines,
                ),
            )
        } else {
            Ok(())
        },
    }
}

/// The name of the caller, given what the user database says of their user ID.
pub fn get_real_username(uid: u32, name: Option<String>) -> (r: Result<String, String>)
    ensures
        match (name, r) {
            (Some(n), Ok(u)) => u@ == n@,
            (None, Err(m)) => m@ == "doit: unable to determine username for UID "@ + decimal(
                uid as nat,
            ),
            _ => false,
        },
{
    match name {
        Some(n) => Ok(n),
        None => Err(
            "doit: unable to determine username for UID ".to_owned().concat(
                to_decimal(uid as u64).as_str(),
            ),
        ),
    }
}

impl Session {
    /// A session that has not begun.
    pub fn new(user: String, command: String, args: Vec<String>) -> (r: Session)
        ensures
            r@ == session_start(user@, command@, texts(args@)),
    {
        Session { user, command, args, phase: Phase::CheckShadow }
    }

    /// The prompt for the password.
    pub fn prompt(&self) -> (r: String)
        ensures
            r@ == "[doit] password for "@ + self@.user + ": "@,
    {
        "[doit] password for ".to_owned().concat(self.user.as_str()).concat(": ")
    }

    fn moved(self, phase: Phase, report: Report) -> (r: (Session, Report))
        ensures
            (r.0@, r.1@) == moved(self@, phase@, report@),
    {
        let mut s = self;
        s.phase = phase;
        (s, report)
    }

    fn denied(self, reason: &str) -> (r: (Session, Report))
        ensures
            (r.0@, r.1@) == refused(self@, denial(self@.user, reason@, seq![])),
    {
        let report = Report::denial(self.user.as_str(), reason);
        self.moved(Phase::Exit, report)
    }

    fn authorised(self, way: &str) -> (r: (Session, Report))
        ensures
            (r.0@, r.1@) == authorised(self@, way@),
    {
        let text = self.user.as_str().to_owned().concat(": authorised (").concat(way).concat(
            "): ",
        ).concat(self.command.as_str());
        self.moved(Phase::BecomeRoot, Report::logged(Level::Info, text, no_lines()))
    }

    fn path_checked(
        self,
        path: &str,
        description: &str,
        kind: PathKind,
        status: &Result<FileStatus, String>,
        phase: Phase,
    ) -> (r: (Session, Report))
        ensures
            (r.0@, r.1@) == path_checked(
                self@,
                path@,
                description@,
                kind,
                crate::password::by_text(*status),
                phase@,
            ),
    {
        match check_secure_file(path, description, kind, status) {
            Ok(_) => self.moved(phase, Report::silent()),
            Err(reason) => self.denied(reason.as_str()),
        }
    }

    fn config_created(self) -> (r: (Session, Report))
        ensures
            (r.0@, r.1@) == config_created(self@),
    {
        let text = "created ".to_owned().concat(CONFIG_PATH).concat(
            " with default entry for '",
        ).concat(self.user.as_str()).concat("'");
        let told = "created ".to_owned().concat(CONFIG_PATH).concat(" with entry '").concat(
            self.user.as_str(),
        ).concat(" permit'");
        let lines = and_line(no_lines(), line_text(told.as_str()));
        proof {
            assert(texts(lines@) =~= seq![line(told@)]);
        }
        self.moved(Phase::StatConfig, Report::logged(Level::Info, text, lines))
    }

    fn config_not_created(self, reason: &str) -> (r: (Session, Report))
        ensures
            (r.0@, r.1@) == config_not_created(self@, reason@),
    {
        let text = "failed to create ".to_owned().concat(CONFIG_PATH).concat(": ").concat(reason);
        let told = "failed to create config '".to_owned().concat(CONFIG_PATH).concat("': ").concat(
            reason,
        );
        let command = "doit:   echo '".to_owned().concat(self.user.as_str()).concat(
            " permit' | sudo tee ",
        ).concat(CONFIG_PATH).concat(" && sudo chmod 600 ").concat(CONFIG_PATH);
        let a = and_line(no_lines(), line_text(told.as_str()));
        let b = and_line(a, "doit: create it manually with:".to_owned());
        let lines = and_line(b, command);
        proof {
            assert(texts(lines@) =~= seq![
                line(told@),
                "doit: create it manually with:"@,
                command@,
            ]);
        }
        self.moved(Phase::Exit, Report::logged(Level::Error, text, lines))
    }

    fn config_not_read(self, reason: &str) -> (r: (Session, Report))
        ensures
            (r.0@, r.1@) == config_not_read(self@, reason@),
    {
        let text = self.user.as_str().to_owned().concat(": failed to read config: ").concat(reason);
        let told = "failed to read config '".to_owned().concat(CONFIG_PATH).concat("': ").concat(
            reason,
        );
        let lines = and_line(no_lines(), line_text(told.as_str()));
        proof {
            assert(texts(lines@) =~= seq![line(told@)]);
        }
        self.moved(Phase::Exit, Report::logged(Level::Error, text, lines))
    }

    fn config_read(self, contents: &str) -> (r: (Session, Report))
        ensures
            (r.0@, r.1@) == config_read(self@, contents@),
    {
        let config = read_config(contents);
        let permit = match find_permit(config.entries.as_slice(), self.user.as_str()) {
            Some(p) => Some(*p),
            None => None,
        };
        match permit {
            None => {
                let text = self.user.as_str().to_owned().concat(
                    ": authorisation denied (not in ",
                ).concat(CONFIG_PATH).concat(")");
                let first = "user '".to_owned().concat(self.user.as_str()).concat(
                    "' is not permitted to use doit",
                );
                let second = "add '".to_owned().concat(self.user.as_str()).concat(
                    " permit [nopass|extend]' to ",
                ).concat(CONFIG_PATH);
                let ghost complaints = texts(config.complaints@);
                let a = and_line(config.complaints, line_text(first.as_str()));
                let lines = and_line(a, line_text(second.as_str()));
                proof {
                    assert(texts(lines@) =~= complaints + seq![line(first@), line(second@)]);
                }
                self.moved(Phase::Exit, Report::logged(Level::Warn, text, lines))
            },
            Some(PermitType::NoPass) => {
                let (s, report) = self.authorised("nopass");
                (s, Report { log: report.log, lines: config.complaints })
            },
            Some(PermitType::Password) => self.moved(
                Phase::AskPassword(Purpose::EveryTime),
                Report::lines_only(config.complaints),
            ),
            Some(PermitType::Extend) => self.moved(
                Phase::ReadCounters,
                Report::lines_only(config.complaints),
            ),
        }
    }

    fn password_typed(self, purpose: Purpose, password: String) -> (r: (Session, Report))
        ensures
            (r.0@, r.1@) == password_typed(self@, purpose, password@),
    {
        let entered: Result<String, String> = Ok(password);
        match prompt_password(&entered) {
            Answer::AskAgain => {
                let lines = and_line(no_lines(), line_text("password cannot be empty"));
                proof {
                    assert(texts(lines@) =~= seq![line("password cannot be empty"@)]);
                }
                self.moved(Phase::AskPassword(purpose), Report::lines_only(lines))
            },
            _ => match entered {
                Ok(p) => self.moved(Phase::ReadShadow(purpose, p), Report::silent()),
                Err(e) => self.denied(e.as_str()),
            },
        }
    }

    fn password_verified(self, purpose: Purpose, outcome: &Option<Result<bool, String>>) -> (r: (
        Session,
        Report,
    ))
        ensures
            (r.0@, r.1@) == password_verified(self@, purpose, outcome_view(*outcome)),
    {
        match judge_password(self.user.as_str(), outcome) {
            Err(report) => self.moved(Phase::Exit, report),
            Ok(_) => match purpose {
                Purpose::EveryTime => self.authorised("password"),
                Purpose::Recharge => self.moved(
                    Phase::UpdateCounter(CounterRequest::Reset),
                    Report::silent(),
                ),
            },
        }
    }

    fn root_become(self, switched: &Result<(u32, u32), String>) -> (r: (Session, Report))
        ensures
            (r.0@, r.1@) == root_become(self@, crate::password::by_text(*switched)),
    {
        match become_root(switched) {
            Err(report) => self.moved(Phase::Exit, report),
            Ok(_) => self.moved(Phase::ReadEnvironment, Report::silent()),
        }
    }

    fn not_executed(self, reason: &str) -> (r: (Session, Report))
        ensures
            (r.0@, r.1@) == not_executed(self@, reason@),
    {
        let text = self.user.as_str().to_owned().concat(": exec failed: ").concat(
            self.command.as_str(),
        ).concat(": ").concat(reason);
        let told = "failed to execute '".to_owned().concat(self.command.as_str()).concat(
            "': ",
        ).concat(reason);
        let lines = and_line(no_lines(), line_text(told.as_str()));
        proof {
            assert(texts(lines@) =~= seq![line(told@)]);
        }
        self.moved(Phase::Exit, Report::logged(Level::Error, text, lines))
    }

    /// Moves the session on by the outcome of its phase. The second part of the
    /// result is what is to be reported.
    #[verifier::rlimit(40)]
    pub fn next(self, event: Event) -> (r: (Session, Report))
        ensures
            (r.0@, r.1@) == session_next(self@, event@),
    {
        let mut s = self;
        let mut phase = Phase::Exit;
        std::mem::swap(&mut phase, &mut s.phase);
        match (phase, event) {
            (Phase::Exit, _) => (s, Report::silent()),
            (Phase::CheckShadow, Event::Access(a)) => match check_shadow_access(
                s.user.as_str(),
                &a,
            ) {
                Err(report) => s.moved(Phase::Exit, report),
                Ok(_) => s.moved(Phase::ProbeConfig, Report::silent()),
            },
            (Phase::ProbeConfig, Event::Present(b)) => if b {
                s.moved(Phase::StatConfig, Report::silent())
            } else {
                let contents = default_config(s.user.as_str());
                s.moved(Phase::CreateConfig(contents), Report::silent())
            },
            (Phase::CreateConfig(_), Event::Done) => s.config_created(),
            (Phase::CreateConfig(_), Event::Failed(e)) => s.config_not_created(e.as_str()),
            (Phase::StatConfig, Event::Status(st)) => s.path_checked(
                CONFIG_PATH,
                "config file",
                PathKind::File,
                &st,
                Phase::ProbeCounterDir,
            ),
            (Phase::ProbeCounterDir, Event::Present(b)) => if b {
                s.moved(Phase::StatCounterDir, Report::silent())
            } else {
                s.moved(Phase::ReadConfig, Report::silent())
            },
            (Phase::StatCounterDir, Event::Status(st)) => s.path_checked(
                COUNTER_DIR,
                "counter directory",
                PathKind::Directory,
                &st,
                Phase::ProbeCounterFile,
            ),
            (Phase::ProbeCounterFile, Event::Present(b)) => if b {
                s.moved(Phase::StatCounterFile, Report::silent())
            } else {
                s.moved(Phase::ReadConfig, Report::silent())
            },
            (Phase::StatCounterFile, Event::Status(st)) => s.path_checked(
                COUNTER_PATH,
                "counter file",
                PathKind::File,
                &st,
                Phase::ReadConfig,
            ),
            (Phase::ReadConfig, Event::Config(t)) => s.config_read(t.as_str()),
            (Phase::ReadConfig, Event::Failed(e)) => s.config_not_read(e.as_str()),
            (Phase::ReadCounters, Event::Counters(c)) => if remaining_uses(&c, s.user.as_str())
                > 0 {
                s.moved(Phase::UpdateCounter(CounterRequest::Decrement), Report::silent())
            } else {
                s.moved(Phase::AskPassword(Purpose::Recharge), Report::silent())
            },
            (Phase::AskPassword(p), Event::Password(w)) => s.password_typed(p, w),
            (Phase::AskPassword(_), Event::Failed(e)) => s.denied(
                "failed to read password from terminal: ".to_owned().concat(e.as_str()).as_str(),
            ),
            (Phase::ReadShadow(p, w), Event::Shadow(t)) => {
                let outcome = try_verify_password(s.user.as_str(), w.as_str(), &t);
                proof {
                    assert(outcome_view(outcome) == outcome_of(s@.user, w@, read_text(t)));
                }
                s.password_verified(p, &outcome)
            },
            (Phase::UpdateCounter(q), Event::Remaining(n)) => match q {
                CounterRequest::Decrement => s.authorised(
                    "extend, ".to_owned().concat(to_decimal(n as u64).as_str()).concat(
                        " remaining",
                    ).as_str(),
                ),
                CounterRequest::Reset => s.authorised("extend, recharged"),
            },
            (Phase::UpdateCounter(_), Event::Failed(e)) => s.denied(e.as_str()),
            (Phase::BecomeRoot, Event::Switched(u, v)) => s.root_become(&Ok((u, v))),
            (Phase::BecomeRoot, Event::Failed(e)) => s.root_become(&Err(e)),
            (Phase::ReadEnvironment, Event::Environment(v)) => {
                let plan = build_command(s.command.as_str(), &s.args, &v);
                s.moved(Phase::Execute(plan), Report::silent())
            },
            (Phase::Execute(_), Event::Failed(e)) => s.not_executed(e.as_str()),
            _ => s.denied("unexpected event"),
        }
    }
}

/// Whether a step goes on to a phase, with nothing to report and nothing else
/// changed.
pub open spec fn goes_on(
    s: SessionView,
    phase: PhaseView,
    step: (SessionView, ReportView),
) -> bool {
    &&& step.0 == (SessionView { phase, ..s })
    &&& step.1.log is None
    &&& step.1.lines.len() == 0
}

/// Whether a step refuses the user for the given reason: the session ends, the
/// refusal is logged as a warning with the name of the user, and the user is told.
pub open spec fn is_denied(
    s: SessionView,
    reason: Seq<char>,
    hints: Seq<Seq<char>>,
    step: (SessionView, ReportView),
) -> bool {
    &&& step.0 == (SessionView { phase: PhaseView::Exit, ..s })
    &&& step.1.log == Some((Level::Warn, s.user + ": authorisation denied: "@ + reason))
    &&& step.1.lines == seq!["doit: "@ + reason] + hints
}

/// Whether a step ends the session with an error: the record is logged as one, and
/// the lines are for the user.
pub open spec fn has_failed(
    s: SessionView,
    record: Seq<char>,
    lines: Seq<Seq<char>>,
    step: (SessionView, ReportView),
) -> bool {
    &&& step.0 == (SessionView { phase: PhaseView::Exit, ..s })
    &&& step.1.log == Some((Level::Error, record))
    &&& step.1.lines == lines
}

/// Whether a step authorises the user: root is to be become, and the log says who
/// executes what, and by which right.
pub open spec fn is_authorised(
    s: SessionView,
    way: Seq<char>,
    lines: Seq<Seq<char>>,
    step: (SessionView, ReportView),
) -> bool {
    &&& step.0 == (SessionView { phase: PhaseView::BecomeRoot, ..s })
    &&& step.1.log == Some((Level::Info, s.user + ": authorised ("@ + way + "): "@ + s.command))
    &&& step.1.lines == lines
}

/// A session begins with `/etc/shadow`, for the user and with the command that it
/// was made for.
pub proof fn lemma_sessions_begin(user: Seq<char>, command: Seq<char>, args: Seq<Seq<char>>)
    ensures
        session_start(user, command, args).phase == PhaseView::CheckShadow,
        session_start(user, command, args).user == user,
        session_start(user, command, args).command == command,
        session_start(user, command, args).args == args,
{
}

/// A session goes on where `/etc/shadow` can be read, and is refused where it
/// cannot: with hints on the installation where it may not be read, with the reason
/// where it cannot be read for another one.
pub proof fn lemma_shadow_has_to_be_readable(s: SessionView, reason: Seq<char>)
    requires
        s.phase == PhaseView::CheckShadow,
    ensures
        goes_on(
            s,
            PhaseView::ProbeConfig,
            session_next(s, EventView::Access(AccessView::Granted)),
        ),
        is_denied(
            s,
            "cannot read /etc/shadow (Permission denied)"@,
            seq![
                "doit: the doit binary must be installed as setuid root:"@,
                "doit:   sudo chown root:root /path/to/doit"@,
                "doit:   sudo chmod u+s /path/to/doit"@,
            ],
            session_next(s, EventView::Access(AccessView::Denied)),
        ),
        is_denied(
            s,
            "cannot access /etc/shadow: "@ + reason,
            seq![],
            session_next(s, EventView::Access(AccessView::Failed(reason))),
        ),
{
}

/// What is decided on the access to `/etc/shadow` is what a session does.
pub proof fn lemma_shadow_refusals(s: SessionView, access: AccessView)
    requires
        s.phase == PhaseView::CheckShadow,
    ensures
        match shadow_refusal(s.user, access) {
            None => goes_on(
                s,
                PhaseView::ProbeConfig,
                session_next(s, EventView::Access(access)),
            ),
            Some(report) => session_next(s, EventView::Access(access)) == (
                SessionView { phase: PhaseView::Exit, ..s },
                report,
            ),
        },
{
}

/// A configuration file that is there is checked; where there is none, one is
/// created that permits the user, which is logged and told, and then checked; and
/// where that fails, the user is told how to create it.
pub proof fn lemma_configuration_file_is_found_or_created(
    s: SessionView,
    contents: Seq<char>,
    reason: Seq<char>,
)
    ensures
        s.phase == PhaseView::ProbeConfig ==> goes_on(
            s,
            PhaseView::StatConfig,
            session_next(s, EventView::Present(true)),
        ),
        s.phase == PhaseView::ProbeConfig ==> goes_on(
            s,
            PhaseView::CreateConfig(s.user + " permit\n"@),
            session_next(s, EventView::Present(false)),
        ),
        s.phase == PhaseView::CreateConfig(contents) ==> session_next(s, EventView::Done) == (
            SessionView { phase: PhaseView::StatConfig, ..s },
            ReportView {
                log: Some(
                    (
                        Level::Info,
                        "created "@ + CONFIG_PATH@ + " with default entry for '"@ + s.user + "'"@,
                    ),
                ),
                lines: seq![
                    "doit: "@ + ("created "@ + CONFIG_PATH@ + " with entry '"@ + s.user
                        + " permit'"@),
                ],
            },
        ),
        s.phase == PhaseView::CreateConfig(contents) ==> has_failed(
            s,
            "failed to create "@ + CONFIG_PATH@ + ": "@ + reason,
            seq![
                "doit: "@ + ("failed to create config '"@ + CONFIG_PATH@ + "': "@ + reason),
                "doit: create it manually with:"@,
                "doit:   echo '"@ + s.user + " permit' | sudo tee "@ + CONFIG_PATH@
                    + " && sudo chmod 600 "@ + CONFIG_PATH@,
            ],
            session_next(s, EventView::Failed(reason)),
        ),
{
}

/// A file or directory that is relied on lets a session go on exactly where root
/// owns it and it allows nobody else anything; otherwise the user is refused with
/// what is wrong with it. What is not there is not checked.
pub proof fn lemma_files_have_to_be_secure(s: SessionView, st: FileStatus)
    ensures
        ({
            let owned = st.uid == 0 && st.gid == 0;
            let file = owned && st.mode & 0o177 == 0;
            let directory = owned && st.mode & 0o077 == 0;
            let step = session_next(s, EventView::Status(Ok(st)));
            &&& s.phase == PhaseView::StatConfig ==> if file {
                goes_on(s, PhaseView::ProbeCounterDir, step)
            } else {
                is_denied(
                    s,
                    insecurity(CONFIG_PATH@, "config file"@, PathKind::File, st),
                    seq![],
                    step,
                )
            }
            &&& s.phase == PhaseView::StatCounterDir ==> if directory {
                goes_on(s, PhaseView::ProbeCounterFile, step)
            } else {
                is_denied(
                    s,
                    insecurity(COUNTER_DIR@, "counter directory"@, PathKind::Directory, st),
                    seq![],
                    step,
                )
            }
            &&& s.phase == PhaseView::StatCounterFile ==> if file {
                goes_on(s, PhaseView::ReadConfig, step)
            } else {
                is_denied(
                    s,
                    insecurity(COUNTER_PATH@, "counter file"@, PathKind::File, st),
                    seq![],
                    step,
                )
            }
        }),
        s.phase == PhaseView::ProbeCounterDir ==> goes_on(
            s,
            PhaseView::StatCounterDir,
            session_next(s, EventView::Present(true)),
        ) && goes_on(s, PhaseView::ReadConfig, session_next(s, EventView::Present(false))),
        s.phase == PhaseView::ProbeCounterFile ==> goes_on(
            s,
            PhaseView::StatCounterFile,
            session_next(s, EventView::Present(true)),
        ) && goes_on(s, PhaseView::ReadConfig, session_next(s, EventView::Present(false))),
{
    lemma_secure_paths(st);
}

/// A file or directory whose status cannot be found out is refused with the reason.
pub proof fn lemma_files_without_a_status_are_refused(s: SessionView, reason: Seq<char>)
    ensures
        ({
            let step = session_next(s, EventView::Status(Err(reason)));
            &&& s.phase == PhaseView::StatConfig ==> is_denied(
                s,
                "cannot stat "@ + "config file"@ + " ("@ + CONFIG_PATH@ + "): "@ + reason,
                seq![],
                step,
            )
            &&& s.phase == PhaseView::StatCounterDir ==> is_denied(
                s,
                "cannot stat "@ + "counter directory"@ + " ("@ + COUNTER_DIR@ + "): "@ + reason,
                seq![],
                step,
            )
            &&& s.phase == PhaseView::StatCounterFile ==> is_denied(
                s,
                "cannot stat "@ + "counter file"@ + " ("@ + COUNTER_PATH@ + "): "@ + reason,
                seq![],
                step,
            )
        }),
{
}

/// The level that the configuration grants decides what is done: the command at
/// once, a look at the counters, a password. A user without a level is refused and
/// told how to get one. In any case the complaints about the file are told, and
/// first.
pub proof fn lemma_levels_decide(s: SessionView, config: Seq<char>, reason: Seq<char>)
    requires
        s.phase == PhaseView::ReadConfig,
    ensures
        ({
            let step = session_next(s, EventView::Config(config));
            let complaints = complaints_of(text_lines(config));
            let quiet = ReportView { log: None, lines: complaints };
            match granted(config, s.user) {
                None => {
                    &&& step.0 == (SessionView { phase: PhaseView::Exit, ..s })
                    &&& step.1.log == Some(
                        (
                            Level::Warn,
                            s.user + ": authorisation denied (not in "@ + CONFIG_PATH@ + ")"@,
                        ),
                    )
                    &&& step.1.lines == complaints + seq![
                        "doit: "@ + ("user '"@ + s.user + "' is not permitted to use doit"@),
                        "doit: "@ + ("add '"@ + s.user + " permit [nopass|extend]' to "@
                            + CONFIG_PATH@),
                    ]
                },
                Some(PermitType::NoPass) => is_authorised(s, "nopass"@, complaints, step),
                Some(PermitType::Password) => step == (
                    SessionView { phase: PhaseView::AskPassword(Purpose::EveryTime), ..s },
                    quiet,
                ),
                Some(PermitType::Extend) => step == (
                    SessionView { phase: PhaseView::ReadCounters, ..s },
                    quiet,
                ),
            }
        }),
        has_failed(
            s,
            s.user + ": failed to read config: "@ + reason,
            seq!["doit: "@ + ("failed to read config '"@ + CONFIG_PATH@ + "': "@ + reason)],
            session_next(s, EventView::Failed(reason)),
        ),
{
}

/// With an `extend` entry, the counter of the user decides: a free use is taken
/// where the counter is above zero or there is none, and a password is asked for
/// where it is zero.
pub proof fn lemma_counters_decide(
    s: SessionView,
    counters: Map<Seq<char>, usize>,
    n: usize,
)
    requires
        s.phase == PhaseView::ReadCounters,
    ensures
        n > 0 ==> goes_on(
            s,
            PhaseView::UpdateCounter(CounterRequest::Decrement),
            session_next(s, EventView::Counters(counters.insert(s.user, n))),
        ),
        goes_on(
            s,
            PhaseView::AskPassword(Purpose::Recharge),
            session_next(s, EventView::Counters(counters.insert(s.user, 0))),
        ),
        goes_on(
            s,
            PhaseView::UpdateCounter(CounterRequest::Decrement),
            session_next(s, EventView::Counters(counters.remove(s.user))),
        ),
{
}

/// At the prompt, whatever the password is for: an empty password is rejected and
/// asked for again, any other one is verified as it was typed, and where none can
/// be read the user is refused.
pub proof fn lemma_passwords_are_taken_as_typed(
    s: SessionView,
    purpose: Purpose,
    password: Seq<char>,
    reason: Seq<char>,
)
    requires
        s.phase == PhaseView::AskPassword(purpose),
    ensures
        session_next(s, EventView::Password(Seq::empty())) == (
            s,
            ReportView { log: None, lines: seq!["doit: "@ + "password cannot be empty"@] },
        ),
        password.len() > 0 ==> goes_on(
            s,
            PhaseView::ReadShadow(purpose, password),
            session_next(s, EventView::Password(password)),
        ),
        is_denied(
            s,
            "failed to read password from terminal: "@ + reason,
            seq![],
            session_next(s, EventView::Failed(reason)),
        ),
{
}

/// What is decided on what was typed: an empty password is asked for again, any
/// other one is verified, and without one there is nothing to be done.
pub proof fn lemma_answers(password: Seq<char>, reason: Seq<char>)
    ensures
        answer_to(Ok(Seq::empty())) == Answer::AskAgain,
        password.len() > 0 ==> answer_to(Ok(password)) == Answer::Verify,
        answer_to(Err(reason)) == Answer::GiveUp,
{
}

/// A password that matches authorises the user, or recharges the counter first
/// where it stands for free uses; one that does not match is refused, and so is one
/// on which there is no verdict, with the reason.
pub proof fn lemma_verdicts_decide(
    s: SessionView,
    purpose: Purpose,
    password: Seq<char>,
    shadow: Result<Seq<char>, Seq<char>>,
)
    requires
        s.phase == PhaseView::ReadShadow(purpose, password),
    ensures
        ({
            let step = session_next(s, EventView::Shadow(shadow));
            if is_checkable(s.user, shadow) {
                match verdict(s.user, password, shadow) {
                    Ok(true) => match purpose {
                        Purpose::EveryTime => is_authorised(s, "password"@, seq![], step),
                        Purpose::Recharge => goes_on(
                            s,
                            PhaseView::UpdateCounter(CounterRequest::Reset),
                            step,
                        ),
                    },
                    Ok(false) => is_denied(s, "incorrect password"@, seq![], step),
                    Err(m) => is_denied(s, m, seq![], step),
                }
            } else {
                is_denied(
                    s,
                    "password hash for user '"@ + s.user
                        + "' needs more memory than can be addressed"@,
                    seq![],
                    step,
                )
            }
        }),
{
}

/// A user whose password matches is not refused. Every other outcome is a refusal,
/// which is logged with the name of the user and told.
pub proof fn lemma_judgements(user: Seq<char>, m: Seq<char>)
    ensures
        password_refusal(user, Some(Ok(true))) is None,
        password_refusal(user, Some(Ok(false))) == Some(
            ReportView {
                log: Some(
                    (Level::Warn, user + ": authorisation denied: "@ + "incorrect password"@),
                ),
                lines: seq!["doit: "@ + "incorrect password"@] + seq![],
            },
        ),
        password_refusal(user, Some(Err(m))) == Some(
            ReportView {
                log: Some((Level::Warn, user + ": authorisation denied: "@ + m)),
                lines: seq!["doit: "@ + m] + seq![],
            },
        ),
        ({
            let reason = "password hash for user '"@ + user
                + "' needs more memory than can be addressed"@;
            password_refusal(user, None) == Some(
                ReportView {
                    log: Some((Level::Warn, user + ": authorisation denied: "@ + reason)),
                    lines: seq!["doit: "@ + reason] + seq![],
                },
            )
        }),
{
}

/// A counter that was updated authorises the user: by a free use, with the uses
/// that are left, or by the password that recharged it. Where the update fails, the
/// user is refused with the reason.
pub proof fn lemma_counter_updates_authorise(s: SessionView, left: usize, reason: Seq<char>)
    ensures
        s.phase == PhaseView::UpdateCounter(CounterRequest::Decrement) ==> is_authorised(
            s,
            "extend, "@ + decimal(left as nat) + " remaining"@,
            seq![],
            session_next(s, EventView::Remaining(left)),
        ),
        s.phase == PhaseView::UpdateCounter(CounterRequest::Reset) ==> is_authorised(
            s,
            "extend, recharged"@,
            seq![],
            session_next(s, EventView::Remaining(left)),
        ),
        s.phase is UpdateCounter ==> is_denied(
            s,
            reason,
            seq![],
            session_next(s, EventView::Failed(reason)),
        ),
{
}

/// A session goes on as root exactly where both user IDs are those of root.
pub proof fn lemma_root_has_to_be_become(s: SessionView, uid: u32, euid: u32, reason: Seq<char>)
    requires
        s.phase == PhaseView::BecomeRoot,
    ensures
        goes_on(s, PhaseView::ReadEnvironment, session_next(s, EventView::Switched(0, 0))),
        uid != 0 || euid != 0 ==> has_failed(
            s,
            "failed to verify root UID after setresuid"@,
            seq!["doit: "@ + "failed to verify root UID after privilege switch"@],
            session_next(s, EventView::Switched(uid, euid)),
        ),
        has_failed(
            s,
            "failed to switch to root UID: "@ + reason,
            seq![
                "doit: "@ + ("failed to switch to root UID: "@ + reason),
                "doit: the doit binary must be installed as setuid root:"@,
                "doit:   sudo chown root:root /path/to/doit"@,
                "doit:   sudo chmod u+s /path/to/doit"@,
            ],
            session_next(s, EventView::Failed(reason)),
        ),
{
    let told = "doit: "@ + ("failed to switch to root UID: "@ + reason);
    assert(session_next(s, EventView::Failed(reason)).1.lines =~= seq![
        told,
        "doit: the doit binary must be installed as setuid root:"@,
        "doit:   sudo chown root:root /path/to/doit"@,
        "doit:   sudo chmod u+s /path/to/doit"@,
    ]);
}

/// What is decided on the switch to root is what a session does.
pub proof fn lemma_root_refusals(s: SessionView, uid: u32, euid: u32, reason: Seq<char>)
    requires
        s.phase == PhaseView::BecomeRoot,
    ensures
        root_refusal(Ok((uid, euid))) is None <==> uid == 0 && euid == 0,
        root_refusal(Ok((uid, euid))) matches Some(report) ==> session_next(
            s,
            EventView::Switched(uid, euid),
        ) == (SessionView { phase: PhaseView::Exit, ..s }, report),
        root_refusal(Err(reason)) matches Some(report) && session_next(
            s,
            EventView::Failed(reason),
        ) == (SessionView { phase: PhaseView::Exit, ..s }, report),
{
}

/// The command is executed as it was given, in the sanitised environment; where
/// that fails, it is logged with the reason.
pub proof fn lemma_the_command_is_executed(
    s: SessionView,
    env: Seq<(Seq<char>, Seq<char>)>,
    plan: PlanView,
    reason: Seq<char>,
)
    ensures
        s.phase == PhaseView::ReadEnvironment ==> goes_on(
            s,
            PhaseView::Execute(
                PlanView { program: s.command, args: s.args, env: sanitised(env) },
            ),
            session_next(s, EventView::Environment(env)),
        ),
        s.phase == PhaseView::Execute(plan) ==> has_failed(
            s,
            s.user + ": exec failed: "@ + s.command + ": "@ + reason,
            seq!["doit: "@ + ("failed to execute '"@ + s.command + "': "@ + reason)],
            session_next(s, EventView::Failed(reason)),
        ),
{
}

/// Whether an event is an outcome that a phase can have.
pub open spec fn is_outcome_of(phase: PhaseView, event: EventView) -> bool {
    match event {
        EventView::Access(_) => phase == PhaseView::CheckShadow,
        EventView::Present(_) => phase == PhaseView::ProbeConfig || phase
            == PhaseView::ProbeCounterDir || phase == PhaseView::ProbeCounterFile,
        EventView::Done => phase is CreateConfig,
        EventView::Failed(_) => phase is CreateConfig || phase == PhaseView::ReadConfig
            || phase is AskPassword || phase is UpdateCounter || phase == PhaseView::BecomeRoot
            || phase is Execute,
        EventView::Status(_) => phase == PhaseView::StatConfig || phase
            == PhaseView::StatCounterDir || phase == PhaseView::StatCounterFile,
        EventView::Config(_) => phase == PhaseView::ReadConfig,
        EventView::Counters(_) => phase == PhaseView::ReadCounters,
        EventView::Password(_) => phase is AskPassword,
        EventView::Shadow(_) => phase is ReadShadow,
        EventView::Remaining(_) => phase is UpdateCounter,
        EventView::Switched(_, _) => phase == PhaseView::BecomeRoot,
        EventView::Environment(_) => phase == PhaseView::ReadEnvironment,
    }
}

/// An event that is no outcome of the phase is refused; one that comes after the
/// end changes nothing and is not reported.
pub proof fn lemma_events_out_of_place(s: SessionView, event: EventView)
    ensures
        s.phase == PhaseView::Exit ==> goes_on(s, PhaseView::Exit, session_next(s, event)),
        s.phase != PhaseView::Exit && !is_outcome_of(s.phase, event) ==> is_denied(
            s,
            "unexpected event"@,
            seq![],
            session_next(s, event),
        ),
{
}

/// Events stand for what they hold; counters that could not be read stand for none.
pub proof fn lemma_values_of_events(
    access: ShadowAccess,
    b: bool,
    n: usize,
    uid: u32,
    euid: u32,
    text: String,
    status: FileStatus,
    store: CounterStore,
    env: Vec<(String, String)>,
)
    ensures
        ShadowAccess::Granted@ == AccessView::Granted,
        ShadowAccess::Denied@ == AccessView::Denied,
        ShadowAccess::Failed(text)@ == AccessView::Failed(text@),
        Event::Access(access)@ == EventView::Access(access@),
        Event::Present(b)@ == EventView::Present(b),
        Event::Done@ == EventView::Done,
        Event::Failed(text)@ == EventView::Failed(text@),
        Event::Status(Ok(status))@ == EventView::Status(Ok(status)),
        Event::Status(Err(text))@ == EventView::Status(Err(text@)),
        Event::Config(text)@ == EventView::Config(text@),
        Event::Counters(Some(store))@ == EventView::Counters(store@),
        Event::Counters(None)@ == EventView::Counters(Map::empty()),
        Event::Password(text)@ == EventView::Password(text@),
        Event::Shadow(Ok(text))@ == EventView::Shadow(Ok(text@)),
        Event::Shadow(Err(text))@ == EventView::Shadow(Err(text@)),
        Event::Remaining(n)@ == EventView::Remaining(n),
        Event::Switched(uid, euid)@ == EventView::Switched(uid, euid),
        Event::Environment(env)@ == EventView::Environment(env_view(env@)),
{
}

/// Phases stand for what they hold.
pub proof fn lemma_values_of_phases(
    text: String,
    purpose: Purpose,
    request: CounterRequest,
    plan: CommandPlan,
)
    ensures
        Phase::CheckShadow@ == PhaseView::CheckShadow,
        Phase::ProbeConfig@ == PhaseView::ProbeConfig,
        Phase::CreateConfig(text)@ == PhaseView::CreateConfig(text@),
        Phase::StatConfig@ == PhaseView::StatConfig,
        Phase::ProbeCounterDir@ == PhaseView::ProbeCounterDir,
        Phase::StatCounterDir@ == PhaseView::StatCounterDir,
        Phase::ProbeCounterFile@ == PhaseView::ProbeCounterFile,
        Phase::StatCounterFile@ == PhaseView::StatCounterFile,
        Phase::ReadConfig@ == PhaseView::ReadConfig,
        Phase::ReadCounters@ == PhaseView::ReadCounters,
        Phase::AskPassword(purpose)@ == PhaseView::AskPassword(purpose),
        Phase::ReadShadow(purpose, text)@ == PhaseView::ReadShadow(purpose, text@),
        Phase::UpdateCounter(request)@ == PhaseView::UpdateCounter(request),
        Phase::BecomeRoot@ == PhaseView::BecomeRoot,
        Phase::ReadEnvironment@ == PhaseView::ReadEnvironment,
        Phase::Execute(plan)@ == PhaseView::Execute(plan@),
        Phase::Exit@ == PhaseView::Exit,
{
}

/// Sessions, reports and decisions stand for what they hold.
pub proof fn lemma_values_of_sessions(
    s: Session,
    report: Report,
    record: LogRecord,
    b: bool,
    m: String,
)
    ensures
        s@.user == s.user@,
        s@.command == s.command@,
        s@.args == texts(s.args@),
        s@.phase == s.phase@,
        report@.lines == texts(report.lines@),
        report.log is None ==> report@.log is None,
        report.log == Some(record) ==> report@.log == Some((record.level, record.text@)),
        refusal_of(Ok(())) is None,
        refusal_of(Err(report)) == Some(report@),
        outcome_view(None) is None,
        outcome_view(Some(Ok(b))) == Some(Ok::<bool, Seq<char>>(b)),
        outcome_view(Some(Err(m))) == Some(Err::<bool, Seq<char>>(m@)),
{
}

} // verus!
