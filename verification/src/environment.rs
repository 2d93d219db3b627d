//! The environment of the executed command.
//!
//! Of the caller's environment only variables that are known to be safe are
//! kept; everything else is stripped. `PATH` is replaced by a safe default.
use vstd::prelude::*;

use crate::text::{same, texts, views};

verus! {

/// The variables that are kept from the caller's environment.
pub const SAFE_ENV_VARS: [&'static str; 31] = [
    "DISPLAY",
    "HOME",
    "HOSTNAME",
    "LANG",
    "LC_ALL",
    "LC_COLLATE",
    "LC_CTYPE",
    "LC_MESSAGES",
    "LC_MONETARY",
    "LC_NUMERIC",
    "LC_TIME",
    "LOGNAME",
    "LS_COLORS",
    "MAIL",
    "OLDPWD",
    "PWD",
    "SHELL",
    "SHLVL",
    "SSH_AUTH_SOCK",
    "SSH_CLIENT",
    "SSH_CONNECTION",
    "SSH_TTY",
    "TERM",
    "TMPDIR",
    "USER",
    "XDG_CURRENT_DESKTOP",
    "XDG_RUNTIME_DIR",
    "XDG_SEAT",
    "XDG_SESSION_ID",
    "XDG_SESSION_TYPE",
    "XDG_VTNR",
];

/// Safe default for `PATH`.
pub const SAFE_PATH: &'static str = "/usr/local/bin:/usr/bin:/bin";

/// Variables that can change what a program does when it is run by root, and
/// must never be forwarded.
pub const DANGEROUS_ENV_VARS: [&'static str; 18] = [
    "GCONV_PATH",
    "GIO_EXTRA_MODULES",
    "LD_AUDIT",
    "LD_DEBUG",
    "LD_DYNAMIC_WEAK",
    "LD_HWCAP_MASK",
    "LD_LIBRARY_PATH",
    "LD_ORIGIN_PATH",
    "LD_PRELOAD",
    "LD_RUN_PATH",
    "PERLLIB",
    "PERL5LIB",
    "PERL5OPT",
    "PERL5SHELL",
    "PYTHONHOME",
    "PYTHONPATH",
    "RUBYLIB",
    "RUBYOPT",
];

/// The names of the variables that are kept.
pub open spec fn safe_names() -> Seq<Seq<char>> {
    views(SAFE_ENV_VARS@)
}

/// The names of the dangerous variables.
pub open spec fn dangerous_names() -> Seq<Seq<char>> {
    views(DANGEROUS_ENV_VARS@)
}

/// An environment by its names and values.
pub open spec fn env_view(env: Seq<(String, String)>) -> Seq<(Seq<char>, Seq<char>)> {
    Seq::new(env.len(), |i: int| (env[i].0@, env[i].1@))
}

/// The value of a variable: the first that the environment gives it.
pub open spec fn value_of(env: Seq<(Seq<char>, Seq<char>)>, name: Seq<char>) -> Option<Seq<char>>
    decreases env.len(),
{
    if env.len() == 0 {
        None
    } else if env[0].0 == name {
        Some(env[0].1)
    } else {
        value_of(env.skip(1), name)
    }
}

/// Those of the named variables that are set, with their values.
pub open spec fn selected(names: Seq<Seq<char>>, env: Seq<(Seq<char>, Seq<char>)>) -> Seq<
    (Seq<char>, Seq<char>),
>
    decreases names.len(),
{
    if names.len() == 0 {
        seq![]
    } else {
        let front = selected(names.drop_last(), env);
        match value_of(env, names.last()) {
            Some(v) => front.push((names.last(), v)),
            None => front,
        }
    }
}

/// The environment that a command gets: the safe variables that are set, and
/// the safe `PATH`.
pub open spec fn sanitised(env: Seq<(Seq<char>, Seq<char>)>) -> Seq<(Seq<char>, Seq<char>)> {
    selected(safe_names(), env).push(("PATH"@, SAFE_PATH@))
}

/// A program with its arguments and its whole environment.
#[derive(Debug)]
pub struct CommandPlan {
    /// What is executed.
    pub program: String,
    /// The arguments that it is given.
    pub args: Vec<String>,
    /// The environment that it is given; it gets no other variable.
    pub env: Vec<(String, String)>,
}

/// A [`CommandPlan`] by its values.
#[verifier::ext_equal]
pub struct PlanView {
    pub program: Seq<char>,
    pub args: Seq<Seq<char>>,
    pub env: Seq<(Seq<char>, Seq<char>)>,
}

impl View for CommandPlan {
    type V = PlanView;

    open spec fn view(&self) -> PlanView {
        PlanView { program: self.program@, args: texts(self.args@), env: env_view(self.env@) }
    }
}

/// The value of a variable in an environment.
pub fn get_var(env: &Vec<(String, String)>, name: &str) -> (r: Option<String>)
    ensures
        match r {
            Some(v) => value_of(env_view(env@), name@) == Some(v@),
            None => value_of(env_view(env@), name@) is None,
        },
{
    let ghost all = env_view(env@);
    let mut i: usize = 0;
    proof {
        assert(all.skip(0) =~= all);
    }
    while i < env.len()
        invariant
            i <= env.len(),
            all == env_view(env@),
            value_of(all.skip(i as int), name@) == value_of(all, name@),
        decreases env.len() - i,
    {
        proof {
            assert(all.skip(i as int)[0] == (env@[i as int].0@, env@[i as int].1@));
            assert(all.skip(i as int).skip(1) =~= all.skip(i + 1));
        }
        if same(env[i].0.as_str(), name) {
            return Some(env[i].1.as_str().to_owned());
        }
        i += 1;
    }
    None
}

/// Keeps the safe variables of an environment and sets the safe `PATH`.
pub fn sanitise_environment(env: &Vec<(String, String)>) -> (r: Vec<(String, String)>)
    ensures
        env_view(r@) == sanitised(env_view(env@)),
{
    let mut out: Vec<(String, String)> = Vec::new();
    let ghost names = safe_names();
    let ghost all = env_view(env@);
    let mut i: usize = 0;
    proof {
        assert(env_view(out@) =~= selected(names.take(0), all));
    }
    while i < SAFE_ENV_VARS.len()
        invariant
            i <= SAFE_ENV_VARS@.len(),
            names == safe_names(),
            all == env_view(env@),
            env_view(out@) == selected(names.take(i as int), all),
        decreases SAFE_ENV_VARS@.len() - i,
    {
        let name = SAFE_ENV_VARS[i];
        let ghost before = out@;
        proof {
            assert(names.take(i + 1).drop_last() =~= names.take(i as int));
            assert(names.take(i + 1).last() == name@);
        }
        match get_var(env, name) {
            Some(v) => {
                out.push((name.to_owned(), v));
                proof {
                    assert(env_view(out@) =~= env_view(before).push((name@, v@)));
                }
            },
            None => {},
        }
        i += 1;
    }
    proof {
        assert(names.take(i as int) =~= names);
    }
    let ghost before = out@;
    out.push(("PATH".to_owned(), SAFE_PATH.to_owned()));
    proof {
        assert(env_view(out@) =~= env_view(before).push(("PATH"@, SAFE_PATH@)));
    }
    out
}

/// A copy of a list of strings.
fn copy_strings(list: &Vec<String>) -> (r: Vec<String>)
    ensures
        texts(r@) == texts(list@),
{
    let mut out: Vec<String> = Vec::new();
    let mut i: usize = 0;
    while i < list.len()
        invariant
            i <= list.len(),
            out@.len() == i,
            forall|k: int| 0 <= k < i ==> (#[trigger] out@[k])@ == list@[k]@,
        decreases list.len() - i,
    {
        out.push(list[i].as_str().to_owned());
        i += 1;
    }
    proof {
        assert(texts(out@) =~= texts(list@));
    }
    out
}

/// The program and its arguments as they are, with the caller's environment
/// sanitised.
pub fn build_command(program: &str, args: &Vec<String>, env: &Vec<(String, String)>) -> (r:
    CommandPlan)
    ensures
        r@ == (PlanView {
            program: program@,
            args: texts(args@),
            env: sanitised(env_view(env@)),
        }),
{
    CommandPlan {
        program: program.to_owned(),
        args: copy_strings(args),
        env: sanitise_environment(env),
    }
}

/// How the names of the safe variables begin.
spec fn begins_safely(s: Seq<char>) -> bool {
    s.len() >= 2 && {
        ||| s[0] == 'D' && s[1] == 'I'
        ||| s[0] == 'H' && s[1] == 'O'
        ||| s[0] == 'L' && s[1] == 'A'
        ||| s[0] == 'L' && s[1] == 'C'
        ||| s[0] == 'L' && s[1] == 'O'
        ||| s[0] == 'L' && s[1] == 'S'
        ||| s[0] == 'M' && s[1] == 'A'
        ||| s[0] == 'O' && s[1] == 'L'
        ||| s[0] == 'P' && s[1] == 'W'
        ||| s[0] == 'S' && s[1] == 'H'
        ||| s[0] == 'S' && s[1] == 'S'
        ||| s[0] == 'T' && s[1] == 'E'
        ||| s[0] == 'T' && s[1] == 'M'
        ||| s[0] == 'U' && s[1] == 'S'
        ||| s[0] == 'X' && s[1] == 'D'
    }
}

proof fn lemma_safe_names_begin_safely(i: int)
    requires
        0 <= i < safe_names().len(),
    ensures
        begins_safely(safe_names()[i]),
{
    reveal_strlit("DISPLAY");
    reveal_strlit("HOME");
    reveal_strlit("HOSTNAME");
    reveal_strlit("LANG");
    reveal_strlit("LC_ALL");
    reveal_strlit("LC_COLLATE");
    reveal_strlit("LC_CTYPE");
    reveal_strlit("LC_MESSAGES");
    reveal_strlit("LC_MONETARY");
    reveal_strlit("LC_NUMERIC");
    reveal_strlit("LC_TIME");
    reveal_strlit("LOGNAME");
    reveal_strlit("LS_COLORS");
    reveal_strlit("MAIL");
    reveal_strlit("OLDPWD");
    reveal_strlit("PWD");
    reveal_strlit("SHELL");
    reveal_strlit("SHLVL");
    reveal_strlit("SSH_AUTH_SOCK");
    reveal_strlit("SSH_CLIENT");
    reveal_strlit("SSH_CONNECTION");
    reveal_strlit("SSH_TTY");
    reveal_strlit("TERM");
    reveal_strlit("TMPDIR");
    reveal_strlit("USER");
    reveal_strlit("XDG_CURRENT_DESKTOP");
    reveal_strlit("XDG_RUNTIME_DIR");
    reveal_strlit("XDG_SEAT");
    reveal_strlit("XDG_SESSION_ID");
    reveal_strlit("XDG_SESSION_TYPE");
    reveal_strlit("XDG_VTNR");
}

proof fn lemma_dangerous_names_do_not(i: int)
    requires
        0 <= i < dangerous_names().len(),
    ensures
        !begins_safely(dangerous_names()[i]),
        dangerous_names()[i] != "PATH"@,
{
    reveal_strlit("PATH");
    reveal_strlit("GCONV_PATH");
    reveal_strlit("GIO_EXTRA_MODULES");
    reveal_strlit("LD_AUDIT");
    reveal_strlit("LD_DEBUG");
    reveal_strlit("LD_DYNAMIC_WEAK");
    reveal_strlit("LD_HWCAP_MASK");
    reveal_strlit("LD_LIBRARY_PATH");
    reveal_strlit("LD_ORIGIN_PATH");
    reveal_strlit("LD_PRELOAD");
    reveal_strlit("LD_RUN_PATH");
    reveal_strlit("PERLLIB");
    reveal_strlit("PERL5LIB");
    reveal_strlit("PERL5OPT");
    reveal_strlit("PERL5SHELL");
    reveal_strlit("PYTHONHOME");
    reveal_strlit("PYTHONPATH");
    reveal_strlit("RUBYLIB");
    reveal_strlit("RUBYOPT");
    assert(dangerous_names()[i].len() > 4);
}

proof fn lemma_selected(names: Seq<Seq<char>>, env: Seq<(Seq<char>, Seq<char>)>)
    ensures
        forall|k: int|
            0 <= k < selected(names, env).len() ==> {
                let e = #[trigger] selected(names, env)[k];
                names.contains(e.0) && value_of(env, e.0) == Some(e.1)
            },
        forall|i: int|
            0 <= i < names.len() && value_of(env, #[trigger] names[i]) is Some ==> selected(
                names,
                env,
            ).contains((names[i], value_of(env, names[i]).unwrap())),
    decreases names.len(),
{
    if names.len() > 0 {
        let front = names.drop_last();
        let last = names.last();
        lemma_selected(front, env);
        let a = selected(front, env);
        let b = selected(names, env);
        assert(names[names.len() - 1] == last);
        assert forall|k: int| 0 <= k < b.len() implies {
            let e = #[trigger] b[k];
            names.contains(e.0) && value_of(env, e.0) == Some(e.1)
        } by {
            if k < a.len() {
                assert(b[k] == a[k]);
                let i = choose|i: int| 0 <= i < front.len() && front[i] == a[k].0;
                assert(names[i] == a[k].0);
            }
        }
        assert forall|i: int|
            0 <= i < names.len() && value_of(env, #[trigger] names[i]) is Some implies b.contains(
            (names[i], value_of(env, names[i]).unwrap()),
        ) by {
            let e = (names[i], value_of(env, names[i]).unwrap());
            if i < front.len() {
                assert(front[i] == names[i]);
                let k = choose|k: int| 0 <= k < a.len() && a[k] == e;
                assert(b[k] == e);
            } else {
                assert(b[b.len() - 1] == e);
            }
        }
    }
}

proof fn lemma_value_of(env: Seq<(Seq<char>, Seq<char>)>, name: Seq<char>)
    ensures
        match value_of(env, name) {
            Some(v) => env.contains((name, v)),
            None => forall|k: int| 0 <= k < env.len() ==> (#[trigger] env[k]).0 != name,
        },
    decreases env.len(),
{
    if env.len() > 0 {
        if env[0].0 != name {
            let rest = env.skip(1);
            lemma_value_of(rest, name);
            match value_of(rest, name) {
                Some(v) => {
                    let k = choose|k: int| 0 <= k < rest.len() && rest[k] == (name, v);
                    assert(env[k + 1] == (name, v));
                },
                None => {
                    assert forall|k: int| 0 <= k < env.len() implies (#[trigger] env[k]).0
                        != name by {
                        if k > 0 {
                            assert(rest[k - 1] == env[k]);
                        }
                    }
                },
            }
        } else {
            assert(env[0] == (name, env[0].1));
        }
    }
}

/// A command gets no variable but `PATH`, with its safe value, and safe ones,
/// with the values that they have for the caller.
pub proof fn lemma_only_safe_variables_are_kept(env: Seq<(Seq<char>, Seq<char>)>, k: int)
    requires
        0 <= k < sanitised(env).len(),
    ensures
        sanitised(env)[k] == ("PATH"@, SAFE_PATH@) || (safe_names().contains(sanitised(env)[k].0)
            && value_of(env, sanitised(env)[k].0) == Some(sanitised(env)[k].1)),
{
    lemma_selected(safe_names(), env);
    let kept = selected(safe_names(), env);
    if k < kept.len() {
        assert(sanitised(env)[k] == kept[k]);
    }
}

/// No dangerous variable reaches a command.
pub proof fn lemma_dangerous_variables_are_stripped(env: Seq<(Seq<char>, Seq<char>)>, k: int)
    requires
        0 <= k < sanitised(env).len(),
    ensures
        !dangerous_names().contains(sanitised(env)[k].0),
{
    let name = sanitised(env)[k].0;
    lemma_only_safe_variables_are_kept(env, k);
    if dangerous_names().contains(name) {
        let d = choose|d: int| 0 <= d < dangerous_names().len() && dangerous_names()[d] == name;
        lemma_dangerous_names_do_not(d);
        let i = choose|i: int| 0 <= i < safe_names().len() && safe_names()[i] == name;
        lemma_safe_names_begin_safely(i);
    }
}

/// `PATH` is not one of the variables that are kept.
proof fn lemma_path_is_not_kept()
    ensures
        !safe_names().contains("PATH"@),
{
    if safe_names().contains("PATH"@) {
        let i = choose|i: int| 0 <= i < safe_names().len() && safe_names()[i] == "PATH"@;
        reveal_strlit("PATH");
        lemma_safe_names_begin_safely(i);
    }
}

/// What a command finds in its environment: for `PATH` the safe value, for a
/// safe variable what the caller has, for any other variable nothing.
pub proof fn lemma_values_in_the_environment(
    env: Seq<(Seq<char>, Seq<char>)>,
    name: Seq<char>,
)
    ensures
        value_of(sanitised(env), name) == (if name == "PATH"@ {
            Some(SAFE_PATH@)
        } else if safe_names().contains(name) {
            value_of(env, name)
        } else {
            None
        }),
{
    let kept = selected(safe_names(), env);
    let out = sanitised(env);
    lemma_path_is_not_kept();
    lemma_selected(safe_names(), env);
    lemma_value_of(out, name);
    assert(out[out.len() - 1] == ("PATH"@, SAFE_PATH@));
    match value_of(out, name) {
        Some(v) => {
            let k = choose|k: int| 0 <= k < out.len() && out[k] == (name, v);
            if k < kept.len() {
                assert(kept[k] == out[k]);
            }
        },
        None => {
            if safe_names().contains(name) && value_of(env, name) is Some {
                let i = choose|i: int| 0 <= i < safe_names().len() && safe_names()[i] == name;
                let e = (safe_names()[i], value_of(env, safe_names()[i]).unwrap());
                assert(kept.contains(e));
                let k = choose|k: int| 0 <= k < kept.len() && kept[k] == e;
                assert(out[k] == e);
            }
        },
    }
}

proof fn lemma_selected_agrees(
    names: Seq<Seq<char>>,
    a: Seq<(Seq<char>, Seq<char>)>,
    b: Seq<(Seq<char>, Seq<char>)>,
)
    requires
        forall|i: int|
            0 <= i < names.len() ==> value_of(a, #[trigger] names[i]) == value_of(b, names[i]),
    ensures
        selected(names, a) == selected(names, b),
    decreases names.len(),
{
    if names.len() > 0 {
        let front = names.drop_last();
        assert forall|i: int| 0 <= i < front.len() implies value_of(a, #[trigger] front[i])
            == value_of(b, front[i]) by {
            assert(front[i] == names[i]);
        }
        lemma_selected_agrees(front, a, b);
        assert(names[names.len() - 1] == names.last());
    }
}

/// An environment that is sanitised already is left as it is.
pub proof fn lemma_sanitising_is_idempotent(env: Seq<(Seq<char>, Seq<char>)>)
    ensures
        sanitised(sanitised(env)) == sanitised(env),
{
    let names = safe_names();
    lemma_path_is_not_kept();
    assert forall|i: int| 0 <= i < names.len() implies value_of(
        sanitised(env),
        #[trigger] names[i],
    ) == value_of(env, names[i]) by {
        assert(names.contains(names[i]));
        lemma_values_in_the_environment(env, names[i]);
    }
    lemma_selected_agrees(names, sanitised(env), env);
}

/// The value of a variable is that of the first entry with its name.
pub proof fn lemma_first_value_counts(
    env: Seq<(Seq<char>, Seq<char>)>,
    name: Seq<char>,
    i: int,
)
    ensures
        (forall|j: int| 0 <= j < env.len() ==> (#[trigger] env[j]).0 != name) <==> value_of(
            env,
            name,
        ) is None,
        0 <= i < env.len() && env[i].0 == name && (forall|j: int|
            0 <= j < i ==> (#[trigger] env[j]).0 != name) ==> value_of(env, name) == Some(
            env[i].1,
        ),
    decreases env.len(),
{
    lemma_value_of(env, name);
    if env.len() > 0 {
        let rest = env.skip(1);
        lemma_first_value_counts(rest, name, i - 1);
        if 0 < i < env.len() && forall|j: int| 0 <= j < i ==> (#[trigger] env[j]).0 != name {
            assert(env[0].0 != name);
            assert forall|j: int| 0 <= j < i - 1 implies (#[trigger] rest[j]).0 != name by {
                assert(rest[j] == env[j + 1]);
            }
            assert(rest[i - 1] == env[i]);
        }
    }
}

/// The variables of the locale, the terminal, the user and their session reach a
/// command with the values that they have for the caller.
pub proof fn lemma_variables_that_reach_a_command(env: Seq<(Seq<char>, Seq<char>)>)
    ensures
        value_of(sanitised(env), "DISPLAY"@) == value_of(env, "DISPLAY"@),
        value_of(sanitised(env), "HOME"@) == value_of(env, "HOME"@),
        value_of(sanitised(env), "HOSTNAME"@) == value_of(env, "HOSTNAME"@),
        value_of(sanitised(env), "LANG"@) == value_of(env, "LANG"@),
        value_of(sanitised(env), "LC_ALL"@) == value_of(env, "LC_ALL"@),
        value_of(sanitised(env), "LC_COLLATE"@) == value_of(env, "LC_COLLATE"@),
        value_of(sanitised(env), "LC_CTYPE"@) == value_of(env, "LC_CTYPE"@),
        value_of(sanitised(env), "LC_MESSAGES"@) == value_of(env, "LC_MESSAGES"@),
        value_of(sanitised(env), "LC_MONETARY"@) == value_of(env, "LC_MONETARY"@),
        value_of(sanitised(env), "LC_NUMERIC"@) == value_of(env, "LC_NUMERIC"@),
        value_of(sanitised(env), "LC_TIME"@) == value_of(env, "LC_TIME"@),
        value_of(sanitised(env), "LOGNAME"@) == value_of(env, "LOGNAME"@),
        value_of(sanitised(env), "LS_COLORS"@) == value_of(env, "LS_COLORS"@),
        value_of(sanitised(env), "MAIL"@) == value_of(env, "MAIL"@),
        value_of(sanitised(env), "OLDPWD"@) == value_of(env, "OLDPWD"@),
        value_of(sanitised(env), "PWD"@) == value_of(env, "PWD"@),
        value_of(sanitised(env), "SHELL"@) == value_of(env, "SHELL"@),
        value_of(sanitised(env), "SHLVL"@) == value_of(env, "SHLVL"@),
        value_of(sanitised(env), "SSH_AUTH_SOCK"@) == value_of(env, "SSH_AUTH_SOCK"@),
        value_of(sanitised(env), "SSH_CLIENT"@) == value_of(env, "SSH_CLIENT"@),
        value_of(sanitised(env), "SSH_CONNECTION"@) == value_of(env, "SSH_CONNECTION"@),
        value_of(sanitised(env), "SSH_TTY"@) == value_of(env, "SSH_TTY"@),
        value_of(sanitised(env), "TERM"@) == value_of(env, "TERM"@),
        value_of(sanitised(env), "TMPDIR"@) == value_of(env, "TMPDIR"@),
        value_of(sanitised(env), "USER"@) == value_of(env, "USER"@),
        value_of(sanitised(env), "XDG_CURRENT_DESKTOP"@) == value_of(env, "XDG_CURRENT_DESKTOP"@),
        value_of(sanitised(env), "XDG_RUNTIME_DIR"@) == value_of(env, "XDG_RUNTIME_DIR"@),
        value_of(sanitised(env), "XDG_SEAT"@) == value_of(env, "XDG_SEAT"@),
        value_of(sanitised(env), "XDG_SESSION_ID"@) == value_of(env, "XDG_SESSION_ID"@),
        value_of(sanitised(env), "XDG_SESSION_TYPE"@) == value_of(env, "XDG_SESSION_TYPE"@),
        value_of(sanitised(env), "XDG_VTNR"@) == value_of(env, "XDG_VTNR"@),
{
    lemma_path_is_not_kept();
    assert forall|i: int| 0 <= i < safe_names().len() implies value_of(
        sanitised(env),
        #[trigger] safe_names()[i],
    ) == value_of(env, safe_names()[i]) by {
        assert(safe_names().contains(safe_names()[i]));
        lemma_values_in_the_environment(env, safe_names()[i]);
    }
    assert(safe_names()[0] == "DISPLAY"@);
    assert(safe_names()[1] == "HOME"@);
    assert(safe_names()[2] == "HOSTNAME"@);
    assert(safe_names()[3] == "LANG"@);
    assert(safe_names()[4] == "LC_ALL"@);
    assert(safe_names()[5] == "LC_COLLATE"@);
    assert(safe_names()[6] == "LC_CTYPE"@);
    assert(safe_names()[7] == "LC_MESSAGES"@);
    assert(safe_names()[8] == "LC_MONETARY"@);
    assert(safe_names()[9] == "LC_NUMERIC"@);
    assert(safe_names()[10] == "LC_TIME"@);
    assert(safe_names()[11] == "LOGNAME"@);
    assert(safe_names()[12] == "LS_COLORS"@);
    assert(safe_names()[13] == "MAIL"@);
    assert(safe_names()[14] == "OLDPWD"@);
    assert(safe_names()[15] == "PWD"@);
    assert(safe_names()[16] == "SHELL"@);
    assert(safe_names()[17] == "SHLVL"@);
    assert(safe_names()[18] == "SSH_AUTH_SOCK"@);
    assert(safe_names()[19] == "SSH_CLIENT"@);
    assert(safe_names()[20] == "SSH_CONNECTION"@);
    assert(safe_names()[21] == "SSH_TTY"@);
    assert(safe_names()[22] == "TERM"@);
    assert(safe_names()[23] == "TMPDIR"@);
    assert(safe_names()[24] == "USER"@);
    assert(safe_names()[25] == "XDG_CURRENT_DESKTOP"@);
    assert(safe_names()[26] == "XDG_RUNTIME_DIR"@);
    assert(safe_names()[27] == "XDG_SEAT"@);
    assert(safe_names()[28] == "XDG_SESSION_ID"@);
    assert(safe_names()[29] == "XDG_SESSION_TYPE"@);
    assert(safe_names()[30] == "XDG_VTNR"@);
}

/// The variables of the dynamic linker, of character conversion and of the library
/// paths of interpreters do not reach a command, and `PATH` has its safe value.
pub proof fn lemma_variables_that_do_not(env: Seq<(Seq<char>, Seq<char>)>)
    ensures
        value_of(sanitised(env), "GCONV_PATH"@) is None,
        value_of(sanitised(env), "GIO_EXTRA_MODULES"@) is None,
        value_of(sanitised(env), "LD_AUDIT"@) is None,
        value_of(sanitised(env), "LD_DEBUG"@) is None,
        value_of(sanitised(env), "LD_DYNAMIC_WEAK"@) is None,
        value_of(sanitised(env), "LD_HWCAP_MASK"@) is None,
        value_of(sanitised(env), "LD_LIBRARY_PATH"@) is None,
        value_of(sanitised(env), "LD_ORIGIN_PATH"@) is None,
        value_of(sanitised(env), "LD_PRELOAD"@) is None,
        value_of(sanitised(env), "LD_RUN_PATH"@) is None,
        value_of(sanitised(env), "PERLLIB"@) is None,
        value_of(sanitised(env), "PERL5LIB"@) is None,
        value_of(sanitised(env), "PERL5OPT"@) is None,
        value_of(sanitised(env), "PERL5SHELL"@) is None,
        value_of(sanitised(env), "PYTHONHOME"@) is None,
        value_of(sanitised(env), "PYTHONPATH"@) is None,
        value_of(sanitised(env), "RUBYLIB"@) is None,
        value_of(sanitised(env), "RUBYOPT"@) is None,
        value_of(sanitised(env), "PATH"@) == Some("/usr/local/bin:/usr/bin:/bin"@),
{
    assert forall|i: int| 0 <= i < dangerous_names().len() implies value_of(
        sanitised(env),
        #[trigger] dangerous_names()[i],
    ) is None by {
        let out = sanitised(env);
        lemma_value_of(out, dangerous_names()[i]);
        if let Some(v) = value_of(out, dangerous_names()[i]) {
            let k = choose|k: int| 0 <= k < out.len() && out[k] == (dangerous_names()[i], v);
            lemma_dangerous_variables_are_stripped(env, k);
        }
    }
    lemma_values_in_the_environment(env, "PATH"@);
    assert(dangerous_names()[0] == "GCONV_PATH"@);
    assert(dangerous_names()[1] == "GIO_EXTRA_MODULES"@);
    assert(dangerous_names()[2] == "LD_AUDIT"@);
    assert(dangerous_names()[3] == "LD_DEBUG"@);
    assert(dangerous_names()[4] == "LD_DYNAMIC_WEAK"@);
    assert(dangerous_names()[5] == "LD_HWCAP_MASK"@);
    assert(dangerous_names()[6] == "LD_LIBRARY_PATH"@);
    assert(dangerous_names()[7] == "LD_ORIGIN_PATH"@);
    assert(dangerous_names()[8] == "LD_PRELOAD"@);
    assert(dangerous_names()[9] == "LD_RUN_PATH"@);
    assert(dangerous_names()[10] == "PERLLIB"@);
    assert(dangerous_names()[11] == "PERL5LIB"@);
    assert(dangerous_names()[12] == "PERL5OPT"@);
    assert(dangerous_names()[13] == "PERL5SHELL"@);
    assert(dangerous_names()[14] == "PYTHONHOME"@);
    assert(dangerous_names()[15] == "PYTHONPATH"@);
    assert(dangerous_names()[16] == "RUBYLIB"@);
    assert(dangerous_names()[17] == "RUBYOPT"@);
}

/// No variable reaches a command but `PATH` and those of the locale, the terminal,
/// the user and their session.
pub proof fn lemma_no_other_variable_reaches_a_command(
    env: Seq<(Seq<char>, Seq<char>)>,
    name: Seq<char>,
)
    requires
        name != "PATH"@,
        name != "DISPLAY"@,
        name != "HOME"@,
        name != "HOSTNAME"@,
        name != "LANG"@,
        name != "LC_ALL"@,
        name != "LC_COLLATE"@,
        name != "LC_CTYPE"@,
        name != "LC_MESSAGES"@,
        name != "LC_MONETARY"@,
        name != "LC_NUMERIC"@,
        name != "LC_TIME"@,
        name != "LOGNAME"@,
        name != "LS_COLORS"@,
        name != "MAIL"@,
        name != "OLDPWD"@,
        name != "PWD"@,
        name != "SHELL"@,
        name != "SHLVL"@,
        name != "SSH_AUTH_SOCK"@,
        name != "SSH_CLIENT"@,
        name != "SSH_CONNECTION"@,
        name != "SSH_TTY"@,
        name != "TERM"@,
        name != "TMPDIR"@,
        name != "USER"@,
        name != "XDG_CURRENT_DESKTOP"@,
        name != "XDG_RUNTIME_DIR"@,
        name != "XDG_SEAT"@,
        name != "XDG_SESSION_ID"@,
        name != "XDG_SESSION_TYPE"@,
        name != "XDG_VTNR"@,
    ensures
        value_of(sanitised(env), name) is None,
        forall|k: int| 0 <= k < sanitised(env).len() ==> (#[trigger] sanitised(env)[k]).0 != name,
{
    assert forall|i: int| 0 <= i < safe_names().len() implies safe_names()[i] != name by {}
    lemma_values_in_the_environment(env, name);
    lemma_value_of(sanitised(env), name);
}

/// An environment stands for its names and values, one for one and in their order,
/// and a plan for its program, its arguments and its environment.
pub proof fn lemma_values_of_plans(env: Seq<(String, String)>, i: int, plan: CommandPlan)
    ensures
        env_view(env).len() == env.len(),
        0 <= i < env.len() ==> env_view(env)[i] == (env[i].0@, env[i].1@),
        plan@.program == plan.program@,
        plan@.args == texts(plan.args@),
        plan@.env == env_view(plan.env@),
{
}

} // verus!
