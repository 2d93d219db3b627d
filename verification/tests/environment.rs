use doit::environment::{
    build_command, get_var, sanitise_environment, DANGEROUS_ENV_VARS, SAFE_ENV_VARS, SAFE_PATH,
};

fn env(vars: &[(&str, &str)]) -> Vec<(String, String)> {
    vars.iter().map(|(k, v)| (k.to_string(), v.to_string())).collect()
}

#[test]
fn only_safe_variables_are_kept() {
    let caller = env(&[
        ("LD_PRELOAD", "/tmp/evil.so"),
        ("TERM", "xterm"),
        ("PATH", "/tmp"),
        ("FOO", "bar"),
        ("HOME", "/home/alice"),
        ("TERM", "dumb"),
        ("PYTHONPATH", "/tmp"),
    ]);
    assert_eq!(
        sanitise_environment(&caller),
        env(&[
            ("HOME", "/home/alice"),
            ("TERM", "xterm"),
            ("PATH", "/usr/local/bin:/usr/bin:/bin"),
        ])
    );
}

#[test]
fn an_empty_environment_gets_the_safe_path() {
    assert_eq!(sanitise_environment(&env(&[])), env(&[("PATH", SAFE_PATH)]));
}

#[test]
fn dangerous_variables_are_stripped() {
    let caller: Vec<(String, String)> = DANGEROUS_ENV_VARS
        .iter()
        .chain(SAFE_ENV_VARS.iter())
        .map(|name| (name.to_string(), "x".to_string()))
        .collect();
    let kept = sanitise_environment(&caller);
    assert_eq!(kept.len(), SAFE_ENV_VARS.len() + 1);
    for name in DANGEROUS_ENV_VARS {
        assert_eq!(get_var(&kept, name), None);
    }
    for name in SAFE_ENV_VARS {
        assert_eq!(get_var(&kept, name), Some("x".to_string()));
    }
    assert_eq!(get_var(&kept, "PATH"), Some(SAFE_PATH.to_string()));
    assert_eq!(sanitise_environment(&kept), kept);
}

#[test]
fn the_command_is_left_as_it_is() {
    let args = vec!["-Syu".to_string(), "a b".to_string(), String::new()];
    let plan = build_command("pacman", &args, &env(&[("LANG", "C"), ("X", "y")]));
    assert_eq!(plan.program, "pacman");
    assert_eq!(plan.args, args);
    assert_eq!(plan.env, env(&[("LANG", "C"), ("PATH", SAFE_PATH)]));
}
