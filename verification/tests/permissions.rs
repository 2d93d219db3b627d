use doit::permissions::{check_secure_file, FileStatus, PathKind};

fn check(kind: PathKind, uid: u32, gid: u32, mode: u32) -> Result<(), String> {
    let status = Ok(FileStatus { uid, gid, mode });
    check_secure_file("/etc/doit.conf", "config file", kind, &status)
}

fn refusal(kind: PathKind, uid: u32, gid: u32, mode: u32) -> String {
    check(kind, uid, gid, mode).unwrap_err()
}

#[test]
fn root_and_mode_600_pass() {
    assert_eq!(check(PathKind::File, 0, 0, 0o100600), Ok(()));
    assert_eq!(check(PathKind::File, 0, 0, 0o100400), Ok(()));
    assert_eq!(check(PathKind::File, 0, 0, 0o100000), Ok(()));
    assert_eq!(check(PathKind::Directory, 0, 0, 0o040700), Ok(()));
    assert_eq!(check(PathKind::Directory, 0, 0, 0o041700), Ok(()));
}

#[test]
fn other_owners_are_refused() {
    assert_eq!(
        refusal(PathKind::File, 1000, 0, 0o600),
        "config file (/etc/doit.conf) must be owned by root (UID 0), but is UID 1000"
    );
    assert_eq!(
        refusal(PathKind::File, 0, 20, 0o660),
        "config file (/etc/doit.conf) is group-writable by GID 20 \u{2014} must be owned by root:root"
    );
    assert_eq!(
        refusal(PathKind::File, 0, 20, 0o600),
        "config file (/etc/doit.conf) must be owned by root:root, but is GID 20"
    );
}

#[test]
fn permissive_modes_are_refused() {
    assert_eq!(
        refusal(PathKind::File, 0, 0, 0o644),
        "config file (/etc/doit.conf) is world-readable (mode 644) \u{2014} must be mode 600"
    );
    assert_eq!(
        refusal(PathKind::File, 0, 0, 0o602),
        "config file (/etc/doit.conf) has world-execute/write bits (mode 602) \u{2014} must be mode 600"
    );
    assert_eq!(
        refusal(PathKind::File, 0, 0, 0o660),
        "config file (/etc/doit.conf) is too permissive (mode 660) \u{2014} must be mode 600"
    );
    assert_eq!(
        refusal(PathKind::File, 0, 0, 0o640),
        "config file (/etc/doit.conf) is too permissive (mode 640) \u{2014} must be mode 600"
    );
    assert_eq!(
        refusal(PathKind::Directory, 0, 0, 0o755),
        "config file (/etc/doit.conf) is world-readable (mode 755) \u{2014} must be mode 700"
    );
}

#[test]
fn exactly_the_allowed_modes_pass() {
    for mode in 0..0o1000u32 {
        let file = mode == 0 || mode == 0o200 || mode == 0o400 || mode == 0o600;
        assert_eq!(check(PathKind::File, 0, 0, mode).is_ok(), file, "{:o}", mode);
        let directory = mode % 0o100 == 0;
        assert_eq!(check(PathKind::Directory, 0, 0, mode).is_ok(), directory, "{:o}", mode);
    }
}

#[test]
fn a_missing_status_is_refused() {
    let status = Err("No such file".to_string());
    assert_eq!(
        check_secure_file("/var/lib/doit", "counter directory", PathKind::Directory, &status),
        Err("cannot stat counter directory (/var/lib/doit): No such file".to_string())
    );
}
