//! Ownership and permissions of the files that are relied on.
//!
//! The configuration file and the counter file must be owned by `root:root`
//! with mode `600`, the counter directory by `root:root` with mode `700`. A file
//! with fewer permissions is accepted; one with more is not.
use vstd::prelude::*;

use crate::text::{decimal, octal3, to_decimal, to_octal3};

verus! {

/// What a file system says of a file.
#[derive(Debug, Clone, Copy, PartialEq, Eq, Structural)]
pub struct FileStatus {
    /// User ID of the owner.
    pub uid: u32,
    /// Group ID of the owner.
    pub gid: u32,
    /// File type and permission bits.
    pub mode: u32,
}

/// What a path stands for.
#[derive(Debug, Clone, Copy, PartialEq, Eq, Structural)]
pub enum PathKind {
    /// A file, which only root may read and write.
    File,
    /// A directory, which only root may use.
    Directory,
}

/// The permissions that a path may have at most.
pub open spec fn allowed_mode(kind: PathKind) -> u32 {
    match kind {
        PathKind::File => 0o600,
        PathKind::Directory => 0o700,
    }
}

/// Whether a path is owned by `root:root` and no more permissive than allowed.
pub open spec fn is_secure(kind: PathKind, status: FileStatus) -> bool {
    &&& status.uid == 0
    &&& status.gid == 0
    &&& status.mode & 0o777 & !allowed_mode(kind) == 0
}

/// The start of a message about a path.
pub open spec fn about(path: Seq<char>, description: Seq<char>) -> Seq<char> {
    description + " ("@ + path + ")"@
}

/// Why a path that is not secure is refused.
pub open spec fn insecurity(
    path: Seq<char>,
    description: Seq<char>,
    kind: PathKind,
    status: FileStatus,
) -> Seq<char> {
    let mode = status.mode & 0o777;
    let must = ") — must be mode "@ + octal3(allowed_mode(kind) as nat);
    if status.uid != 0 {
        about(path, description) + " must be owned by root (UID 0), but is UID "@ + decimal(
            status.uid as nat,
        )
    } else if status.gid != 0 {
        if mode & 0o020 != 0 {
            about(path, description) + " is group-writable by GID "@ + decimal(status.gid as nat)
                + " — must be owned by root:root"@
        } else {
            about(path, description) + " must be owned by root:root, but is GID "@ + decimal(
                status.gid as nat,
            )
        }
    } else if mode & 0o004 != 0 {
        about(path, description) + " is world-readable (mode "@ + octal3(mode as nat) + must
    } else if mode & 0o003 != 0 {
        about(path, description) + " has world-execute/write bits (mode "@ + octal3(mode as nat)
            + must
    } else {
        about(path, description) + " is too permissive (mode "@ + octal3(mode as nat) + must
    }
}

fn about_text(path: &str, description: &str) -> (r: String)
    ensures
        r@ == about(path@, description@),
{
    description.to_owned().concat(" (").concat(path).concat(")")
}

/// Checks that a path is owned by `root:root` and no more permissive than
/// allowed, given what its status is or why there is none.
pub fn check_secure_file(
    path: &str,
    description: &str,
    kind: PathKind,
    status: &Result<FileStatus, String>,
) -> (r: Result<(), String>)
    ensures
        r is Ok <==> (status matches Ok(s) && is_secure(kind, *s)),
        match (r, status) {
            (Ok(_), _) => true,
            (Err(m), Ok(s)) => m@ == insecurity(path@, description@, kind, *s),
            (Err(m), Err(e)) => m@ == "cannot stat "@ + description@ + " ("@ + path@ + "): "@
                + e@,
        },
{
    let s = match status {
        Ok(s) => *s,
        Err(e) => {
            return Err(
                "cannot stat ".to_owned().concat(description).concat(" (").concat(
                    path,
                ).concat("): ").concat(e.as_str()),
            );
        },
    };
    let start = about_text(path, description);
    if s.uid != 0 {
        return Err(
            start.concat(" must be owned by root (UID 0), but is UID ").concat(
                to_decimal(s.uid as u64).as_str(),
            ),
        );
    }
    let mode: u32 = s.mode & 0o777;
    if s.gid != 0 {
        let gid = to_decimal(s.gid as u64);
        return Err(
            if mode & 0o020 != 0 {
                start.concat(" is group-writable by GID ").concat(gid.as_str()).concat(
                    " — must be owned by root:root",
                )
            } else {
                start.concat(" must be owned by root:root, but is GID ").concat(gid.as_str())
            },
        );
    }
    let allowed: u32 = match kind {
        PathKind::File => 0o600,
        PathKind::Directory => 0o700,
    };
    if mode & !allowed == 0 {
        return Ok(());
    }
    let must = ") — must be mode ".to_owned().concat(to_octal3(allowed).as_str());
    let octal = to_octal3(mode);
    let complaint: &str = if mode & 0o004 != 0 {
        " is world-readable (mode "
    } else if mode & 0o003 != 0 {
        " has world-execute/write bits (mode "
    } else {
        " is too permissive (mode "
    };
    Err(start.concat(complaint).concat(octal.as_str()).concat(must.as_str()))
}

/// A path that passes the check gives no permission to its group or to others,
/// and a file that passes it cannot be executed.
pub proof fn lemma_secure_paths_are_private(kind: PathKind, status: FileStatus)
    requires
        is_secure(kind, status),
    ensures
        status.mode & 0o070 == 0,
        status.mode & 0o007 == 0,
        kind == PathKind::File ==> status.mode & 0o111 == 0,
{
    let mode = status.mode;
    match kind {
        PathKind::File => {
            assert(mode & 0o070 == 0 && mode & 0o007 == 0 && mode & 0o111 == 0) by (bit_vector)
                requires
                    mode & 0o777 & !0o600u32 == 0,
            ;
        },
        PathKind::Directory => {
            assert(mode & 0o070 == 0 && mode & 0o007 == 0) by (bit_vector)
                requires
                    mode & 0o777 & !0o700u32 == 0,
            ;
        },
    }
}

/// Taking permissions away from a secure path leaves it secure.
pub proof fn lemma_fewer_permissions_stay_secure(kind: PathKind, status: FileStatus, mask: u32)
    requires
        is_secure(kind, status),
    ensures
        is_secure(kind, FileStatus { mode: status.mode & mask, ..status }),
{
    let mode = status.mode;
    let allowed = allowed_mode(kind);
    assert((mode & mask) & 0o777 & !allowed == 0) by (bit_vector)
        requires
            mode & 0o777 & !allowed == 0,
    ;
}

/// A path passes the check exactly where root owns it, with the group of root, and
/// none of the bits is set that allow its group or others anything or, for a file,
/// its execution.
pub proof fn lemma_secure_paths(status: FileStatus)
    ensures
        is_secure(PathKind::File, status) <==> status.uid == 0 && status.gid == 0 && status.mode
            & 0o177 == 0,
        is_secure(PathKind::Directory, status) <==> status.uid == 0 && status.gid == 0
            && status.mode & 0o077 == 0,
{
    let mode = status.mode;
    assert((mode & 0o777 & !0o600u32 == 0) == (mode & 0o177 == 0)) by (bit_vector);
    assert((mode & 0o777 & !0o700u32 == 0) == (mode & 0o077 == 0)) by (bit_vector);
}

/// The refusal of a path names the path, and says of the first thing that is wrong
/// with it what it is and what it should be: the owner, the group, the permissions
/// of others, the permissions at all.
pub proof fn lemma_what_is_wrong_with_a_path(
    path: Seq<char>,
    description: Seq<char>,
    kind: PathKind,
    status: FileStatus,
)
    ensures
        ({
            let message = insecurity(path, description, kind, status);
            let start = description + " ("@ + path + ")"@;
            let mode = status.mode & 0o777;
            let limit = if kind == PathKind::File {
                0o600nat
            } else {
                0o700nat
            };
            let end = ") — must be mode "@ + octal3(limit);
            &&& status.uid > 0 ==> message == start
                + " must be owned by root (UID 0), but is UID "@ + decimal(status.uid as nat)
            &&& status.uid == 0 && status.gid > 0 && mode & 0o020 != 0 ==> message == start
                + " is group-writable by GID "@ + decimal(status.gid as nat)
                + " — must be owned by root:root"@
            &&& status.uid == 0 && status.gid > 0 && mode & 0o020 == 0 ==> message == start
                + " must be owned by root:root, but is GID "@ + decimal(status.gid as nat)
            &&& status.uid == 0 && status.gid == 0 && mode & 0o004 != 0 ==> message == start
                + " is world-readable (mode "@ + octal3(mode as nat) + end
            &&& status.uid == 0 && status.gid == 0 && mode & 0o004 == 0 && mode & 0o003 != 0
                ==> message == start + " has world-execute/write bits (mode "@ + octal3(
                mode as nat,
            ) + end
            &&& status.uid == 0 && status.gid == 0 && mode & 0o007 == 0 ==> message == start
                + " is too permissive (mode "@ + octal3(mode as nat) + end
        }),
{
    let mode = status.mode & 0o777;
    assert(mode & 0o007 == 0 <==> mode & 0o004 == 0 && mode & 0o003 == 0) by (bit_vector);
}

} // verus!
