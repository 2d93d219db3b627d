//! Verification of a password against `/etc/shadow`.
//!
//! The hashes are computed by the `yescrypt` and `sha-crypt` crates. Which
//! passwords they accept for a hash is named here, not defined; which of them is
//! asked, and what follows from the answer, is defined and proved.
use vstd::prelude::*;
use vstd::utf8::{encode_utf8, is_ascii_chars};

use sha_crypt::{PasswordHash, PasswordVerifier, ShaCrypt};
use yescrypt::Yescrypt;

use crate::cost::{cost_is_representable, has_representable_cost};
use crate::text::{
    begins_with, fields, lemma_beginnings, lemma_fields_are_the_pieces, lemma_fields_hold_all,
    lemma_last_field, lines, same, split, starts_with, text_lines, views,
};

verus! {

/// The passwords that the `yescrypt` crate accepts for `hash`, or `None` where it
/// cannot use the hash.
pub uninterp spec fn yescrypt_passwords(hash: Seq<char>) -> Option<Set<Seq<u8>>>;

/// The passwords that the `sha-crypt` crate accepts for `hash`, or `None` where it
/// cannot use the hash.
pub uninterp spec fn sha_crypt_passwords(hash: Seq<char>) -> Option<Set<Seq<u8>>>;

/// Whether `password` is among those accepted, where the hash can be used.
pub open spec fn is_among(password: Seq<u8>, accepted: Option<Set<Seq<u8>>>) -> Option<bool> {
    match accepted {
        Some(passwords) => Some(passwords.contains(password)),
        None => None,
    }
}

/// A character of the identifier of a hashing scheme, at its ends.
pub open spec fn identifier_end(c: char) -> bool {
    'a' <= c <= 'z' || '0' <= c <= '9'
}

/// The identifier of a hashing scheme.
pub open spec fn is_identifier(s: Seq<char>) -> bool {
    &&& s.len() > 0
    &&& identifier_end(s.first())
    &&& identifier_end(s.last())
    &&& forall|i: int| 0 <= i < s.len() ==> identifier_end(#[trigger] s[i]) || s[i] == '-'
}

/// A field of a password hash after the identifier.
pub open spec fn is_hash_field(s: Seq<char>) -> bool {
    &&& s.len() > 0
    &&& forall|i: int|
        0 <= i < s.len() ==> {
            ||| 'A' <= #[trigger] s[i] <= 'Z'
            ||| 'a' <= s[i] <= 'z'
            ||| '0' <= s[i] <= '9'
            ||| s[i] == '.' || s[i] == '/' || s[i] == '+' || s[i] == '=' || s[i] == ',' || s[i]
                == '-'
        }
}

/// Whether `s` is a password hash in Modular Crypt Format: a `$` before an
/// identifier, and a `$` before each of any number of further fields.
pub open spec fn is_password_hash(s: Seq<char>) -> bool {
    let parts = fields(s.skip(1), '$');
    &&& s.len() > 0
    &&& s[0] == '$'
    &&& is_identifier(parts[0])
    &&& forall|i: int| 1 <= i < parts.len() ==> is_hash_field(#[trigger] parts[i])
}

/// Calls `PasswordHash::new`, which the `sha-crypt` crate has from the `mcf`
/// crate. It succeeds on the texts in Modular Crypt Format and on no others.
#[verifier::external_body]
fn parses_as_hash(hash: &str) -> (r: bool)
    ensures
        r == is_password_hash(hash@),
{
    PasswordHash::new(hash).is_ok()
}

/// Calls `verify_password` of `yescrypt::Yescrypt` on the text of a hash. It
/// returns `Ok` where the password matches, `PasswordInvalid` where it does not,
/// and any other error where the hash cannot be used. The answer is named: it
/// depends on the password and the hash alone, and whether the hash can be used
/// does not depend on the password. The crate allocates the memory that the hash
/// asks for, and panics where its size cannot be represented; such hashes are
/// left out. As with every allocation, that the machine has so much memory is not
/// claimed.
#[verifier::external_body]
fn yescrypt_verify(password: &[u8], hash: &str) -> (r: Option<bool>)
    requires
        has_representable_cost(hash@),
    ensures
        r == is_among(password@, yescrypt_passwords(hash@)),
{
    match Yescrypt::default().verify_password(password, hash) {
        Ok(()) => Some(true),
        Err(yescrypt::password_hash::Error::PasswordInvalid) => Some(false),
        Err(_) => None,
    }
}

/// Calls `verify_password` of `sha_crypt::ShaCrypt` on the text of a hash. It
/// returns `Ok` where the password matches, `PasswordInvalid` where it does not,
/// and any other error where the hash cannot be used. The answer is named: it
/// depends on the password and the hash alone, and whether the hash can be used
/// does not depend on the password.
#[verifier::external_body]
fn sha_crypt_verify(password: &[u8], hash: &str) -> (r: Option<bool>)
    ensures
        r == is_among(password@, sha_crypt_passwords(hash@)),
{
    match ShaCrypt::default().verify_password(password, hash) {
        Ok(()) => Some(true),
        Err(sha_crypt::password_hash::Error::PasswordInvalid) => Some(false),
        Err(_) => None,
    }
}

/// The schemes that a password can be verified with.
#[derive(Debug, Clone, Copy, PartialEq, Eq, Structural)]
pub enum HashScheme {
    /// `$y$`.
    Yescrypt,
    /// `$6$` and `$5$`.
    ShaCrypt,
}

/// The first three characters of `s`, or all where there are fewer.
pub open spec fn first_three(s: Seq<char>) -> Seq<char> {
    if s.len() < 3 {
        s
    } else {
        s.take(3)
    }
}

/// The complaint about an entry of `user` that cannot be read.
pub open spec fn corrupt_entry(user: Seq<char>) -> Seq<char> {
    "failed to parse password hash for user '"@ + user + "' (corrupt /etc/shadow?)"@
}

/// The scheme of a hash, or why it cannot be used.
pub open spec fn scheme_of(user: Seq<char>, hash: Seq<char>) -> Result<HashScheme, Seq<char>> {
    if !is_password_hash(hash) {
        Err(corrupt_entry(user))
    } else if begins_with(hash, "$y$"@) {
        Ok(HashScheme::Yescrypt)
    } else if begins_with(hash, "$6$"@) || begins_with(hash, "$5$"@) {
        Ok(HashScheme::ShaCrypt)
    } else {
        Err(
            "unsupported password hash type for user '"@ + user + "' (starts with '"@
                + first_three(hash) + "')"@,
        )
    }
}

/// The passwords that the crate for `scheme` accepts for `hash`, if it can use it.
pub open spec fn accepted(scheme: HashScheme, hash: Seq<char>) -> Option<Set<Seq<u8>>> {
    match scheme {
        HashScheme::Yescrypt => yescrypt_passwords(hash),
        HashScheme::ShaCrypt => sha_crypt_passwords(hash),
    }
}

/// The fields of the first line whose first field is `user`.
pub open spec fn shadow_line(shadow_lines: Seq<Seq<char>>, user: Seq<char>) -> Option<
    Seq<Seq<char>>,
>
    decreases shadow_lines.len(),
{
    if shadow_lines.len() == 0 {
        None
    } else if fields(shadow_lines[0], ':')[0] == user {
        Some(fields(shadow_lines[0], ':'))
    } else {
        shadow_line(shadow_lines.skip(1), user)
    }
}

/// Whether a password field is one that no password matches.
pub open spec fn is_locked(field: Seq<char>) -> bool {
    field == "*"@ || field == "!"@ || field.len() == 0
}

/// The password hash of `user` in the shadow file: `None` where the user has no
/// entry or a locked one, and a complaint where the entry has no password field.
pub open spec fn shadow_hash(shadow: Seq<char>, user: Seq<char>) -> Result<
    Option<Seq<char>>,
    Seq<char>,
> {
    match shadow_line(text_lines(shadow), user) {
        None => Ok(None),
        Some(f) => if f.len() < 2 {
            Err(corrupt_entry(user))
        } else if is_locked(f[1]) {
            Ok(None)
        } else {
            Ok(Some(f[1]))
        },
    }
}

/// Whether the hash of `user`, if there is one, can be computed: a yescrypt hash
/// can where its cost can be represented, and every other hash can.
pub open spec fn is_checkable(user: Seq<char>, shadow: Result<Seq<char>, Seq<char>>) -> bool {
    match shadow {
        Err(_) => true,
        Ok(s) => match shadow_hash(s, user) {
            Ok(Some(h)) => scheme_of(user, h) == Ok::<HashScheme, Seq<char>>(HashScheme::Yescrypt)
                ==> has_representable_cost(h),
            _ => true,
        },
    }
}

/// What the verification of a password yields, given the contents of the shadow
/// file or why it could not be read.
pub open spec fn verdict(
    user: Seq<char>,
    password: Seq<char>,
    shadow: Result<Seq<char>, Seq<char>>,
) -> Result<bool, Seq<char>> {
    match shadow {
        Err(e) => Err("failed to read /etc/shadow: "@ + e),
        Ok(s) => match shadow_hash(s, user) {
            Err(m) => Err(m),
            Ok(None) => Ok(false),
            Ok(Some(h)) => match scheme_of(user, h) {
                Err(m) => Err(m),
                Ok(scheme) => match is_among(encode_utf8(password), accepted(scheme, h)) {
                    Some(matches) => Ok(matches),
                    None => Err(corrupt_entry(user)),
                },
            },
        },
    }
}

/// A result with its error by its text.
pub open spec fn by_text<T>(r: Result<T, String>) -> Result<T, Seq<char>> {
    match r {
        Ok(b) => Ok(b),
        Err(m) => Err(m@),
    }
}

/// The outcome of reading a file by its text.
pub open spec fn read_text(r: Result<String, String>) -> Result<Seq<char>, Seq<char>> {
    match r {
        Ok(s) => Ok(s@),
        Err(m) => Err(m@),
    }
}

/// Writes the complaint about an entry of `user` that cannot be read.
fn corrupt(user: &str) -> (r: String)
    ensures
        r@ == corrupt_entry(user@),
{
    "failed to parse password hash for user '".to_owned().concat(user).concat(
        "' (corrupt /etc/shadow?)",
    )
}

/// Decides which scheme a hash is verified with.
pub fn hash_scheme(user: &str, hash: &str) -> (r: Result<HashScheme, String>)
    ensures
        by_text(r) == scheme_of(user@, hash@),
{
    if !parses_as_hash(hash) {
        return Err(corrupt(user));
    }
    if starts_with(hash, "$y$") {
        Ok(HashScheme::Yescrypt)
    } else if starts_with(hash, "$6$") || starts_with(hash, "$5$") {
        Ok(HashScheme::ShaCrypt)
    } else {
        let n: usize = hash.unicode_len();
        let start = hash.substring_char(0, if n < 3 { n } else { 3 });
        proof {
            assert(start@ =~= first_three(hash@));
        }
        Err(
            "unsupported password hash type for user '".to_owned().concat(user).concat(
                "' (starts with '",
            ).concat(start).concat("')"),
        )
    }
}

/// Finds the password hash of `user` in the shadow file.
pub fn find_hash<'a>(shadow: &'a str, user: &str) -> (r: Result<Option<&'a str>, String>)
    ensures
        match r {
            Ok(Some(h)) => shadow_hash(shadow@, user@) == Ok::<Option<Seq<char>>, Seq<char>>(
                Some(h@),
            ),
            Ok(None) => shadow_hash(shadow@, user@) == Ok::<Option<Seq<char>>, Seq<char>>(None),
            Err(m) => shadow_hash(shadow@, user@) == Err::<Option<Seq<char>>, Seq<char>>(m@),
        },
{
    let all = lines(shadow);
    let ghost texts = views(all@);
    let mut i: usize = 0;
    proof {
        assert(texts.skip(0) =~= texts);
    }
    while i < all.len()
        invariant
            i <= all.len(),
            texts == views(all@),
            texts == text_lines(shadow@),
            shadow_line(texts.skip(i as int), user@) == shadow_line(texts, user@),
        decreases all.len() - i,
    {
        let parts = split(all[i], ':');
        let ghost rest = texts.skip(i as int);
        proof {
            assert(rest[0] == all@[i as int]@);
            assert(fields(rest[0], ':').len() > 0);
            assert(parts@.len() == views(parts@).len());
            assert(views(parts@)[0] == parts@[0]@);
            assert(rest.skip(1) =~= texts.skip(i + 1));
        }
        if same(parts[0], user) {
            if parts.len() < 2 {
                return Err(corrupt(user));
            }
            let hash = parts[1];
            proof {
                assert(views(parts@)[1] == hash@);
            }
            if same(hash, "*") || same(hash, "!") || hash.is_empty() {
                return Ok(None);
            }
            return Ok(Some(hash));
        }
        i += 1;
    }
    Ok(None)
}

/// Verifies `password` against the entry of `user` in the shadow file, given its
/// contents or why it could not be read.
///
/// The verdict is `true` on a match and `false` on a mismatch, which is also
/// what a user without an entry or with a locked one gets. There is an error
/// where the file could not be read, the entry or its hash is corrupt, or the
/// type of the hash is not supported.
pub fn verify_password(user: &str, password: &str, shadow: &Result<String, String>) -> (r: Result<
    bool,
    String,
>)
    requires
        is_checkable(user@, read_text(*shadow)),
    ensures
        by_text(r) == verdict(user@, password@, read_text(*shadow)),
{
    match shadow {
        Err(e) => Err("failed to read /etc/shadow: ".to_owned().concat(e.as_str())),
        Ok(text) => match find_hash(text.as_str(), user) {
            Err(m) => Err(m),
            Ok(None) => Ok(false),
            Ok(Some(hash)) => {
                let answer = match hash_scheme(user, hash) {
                    Err(m) => {
                        return Err(m);
                    },
                    Ok(HashScheme::Yescrypt) => yescrypt_verify(password.as_bytes(), hash),
                    Ok(HashScheme::ShaCrypt) => sha_crypt_verify(password.as_bytes(), hash),
                };
                match answer {
                    Some(matches) => Ok(matches),
                    None => Err(corrupt(user)),
                }
            },
        },
    }
}

/// Verifies a password as [`verify_password`] does, where the hash of the user
/// can be computed.
pub fn try_verify_password(
    user: &str,
    password: &str,
    shadow: &Result<String, String>,
) -> (r: Option<Result<bool, String>>)
    ensures
        match r {
            Some(v) => is_checkable(user@, read_text(*shadow)) && by_text(v) == verdict(
                user@,
                password@,
                read_text(*shadow),
            ),
            None => !is_checkable(user@, read_text(*shadow)),
        },
{
    let checkable: bool = match shadow {
        Err(_) => true,
        Ok(text) => match find_hash(text.as_str(), user) {
            Ok(Some(hash)) => match hash_scheme(user, hash) {
                Ok(HashScheme::Yescrypt) => cost_is_representable(hash),
                _ => true,
            },
            _ => true,
        },
    };
    if checkable {
        Some(verify_password(user, password, shadow))
    } else {
        None
    }
}

/// A user without an entry or with a locked one has no password that matches.
pub proof fn lemma_locked_users_have_no_password(
    user: Seq<char>,
    password: Seq<char>,
    shadow: Seq<char>,
)
    requires
        match shadow_line(text_lines(shadow), user) {
            None => true,
            Some(f) => f.len() >= 2 && is_locked(f[1]),
        },
    ensures
        verdict(user, password, Ok(shadow)) == Ok::<bool, Seq<char>>(false),
{
}

/// An entry without a password field, or with a hash that is not well-formed or
/// that the crate for its scheme cannot use, is an error for every password.
pub proof fn lemma_corrupt_entries_are_errors(
    user: Seq<char>,
    password: Seq<char>,
    shadow: Seq<char>,
)
    requires
        shadow_line(text_lines(shadow), user) matches Some(f) && {
            ||| f.len() < 2
            ||| !is_locked(f[1]) && !is_password_hash(f[1])
            ||| !is_locked(f[1]) && (scheme_of(user, f[1]) matches Ok(scheme) && accepted(
                scheme,
                f[1],
            ) is None)
        },
    ensures
        verdict(user, password, Ok(shadow)) == Err::<bool, Seq<char>>(corrupt_entry(user)),
{
}

/// Whether there is an error, and which, does not depend on the password.
pub proof fn lemma_errors_do_not_depend_on_the_password(
    user: Seq<char>,
    one: Seq<char>,
    other: Seq<char>,
    shadow: Result<Seq<char>, Seq<char>>,
)
    requires
        verdict(user, one, shadow) is Err,
    ensures
        verdict(user, other, shadow) == verdict(user, one, shadow),
{
}

/// A password matches exactly where the shadow file holds a well-formed hash of a
/// supported scheme for the user and the crate for that scheme accepts it.
pub proof fn lemma_matches_rest_on_a_supported_hash(
    user: Seq<char>,
    password: Seq<char>,
    shadow: Result<Seq<char>, Seq<char>>,
)
    ensures
        verdict(user, password, shadow) == Ok::<bool, Seq<char>>(true) <==> {
            &&& shadow matches Ok(s)
            &&& shadow_line(text_lines(s), user) matches Some(f)
            &&& f.len() >= 2 && !is_locked(f[1]) && is_password_hash(f[1])
            &&& {
                ||| begins_with(f[1], "$y$"@) && is_among(
                    encode_utf8(password),
                    yescrypt_passwords(f[1]),
                ) == Some(true)
                ||| (begins_with(f[1], "$6$"@) || begins_with(f[1], "$5$"@)) && is_among(
                    encode_utf8(password),
                    sha_crypt_passwords(f[1]),
                ) == Some(true)
            }
        },
{
    reveal_strlit("$y$");
    reveal_strlit("$6$");
    reveal_strlit("$5$");
    if let Ok(s) = shadow {
        if let Some(f) = shadow_line(text_lines(s), user) {
            if f.len() >= 2 && f[1].len() >= 3 {
                assert(f[1].take(3)[1] == f[1][1]);
            }
        }
    }
}

/// Of the shadow file, the first line for a user counts and nothing else: files
/// that agree in it give the same verdict on every password.
pub proof fn lemma_verdicts_rest_on_the_first_line(
    user: Seq<char>,
    password: Seq<char>,
    one: Seq<char>,
    other: Seq<char>,
)
    requires
        shadow_line(text_lines(one), user) == shadow_line(text_lines(other), user),
    ensures
        verdict(user, password, Ok(one)) == verdict(user, password, Ok(other)),
        is_checkable(user, Ok(one)) == is_checkable(user, Ok(other)),
{
}

/// The first line for a user counts; lines that follow it do not.
pub proof fn lemma_first_shadow_line_counts(
    a: Seq<Seq<char>>,
    b: Seq<Seq<char>>,
    user: Seq<char>,
)
    ensures
        shadow_line(a + b, user) == (if shadow_line(a, user) is Some {
            shadow_line(a, user)
        } else {
            shadow_line(b, user)
        }),
    decreases a.len(),
{
    if a.len() == 0 {
        assert(a + b =~= b);
    } else {
        assert((a + b)[0] == a[0]);
        assert((a + b).skip(1) =~= a.skip(1) + b);
        lemma_first_shadow_line_counts(a.skip(1), b, user);
    }
}

/// A well-formed hash is plain ASCII, so its first three characters are its
/// first three bytes.
pub proof fn lemma_password_hashes_are_ascii(hash: Seq<char>)
    requires
        is_password_hash(hash),
    ensures
        is_ascii_chars(hash),
{
    let rest = hash.skip(1);
    let parts = fields(rest, '$');
    assert forall|i: int| 0 <= i < hash.len() implies '\0' <= #[trigger] hash[i]
        <= '\u{7f}' by {
        if i > 0 && hash[i] != '$' {
            assert(rest[i - 1] == hash[i]);
            lemma_fields_hold_all(rest, '$', i - 1);
            let (f, k) = choose|f: int, k: int|
                0 <= f < parts.len() && 0 <= k < parts[f].len() && #[trigger] parts[f][k]
                    == rest[i - 1];
            if f == 0 {
                assert(identifier_end(parts[0][k]) || parts[0][k] == '-');
            } else {
                assert(is_hash_field(parts[f]));
            }
        }
    }
}

/// The entry of a user is the first line whose first field is the whole name of
/// the user, and there is none where no line has that name as its first field.
pub proof fn lemma_entry_of_a_user(shadow_lines: Seq<Seq<char>>, user: Seq<char>, i: int)
    ensures
        (forall|j: int|
            0 <= j < shadow_lines.len() ==> fields(#[trigger] shadow_lines[j], ':')[0] != user)
            <==> shadow_line(shadow_lines, user) is None,
        shadow_line(shadow_lines, user) matches Some(f) ==> f[0] == user,
        0 <= i < shadow_lines.len() && fields(shadow_lines[i], ':')[0] == user && (forall|j: int|
            0 <= j < i ==> fields(#[trigger] shadow_lines[j], ':')[0] != user) ==> shadow_line(
            shadow_lines,
            user,
        ) == Some(fields(shadow_lines[i], ':')),
    decreases shadow_lines.len(),
{
    if shadow_lines.len() > 0 {
        let rest = shadow_lines.skip(1);
        lemma_entry_of_a_user(rest, user, i - 1);
        if fields(shadow_lines[0], ':')[0] != user {
            if forall|j: int|
                0 <= j < rest.len() ==> fields(#[trigger] rest[j], ':')[0] != user {
                assert forall|j: int| 0 <= j < shadow_lines.len() implies fields(
                    #[trigger] shadow_lines[j],
                    ':',
                )[0] != user by {
                    if j > 0 {
                        assert(rest[j - 1] == shadow_lines[j]);
                    }
                }
            } else {
                let j = choose|j: int|
                    0 <= j < rest.len() && fields(#[trigger] rest[j], ':')[0] == user;
                assert(shadow_lines[j + 1] == rest[j]);
            }
            if 0 < i < shadow_lines.len() && forall|j: int|
                0 <= j < i ==> fields(#[trigger] shadow_lines[j], ':')[0] != user {
                assert forall|j: int| 0 <= j < i - 1 implies fields(#[trigger] rest[j], ':')[0]
                    != user by {
                    assert(rest[j] == shadow_lines[j + 1]);
                }
                assert(rest[i - 1] == shadow_lines[i]);
            }
        }
    }
}

/// The hash that a user has in the file is the second field of their entry, for
/// every second field but `*`, `!` and the empty one, with which the user has none.
/// An entry without a second field is corrupt.
pub proof fn lemma_hash_of_a_user(
    before: Seq<Seq<char>>,
    shadow: Seq<char>,
    user: Seq<char>,
    hash: Seq<char>,
    rest: Seq<char>,
    after: Seq<Seq<char>>,
)
    requires
        !user.contains(':'),
        !hash.contains(':'),
        forall|j: int| 0 <= j < before.len() ==> fields(#[trigger] before[j], ':')[0] != user,
    ensures
        text_lines(shadow) == before + seq![user.push(':') + hash] + after || text_lines(shadow)
            == before + seq![user.push(':') + (hash.push(':') + rest)] + after ==> shadow_hash(
            shadow,
            user,
        ) == Ok::<Option<Seq<char>>, Seq<char>>(
            if hash == "*"@ || hash == "!"@ || hash.len() == 0 {
                None
            } else {
                Some(hash)
            },
        ),
        text_lines(shadow) == before + seq![user] + after ==> shadow_hash(shadow, user) == Err::<
            Option<Seq<char>>,
            Seq<char>,
        >("failed to parse password hash for user '"@ + user + "' (corrupt /etc/shadow?)"@),
        text_lines(shadow) == before ==> shadow_hash(shadow, user) == Ok::<
            Option<Seq<char>>,
            Seq<char>,
        >(None),
{
    lemma_fields_are_the_pieces(user, hash, ':');
    lemma_fields_are_the_pieces(user, hash.push(':') + rest, ':');
    lemma_fields_are_the_pieces(hash, rest, ':');
    let i = before.len() as int;
    let all = text_lines(shadow);
    lemma_entry_of_a_user(all, user, i);
    lemma_entry_of_a_user(before, user, 0);
    if all.len() > i && all.take(i) =~= before {
        assert forall|j: int| 0 <= j < i implies fields(#[trigger] all[j], ':')[0] != user by {
            assert(all.take(i)[j] == all[j]);
            assert(fields(before[j], ':')[0] != user);
        }
    }
    let one = before + seq![user.push(':') + hash] + after;
    let two = before + seq![user.push(':') + (hash.push(':') + rest)] + after;
    let three = before + seq![user] + after;
    assert(one.take(i) =~= before && two.take(i) =~= before && three.take(i) =~= before);
    assert((seq![user] + fields(hash, ':'))[1] == hash);
    assert((seq![user] + (seq![hash] + fields(rest, ':')))[1] == hash);
}

/// A well-formed hash is of the scheme that its beginning names, and of none where
/// it begins otherwise: that is complained about with the first three characters.
pub proof fn lemma_schemes(user: Seq<char>, hash: Seq<char>, rest: Seq<char>)
    ensures
        !is_password_hash(hash) ==> scheme_of(user, hash) == Err::<HashScheme, Seq<char>>(
            "failed to parse password hash for user '"@ + user + "' (corrupt /etc/shadow?)"@,
        ),
        is_password_hash(hash) && hash == "$y$"@ + rest ==> scheme_of(user, hash) == Ok::<
            HashScheme,
            Seq<char>,
        >(HashScheme::Yescrypt),
        is_password_hash(hash) && (hash == "$6$"@ + rest || hash == "$5$"@ + rest) ==> scheme_of(
            user,
            hash,
        ) == Ok::<HashScheme, Seq<char>>(HashScheme::ShaCrypt),
        is_password_hash(hash) && hash.len() >= 3 && hash.take(3) != "$y$"@ && hash.take(3)
            != "$6$"@ && hash.take(3) != "$5$"@ ==> scheme_of(user, hash) == Err::<
            HashScheme,
            Seq<char>,
        >(
            "unsupported password hash type for user '"@ + user + "' (starts with '"@ + hash.take(3)
                + "')"@,
        ),
        is_password_hash(hash) && hash.len() < 3 ==> scheme_of(user, hash) == Err::<
            HashScheme,
            Seq<char>,
        >(
            "unsupported password hash type for user '"@ + user + "' (starts with '"@ + hash
                + "')"@,
        ),
{
    reveal_strlit("$y$");
    reveal_strlit("$6$");
    reveal_strlit("$5$");
    lemma_beginnings(hash, "$y$"@);
    lemma_beginnings(hash, "$6$"@);
    lemma_beginnings(hash, "$5$"@);
    assert("$y$"@[1] != "$6$"@[1] && "$y$"@[1] != "$5$"@[1]);
    assert(("$6$"@ + rest)[1] == '6');
    assert(("$5$"@ + rest)[1] == '5');
    if begins_with(hash, "$y$"@) {
        assert(hash.take(3)[1] == hash[1]);
    }
}

/// What is said of a password: that the file could not be read, with the reason;
/// what is wrong with the entry; what is wrong with the hash; that the password
/// does not match where there is no hash, or the crate for its scheme does not
/// accept the password; that it matches where the crate does.
pub proof fn lemma_verdicts(
    user: Seq<char>,
    password: Seq<char>,
    shadow: Seq<char>,
    reason: Seq<char>,
    hash: Seq<char>,
)
    ensures
        verdict(user, password, Err(reason)) == Err::<bool, Seq<char>>(
            "failed to read /etc/shadow: "@ + reason,
        ),
        shadow_hash(shadow, user) matches Err(m) ==> verdict(user, password, Ok(shadow)) == Err::<
            bool,
            Seq<char>,
        >(m),
        shadow_hash(shadow, user) == Ok::<Option<Seq<char>>, Seq<char>>(None) ==> verdict(
            user,
            password,
            Ok(shadow),
        ) == Ok::<bool, Seq<char>>(false),
        shadow_hash(shadow, user) == Ok::<Option<Seq<char>>, Seq<char>>(Some(hash)) ==> ({
            let said = verdict(user, password, Ok(shadow));
            let bytes = encode_utf8(password);
            &&& scheme_of(user, hash) matches Err(m) ==> said == Err::<bool, Seq<char>>(m)
            &&& scheme_of(user, hash) == Ok::<HashScheme, Seq<char>>(HashScheme::Yescrypt) ==> {
                match yescrypt_passwords(hash) {
                    Some(accepted) => said == Ok::<bool, Seq<char>>(accepted.contains(bytes)),
                    None => said == Err::<bool, Seq<char>>(
                        "failed to parse password hash for user '"@ + user
                            + "' (corrupt /etc/shadow?)"@,
                    ),
                }
            }
            &&& scheme_of(user, hash) == Ok::<HashScheme, Seq<char>>(HashScheme::ShaCrypt) ==> {
                match sha_crypt_passwords(hash) {
                    Some(accepted) => said == Ok::<bool, Seq<char>>(accepted.contains(bytes)),
                    None => said == Err::<bool, Seq<char>>(
                        "failed to parse password hash for user '"@ + user
                            + "' (corrupt /etc/shadow?)"@,
                    ),
                }
            }
        }),
{
}

/// Every password can be judged, but for a yescrypt hash whose cost cannot be
/// represented.
pub proof fn lemma_what_can_be_judged(
    user: Seq<char>,
    shadow: Result<Seq<char>, Seq<char>>,
)
    ensures
        !is_checkable(user, shadow) <==> {
            &&& shadow matches Ok(s)
            &&& shadow_hash(s, user) matches Ok(Some(h))
            &&& scheme_of(user, h) == Ok::<HashScheme, Seq<char>>(HashScheme::Yescrypt)
            &&& !has_representable_cost(h)
        },
{
}

/// An identifier behind a `$` is a well-formed hash, and a well-formed hash with a
/// `$` and a field behind it is one; other texts are none.
pub proof fn lemma_well_formed_hashes(hash: Seq<char>, piece: Seq<char>)
    requires
        !piece.contains('$'),
    ensures
        is_password_hash(seq!['$'] + piece) <==> is_identifier(piece),
        hash.len() > 0 ==> (is_password_hash(hash.push('$') + piece) <==> is_password_hash(hash)
            && is_hash_field(piece)),
        is_password_hash(hash) ==> hash.len() > 1 && hash[0] == '$',
{
    lemma_fields_are_the_pieces(piece, piece, '$');
    assert((seq!['$'] + piece).skip(1) =~= piece);
    if hash.len() > 0 {
        let all = hash.push('$') + piece;
        let inner = hash.skip(1);
        assert(all.skip(1) =~= inner.push('$') + piece);
        lemma_last_field(inner, piece, '$');
        let parts = fields(inner, '$');
        let more = fields(all.skip(1), '$');
        assert(parts.len() > 0);
        assert(more[0] == parts[0]);
        assert(all[0] == hash[0]);
        if is_password_hash(all) {
            assert(is_hash_field(more[parts.len() as int]));
            assert forall|i: int| 1 <= i < parts.len() implies is_hash_field(
                #[trigger] parts[i],
            ) by {
                assert(more[i] == parts[i]);
            }
        }
        if is_password_hash(hash) && is_hash_field(piece) {
            assert forall|i: int| 1 <= i < more.len() implies is_hash_field(#[trigger] more[i]) by {
                if i < parts.len() {
                    assert(more[i] == parts[i]);
                }
            }
        }
        if hash.len() == 1 {
            assert(inner =~= Seq::<char>::empty());
            lemma_fields_are_the_pieces(inner, inner, '$');
        }
    }
}

/// A field is made of letters, numerals and six other characters, of one at least;
/// an identifier of small letters, numerals and hyphens between them.
pub proof fn lemma_characters_of_hashes(s: Seq<char>, t: Seq<char>, c: char)
    ensures
        !is_hash_field(Seq::empty()),
        is_hash_field(s.push(c)) <==> (s.len() == 0 || is_hash_field(s)) && ('A' <= c <= 'Z' || 'a'
            <= c <= 'z' || '0' <= c <= '9' || "./+=,-"@.contains(c)),
        !is_identifier(Seq::empty()),
        is_identifier(seq![c]) <==> 'a' <= c <= 'z' || '0' <= c <= '9',
        is_identifier(s) && is_identifier(t) ==> is_identifier(s + t) && is_identifier(
            s.push('-') + t,
        ),
{
    reveal_strlit("./+=,-");
    let all = s.push(c);
    assert(all[s.len() as int] == c);
    assert("./+=,-"@[0] == '.' && "./+=,-"@[1] == '/' && "./+=,-"@[2] == '+' && "./+=,-"@[3] == '='
        && "./+=,-"@[4] == ',' && "./+=,-"@[5] == '-');
    if is_hash_field(all) {
        assert forall|i: int| 0 <= i < s.len() implies ({
            ||| 'A' <= #[trigger] s[i] <= 'Z'
            ||| 'a' <= s[i] <= 'z'
            ||| '0' <= s[i] <= '9'
            ||| s[i] == '.' || s[i] == '/' || s[i] == '+' || s[i] == '=' || s[i] == ',' || s[i]
                == '-'
        }) by {
            assert(all[i] == s[i]);
        }
    }
    assert(seq![c][0] == c);
    if is_identifier(s) && is_identifier(t) {
        let joined = s + t;
        let with_hyphen = s.push('-') + t;
        assert forall|i: int| 0 <= i < joined.len() implies identifier_end(#[trigger] joined[i])
            || joined[i] == '-' by {
            if i < s.len() {
                assert(joined[i] == s[i]);
            } else {
                assert(joined[i] == t[i - s.len()]);
            }
        }
        assert forall|i: int| 0 <= i < with_hyphen.len() implies identifier_end(
            #[trigger] with_hyphen[i],
        ) || with_hyphen[i] == '-' by {
            if i < s.len() {
                assert(with_hyphen[i] == s[i]);
            } else if i > s.len() {
                assert(with_hyphen[i] == t[i - s.len() - 1]);
            }
        }
    }
}

/// What was read, and what is said, stands for its text.
pub proof fn lemma_texts_of_results(text: String, message: String, matches: bool)
    ensures
        read_text(Ok(text)) == Ok::<Seq<char>, Seq<char>>(text@),
        read_text(Err(message)) == Err::<Seq<char>, Seq<char>>(message@),
        by_text(Ok::<bool, String>(matches)) == Ok::<bool, Seq<char>>(matches),
        by_text(Err::<bool, String>(message)) == Err::<bool, Seq<char>>(message@),
{
}

} // verus!
