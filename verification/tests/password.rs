use doit::password::{
    find_hash, hash_scheme, try_verify_password, verify_password, HashScheme,
};

const YESCRYPT: &str = "$y$j//$LdJMENpBABJJ3hIHjB1B$U8a2MaK.yesqWySK8Owk6PWeWmp/XuagMbpP45q1/q1";
const SHA_512: &str = "$6$saltstring$svn8UoSVapNtMuq1ukKS4tPQd8iKwSMHWjl/O817G3uBnIFNjnQJuesI68u4OTLiBFdcbYEdFCoEOfaS35inz1";
const SHA_256: &str = "$5$9aEeVXnCiCNHUjO/$FrVBcjyJukRaE6inMYazyQv1DBnwaKfom.71ebgQR/0";

fn shadow() -> Result<String, String> {
    Ok(format!(
        "root:!:19000:0:99999:7:::\nalice:{}:19000:0:99999:7:::\nbob:{}:19000::::::\r\ncarol:{}:19000\n\
         dave:*:1\nerin::1\nfrank\ngrace:$1$abc$def:1\nheidi:!$6$x$y:1\nivan:$z:1\nalice:*:1\n",
        YESCRYPT, SHA_512, SHA_256
    ))
}

fn corrupt(user: &str) -> String {
    format!("failed to parse password hash for user '{}' (corrupt /etc/shadow?)", user)
}

fn verify(user: &str, password: &str) -> Result<bool, String> {
    verify_password(user, password, &shadow())
}

#[test]
fn passwords_match_their_hashes() {
    assert_eq!(verify("alice", "pleaseletmein"), Ok(true));
    assert_eq!(verify("bob", "Hello world!"), Ok(true));
    assert_eq!(verify("carol", "foobar"), Ok(true));
}

#[test]
fn other_passwords_do_not() {
    assert_eq!(verify("alice", "bogus"), Ok(false));
    assert_eq!(verify("bob", "Hello world"), Ok(false));
    assert_eq!(verify("carol", "pleaseletmein"), Ok(false));
    assert_eq!(verify("alice", YESCRYPT), Ok(false));
    assert_eq!(verify("bob", SHA_512), Ok(false));
}

#[test]
fn locked_and_unknown_users_have_no_password() {
    for user in ["root", "dave", "erin", "nobody", ""] {
        assert_eq!(verify(user, "x"), Ok(false), "{}", user);
    }
}

#[test]
fn an_entry_without_a_password_field_is_an_error() {
    assert_eq!(
        verify("frank", "x"),
        Err("failed to parse password hash for user 'frank' (corrupt /etc/shadow?)".to_string())
    );
    assert_eq!(find_hash(&shadow().unwrap(), "frank"), Err(corrupt("frank")));
    assert_eq!(verify_password("a", "x", &Ok("b\na\na:*:1\n".to_string())), Err(corrupt("a")));
}

#[test]
fn corrupt_and_unsupported_hashes_are_errors() {
    assert_eq!(
        verify("heidi", "x"),
        Err("failed to parse password hash for user 'heidi' (corrupt /etc/shadow?)".to_string())
    );
    assert_eq!(
        verify("grace", "x"),
        Err("unsupported password hash type for user 'grace' (starts with '$1$')".to_string())
    );
    assert_eq!(
        verify("ivan", "x"),
        Err("unsupported password hash type for user 'ivan' (starts with '$z')".to_string())
    );
}

#[test]
fn an_unreadable_shadow_file_is_an_error() {
    assert_eq!(
        verify_password("alice", "x", &Err("Permission denied".to_string())),
        Err("failed to read /etc/shadow: Permission denied".to_string())
    );
}

#[test]
fn the_first_line_for_a_user_counts() {
    let file = shadow().unwrap();
    assert_eq!(find_hash(&file, "alice"), Ok(Some(YESCRYPT)));
    assert_eq!(find_hash(&file, "bob"), Ok(Some(SHA_512)));
    assert_eq!(find_hash(&file, "dave"), Ok(None));
    assert_eq!(find_hash("x:\r\nx:y", "x"), Ok(None));
    assert_eq!(find_hash("x:y\r", "x"), Ok(Some("y\r")));
    assert_eq!(find_hash("x:y\r\n", "x"), Ok(Some("y")));
    let other = Ok(format!("bob:*:2\nalice:{}:9\n\nalice\n", YESCRYPT));
    for password in ["pleaseletmein", "bogus"] {
        assert_eq!(verify_password("alice", password, &other), verify("alice", password));
    }
}

#[test]
fn schemes() {
    assert_eq!(hash_scheme("u", YESCRYPT), Ok(HashScheme::Yescrypt));
    assert_eq!(hash_scheme("u", SHA_512), Ok(HashScheme::ShaCrypt));
    assert_eq!(hash_scheme("u", SHA_256), Ok(HashScheme::ShaCrypt));
}

#[test]
fn hashes_in_modular_crypt_format() {
    let unsupported = ["$6", "$foo-bar$A", "$a$b$c,=+/.-", "$1$x"];
    for hash in unsupported {
        let message = hash_scheme("u", hash).unwrap_err();
        assert!(message.starts_with("unsupported"), "{}", hash);
    }
    let corrupt = [
        "x", "$", "$$", "$$foo", "$foo$", "$-$foo", "$foo-$bar", "$-foo$bar", "$foo$$bar",
        "$Foo$bar", "$6$a_b", "$6$a b", "$y$\u{e9}$x", "Hello, world!", "$6$x$", "6$x",
    ];
    for hash in corrupt {
        let message = hash_scheme("u", hash).unwrap_err();
        assert!(message.starts_with("failed to parse"), "{}", hash);
    }
}

#[test]
fn costs_that_cannot_be_represented_have_no_verdict() {
    let file = Ok(
        "alice:$y$jjnz$LdJM$k7BXzSDuoGHW56SY3HxROCiA0gWRscZe2aA0q5oHPM0:1\nbob:$y$jkC/$LdJM$k7BX:1\n\
         carol:$6$saltstring$k7BX:1\ndave:$y$jjnz:1\n"
            .to_string(),
    );
    assert_eq!(try_verify_password("alice", "x", &file), None);
    assert_eq!(try_verify_password("bob", "x", &file), None);
    assert_eq!(try_verify_password("carol", "x", &file), Some(Ok(false)));
    assert_eq!(try_verify_password("dave", "x", &file), Some(Err(corrupt("dave"))));
    assert_eq!(try_verify_password("erin", "x", &file), Some(Ok(false)));
    assert_eq!(try_verify_password("alice", "pleaseletmein", &shadow()), Some(Ok(true)));
}

#[test]
fn hashes_that_cannot_be_used_are_errors() {
    let hashes = [
        "$y$j9T", "$y$+$x$y", "$6$x", "$6$rounds=1$x$y", "$y$j", "$y$corrupt", "$y$jzzzz$x$y",
        "$y$j9T$LdJM$k7BX$k7BX", "$y$j//$L$k7BX", "$6$salt$x", "$5$a$b$c$d", "$y$zzz$x$y",
        "$y$.9zzzzzz$LdJM$k7BX", "$y$.kC/$LdJM$k7BX", "$y$jjnz$LdJMx$k7BX", "$y$jkC/$LdJM$k7-X",
    ];
    for hash in hashes {
        let file = Ok(format!("a:{}:1\n", hash));
        for password in ["", "x", "pleaseletmein"] {
            assert_eq!(try_verify_password("a", password, &file), Some(Err(corrupt("a"))), "{}", hash);
        }
    }
}
