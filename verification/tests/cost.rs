use doit::cost::{cost_is_representable, digit, read_cost, stands_for_bytes, Cost};
use doit::password::try_verify_password;
use yescrypt::Params;

fn cost(flavor: u64, log_blocks: u64, block_size: u64, lanes: u64, time: u64) -> Option<Cost> {
    Some(Cost { flavor, log_blocks, block_size, lanes, time })
}

#[test]
fn digits() {
    let alphabet = "./0123456789ABCDEFGHIJKLMNOPQRSTUVWXYZabcdefghijklmnopqrstuvwxyz";
    for (value, c) in alphabet.chars().enumerate() {
        assert_eq!(digit(c), Some(value as u64));
    }
    for c in ['$', '-', ':', '@', '[', '`', '{', ' ', '\u{e9}'] {
        assert_eq!(digit(c), None);
    }
}

#[test]
fn parameters() {
    assert_eq!(read_cost("j9T"), cost(47, 12, 32, 1, 0));
    assert_eq!(read_cost("j95.0"), cost(47, 12, 8, 4, 0));
    assert_eq!(read_cost("j95/2"), cost(47, 12, 8, 1, 5));
    assert_eq!(read_cost("j950/2"), cost(47, 12, 8, 3, 5));
    assert_eq!(read_cost(".../0"), cost(0, 1, 1, 1, 3));
    assert_eq!(read_cost("jjnz"), cost(47, 48, 304, 1, 0));
    assert_eq!(read_cost("/9zzzzzz"), cost(1, 12, 1091060272, 1, 0));
    for text in ["", "j", "j9", "09T", "jkD/", "j9k", "j9T1", "j9T5/", "j....", "j9T.", "j 9T", "jT\u{e9}"] {
        assert_eq!(read_cost(text), None, "{}", text);
    }
}

fn agrees(text: &str) {
    let ours = read_cost(text);
    match text.parse::<Params>() {
        Err(_) => assert_eq!(ours, None, "{}", text),
        Ok(p) => {
            let c = ours.unwrap();
            assert_eq!(
                (1u64 << c.log_blocks, c.block_size, c.lanes),
                (p.n(), u64::from(p.r()), u64::from(p.p())),
                "{}",
                text
            );
            assert!(format!("{:?}", p).contains(&format!(" t: {},", c.time)), "{}", text);
        }
    }
}

fn all_agree(prefix: &str, alphabet: &str, more: usize) {
    agrees(prefix);
    if more > 0 {
        for c in alphabet.chars() {
            all_agree(&format!("{}{}", prefix, c), alphabet, more - 1);
        }
    }
}

#[test]
fn parameters_are_those_of_the_crate() {
    all_agree("", "./0129ATjkrvwz{", 4);
    all_agree("j9", "./05jkvwxyz", 4);
    all_agree("/C.", "./012345678k", 4);
    for start in ["jkC", "jkD", ".9z", "j9y", "j9x1", "jjw", "jDk."] {
        for end in ["zzzzz", "zzzz", "Az1z", ".....", "/////", "z1/z0", ".0", "/0", "0/0", "1", "zzzzzzz"] {
            agrees(&format!("{}{}", start, end));
        }
    }
}

#[test]
fn texts_that_stand_for_bytes() {
    for text in ["", "./", "z1", "zz/", "zzD", "zzzz", "LdJMk7BX", "k7BX./"] {
        assert!(stands_for_bytes(text), "{}", text);
    }
    for text in [".", "z2", "zz", "zzE", "zzz", "zzzzz", "zz+z", "zzz=", "k7BX.", "\u{e9}zzz"] {
        assert!(!stands_for_bytes(text), "{}", text);
    }
}

#[test]
fn fields_stand_for_bytes_where_the_crate_can_use_them() {
    let ends = ["", ".", "/", "0", "1", "2", "D", "E", "F", "z", "+", "=", ",", "-"];
    for start in ["z", "zz", "zzz", "zzzz", "zzz+", "LdJMk", "LdJMk7BXz"] {
        for end in ends {
            let field = format!("{}{}", start, end);
            for hash in [format!("$y$...${}$k7BX", field), format!("$y$...$k7BX${}", field)] {
                let verdict = try_verify_password("a", "x", &Ok(format!("a:{}:1\n", hash)));
                assert_eq!(verdict.unwrap().is_ok(), stands_for_bytes(&field), "{}", hash);
            }
        }
    }
}

#[test]
fn costs() {
    for hash in [
        "$y$j9T$salt$sha5",
        "$y$j//$salt$sha5",
        "$y$jjj$salt$sha5",
        "$y$jNk.$salt$sha5",
        "$y$jMz$salt$sha5",
        "$y$j9",
        "$y$jjnz",
        "$y$jjnz$salt$sha5$more",
        "$y$jzzzz$x$y",
        "$y$corrupt",
        "$y$zzz$x$y",
        "$y$.9zzzzzz$salt$sha5",
        "$y$.kC/$salt$sha5",
        "$y$.kC.$salt$sha5",
        "$y$jjnz$sault$sha5",
        "$y$jjnz$salt$sha-",
        "$y$jjnz$salt$zzz",
        "",
    ] {
        assert!(cost_is_representable(hash), "{}", hash);
    }
    for hash in [
        "$y$jjnz$salt$sha5",
        "$y$jjnz$salt$zz/",
        "$y$jkC/$salt$sha5",
        "$y$.jnz$salt$sha5",
        "$y$/jnz$salt$sha5",
    ] {
        assert!(!cost_is_representable(hash), "{}", hash);
    }
}
