use doit::text::{
    is_whitespace, lines, same, split, split_whitespace, starts_with, to_decimal, to_octal3, trim,
};

#[test]
fn white_space_is_what_unicode_says() {
    for code in 0..=0x10ffffu32 {
        if let Some(c) = char::from_u32(code) {
            assert_eq!(is_whitespace(c), c.is_whitespace(), "{:x}", code);
        }
    }
}

const SAMPLES: [&str; 14] = [
    "",
    "\n",
    "a",
    "a\n",
    "a\r\n",
    "a\r",
    "a\n\nb",
    "\r\n\r\n",
    "a\r\r\nb\rc",
    " a  b\tc ",
    "\u{a0}x\u{3000}y\u{2028}",
    ":a::b:",
    "root:*:1:::",
    "\u{e9}t\u{e9}:\u{1f600} z",
];

#[test]
fn lines_agree_with_std() {
    for s in SAMPLES {
        let expected: Vec<&str> = s.lines().collect();
        assert_eq!(lines(s), expected, "{:?}", s);
    }
}

#[test]
fn words_agree_with_std() {
    for s in SAMPLES {
        let expected: Vec<&str> = s.split_whitespace().collect();
        assert_eq!(split_whitespace(s), expected, "{:?}", s);
    }
}

#[test]
fn fields_agree_with_std() {
    for s in SAMPLES {
        let expected: Vec<&str> = s.split(':').collect();
        assert_eq!(split(s, ':'), expected, "{:?}", s);
    }
}

#[test]
fn trimming_agrees_with_std() {
    for s in SAMPLES {
        assert_eq!(trim(s), s.trim(), "{:?}", s);
    }
}

#[test]
fn prefixes_and_equality() {
    assert!(starts_with("$y$j9T", "$y$"));
    assert!(!starts_with("$6$", "$y$"));
    assert!(!starts_with("$y", "$y$"));
    assert!(starts_with("x", ""));
    assert!(same("abc", "abc"));
    assert!(!same("abc", "abd"));
    assert!(!same("abc", "ab"));
}

#[test]
fn numerals() {
    for n in [0u64, 9, 10, 65534, 1000, 4294967295, u64::MAX] {
        assert_eq!(to_decimal(n), format!("{}", n));
    }
    for mode in [0u32, 7, 0o600, 0o644, 0o777, 0o020] {
        assert_eq!(to_octal3(mode), format!("{:03o}", mode));
    }
}
