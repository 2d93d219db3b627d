use doit::config::{
    default_config, find_permit, read_config, read_line, ConfigEntry, ConfigLine, PermitType,
};

fn pairs(entries: &[ConfigEntry]) -> Vec<(&str, PermitType)> {
    entries.iter().map(|e| (e.user.as_str(), e.permit)).collect()
}

const EXAMPLE: &str = "# Alice needs a password every time
alice permit

# Bob can run anything without a password
bob permit nopass

# Carol gets 10 free uses, then needs her password
carol permit extend
";

#[test]
fn the_three_levels() {
    let config = read_config(EXAMPLE);
    assert_eq!(
        pairs(&config.entries),
        vec![
            ("alice", PermitType::Password),
            ("bob", PermitType::NoPass),
            ("carol", PermitType::Extend),
        ]
    );
    assert!(config.complaints.is_empty());
    assert_eq!(find_permit(&config.entries, "bob"), Some(&PermitType::NoPass));
    assert_eq!(find_permit(&config.entries, "dave"), None);
    assert_eq!(find_permit(&config.entries, "Alice"), None);
}

#[test]
fn malformed_lines_are_skipped_with_a_complaint() {
    let config = read_config("alice\n  bob   allow \ncarol permit always\r\ndave permit");
    assert_eq!(pairs(&config.entries), vec![("dave", PermitType::Password)]);
    assert_eq!(
        config.complaints,
        vec![
            "doit: config: malformed line (expected '<user> permit [nopass|extend]'): alice",
            "doit: config: malformed line (expected '<user> permit [nopass|extend]'): bob   allow",
            "doit: config: unknown permit type 'always' for user 'carol'",
        ]
    );
}

#[test]
fn comments_and_blank_lines_say_nothing() {
    for line in ["", "   ", "\t\r", "#", "  # alice permit nopass", "#alice permit"] {
        assert!(matches!(read_line(line), ConfigLine::Ignored), "{:?}", line);
    }
    let config = read_config("\n# alice permit nopass\n\u{a0}\nalice permit\n");
    assert_eq!(pairs(&config.entries), vec![("alice", PermitType::Password)]);
    assert!(config.complaints.is_empty());
}

#[test]
fn lines_of_more_than_three_words_are_skipped() {
    let config = read_config("\talice permit nopass at all\nalice permit nopass extend\nbob permit\n");
    assert_eq!(pairs(&config.entries), vec![("bob", PermitType::Password)]);
    assert_eq!(
        config.complaints,
        vec![
            "doit: config: malformed line (expected '<user> permit [nopass|extend]'): alice permit nopass at all",
            "doit: config: malformed line (expected '<user> permit [nopass|extend]'): alice permit nopass extend",
        ]
    );
}

#[test]
fn a_comment_behind_a_level_is_ignored() {
    let config = read_config(
        "bob permit nopass # laptop\ncarol permit extend #until may\ndave permit extend # # x\n",
    );
    assert_eq!(
        pairs(&config.entries),
        vec![
            ("bob", PermitType::NoPass),
            ("carol", PermitType::Extend),
            ("dave", PermitType::Extend),
        ]
    );
    assert!(config.complaints.is_empty());
}

#[test]
fn an_unknown_level_is_named_whatever_follows() {
    let config = read_config("bob permit # laptop\nbob permit all # x\nbob permit all x\nbob permit nopass# x\n");
    assert!(config.entries.is_empty());
    assert_eq!(
        config.complaints,
        vec![
            "doit: config: unknown permit type '#' for user 'bob'",
            "doit: config: unknown permit type 'all' for user 'bob'",
            "doit: config: unknown permit type 'all' for user 'bob'",
            "doit: config: unknown permit type 'nopass#' for user 'bob'",
        ]
    );
}

#[test]
fn files_are_read_apart() {
    let parts = ["", "alice permit\n", "# x\n\nbob permit nopass\r\noops\n", "carol permit extend"];
    for a in &parts[..3] {
        for b in parts {
            let both = read_config(&format!("{}{}", a, b));
            let (one, other) = (read_config(a), read_config(b));
            assert_eq!(
                pairs(&both.entries),
                [pairs(&one.entries), pairs(&other.entries)].concat()
            );
            assert_eq!(both.complaints, [one.complaints, other.complaints].concat());
        }
    }
}

#[test]
fn lines_that_are_no_entries_grant_nothing() {
    for line in ["", "# bob permit", "bob", "bob allow nopass", "bob permit all", "bob permit nopass at all"] {
        let config = read_config(&format!("alice permit\n{}\ncarol permit extend\n", line));
        assert_eq!(
            pairs(&config.entries),
            vec![("alice", PermitType::Password), ("carol", PermitType::Extend)]
        );
    }
}

#[test]
fn words_are_matched_as_they_are_written() {
    let config = read_config("alice Permit\nalice permit NoPass\npermit permit\n");
    assert_eq!(pairs(&config.entries), vec![("permit", PermitType::Password)]);
    assert_eq!(config.complaints.len(), 2);
}

#[test]
fn the_first_entry_counts() {
    let config = read_config("alice permit\nalice permit nopass\n");
    assert_eq!(find_permit(&config.entries, "alice"), Some(&PermitType::Password));
}

#[test]
fn the_default_permits_its_user_with_a_password() {
    assert_eq!(default_config("alice"), "alice permit\n");
    let config = read_config(&default_config("alice"));
    assert_eq!(pairs(&config.entries), vec![("alice", PermitType::Password)]);
    assert!(config.complaints.is_empty());
    assert!(read_config(&default_config("#alice")).entries.is_empty());
}
