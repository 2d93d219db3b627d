//! The configuration file: who is permitted, and how.
//!
//! Each line grants one user a level of authorization:
//!
//! | Line | Meaning |
//! |---|---|
//! | `alice permit` | Password required every time. |
//! | `bob permit nopass` | No password required. |
//! | `carol permit extend` | Some password-free uses, then password required. |
//!
//! Lines that start with `#` and blank lines are ignored, and so is a comment
//! behind a level. Every other line is skipped with a complaint.
use vstd::prelude::*;

use crate::text::{
    begins_with, blank, is_word, lemma_head_len, lemma_lines_add_up, lemma_lines_are_the_pieces,
    lemma_trimmed_parts, lemma_trimming, lemma_word_end, lemma_word_holds_none, lemma_word_len,
    lemma_words_are_the_pieces, lemma_words_of_trimmed, lines, same, split_whitespace, starts_with,
    text_lines, texts, trim, trimmed, trimmed_end, trimmed_start, views, whitespace, without_cr,
    word_len, words,
};

verus! {

/// Path of the configuration file.
pub const CONFIG_PATH: &'static str = "/etc/doit.conf";

/// Level of authorization granted to a user.
#[derive(Debug, Clone, Copy, PartialEq, Eq, Structural)]
pub enum PermitType {
    /// Execute without a password.
    NoPass,
    /// Execute without a password a limited number of times, then require
    /// authentication to recharge.
    Extend,
    /// Ask for the user's password every time.
    Password,
}

/// A single entry of the configuration file.
#[derive(Debug)]
pub struct ConfigEntry {
    /// The user it applies to.
    pub user: String,
    /// What the user is allowed to do.
    pub permit: PermitType,
}

impl View for ConfigEntry {
    type V = (Seq<char>, PermitType);

    open spec fn view(&self) -> (Seq<char>, PermitType) {
        (self.user@, self.permit)
    }
}

/// The entries by their values.
pub open spec fn entry_views(entries: Seq<ConfigEntry>) -> Seq<(Seq<char>, PermitType)> {
    Seq::new(entries.len(), |i: int| entries[i]@)
}

/// What a line says.
#[derive(Debug)]
pub enum ConfigLine {
    /// Nothing: it is blank or a comment.
    Ignored,
    /// It is an entry.
    Entry(ConfigEntry),
    /// It is skipped, with a complaint.
    Rejected(String),
}

/// A [`ConfigLine`] by its values.
#[verifier::ext_equal]
pub enum LineView {
    Ignored,
    Entry((Seq<char>, PermitType)),
    Rejected(Seq<char>),
}

impl View for ConfigLine {
    type V = LineView;

    open spec fn view(&self) -> LineView {
        match self {
            ConfigLine::Ignored => LineView::Ignored,
            ConfigLine::Entry(e) => LineView::Entry(e@),
            ConfigLine::Rejected(m) => LineView::Rejected(m@),
        }
    }
}

/// The level that a word asks for.
pub open spec fn level_of(word: Seq<char>) -> Option<PermitType> {
    if word == "nopass"@ {
        Some(PermitType::NoPass)
    } else if word == "extend"@ {
        Some(PermitType::Extend)
    } else {
        None
    }
}

/// Whether nothing but a comment stands behind the third word.
pub open spec fn ends_after_three(w: Seq<Seq<char>>) -> bool {
    w.len() <= 3 || begins_with(w[3], "#"@)
}

/// The complaint about a line that is not of the form of an entry.
pub open spec fn malformed(t: Seq<char>) -> Seq<char> {
    "doit: config: malformed line (expected '<user> permit [nopass|extend]'): "@ + t
}

/// The meaning of a line.
pub open spec fn line_meaning(line: Seq<char>) -> LineView {
    let t = trimmed(line);
    let w = words(t);
    if t.len() == 0 || t[0] == '#' {
        LineView::Ignored
    } else if w.len() < 2 || w[1] != "permit"@ {
        LineView::Rejected(malformed(t))
    } else if w.len() == 2 {
        LineView::Entry((w[0], PermitType::Password))
    } else {
        match level_of(w[2]) {
            None => LineView::Rejected(
                "doit: config: unknown permit type '"@ + w[2] + "' for user '"@ + w[0] + "'"@,
            ),
            Some(level) => if ends_after_three(w) {
                LineView::Entry((w[0], level))
            } else {
                LineView::Rejected(malformed(t))
            },
        }
    }
}

/// The entries among the lines, in their order.
pub open spec fn entries_of(config_lines: Seq<Seq<char>>) -> Seq<(Seq<char>, PermitType)>
    decreases config_lines.len(),
{
    if config_lines.len() == 0 {
        seq![]
    } else {
        let front = entries_of(config_lines.drop_last());
        match line_meaning(config_lines.last()) {
            LineView::Entry(e) => front.push(e),
            _ => front,
        }
    }
}

/// The complaints about the lines, in their order.
pub open spec fn complaints_of(config_lines: Seq<Seq<char>>) -> Seq<Seq<char>>
    decreases config_lines.len(),
{
    if config_lines.len() == 0 {
        seq![]
    } else {
        let front = complaints_of(config_lines.drop_last());
        match line_meaning(config_lines.last()) {
            LineView::Rejected(m) => front.push(m),
            _ => front,
        }
    }
}

/// The level of the first entry for `user`.
pub open spec fn permit_of(entries: Seq<(Seq<char>, PermitType)>, user: Seq<char>) -> Option<
    PermitType,
>
    decreases entries.len(),
{
    if entries.len() == 0 {
        None
    } else if entries[0].0 == user {
        Some(entries[0].1)
    } else {
        permit_of(entries.skip(1), user)
    }
}

/// The level that a configuration file grants to `user`, if any.
pub open spec fn granted(config: Seq<char>, user: Seq<char>) -> Option<PermitType> {
    permit_of(entries_of(text_lines(config)), user)
}

/// The contents of a configuration file that permits `user` alone, with a password.
pub open spec fn sole_entry(user: Seq<char>) -> Seq<char> {
    user + " permit\n"@
}

/// What a configuration file says, and what is to be complained about in it.
#[derive(Debug)]
pub struct Config {
    /// The entries, in the order of their lines.
    pub entries: Vec<ConfigEntry>,
    /// The complaints, in the order of their lines.
    pub complaints: Vec<String>,
}

/// Writes the complaint about a line that is not of the form of an entry.
fn complain(t: &str) -> (r: String)
    ensures
        r@ == malformed(t@),
{
    "doit: config: malformed line (expected '<user> permit [nopass|extend]'): ".to_owned().concat(t)
}

/// Reads one line of a configuration file.
pub fn read_line(line: &str) -> (r: ConfigLine)
    ensures
        r@ == line_meaning(line@),
{
    let t = trim(line);
    if t.is_empty() {
        return ConfigLine::Ignored;
    }
    if t.get_char(0) == '#' {
        return ConfigLine::Ignored;
    }
    let parts = split_whitespace(t);
    let ghost w = views(parts@);
    proof {
        assert(w == words(trimmed(line@)));
        assert(w.len() == parts@.len());
        assert forall|i: int| 0 <= i < parts@.len() implies w[i] == #[trigger] parts@[i]@ by {}
    }
    if parts.len() < 2 || !same(parts[1], "permit") {
        return ConfigLine::Rejected(complain(t));
    }
    let permit = if parts.len() == 2 {
        PermitType::Password
    } else if same(parts[2], "nopass") {
        PermitType::NoPass
    } else if same(parts[2], "extend") {
        PermitType::Extend
    } else {
        return ConfigLine::Rejected(
            "doit: config: unknown permit type '".to_owned().concat(parts[2]).concat(
                "' for user '",
            ).concat(parts[0]).concat("'"),
        );
    };
    if parts.len() > 3 && !starts_with(parts[3], "#") {
        return ConfigLine::Rejected(complain(t));
    }
    ConfigLine::Entry(ConfigEntry { user: parts[0].to_owned(), permit })
}

/// Reads the contents of a configuration file.
pub fn read_config(config: &str) -> (r: Config)
    ensures
        entry_views(r.entries@) == entries_of(text_lines(config@)),
        texts(r.complaints@) == complaints_of(text_lines(config@)),
{
    let all = lines(config);
    let ghost t = views(all@);
    let mut entries: Vec<ConfigEntry> = Vec::new();
    let mut complaints: Vec<String> = Vec::new();
    proof {
        assert(entry_views(entries@) =~= entries_of(t.take(0)));
        assert(texts(complaints@) =~= complaints_of(t.take(0)));
    }
    let mut i: usize = 0;
    while i < all.len()
        invariant
            i <= all.len(),
            t == views(all@),
            entry_views(entries@) == entries_of(t.take(i as int)),
            texts(complaints@) == complaints_of(t.take(i as int)),
        decreases all.len() - i,
    {
        proof {
            assert(t.take(i + 1).drop_last() =~= t.take(i as int));
            assert(t.take(i + 1).last() == all@[i as int]@);
        }
        let ghost old_entries = entries@;
        let ghost old_complaints = complaints@;
        match read_line(all[i]) {
            ConfigLine::Ignored => {},
            ConfigLine::Entry(e) => {
                entries.push(e);
                proof {
                    assert(entry_views(entries@) =~= entry_views(old_entries).push(e@));
                }
            },
            ConfigLine::Rejected(m) => {
                complaints.push(m);
                proof {
                    assert(texts(complaints@) =~= texts(old_complaints).push(m@));
                }
            },
        }
        i += 1;
    }
    proof {
        assert(t.take(i as int) =~= t);
    }
    Config { entries, complaints }
}

/// Looks up the level of `user`: that of the first entry for them.
pub fn find_permit<'a>(entries: &'a [ConfigEntry], user: &str) -> (r: Option<&'a PermitType>)
    ensures
        match r {
            Some(p) => permit_of(entry_views(entries@), user@) == Some(*p),
            None => permit_of(entry_views(entries@), user@) is None,
        },
{
    let ghost all = entry_views(entries@);
    let mut i: usize = 0;
    proof {
        assert(all.skip(0) =~= all);
    }
    while i < entries.len()
        invariant
            i <= entries.len(),
            all == entry_views(entries@),
            permit_of(all.skip(i as int), user@) == permit_of(all, user@),
        decreases entries.len() - i,
    {
        proof {
            assert(all.skip(i as int)[0] == entries@[i as int]@);
            assert(all.skip(i as int).skip(1) =~= all.skip(i + 1));
        }
        if same(entries[i].user.as_str(), user) {
            return Some(&entries[i].permit);
        }
        i += 1;
    }
    None
}

/// The configuration file that is made where there is none.
pub fn default_config(user: &str) -> (r: String)
    ensures
        r@ == sole_entry(user@),
{
    user.to_owned().concat(" permit\n")
}

/// A file is read line by line: what stands before and after a line does not
/// change what the line means.
pub proof fn lemma_lines_are_read_apart(a: Seq<Seq<char>>, b: Seq<Seq<char>>)
    ensures
        entries_of(a + b) == entries_of(a) + entries_of(b),
        complaints_of(a + b) == complaints_of(a) + complaints_of(b),
    decreases b.len(),
{
    if b.len() == 0 {
        assert(a + b =~= a);
        assert(entries_of(a) + entries_of(b) =~= entries_of(a));
        assert(complaints_of(a) + complaints_of(b) =~= complaints_of(a));
    } else {
        let c = a + b;
        assert(c.drop_last() =~= a + b.drop_last());
        assert(c.last() == b.last());
        lemma_lines_are_read_apart(a, b.drop_last());
        assert(entries_of(c) =~= entries_of(a) + entries_of(b));
        assert(complaints_of(c) =~= complaints_of(a) + complaints_of(b));
    }
}

/// A text that is empty or ends in a newline can be followed by another: what the
/// two say together is what the one says and then what the other says.
pub proof fn lemma_files_are_read_apart(a: Seq<char>, b: Seq<char>)
    requires
        a.len() == 0 || a.last() == '\n',
    ensures
        entries_of(text_lines(a + b)) == entries_of(text_lines(a)) + entries_of(text_lines(b)),
        complaints_of(text_lines(a + b)) == complaints_of(text_lines(a)) + complaints_of(
            text_lines(b),
        ),
{
    lemma_lines_add_up(a, b);
    lemma_lines_are_read_apart(text_lines(a), text_lines(b));
}

/// A line that is not an entry grants nothing, wherever it stands: the entries are
/// those of the other lines, and a line that is rejected adds its complaint.
pub proof fn lemma_only_entries_grant(a: Seq<Seq<char>>, line: Seq<char>, b: Seq<Seq<char>>)
    requires
        !(line_meaning(line) is Entry),
    ensures
        entries_of(a + seq![line] + b) == entries_of(a + b),
        complaints_of(a + seq![line] + b) == (match line_meaning(line) {
            LineView::Rejected(m) => complaints_of(a).push(m) + complaints_of(b),
            _ => complaints_of(a + b),
        }),
{
    let one = seq![line];
    lemma_lines_are_read_apart(a + one, b);
    lemma_lines_are_read_apart(a, b);
    assert((a + one).drop_last() =~= a);
    assert((a + one).last() == line);
}

/// Blank lines and comments make no difference, wherever they stand.
pub proof fn lemma_comments_are_ignored(a: Seq<Seq<char>>, line: Seq<char>, b: Seq<Seq<char>>)
    requires
        trimmed(line).len() == 0 || trimmed(line)[0] == '#',
    ensures
        entries_of(a + seq![line] + b) == entries_of(a + b),
        complaints_of(a + seq![line] + b) == complaints_of(a + b),
{
    lemma_only_entries_grant(a, line, b);
}

/// The first entry for a user counts; entries that follow it do not.
pub proof fn lemma_first_entry_counts(
    a: Seq<(Seq<char>, PermitType)>,
    b: Seq<(Seq<char>, PermitType)>,
    user: Seq<char>,
)
    ensures
        permit_of(a + b, user) == (if permit_of(a, user) is Some {
            permit_of(a, user)
        } else {
            permit_of(b, user)
        }),
    decreases a.len(),
{
    if a.len() == 0 {
        assert(a + b =~= b);
    } else {
        assert((a + b)[0] == a[0]);
        assert((a + b).skip(1) =~= a.skip(1) + b);
        lemma_first_entry_counts(a.skip(1), b, user);
    }
}

/// A user is permitted only where an entry names them, and then has the level of
/// one of those entries.
pub proof fn lemma_permits_are_written_down(
    entries: Seq<(Seq<char>, PermitType)>,
    user: Seq<char>,
    permit: PermitType,
)
    ensures
        permit_of(entries, user) == Some(permit) ==> entries.contains((user, permit)),
        permit_of(entries, user) is None <==> forall|i: int|
            0 <= i < entries.len() ==> (#[trigger] entries[i]).0 != user,
    decreases entries.len(),
{
    if entries.len() > 0 {
        let rest = entries.skip(1);
        lemma_permits_are_written_down(rest, user, permit);
        if entries[0].0 == user {
            if permit_of(entries, user) == Some(permit) {
                assert(entries[0] == (user, permit));
            }
        } else {
            if rest.contains((user, permit)) {
                let k = choose|k: int| 0 <= k < rest.len() && rest[k] == (user, permit);
                assert(entries[k + 1] == (user, permit));
            }
            if permit_of(rest, user) is None {
                assert forall|i: int| 0 <= i < entries.len() implies (#[trigger] entries[i]).0
                    != user by {
                    if i > 0 {
                        assert(rest[i - 1] == entries[i]);
                    }
                }
            } else {
                let k = choose|k: int| 0 <= k < rest.len() && (#[trigger] rest[k]).0 == user;
                assert(entries[k + 1].0 == user);
            }
        }
    }
}

/// The configuration file that is made where there is none permits the user who
/// made it, with a password, and is free of complaints. A user name that is
/// empty, holds white space or starts with `#` cannot be written in the file.
pub proof fn lemma_default_config_permits_its_user(user: Seq<char>)
    requires
        user.len() > 0,
        user[0] != '#',
        forall|i: int| 0 <= i < user.len() ==> !whitespace(#[trigger] user[i]),
    ensures
        entries_of(text_lines(sole_entry(user))) == seq![(user, PermitType::Password)],
        complaints_of(text_lines(sole_entry(user))) == Seq::<Seq<char>>::empty(),
        granted(sole_entry(user), user) == Some(PermitType::Password),
{
    reveal_strlit(" permit\n");
    reveal_strlit("permit");
    let n = user.len() as int;
    let file = sole_entry(user);
    let line = file.take(n + 7);
    assert forall|k: int| 0 <= k < n + 7 implies file[k] != '\n' by {
        if k < n {
            assert(!whitespace(user[k]));
        }
    }
    lemma_head_len(file, '\n', (n + 7) as nat);
    assert(without_cr(line) == line);
    assert(file.skip(n + 8) =~= Seq::<char>::empty());
    reveal_with_fuel(text_lines, 2);
    assert(text_lines(file) =~= seq![line]);

    assert(line[0] == user[0]);
    assert(trimmed_start(line) == line);
    assert(line.last() == 't');
    assert(trimmed_end(line) == line);
    lemma_word_len(line, n as nat);
    let rest = line.skip(n);
    assert(rest[0] == ' ');
    assert(word_len(rest) == 0);
    let last = rest.skip(1);
    assert(last =~= "permit"@);
    lemma_word_len(last, 6);
    assert(words(last) =~= seq!["permit"@]);
    assert(words(rest) == words(last));
    assert(line.take(n) =~= user);
    assert(words(line) =~= seq![user, "permit"@]);
    assert(line_meaning(line) == LineView::Entry((user, PermitType::Password)));
    let one = seq![line];
    reveal_with_fuel(entries_of, 2);
    reveal_with_fuel(complaints_of, 2);
    assert(entries_of(one) =~= seq![(user, PermitType::Password)]);
    assert(complaints_of(one) =~= Seq::<Seq<char>>::empty());
}

/// The words of a line, and how it begins once it is trimmed.
proof fn lemma_line_parts(before: Seq<char>, user: Seq<char>, rest: Seq<char>)
    requires
        blank(before),
        is_word(user),
        rest.len() > 0 ==> whitespace(rest[0]),
    ensures
        ({
            let line = before + user + rest;
            &&& words(trimmed(line)) == seq![user] + words(rest)
            &&& trimmed(line).len() > 0
            &&& trimmed(line)[0] == user[0]
        }),
{
    let line = before + user + rest;
    lemma_words_of_trimmed(line);
    lemma_words_are_the_pieces(before, user, rest);
    let (a, b) = lemma_trimmed_parts(line);
    let t = trimmed(line);
    let n = before.len() as int;
    assert(line[n] == user[0]);
    if a.len() > n {
        assert(a[n] == line[n]);
    }
    if t.len() == 0 {
        assert(line =~= a + b);
        assert(b[n - a.len()] == line[n]);
    } else {
        assert(line[a.len() as int] == t[0]);
        if a.len() < n {
            assert(line[a.len() as int] == before[a.len() as int]);
        }
    }
}

proof fn lemma_keywords()
    ensures
        is_word("permit"@),
        is_word("nopass"@),
        is_word("extend"@),
        "nopass"@ != "extend"@,
        "#"@ == seq!['#'],
{
    reveal_strlit("permit");
    reveal_strlit("nopass");
    reveal_strlit("extend");
    reveal_strlit("#");
    assert("nopass"@[0] != "extend"@[0]);
    assert("#"@ =~= seq!['#']);
}

/// Blank lines say nothing, and nor do lines whose first character that is not
/// white space is `#`, whatever follows it.
pub proof fn lemma_comment_lines(gap: Seq<char>, rest: Seq<char>)
    requires
        blank(gap),
    ensures
        line_meaning(gap) == LineView::Ignored,
        line_meaning(gap + seq!['#'] + rest) == LineView::Ignored,
{
    let none = Seq::<char>::empty();
    lemma_trimming(gap, none, none);
    assert(gap + none + none =~= gap);
    let line = gap + seq!['#'] + rest;
    let n = word_len(seq!['#'] + rest) as int;
    let word = (seq!['#'] + rest).take(n);
    let tail = (seq!['#'] + rest).skip(n);
    lemma_first_word(seq!['#'] + rest);
    assert(line =~= gap + word + tail);
    assert(word[0] == '#');
    lemma_line_parts(gap, word, tail);
}

/// A text that does not begin with white space begins with a word.
proof fn lemma_first_word(s: Seq<char>)
    requires
        s.len() > 0,
        !whitespace(s[0]),
    ensures
        0 < word_len(s) <= s.len(),
        is_word(s.take(word_len(s) as int)),
        word_len(s) < s.len() ==> whitespace(s[word_len(s) as int]),
        words(s) == seq![s.take(word_len(s) as int)] + words(s.skip(word_len(s) as int)),
    decreases s.len(),
{
    let n = word_len(s) as int;
    lemma_word_end(s);
    let word = s.take(n);
    assert forall|k: int| 0 <= k < word.len() implies !whitespace(#[trigger] word[k]) by {
        lemma_word_holds_none(s, k);
    }
    let none = Seq::<char>::empty();
    lemma_words_are_the_pieces(none, word, s.skip(n));
    assert(none + word + s.skip(n) =~= s);
}

/// A user, white space and `permit` are an entry that asks for a password, with
/// any white space between, before and after them.
pub proof fn lemma_entries_with_a_password(
    before: Seq<char>,
    user: Seq<char>,
    gap: Seq<char>,
    after: Seq<char>,
)
    requires
        blank(before),
        is_word(user),
        user[0] != '#',
        gap.len() > 0,
        blank(gap),
        blank(after),
    ensures
        line_meaning(before + user + gap + "permit"@ + after) == LineView::Entry(
            (user, PermitType::Password),
        ),
{
    let rest = gap + "permit"@ + after;
    lemma_keywords();
    lemma_words_are_the_pieces(gap, "permit"@, after);
    lemma_words_are_the_pieces(after, after, after);
    assert(rest[0] == gap[0]);
    lemma_line_parts(before, user, rest);
    assert(before + user + rest =~= before + user + gap + "permit"@ + after);
    assert(seq![user] + (seq!["permit"@] + words(after)) =~= seq![user, "permit"@]);
}

/// The words of a line of the form of an entry with a third word.
proof fn lemma_third_word(
    before: Seq<char>,
    user: Seq<char>,
    gap: Seq<char>,
    second_gap: Seq<char>,
    third: Seq<char>,
    rest: Seq<char>,
)
    requires
        blank(before),
        is_word(user),
        gap.len() > 0,
        blank(gap),
        second_gap.len() > 0,
        blank(second_gap),
        is_word(third),
        rest.len() > 0 ==> whitespace(rest[0]),
    ensures
        ({
            let line = before + user + gap + "permit"@ + second_gap + third + rest;
            &&& words(trimmed(line)) == seq![user, "permit"@, third] + words(rest)
            &&& trimmed(line).len() > 0
            &&& trimmed(line)[0] == user[0]
        }),
{
    lemma_keywords();
    let behind = second_gap + third + rest;
    let tail = gap + "permit"@ + behind;
    assert(behind[0] == second_gap[0]);
    assert(tail[0] == gap[0]);
    lemma_words_are_the_pieces(second_gap, third, rest);
    lemma_words_are_the_pieces(gap, "permit"@, behind);
    lemma_line_parts(before, user, tail);
    assert(before + user + tail =~= before + user + gap + "permit"@ + second_gap + third + rest);
    assert(seq![user] + (seq!["permit"@] + (seq![third] + words(rest))) =~= seq![
        user,
        "permit"@,
        third,
    ] + words(rest));
}

/// A user, `permit` and `nopass` or `extend` are an entry of that level, with any
/// white space between, before and after them.
pub proof fn lemma_entries_with_a_level(
    before: Seq<char>,
    user: Seq<char>,
    gap: Seq<char>,
    second_gap: Seq<char>,
    after: Seq<char>,
)
    requires
        blank(before),
        is_word(user),
        user[0] != '#',
        gap.len() > 0,
        blank(gap),
        second_gap.len() > 0,
        blank(second_gap),
        blank(after),
    ensures
        line_meaning(before + user + gap + "permit"@ + second_gap + "nopass"@ + after)
            == LineView::Entry((user, PermitType::NoPass)),
        line_meaning(before + user + gap + "permit"@ + second_gap + "extend"@ + after)
            == LineView::Entry((user, PermitType::Extend)),
{
    lemma_keywords();
    lemma_words_are_the_pieces(after, after, after);
    lemma_third_word(before, user, gap, second_gap, "nopass"@, after);
    lemma_third_word(before, user, gap, second_gap, "extend"@, after);
}

/// A comment behind the level makes no difference to an entry, whatever it says.
pub proof fn lemma_comments_behind_a_level(
    before: Seq<char>,
    user: Seq<char>,
    gap: Seq<char>,
    second_gap: Seq<char>,
    third_gap: Seq<char>,
    comment: Seq<char>,
)
    requires
        blank(before),
        is_word(user),
        user[0] != '#',
        gap.len() > 0,
        blank(gap),
        second_gap.len() > 0,
        blank(second_gap),
        third_gap.len() > 0,
        blank(third_gap),
    ensures
        line_meaning(
            before + user + gap + "permit"@ + second_gap + "nopass"@ + (third_gap + seq!['#']
                + comment),
        ) == LineView::Entry((user, PermitType::NoPass)),
        line_meaning(
            before + user + gap + "permit"@ + second_gap + "extend"@ + (third_gap + seq!['#']
                + comment),
        ) == LineView::Entry((user, PermitType::Extend)),
{
    lemma_keywords();
    let rest = third_gap + seq!['#'] + comment;
    lemma_fourth_word(third_gap, seq!['#'] + comment);
    assert(third_gap + (seq!['#'] + comment) =~= rest);
    assert(rest[0] == third_gap[0]);
    lemma_third_word(before, user, gap, second_gap, "nopass"@, rest);
    lemma_third_word(before, user, gap, second_gap, "extend"@, rest);
}

/// A text behind white space begins with a word that begins as the text does.
proof fn lemma_fourth_word(gap: Seq<char>, s: Seq<char>)
    requires
        blank(gap),
        s.len() > 0,
        !whitespace(s[0]),
    ensures
        words(gap + s).len() > 0,
        words(gap + s)[0].len() > 0,
        words(gap + s)[0][0] == s[0],
        begins_with(words(gap + s)[0], "#"@) <==> s[0] == '#',
{
    lemma_keywords();
    lemma_words_are_the_pieces(gap, gap, s);
    lemma_first_word(s);
    let w = words(gap + s)[0];
    assert(w.take(1) =~= seq![w[0]]);
    if begins_with(w, "#"@) {
        assert(w.take(1)[0] == '#');
    }
}

/// A third word that is no level is complained about by name, whatever follows.
pub proof fn lemma_unknown_levels(
    before: Seq<char>,
    user: Seq<char>,
    gap: Seq<char>,
    second_gap: Seq<char>,
    third: Seq<char>,
    rest: Seq<char>,
)
    requires
        blank(before),
        is_word(user),
        user[0] != '#',
        gap.len() > 0,
        blank(gap),
        second_gap.len() > 0,
        blank(second_gap),
        is_word(third),
        third != "nopass"@,
        third != "extend"@,
        rest.len() > 0 ==> whitespace(rest[0]),
    ensures
        line_meaning(before + user + gap + "permit"@ + second_gap + third + rest)
            == LineView::Rejected(
            "doit: config: unknown permit type '"@ + third + "' for user '"@ + user + "'"@,
        ),
{
    lemma_keywords();
    lemma_third_word(before, user, gap, second_gap, third, rest);
}

/// A line of one word is complained about by that word.
pub proof fn lemma_single_words(before: Seq<char>, word: Seq<char>, after: Seq<char>)
    requires
        blank(before),
        is_word(word),
        word[0] != '#',
        blank(after),
    ensures
        line_meaning(before + word + after) == LineView::Rejected(
            "doit: config: malformed line (expected '<user> permit [nopass|extend]'): "@ + word,
        ),
{
    lemma_line_parts(before, word, after);
    lemma_words_are_the_pieces(after, after, after);
    assert(seq![word] + words(after) =~= seq![word]);
    assert(!whitespace(word[0]) && !whitespace(word[word.len() - 1]));
    lemma_trimming(before, word, after);
}

/// A line is complained about in full where more than a comment stands behind the
/// level.
pub proof fn lemma_malformed_lines(
    before: Seq<char>,
    user: Seq<char>,
    gap: Seq<char>,
    second_gap: Seq<char>,
    third_gap: Seq<char>,
    rest: Seq<char>,
)
    requires
        blank(before),
        is_word(user),
        user[0] != '#',
        gap.len() > 0,
        blank(gap),
        second_gap.len() > 0,
        blank(second_gap),
        third_gap.len() > 0,
        blank(third_gap),
        rest.len() > 0,
        !whitespace(rest[0]),
        rest[0] != '#',
    ensures
        ({
            let line = before + user + gap + "permit"@ + second_gap + "nopass"@ + (third_gap
                + rest);
            line_meaning(line) == LineView::Rejected(
                "doit: config: malformed line (expected '<user> permit [nopass|extend]'): "@
                    + trimmed(line),
            )
        }),
        ({
            let line = before + user + gap + "permit"@ + second_gap + "extend"@ + (third_gap
                + rest);
            line_meaning(line) == LineView::Rejected(
                "doit: config: malformed line (expected '<user> permit [nopass|extend]'): "@
                    + trimmed(line),
            )
        }),
{
    lemma_keywords();
    lemma_fourth_word(third_gap, rest);
    assert((third_gap + rest)[0] == third_gap[0]);
    lemma_third_word(before, user, gap, second_gap, "nopass"@, third_gap + rest);
    lemma_third_word(before, user, gap, second_gap, "extend"@, third_gap + rest);
}

/// A line whose second word is not `permit` is complained about in full, whatever
/// follows.
pub proof fn lemma_lines_without_permit(
    before: Seq<char>,
    user: Seq<char>,
    gap: Seq<char>,
    second: Seq<char>,
    rest: Seq<char>,
)
    requires
        blank(before),
        is_word(user),
        user[0] != '#',
        gap.len() > 0,
        blank(gap),
        is_word(second),
        second != "permit"@,
        rest.len() > 0 ==> whitespace(rest[0]),
    ensures
        line_meaning(before + user + gap + second + rest) == LineView::Rejected(
            "doit: config: malformed line (expected '<user> permit [nopass|extend]'): "@ + trimmed(
                before + user + gap + second + rest,
            ),
        ),
{
    let tail = gap + second + rest;
    lemma_words_are_the_pieces(gap, second, rest);
    assert(tail[0] == gap[0]);
    lemma_line_parts(before, user, tail);
    assert(before + user + tail =~= before + user + gap + second + rest);
    assert((seq![user] + (seq![second] + words(rest)))[1] == second);
}

/// A line by itself: an entry is one entry and no complaint, a line that is
/// rejected is one complaint and no entry, any other line is neither. A file
/// without lines holds nothing.
pub proof fn lemma_one_line(line: Seq<char>)
    ensures
        entries_of(Seq::empty()) == Seq::<(Seq<char>, PermitType)>::empty(),
        complaints_of(Seq::empty()) == Seq::<Seq<char>>::empty(),
        line_meaning(line) matches LineView::Entry(e) ==> entries_of(seq![line]) == seq![e]
            && complaints_of(seq![line]) == Seq::<Seq<char>>::empty(),
        line_meaning(line) matches LineView::Rejected(m) ==> entries_of(seq![line]) == Seq::<
            (Seq<char>, PermitType),
        >::empty() && complaints_of(seq![line]) == seq![m],
        line_meaning(line) == LineView::Ignored ==> entries_of(seq![line]) == Seq::<
            (Seq<char>, PermitType),
        >::empty() && complaints_of(seq![line]) == Seq::<Seq<char>>::empty(),
{
    let one = seq![line];
    assert(one.drop_last() =~= Seq::<Seq<char>>::empty());
    assert(one.last() == line);
    reveal_with_fuel(entries_of, 2);
    reveal_with_fuel(complaints_of, 2);
}

/// The level of a user is that of the first entry that names them.
pub proof fn lemma_level_of_the_first_entry(
    entries: Seq<(Seq<char>, PermitType)>,
    user: Seq<char>,
    i: int,
)
    requires
        0 <= i < entries.len(),
        entries[i].0 == user,
        forall|j: int| 0 <= j < i ==> (#[trigger] entries[j]).0 != user,
    ensures
        permit_of(entries, user) == Some(entries[i].1),
    decreases entries.len(),
{
    if i > 0 {
        assert(entries[0].0 != user);
        let rest = entries.skip(1);
        assert forall|j: int| 0 <= j < i - 1 implies (#[trigger] rest[j]).0 != user by {
            assert(rest[j] == entries[j + 1]);
        }
        lemma_level_of_the_first_entry(rest, user, i - 1);
    }
}

/// Whether a line is an entry for `user`.
pub open spec fn names(line: Seq<char>, user: Seq<char>) -> bool {
    line_meaning(line) matches LineView::Entry(e) && e.0 == user
}

proof fn lemma_lines_that_do_not_name(config_lines: Seq<Seq<char>>, user: Seq<char>)
    requires
        forall|j: int| 0 <= j < config_lines.len() ==> !names(#[trigger] config_lines[j], user),
    ensures
        permit_of(entries_of(config_lines), user) is None,
    decreases config_lines.len(),
{
    if config_lines.len() > 0 {
        let front = config_lines.drop_last();
        assert forall|j: int| 0 <= j < front.len() implies !names(#[trigger] front[j], user) by {
            assert(front[j] == config_lines[j]);
        }
        lemma_lines_that_do_not_name(front, user);
        let last = config_lines.last();
        assert(!names(config_lines[config_lines.len() - 1], user));
        if let LineView::Entry(e) = line_meaning(last) {
            assert(entries_of(config_lines) =~= entries_of(front) + seq![e]);
            lemma_first_entry_counts(entries_of(front), seq![e], user);
            reveal_with_fuel(permit_of, 2);
        }
    }
}

/// A file grants a user what its first line that is an entry for them says, and
/// nothing where no line is.
pub proof fn lemma_granted_by_the_first_line(config: Seq<char>, user: Seq<char>, i: int)
    ensures
        (forall|j: int|
            0 <= j < text_lines(config).len() ==> !names(#[trigger] text_lines(config)[j], user))
            ==> granted(config, user) is None,
        0 <= i < text_lines(config).len() && names(text_lines(config)[i], user) && (forall|j: int|
            0 <= j < i ==> !names(#[trigger] text_lines(config)[j], user)) ==> (line_meaning(
            text_lines(config)[i],
        ) matches LineView::Entry(e) && granted(config, user) == Some(e.1)),
{
    let all = text_lines(config);
    if forall|j: int| 0 <= j < all.len() ==> !names(#[trigger] all[j], user) {
        lemma_lines_that_do_not_name(all, user);
    }
    if 0 <= i < all.len() && names(all[i], user) && (forall|j: int|
        0 <= j < i ==> !names(#[trigger] all[j], user)) {
        let front = all.take(i);
        let one = seq![all[i]];
        let rest = all.skip(i + 1);
        assert forall|j: int| 0 <= j < front.len() implies !names(#[trigger] front[j], user) by {
            assert(front[j] == all[j]);
        }
        lemma_lines_that_do_not_name(front, user);
        assert(all =~= front + one + rest);
        lemma_lines_are_read_apart(front + one, rest);
        lemma_lines_are_read_apart(front, one);
        lemma_one_line(all[i]);
        lemma_first_entry_counts(entries_of(front + one), entries_of(rest), user);
        lemma_first_entry_counts(entries_of(front), entries_of(one), user);
        lemma_level_of_the_first_entry(entries_of(one), user, 0);
    }
}

/// Entries and lines stand for what they hold, one for one and in their order.
pub proof fn lemma_values_of_entries(entries: Seq<ConfigEntry>, i: int, e: ConfigEntry, m: String)
    ensures
        e@ == (e.user@, e.permit),
        entry_views(entries).len() == entries.len(),
        0 <= i < entries.len() ==> entry_views(entries)[i] == (entries[i].user@, entries[i].permit),
        ConfigLine::Ignored@ == LineView::Ignored,
        ConfigLine::Entry(e)@ == LineView::Entry((e.user@, e.permit)),
        ConfigLine::Rejected(m)@ == LineView::Rejected(m@),
{
}

/// The file that is made where there is none is one line: the user, a space and
/// `permit`.
pub proof fn lemma_default_file(user: Seq<char>)
    requires
        !user.contains('\n'),
    ensures
        sole_entry(user) == user + " permit\n"@,
        text_lines(sole_entry(user)) == seq![user + " permit"@],
{
    reveal_strlit(" permit\n");
    reveal_strlit(" permit");
    let line = user + " permit"@;
    let none = Seq::<char>::empty();
    assert(!line.contains('\n')) by {
        if line.contains('\n') {
            let k = choose|k: int| 0 <= k < line.len() && line[k] == '\n';
            if k < user.len() {
                assert(user[k] == '\n');
            }
        }
    }
    assert(line.last() == 't');
    lemma_lines_are_the_pieces(line, none);
    assert(line.push('\n') + none =~= sole_entry(user));
    assert(seq![line] + text_lines(none) =~= seq![line]);
}

} // verus!
