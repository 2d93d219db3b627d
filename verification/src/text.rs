//! Plain text: lines, fields, words and numerals.
//!
//! A string is modelled by the sequence of its characters. The functions here
//! cut strings as the configuration file and the shadow file need it, and
//! write numbers for messages.
use vstd::prelude::*;

verus! {

/// The texts that a sequence of string slices holds.
pub open spec fn views(v: Seq<&str>) -> Seq<Seq<char>> {
    Seq::new(v.len(), |i: int| v[i]@)
}

/// The texts that a sequence of strings holds.
pub open spec fn texts(v: Seq<String>) -> Seq<Seq<char>> {
    Seq::new(v.len(), |i: int| v[i]@)
}

/// Whether `c` has the Unicode property `White_Space`.
pub open spec fn whitespace(c: char) -> bool {
    ||| '\u{9}' <= c <= '\u{d}'
    ||| c == '\u{20}'
    ||| c == '\u{85}'
    ||| c == '\u{a0}'
    ||| c == '\u{1680}'
    ||| '\u{2000}' <= c <= '\u{200a}'
    ||| c == '\u{2028}'
    ||| c == '\u{2029}'
    ||| c == '\u{202f}'
    ||| c == '\u{205f}'
    ||| c == '\u{3000}'
}

/// How many characters of `s` stand before the first `sep`, or all of them
/// where there is none.
pub open spec fn head_len(s: Seq<char>, sep: char) -> nat
    decreases s.len(),
{
    if s.len() == 0 || s[0] == sep {
        0
    } else {
        1 + head_len(s.skip(1), sep)
    }
}

/// The pieces of `s` between the separators: one more than there are separators.
pub open spec fn fields(s: Seq<char>, sep: char) -> Seq<Seq<char>>
    decreases s.len(),
{
    let n = head_len(s, sep);
    if n >= s.len() {
        seq![s]
    } else {
        seq![s.take(n as int)] + fields(s.skip((n + 1) as int), sep)
    }
}

/// `s` without one carriage return at its end.
pub open spec fn without_cr(s: Seq<char>) -> Seq<char> {
    if s.len() > 0 && s.last() == '\r' {
        s.drop_last()
    } else {
        s
    }
}

/// The lines of `s`. A line ends in a newline, or in a carriage return and a
/// newline; the last line needs no ending.
pub open spec fn text_lines(s: Seq<char>) -> Seq<Seq<char>>
    decreases s.len(),
{
    let n = head_len(s, '\n');
    if s.len() == 0 {
        seq![]
    } else if n >= s.len() {
        seq![s]
    } else {
        seq![without_cr(s.take(n as int))] + text_lines(s.skip((n + 1) as int))
    }
}

/// How many characters of `s` stand before the first white space.
pub open spec fn word_len(s: Seq<char>) -> nat
    decreases s.len(),
{
    if s.len() == 0 || whitespace(s[0]) {
        0
    } else {
        1 + word_len(s.skip(1))
    }
}

/// The longest runs of characters in `s` that hold no white space.
pub open spec fn words(s: Seq<char>) -> Seq<Seq<char>>
    decreases s.len(),
{
    let n = word_len(s);
    if s.len() == 0 {
        seq![]
    } else if n == 0 {
        words(s.skip(1))
    } else if n >= s.len() {
        seq![s]
    } else {
        seq![s.take(n as int)] + words(s.skip(n as int))
    }
}

/// `s` without the white space at its start.
pub open spec fn trimmed_start(s: Seq<char>) -> Seq<char>
    decreases s.len(),
{
    if s.len() > 0 && whitespace(s[0]) {
        trimmed_start(s.skip(1))
    } else {
        s
    }
}

/// `s` without the white space at its end.
pub open spec fn trimmed_end(s: Seq<char>) -> Seq<char>
    decreases s.len(),
{
    if s.len() > 0 && whitespace(s.last()) {
        trimmed_end(s.drop_last())
    } else {
        s
    }
}

/// `s` without the white space at either end.
pub open spec fn trimmed(s: Seq<char>) -> Seq<char> {
    trimmed_end(trimmed_start(s))
}

/// Whether `s` begins with `prefix`.
pub open spec fn begins_with(s: Seq<char>, prefix: Seq<char>) -> bool {
    prefix.len() <= s.len() && s.take(prefix.len() as int) == prefix
}

/// The numeral of a digit below ten.
pub open spec fn digit(d: nat) -> Seq<char> {
    if d == 0 {
        "0"@
    } else if d == 1 {
        "1"@
    } else if d == 2 {
        "2"@
    } else if d == 3 {
        "3"@
    } else if d == 4 {
        "4"@
    } else if d == 5 {
        "5"@
    } else if d == 6 {
        "6"@
    } else if d == 7 {
        "7"@
    } else if d == 8 {
        "8"@
    } else {
        "9"@
    }
}

/// `n` in decimal, without leading zeros.
pub open spec fn decimal(n: nat) -> Seq<char>
    decreases n,
{
    if n < 10 {
        digit(n)
    } else {
        decimal(n / 10) + digit(n % 10)
    }
}

/// The lowest nine bits of `mode` as three octal digits.
pub open spec fn octal3(mode: nat) -> Seq<char> {
    digit(mode / 64 % 8) + digit(mode / 8 % 8) + digit(mode % 8)
}

/// `head_len` is where the first separator stands.
pub proof fn lemma_head_len(s: Seq<char>, sep: char, n: nat)
    requires
        n <= s.len(),
        forall|k: int| 0 <= k < n ==> s[k] != sep,
        n < s.len() ==> s[n as int] == sep,
    ensures
        head_len(s, sep) == n,
    decreases n,
{
    if n > 0 {
        let t = s.skip(1);
        assert forall|k: int| 0 <= k < n - 1 implies t[k] != sep by {
            assert(t[k] == s[k + 1]);
        }
        lemma_head_len(t, sep, (n - 1) as nat);
    }
}

/// `word_len` is where the first white space stands.
pub proof fn lemma_word_len(s: Seq<char>, n: nat)
    requires
        n <= s.len(),
        forall|k: int| 0 <= k < n ==> !whitespace(#[trigger] s[k]),
        n < s.len() ==> whitespace(s[n as int]),
    ensures
        word_len(s) == n,
    decreases n,
{
    if n > 0 {
        let t = s.skip(1);
        assert forall|k: int| 0 <= k < n - 1 implies !whitespace(#[trigger] t[k]) by {
            assert(t[k] == s[k + 1]);
        }
        lemma_word_len(t, (n - 1) as nat);
    }
}

/// Whether two strings hold the same characters.
pub fn same(a: &str, b: &str) -> (r: bool)
    ensures
        r == (a@ == b@),
{
    a.to_owned() == b.to_owned()
}

/// The characters of a string.
pub fn chars_of(s: &str) -> (r: Vec<char>)
    ensures
        r@ == s@,
{
    let mut v: Vec<char> = Vec::new();
    for c in it: s.chars()
        invariant
            v@ == it.seq().take(it.index() as int),
            it.seq() == s@,
    {
        v.push(c);
    }
    v
}

/// Whether `c` is white space.
pub fn is_whitespace(c: char) -> (r: bool)
    ensures
        r == whitespace(c),
{
    ('\u{9}' <= c && c <= '\u{d}') || c == '\u{20}' || c == '\u{85}' || c == '\u{a0}' || c
        == '\u{1680}' || ('\u{2000}' <= c && c <= '\u{200a}') || c == '\u{2028}' || c == '\u{2029}'
        || c == '\u{202f}' || c == '\u{205f}' || c == '\u{3000}'
}

/// Whether `s` begins with `prefix`.
pub fn starts_with(s: &str, prefix: &str) -> (r: bool)
    ensures
        r == begins_with(s@, prefix@),
{
    let a = chars_of(s);
    let b = chars_of(prefix);
    if b.len() > a.len() {
        return false;
    }
    let mut i: usize = 0;
    while i < b.len()
        invariant
            a@ == s@,
            b@ == prefix@,
            i <= b.len() <= a.len(),
            forall|k: int| 0 <= k < i ==> a@[k] == b@[k],
        decreases b.len() - i,
    {
        if a[i] != b[i] {
            assert(s@.take(prefix@.len() as int)[i as int] == a@[i as int]);
            return false;
        }
        i += 1;
    }
    assert(s@.take(prefix@.len() as int) =~= prefix@);
    true
}

/// Where the first `sep` at or after `start` stands, or the end.
fn find(c: &Vec<char>, start: usize, sep: char) -> (end: usize)
    requires
        start <= c.len(),
    ensures
        start <= end <= c.len(),
        end - start == head_len(c@.skip(start as int), sep),
        end < c.len() ==> c@[end as int] == sep,
{
    let mut end: usize = start;
    while end < c.len() && c[end] != sep
        invariant
            start <= end <= c.len(),
            forall|k: int| start <= k < end ==> c@[k] != sep,
        decreases c.len() - end,
    {
        end += 1;
    }
    proof {
        lemma_head_len(c@.skip(start as int), sep, (end - start) as nat);
    }
    end
}

/// Cuts `s` at every `sep`.
pub fn split<'a>(s: &'a str, sep: char) -> (r: Vec<&'a str>)
    ensures
        views(r@) == fields(s@, sep),
{
    let c = chars_of(s);
    let mut out: Vec<&'a str> = Vec::new();
    let mut start: usize = 0;
    proof {
        assert(c@.skip(0) =~= c@);
        assert(views(out@) =~= seq![]);
    }
    loop
        invariant
            c@ == s@,
            start <= c.len(),
            views(out@) + fields(c@.skip(start as int), sep) == fields(s@, sep),
        decreases c.len() - start,
    {
        let end = find(&c, start, sep);
        let ghost rest = c@.skip(start as int);
        let piece = s.substring_char(start, end);
        let ghost before = out@;
        out.push(piece);
        proof {
            assert(views(out@) =~= views(before).push(piece@));
            assert(piece@ =~= rest.take(end - start));
        }
        if end == c.len() {
            proof {
                assert(piece@ =~= rest);
                assert(views(out@) =~= fields(s@, sep));
            }
            return out;
        }
        proof {
            assert(rest.skip(end - start + 1) =~= c@.skip(end + 1));
            assert(views(out@) + fields(c@.skip(end + 1), sep) =~= views(before) + fields(
                rest,
                sep,
            ));
        }
        start = end + 1;
    }
}

/// The lines of `s`.
pub fn lines<'a>(s: &'a str) -> (r: Vec<&'a str>)
    ensures
        views(r@) == text_lines(s@),
{
    let c = chars_of(s);
    let mut out: Vec<&'a str> = Vec::new();
    let mut start: usize = 0;
    proof {
        assert(c@.skip(0) =~= c@);
        assert(views(out@) =~= seq![]);
        assert(views(out@) + text_lines(c@.skip(0)) =~= text_lines(s@));
    }
    while start < c.len()
        invariant
            c@ == s@,
            start <= c.len(),
            views(out@) + text_lines(c@.skip(start as int)) == text_lines(s@),
        decreases c.len() - start,
    {
        let end = find(&c, start, '\n');
        let ghost rest = c@.skip(start as int);
        let ghost before = out@;
        if end == c.len() {
            let piece = s.substring_char(start, end);
            out.push(piece);
            proof {
                assert(views(out@) =~= views(before).push(piece@));
                assert(piece@ =~= rest);
                assert(views(out@) =~= text_lines(s@));
            }
            return out;
        }
        let stop: usize = if end > start && c[end - 1] == '\r' {
            end - 1
        } else {
            end
        };
        let piece = s.substring_char(start, stop);
        out.push(piece);
        proof {
            assert(views(out@) =~= views(before).push(piece@));
            assert(piece@ =~= without_cr(rest.take(end - start)));
            assert(rest.skip(end - start + 1) =~= c@.skip(end + 1));
            assert(views(out@) + text_lines(c@.skip(end + 1)) =~= views(before) + text_lines(rest));
        }
        start = end + 1;
    }
    proof {
        assert(views(out@) =~= text_lines(s@));
    }
    out
}

/// The words of `s`.
pub fn split_whitespace<'a>(s: &'a str) -> (r: Vec<&'a str>)
    ensures
        views(r@) == words(s@),
{
    let c = chars_of(s);
    let mut out: Vec<&'a str> = Vec::new();
    let mut start: usize = 0;
    proof {
        assert(c@.skip(0) =~= c@);
        assert(views(out@) + words(c@.skip(0)) =~= words(s@));
    }
    while start < c.len()
        invariant
            c@ == s@,
            start <= c.len(),
            views(out@) + words(c@.skip(start as int)) == words(s@),
        decreases c.len() - start,
    {
        let ghost rest = c@.skip(start as int);
        let ghost before = out@;
        let mut end: usize = start;
        while end < c.len() && !is_whitespace(c[end])
            invariant
                start <= end <= c.len(),
                forall|k: int| start <= k < end ==> !whitespace(#[trigger] c@[k]),
            decreases c.len() - end,
        {
            end += 1;
        }
        proof {
            lemma_word_len(rest, (end - start) as nat);
        }
        if end == start {
            proof {
                assert(rest.skip(1) =~= c@.skip(start + 1));
            }
            start += 1;
        } else {
            let piece = s.substring_char(start, end);
            out.push(piece);
            proof {
                assert(views(out@) =~= views(before).push(piece@));
                assert(piece@ =~= rest.take(end - start));
                assert(rest.skip(end - start) =~= c@.skip(end as int));
                if end == c.len() {
                    assert(piece@ =~= rest);
                }
                assert(views(out@) + words(c@.skip(end as int)) =~= views(before) + words(rest));
            }
            start = end;
        }
    }
    proof {
        assert(views(out@) =~= words(s@));
    }
    out
}

/// `s` without the white space at either end.
pub fn trim<'a>(s: &'a str) -> (r: &'a str)
    ensures
        r@ == trimmed(s@),
{
    let c = chars_of(s);
    let mut from: usize = 0;
    proof {
        assert(c@.skip(0) =~= c@);
    }
    while from < c.len() && is_whitespace(c[from])
        invariant
            from <= c.len(),
            trimmed_start(c@.skip(from as int)) == trimmed_start(c@),
        decreases c.len() - from,
    {
        proof {
            assert(c@.skip(from as int).skip(1) =~= c@.skip(from + 1));
        }
        from += 1;
    }
    let mut to: usize = c.len();
    proof {
        assert(c@.subrange(from as int, to as int) =~= c@.skip(from as int));
    }
    while to > from && is_whitespace(c[to - 1])
        invariant
            from <= to <= c.len(),
            trimmed_end(c@.subrange(from as int, to as int)) == trimmed(c@),
        decreases to,
    {
        proof {
            assert(c@.subrange(from as int, to as int).drop_last() =~= c@.subrange(
                from as int,
                to - 1,
            ));
        }
        to -= 1;
    }
    s.substring_char(from, to)
}

/// The numeral of a digit below ten.
fn digit_text(d: u64) -> (r: &'static str)
    requires
        d < 10,
    ensures
        r@ == digit(d as nat),
{
    match d {
        0 => "0",
        1 => "1",
        2 => "2",
        3 => "3",
        4 => "4",
        5 => "5",
        6 => "6",
        7 => "7",
        8 => "8",
        _ => "9",
    }
}

/// Writes `n` in decimal.
pub fn to_decimal(n: u64) -> (r: String)
    ensures
        r@ == decimal(n as nat),
    decreases n,
{
    if n < 10 {
        digit_text(n).to_owned()
    } else {
        to_decimal(n / 10).concat(digit_text(n % 10))
    }
}

/// Writes the lowest nine bits of `mode` as three octal digits.
pub fn to_octal3(mode: u32) -> (r: String)
    ensures
        r@ == octal3(mode as nat),
{
    let m: u64 = mode as u64;
    digit_text(m / 64 % 8).to_owned().concat(digit_text(m / 8 % 8)).concat(digit_text(m % 8))
}

/// The first separator, if there is one, stands behind the head.
pub proof fn lemma_head_end(s: Seq<char>, sep: char)
    ensures
        head_len(s, sep) <= s.len(),
        head_len(s, sep) < s.len() ==> s[head_len(s, sep) as int] == sep,
    decreases s.len(),
{
    if s.len() > 0 && s[0] != sep {
        lemma_head_end(s.skip(1), sep);
    }
}

/// No separator stands in the head.
pub proof fn lemma_head_holds_none(s: Seq<char>, sep: char, k: int)
    requires
        0 <= k < head_len(s, sep),
    ensures
        k < s.len(),
        s[k] != sep,
    decreases s.len(),
{
    lemma_head_end(s, sep);
    if k > 0 {
        lemma_head_holds_none(s.skip(1), sep, k - 1);
    }
}

/// The lines of two texts, the first of which is empty or ends in a newline, are
/// the lines of the one and then those of the other.
pub proof fn lemma_lines_add_up(a: Seq<char>, b: Seq<char>)
    requires
        a.len() == 0 || a.last() == '\n',
    ensures
        text_lines(a + b) == text_lines(a) + text_lines(b),
    decreases a.len(),
{
    if a.len() == 0 {
        assert(a + b =~= b);
        assert(text_lines(a) + text_lines(b) =~= text_lines(b));
    } else {
        let n = head_len(a, '\n') as int;
        lemma_head_end(a, '\n');
        if n >= a.len() {
            lemma_head_holds_none(a, '\n', a.len() - 1);
        }
        assert forall|k: int| 0 <= k < n implies (a + b)[k] != '\n' by {
            lemma_head_holds_none(a, '\n', k);
        }
        lemma_head_len(a + b, '\n', n as nat);
        let rest = a.skip(n + 1);
        assert((a + b).take(n) =~= a.take(n));
        assert((a + b).skip(n + 1) =~= rest + b);
        lemma_lines_add_up(rest, b);
        assert(text_lines(a + b) =~= text_lines(a) + text_lines(b));
    }
}

/// Every character of a text is a separator or stands in one of the fields.
pub proof fn lemma_fields_hold_all(s: Seq<char>, sep: char, i: int)
    requires
        0 <= i < s.len(),
        s[i] != sep,
    ensures
        exists|f: int, k: int|
            0 <= f < fields(s, sep).len() && 0 <= k < fields(s, sep)[f].len()
                && #[trigger] fields(s, sep)[f][k] == s[i],
    decreases s.len(),
{
    let n = head_len(s, sep) as int;
    let all = fields(s, sep);
    lemma_head_end(s, sep);
    if n >= s.len() {
        assert(all[0][i] == s[i]);
    } else if i < n {
        assert(all[0] == s.take(n));
        assert(all[0][i] == s[i]);
    } else {
        let rest = s.skip(n + 1);
        lemma_fields_hold_all(rest, sep, i - n - 1);
        let (f, k) = choose|f: int, k: int|
            0 <= f < fields(rest, sep).len() && 0 <= k < fields(rest, sep)[f].len()
                && #[trigger] fields(rest, sep)[f][k] == rest[i - n - 1];
        assert(all[f + 1] == fields(rest, sep)[f]);
        assert(all[f + 1][k] == s[i]);
    }
}

/// A text without separator is one field, and a text that goes on behind a
/// separator has its first piece as a field before those of the rest.
pub proof fn lemma_fields_are_the_pieces(piece: Seq<char>, rest: Seq<char>, sep: char)
    requires
        !piece.contains(sep),
    ensures
        fields(piece, sep) == seq![piece],
        fields(piece.push(sep) + rest, sep) == seq![piece] + fields(rest, sep),
{
    let n = piece.len();
    let s = piece.push(sep) + rest;
    assert forall|k: int| 0 <= k < n implies piece[k] != sep && s[k] != sep by {
        assert(piece.contains(piece[k]));
        assert(s[k] == piece[k]);
    }
    lemma_head_len(piece, sep, n);
    assert(s[n as int] == sep);
    lemma_head_len(s, sep, n);
    assert(s.take(n as int) =~= piece);
    assert(s.skip((n + 1) as int) =~= rest);
}

/// A text has no lines where it is empty; the piece before a newline is a line,
/// without the one carriage return that may stand before the newline; and what
/// stands behind the last newline is a line as it is.
pub proof fn lemma_lines_are_the_pieces(piece: Seq<char>, rest: Seq<char>)
    requires
        !piece.contains('\n'),
    ensures
        text_lines(Seq::empty()) == Seq::<Seq<char>>::empty(),
        piece.len() > 0 ==> text_lines(piece) == seq![piece],
        text_lines(piece.push('\r').push('\n') + rest) == seq![piece] + text_lines(rest),
        piece.len() == 0 || piece.last() != '\r' ==> text_lines(piece.push('\n') + rest) == seq![
            piece,
        ] + text_lines(rest),
{
    let n = piece.len();
    assert forall|k: int| 0 <= k < n implies piece[k] != '\n' by {
        assert(piece.contains(piece[k]));
    }
    lemma_head_len(piece, '\n', n);
    let s = piece.push('\n') + rest;
    assert forall|k: int| 0 <= k < n implies s[k] != '\n' by {
        assert(s[k] == piece[k]);
    }
    lemma_head_len(s, '\n', n);
    assert(s.take(n as int) =~= piece);
    assert(s.skip((n + 1) as int) =~= rest);
    let t = piece.push('\r').push('\n') + rest;
    assert forall|k: int| 0 <= k < n + 1 implies t[k] != '\n' by {
        if k < n {
            assert(t[k] == piece[k]);
        }
    }
    lemma_head_len(t, '\n', n + 1);
    assert(t.take((n + 1) as int) =~= piece.push('\r'));
    assert(piece.push('\r').drop_last() =~= piece);
    assert(t.skip((n + 2) as int) =~= rest);
}

/// Whether a text is made of white space alone.
pub open spec fn blank(s: Seq<char>) -> bool {
    forall|k: int| 0 <= k < s.len() ==> whitespace(#[trigger] s[k])
}

/// Whether a text is a word: not empty, and without white space.
pub open spec fn is_word(s: Seq<char>) -> bool {
    s.len() > 0 && forall|k: int| 0 <= k < s.len() ==> !whitespace(#[trigger] s[k])
}

/// White space before a text makes no difference to its words; a word that ends
/// there, or where white space follows, comes before the words of the rest.
pub proof fn lemma_words_are_the_pieces(gap: Seq<char>, word: Seq<char>, rest: Seq<char>)
    requires
        blank(gap),
    ensures
        words(gap) == Seq::<Seq<char>>::empty(),
        words(gap + rest) == words(rest),
        is_word(word) && (rest.len() == 0 || whitespace(rest[0])) ==> words(gap + word + rest)
            == seq![word] + words(rest),
    decreases gap.len(),
{
    let all = gap + word + rest;
    if gap.len() > 0 {
        let less = gap.skip(1);
        assert forall|k: int| 0 <= k < less.len() implies whitespace(#[trigger] less[k]) by {
            assert(less[k] == gap[k + 1]);
        }
        lemma_words_are_the_pieces(less, word, rest);
        assert((gap + rest).skip(1) =~= less + rest);
        assert(all.skip(1) =~= less + word + rest);
        assert(all[0] == gap[0] && (gap + rest)[0] == gap[0]);
    } else {
        assert(gap + rest =~= rest);
        assert(all =~= word + rest);
        if is_word(word) && (rest.len() == 0 || whitespace(rest[0])) {
            let n = word.len();
            assert forall|k: int| 0 <= k < n implies !whitespace(#[trigger] all[k]) by {
                assert(all[k] == word[k]);
            }
            if rest.len() > 0 {
                assert(all[n as int] == rest[0]);
            }
            lemma_word_len(all, n);
            assert(all.take(n as int) =~= word);
            assert(all.skip(n as int) =~= rest);
            if rest.len() == 0 {
                assert(all =~= word);
                assert(words(rest) =~= Seq::<Seq<char>>::empty());
                assert(seq![word] + words(rest) =~= seq![word]);
            }
        }
    }
}

proof fn lemma_trimmed_start(gap: Seq<char>, s: Seq<char>)
    requires
        blank(gap),
        s.len() > 0 ==> !whitespace(s[0]),
    ensures
        trimmed_start(gap + s) == s,
    decreases gap.len(),
{
    if gap.len() == 0 {
        assert(gap + s =~= s);
    } else {
        let less = gap.skip(1);
        assert forall|k: int| 0 <= k < less.len() implies whitespace(#[trigger] less[k]) by {
            assert(less[k] == gap[k + 1]);
        }
        assert((gap + s).skip(1) =~= less + s);
        assert((gap + s)[0] == gap[0]);
        lemma_trimmed_start(less, s);
    }
}

proof fn lemma_trimmed_end(s: Seq<char>, gap: Seq<char>)
    requires
        blank(gap),
        s.len() > 0 ==> !whitespace(s.last()),
    ensures
        trimmed_end(s + gap) == s,
    decreases gap.len(),
{
    if gap.len() == 0 {
        assert(s + gap =~= s);
    } else {
        let less = gap.drop_last();
        assert forall|k: int| 0 <= k < less.len() implies whitespace(#[trigger] less[k]) by {
            assert(less[k] == gap[k]);
        }
        assert((s + gap).drop_last() =~= s + less);
        assert((s + gap).last() == gap.last());
        assert(whitespace(gap[gap.len() - 1]));
        lemma_trimmed_end(s, less);
    }
}

/// Trimming takes away the white space at either end and nothing else.
pub proof fn lemma_trimming(before: Seq<char>, s: Seq<char>, after: Seq<char>)
    requires
        blank(before),
        blank(after),
        s.len() > 0 ==> !whitespace(s[0]) && !whitespace(s.last()),
    ensures
        trimmed(before + s + after) == s,
{
    if s.len() > 0 {
        lemma_trimmed_start(before, s + after);
        assert(before + (s + after) =~= before + s + after);
        lemma_trimmed_end(s, after);
    } else {
        let all = before + s + after;
        assert forall|k: int| 0 <= k < all.len() implies whitespace(#[trigger] all[k]) by {
            if k < before.len() {
                assert(all[k] == before[k]);
            } else {
                assert(all[k] == after[k - before.len()]);
            }
        }
        lemma_trimmed_start(all, s);
        assert(all + s =~= all);
        lemma_trimmed_end(s, s);
        assert(s + s =~= s);
    }
}

/// Every text is what trimming leaves of it, with white space at either end.
pub proof fn lemma_trimmed_parts(s: Seq<char>) -> (parts: (Seq<char>, Seq<char>))
    ensures
        blank(parts.0),
        blank(parts.1),
        s == parts.0 + trimmed(s) + parts.1,
        trimmed(s).len() > 0 ==> !whitespace(trimmed(s)[0]) && !whitespace(trimmed(s).last()),
    decreases s.len(),
{
    if s.len() > 0 && whitespace(s[0]) {
        let (a, b) = lemma_trimmed_parts(s.skip(1));
        let before = seq![s[0]] + a;
        assert forall|k: int| 0 <= k < before.len() implies whitespace(#[trigger] before[k]) by {
            if k > 0 {
                assert(before[k] == a[k - 1]);
            }
        }
        assert(s =~= seq![s[0]] + s.skip(1));
        assert(before + trimmed(s) + b =~= seq![s[0]] + (a + trimmed(s) + b));
        (before, b)
    } else if s.len() > 0 && whitespace(s.last()) {
        let front = s.drop_last();
        assert(front.len() > 0);
        assert(front[0] == s[0]);
        assert(trimmed_start(front) == front);
        assert(trimmed(front) == trimmed(s));
        let (a, b) = lemma_trimmed_parts(front);
        let after = b.push(s.last());
        assert forall|k: int| 0 <= k < after.len() implies whitespace(#[trigger] after[k]) by {
            if k < b.len() {
                assert(after[k] == b[k]);
            }
        }
        assert(s =~= front.push(s.last()));
        assert(a + trimmed(s) + after =~= (a + trimmed(s) + b).push(s.last()));
        (a, after)
    } else {
        assert(trimmed(s) == s);
        assert(Seq::<char>::empty() + s + Seq::<char>::empty() =~= s);
        (Seq::empty(), Seq::empty())
    }
}

/// White space behind a text makes no difference to its words.
pub proof fn lemma_words_before_white_space(s: Seq<char>, gap: Seq<char>)
    requires
        blank(gap),
    ensures
        words(s + gap) == words(s),
    decreases s.len(),
{
    if s.len() == 0 {
        lemma_words_are_the_pieces(gap, s, s);
        assert(s + gap =~= gap);
    } else {
        let n = word_len(s) as int;
        lemma_word_end(s);
        let all = s + gap;
        if n == 0 {
            lemma_words_before_white_space(s.skip(1), gap);
            assert(all.skip(1) =~= s.skip(1) + gap);
            assert(all[0] == s[0]);
        } else {
            let word = s.take(n);
            let rest = s.skip(n);
            assert forall|k: int| 0 <= k < word.len() implies !whitespace(#[trigger] word[k]) by {
                lemma_word_holds_none(s, k);
            }
            lemma_words_before_white_space(rest, gap);
            let none = Seq::<char>::empty();
            if rest.len() + gap.len() > 0 {
                assert((rest + gap)[0] == if rest.len() > 0 {
                    rest[0]
                } else {
                    gap[0]
                });
            }
            lemma_words_are_the_pieces(none, word, rest + gap);
            lemma_words_are_the_pieces(none, word, rest);
            assert(none + word + (rest + gap) =~= all);
            assert(none + word + rest =~= s);
        }
    }
}

/// The first white space, if there is any, stands behind the first word.
pub proof fn lemma_word_end(s: Seq<char>)
    ensures
        word_len(s) <= s.len(),
        word_len(s) < s.len() ==> whitespace(s[word_len(s) as int]),
    decreases s.len(),
{
    if s.len() > 0 && !whitespace(s[0]) {
        lemma_word_end(s.skip(1));
    }
}

/// No white space stands in the first word.
pub proof fn lemma_word_holds_none(s: Seq<char>, k: int)
    requires
        0 <= k < word_len(s),
    ensures
        k < s.len(),
        !whitespace(s[k]),
    decreases s.len(),
{
    lemma_word_end(s);
    if k > 0 {
        lemma_word_holds_none(s.skip(1), k - 1);
    }
}

/// Trimming makes no difference to the words of a text.
pub proof fn lemma_words_of_trimmed(s: Seq<char>)
    ensures
        words(trimmed(s)) == words(s),
{
    let (a, b) = lemma_trimmed_parts(s);
    lemma_words_before_white_space(a + trimmed(s), b);
    lemma_words_are_the_pieces(a, a, trimmed(s));
}

/// A text begins with another exactly where it is that text with something
/// behind it.
pub proof fn lemma_beginnings(s: Seq<char>, prefix: Seq<char>)
    ensures
        begins_with(s, prefix) <==> exists|rest: Seq<char>| s == #[trigger] (prefix + rest),
{
    if begins_with(s, prefix) {
        assert(s =~= prefix + s.skip(prefix.len() as int));
    }
    if exists|rest: Seq<char>| s == #[trigger] (prefix + rest) {
        let rest = choose|rest: Seq<char>| s == #[trigger] (prefix + rest);
        assert((prefix + rest).take(prefix.len() as int) =~= prefix);
    }
}

/// The character of a digit below ten.
proof fn lemma_digit(d: nat)
    requires
        d < 10,
    ensures
        digit(d) == seq![('0' as int + d) as char],
{
    reveal_strlit("0");
    reveal_strlit("1");
    reveal_strlit("2");
    reveal_strlit("3");
    reveal_strlit("4");
    reveal_strlit("5");
    reveal_strlit("6");
    reveal_strlit("7");
    reveal_strlit("8");
    reveal_strlit("9");
    assert(digit(d) =~= seq![('0' as int + d) as char]);
}

/// A number below ten is written as its digit, and ten times a number and a
/// digit as the number and then the digit.
pub proof fn lemma_decimals(n: nat, d: nat)
    requires
        d < 10,
    ensures
        decimal(d) == seq![('0' as int + d) as char],
        n > 0 ==> decimal(10 * n + d) == decimal(n).push(('0' as int + d) as char),
{
    lemma_digit(d);
    if n > 0 {
        assert((10 * n + d) / 10 == n && (10 * n + d) % 10 == d);
        assert(decimal(10 * n + d) =~= decimal(n).push(('0' as int + d) as char));
    }
}

/// The octal digits of a number.
proof fn lemma_octal_digits(high: nat, a: nat, b: nat, c: nat)
    requires
        a < 8,
        b < 8,
        c < 8,
    ensures
        ({
            let mode = 512 * high + 64 * a + 8 * b + c;
            mode / 64 % 8 == a && mode / 8 % 8 == b && mode % 8 == c
        }),
{
    let mode = 512 * high + 64 * a + 8 * b + c;
    assert(mode / 8 == 64 * high + 8 * a + b);
    assert(mode / 64 == 8 * high + a);
}

/// A mode is written by the octal digits of its lowest nine bits, the highest
/// first.
#[verifier::rlimit(30)]
pub proof fn lemma_octals(high: nat, a: nat, b: nat, c: nat)
    requires
        a < 8,
        b < 8,
        c < 8,
    ensures
        octal3(512 * high + 64 * a + 8 * b + c) == seq![
            ('0' as int + a) as char,
            ('0' as int + b) as char,
            ('0' as int + c) as char,
        ],
{
    let mode = 512 * high + 64 * a + 8 * b + c;
    lemma_octal_digits(high, a, b, c);
    lemma_digit(a);
    lemma_digit(b);
    lemma_digit(c);
    assert(octal3(mode) =~= seq![
        ('0' as int + a) as char,
        ('0' as int + b) as char,
        ('0' as int + c) as char,
    ]);
}

/// A piece behind a separator is one more field, the last.
pub proof fn lemma_last_field(s: Seq<char>, piece: Seq<char>, sep: char)
    requires
        !piece.contains(sep),
    ensures
        fields(s.push(sep) + piece, sep) == fields(s, sep).push(piece),
    decreases s.len(),
{
    let n = head_len(s, sep) as int;
    lemma_head_end(s, sep);
    let head = s.take(n);
    assert(!head.contains(sep)) by {
        if head.contains(sep) {
            let k = choose|k: int| 0 <= k < head.len() && head[k] == sep;
            lemma_head_holds_none(s, sep, k);
        }
    }
    lemma_fields_are_the_pieces(piece, piece, sep);
    if n >= s.len() {
        assert(head =~= s);
        lemma_fields_are_the_pieces(s, piece, sep);
        assert(fields(s.push(sep) + piece, sep) =~= fields(s, sep).push(piece));
    } else {
        let rest = s.skip(n + 1);
        lemma_last_field(rest, piece, sep);
        lemma_fields_are_the_pieces(head, rest.push(sep) + piece, sep);
        assert(head.push(sep) + (rest.push(sep) + piece) =~= s.push(sep) + piece);
        assert(fields(s.push(sep) + piece, sep) =~= fields(s, sep).push(piece));
    }
}

/// A list of strings stands for their texts, one for one and in their order.
pub proof fn lemma_texts_of_lists(slices: Seq<&str>, strings: Seq<String>, i: int)
    ensures
        views(slices).len() == slices.len(),
        0 <= i < slices.len() ==> views(slices)[i] == slices[i]@,
        texts(strings).len() == strings.len(),
        0 <= i < strings.len() ==> texts(strings)[i] == strings[i]@,
{
}

} // verus!
