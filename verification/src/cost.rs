//! The cost of a yescrypt hash: its parameters, and the memory that they ask for.
//!
//! A hash reads `$y$<parameters>$<salt>$<hash>`. The parameters are numbers in a
//! packed form, one behind the other: the flavor of the scheme, the binary
//! logarithm of the number of blocks, the size of a block and, where the text
//! goes on, a set of bits that says which further numbers follow.
//!
//! A number is written in digits to the base of 64. Its first digit also says how
//! many digits follow: the smallest numbers take one digit, and each further
//! digit continues where the shorter forms end.
use vstd::arithmetic::power2::{
    lemma2_to64, lemma_pow2_strictly_increases, lemma_pow2_unfold, pow2,
};
use vstd::prelude::*;

use crate::text::{chars_of, fields, split, views};

verus! {

/// The flavor whose hashes read and write their memory in turn.
pub const READ_WRITE: u64 = 47;

/// The value of a digit.
pub open spec fn digit_of(c: char) -> Option<nat> {
    if c == '.' {
        Some(0)
    } else if c == '/' {
        Some(1)
    } else if '0' <= c <= '9' {
        Some((c as int - '0' as int + 2) as nat)
    } else if 'A' <= c <= 'Z' {
        Some((c as int - 'A' as int + 12) as nat)
    } else if 'a' <= c <= 'z' {
        Some((c as int - 'a' as int + 38) as nat)
    } else {
        None
    }
}

/// The form of a number.
#[derive(Debug, Clone, Copy, PartialEq, Eq, Structural)]
pub struct Form {
    /// How many digits follow the first.
    pub tail: u64,
    /// The lowest first digit of this form.
    pub first: u64,
    /// What the first digit counts in: 64 to the power of the digits that follow.
    pub unit: u64,
    /// How many numbers the shorter forms hold.
    pub offset: u64,
}

/// The form of the numbers whose first digit is `d`.
pub open spec fn form_of(d: nat) -> Form {
    if d < 48 {
        (Form { tail: 0, first: 0, unit: 1, offset: 0 })
    } else if d < 56 {
        (Form { tail: 1, first: 48, unit: 64, offset: 48 })
    } else if d < 60 {
        (Form { tail: 2, first: 56, unit: 4096, offset: 560 })
    } else if d < 62 {
        (Form { tail: 3, first: 60, unit: 262144, offset: 16944 })
    } else if d < 63 {
        (Form { tail: 4, first: 62, unit: 16777216, offset: 541232 })
    } else {
        (Form { tail: 5, first: 63, unit: 1073741824, offset: 17318448 })
    }
}

/// The value of the `count` digits at `pos`, the highest first.
pub open spec fn digits_at(s: Seq<char>, pos: int, count: nat) -> Option<nat>
    decreases count,
{
    if count == 0 {
        Some(0)
    } else if pos + count > s.len() {
        None
    } else {
        match (digits_at(s, pos, (count - 1) as nat), digit_of(s[pos + count - 1])) {
            (Some(v), Some(d)) => Some(64 * v + d),
            _ => None,
        }
    }
}

/// The number at `pos`, where the smallest one is `least`, and where it ends.
pub open spec fn number_at(s: Seq<char>, pos: int, least: nat) -> Option<(nat, int)> {
    if pos >= s.len() {
        None
    } else {
        match digit_of(s[pos]) {
            None => None,
            Some(d) => {
                let form = form_of(d);
                match digits_at(s, pos + 1, form.tail as nat) {
                    None => None,
                    Some(v) => Some(
                        (
                            (least + form.offset + (d - form.first) * form.unit + v) as nat,
                            pos + 1 + form.tail,
                        ),
                    ),
                }
            },
        }
    }
}

/// The number at `pos` as [`number_at`] has it, or `default` where it is left out.
pub open spec fn optional_number_at(
    present: bool,
    s: Seq<char>,
    pos: int,
    least: nat,
    default: nat,
) -> Option<(nat, int)> {
    if present {
        number_at(s, pos, least)
    } else {
        Some((default, pos))
    }
}

/// The parameters of a hash.
#[derive(Debug, Clone, Copy, PartialEq, Eq, Structural)]
pub struct Cost {
    /// The flavor of the scheme.
    pub flavor: u64,
    /// The binary logarithm of the number of blocks.
    pub log_blocks: u64,
    /// The size of a block, in units of 128 bytes.
    pub block_size: u64,
    /// The number of lanes.
    pub lanes: u64,
    /// The additional time.
    pub time: u64,
}

/// The parameters of a hash, as numbers of any size.
pub struct CostView {
    pub flavor: nat,
    pub log_blocks: nat,
    pub block_size: nat,
    pub lanes: nat,
    pub time: nat,
}

impl View for Cost {
    type V = CostView;

    open spec fn view(&self) -> CostView {
        CostView {
            flavor: self.flavor as nat,
            log_blocks: self.log_blocks as nat,
            block_size: self.block_size as nat,
            lanes: self.lanes as nat,
            time: self.time as nat,
        }
    }
}

impl CostView {
    /// The number of blocks.
    pub open spec fn blocks(self) -> nat {
        pow2(self.log_blocks)
    }

    /// Whether the parameters are ones that a hash can have. Each lane of a hash
    /// that reads and writes its memory has two blocks at least.
    pub open spec fn is_supported(self) -> bool {
        &&& self.flavor == 0 || self.flavor == 1 || self.flavor == READ_WRITE
        &&& self.log_blocks <= 63
        &&& self.flavor == READ_WRITE ==> self.blocks() / self.lanes > 1
    }
}

/// The lanes and the additional time at `pos`, where the text may also end. The
/// bits say, from the lowest, whether there follow the lanes, the time, a number
/// of upgrades and the size of a ROM; upgrades and ROMs are not supported.
pub open spec fn extras_at(s: Seq<char>, pos: int) -> Option<(nat, nat)> {
    if pos >= s.len() {
        Some((1, 0))
    } else {
        match number_at(s, pos, 1) {
            None => None,
            Some((bits, a)) => if bits / 4 % 2 == 1 || bits / 8 % 2 == 1 {
                None
            } else {
                match optional_number_at(bits % 2 == 1, s, a, 2, 1) {
                    None => None,
                    Some((lanes, b)) => match optional_number_at(bits / 2 % 2 == 1, s, b, 1, 0) {
                        None => None,
                        Some((time, _)) => Some((lanes, time)),
                    },
                }
            },
        }
    }
}

/// The parameters that a text stands for, if they are supported.
pub open spec fn cost_of(s: Seq<char>) -> Option<CostView> {
    match number_at(s, 0, 0) {
        None => None,
        Some((flavor, a)) => match number_at(s, a, 1) {
            None => None,
            Some((log_blocks, b)) => match number_at(s, b, 1) {
                None => None,
                Some((block_size, c)) => match extras_at(s, c) {
                    None => None,
                    Some((lanes, time)) => {
                        let cost = CostView { flavor, log_blocks, block_size, lanes, time };
                        if cost.is_supported() {
                            Some(cost)
                        } else {
                            None
                        }
                    },
                },
            },
        },
    }
}

/// The value of a digit, where `c` is one.
pub fn digit(c: char) -> (r: Option<u64>)
    ensures
        match r {
            Some(d) => digit_of(c) == Some(d as nat) && d < 64,
            None => digit_of(c) is None,
        },
{
    if c == '.' {
        Some(0)
    } else if c == '/' {
        Some(1)
    } else if '0' <= c && c <= '9' {
        Some(c as u64 - 48 + 2)
    } else if 'A' <= c && c <= 'Z' {
        Some(c as u64 - 65 + 12)
    } else if 'a' <= c && c <= 'z' {
        Some(c as u64 - 97 + 38)
    } else {
        None
    }
}

/// The form of the numbers whose first digit is `d`.
fn form(d: u64) -> (r: Form)
    ensures
        r == form_of(d as nat),
{
    if d < 48 {
        Form { tail: 0, first: 0, unit: 1, offset: 0 }
    } else if d < 56 {
        Form { tail: 1, first: 48, unit: 64, offset: 48 }
    } else if d < 60 {
        Form { tail: 2, first: 56, unit: 4096, offset: 560 }
    } else if d < 62 {
        Form { tail: 3, first: 60, unit: 262144, offset: 16944 }
    } else if d < 63 {
        Form { tail: 4, first: 62, unit: 16777216, offset: 541232 }
    } else {
        Form { tail: 5, first: 63, unit: 1073741824, offset: 17318448 }
    }
}

/// Without a digit in one place, the digits have no value.
proof fn lemma_digits_need_each(s: Seq<char>, pos: int, count: nat, more: nat)
    requires
        digits_at(s, pos, count) is None,
        count <= more,
    ensures
        digits_at(s, pos, more) is None,
    decreases more,
{
    if count < more {
        lemma_digits_need_each(s, pos, count, (more - 1) as nat);
    }
}

/// Reads the number at `pos`, where the smallest one is `least`.
fn read_number(s: &Vec<char>, pos: usize, least: u64) -> (r: Option<(u64, usize)>)
    requires
        least <= 2,
    ensures
        match r {
            Some((v, end)) => number_at(s@, pos as int, least as nat) == Some((v as nat, end as int))
                && least <= v < 0x8000_0000,
            None => number_at(s@, pos as int, least as nat) is None,
        },
{
    if pos >= s.len() {
        return None;
    }
    let d: u64 = match digit(s[pos]) {
        Some(d) => d,
        None => {
            return None;
        },
    };
    let f = form(d);
    let mut tail: u64 = 0;
    let mut i: u64 = 0;
    while i < f.tail
        invariant
            pos < s.len(),
            f == form_of(d as nat),
            d < 64,
            digit_of(s@[pos as int]) == Some(d as nat),
            i <= f.tail <= 5,
            digits_at(s@, pos + 1, i as nat) == Some(tail as nat),
            i == 0 ==> tail < 1,
            i == 1 ==> tail < 64,
            i == 2 ==> tail < 4096,
            i == 3 ==> tail < 262144,
            i == 4 ==> tail < 16777216,
            i == 5 ==> tail < 1073741824,
        decreases f.tail - i,
    {
        let left: u64 = (s.len() - pos - 1) as u64;
        if i >= left {
            proof {
                lemma_digits_need_each(s@, pos + 1, (i + 1) as nat, f.tail as nat);
            }
            return None;
        }
        match digit(s[pos + 1 + i as usize]) {
            Some(e) => {
                tail = 64 * tail + e;
            },
            None => {
                proof {
                    lemma_digits_need_each(s@, pos + 1, (i + 1) as nat, f.tail as nat);
                }
                return None;
            },
        }
        i += 1;
    }
    let lead: u64 = d - f.first;
    proof {
        assert(0 <= lead * f.unit < 0x10_0000) by (nonlinear_arith)
            requires
                ({
                    ||| lead < 48 && f.unit == 1
                    ||| lead < 8 && f.unit == 64
                    ||| lead < 4 && f.unit == 4096
                    ||| lead < 2 && f.unit == 262144
                    ||| lead == 0
                }),
        ;
    }
    let value: u64 = least + f.offset + lead * f.unit + tail;
    Some((value, pos + 1 + f.tail as usize))
}

/// Reads the number at `pos`, or takes `default` where it is left out.
fn read_optional_number(
    present: bool,
    s: &Vec<char>,
    pos: usize,
    least: u64,
    default: u64,
) -> (r: Option<(u64, usize)>)
    requires
        least <= 2,
        default < 0x8000_0000,
    ensures
        match r {
            Some((v, end)) => optional_number_at(
                present,
                s@,
                pos as int,
                least as nat,
                default as nat,
            ) == Some((v as nat, end as int)) && (v == default || least <= v) && v < 0x8000_0000,
            None => optional_number_at(
                present,
                s@,
                pos as int,
                least as nat,
                default as nat,
            ) is None,
        },
{
    if present {
        read_number(s, pos, least)
    } else {
        Some((default, pos))
    }
}

/// Reads the lanes and the additional time at `pos`.
fn read_extras(s: &Vec<char>, pos: usize) -> (r: Option<(u64, u64)>)
    ensures
        match r {
            Some((lanes, time)) => extras_at(s@, pos as int) == Some((lanes as nat, time as nat))
                && 1 <= lanes < 0x8000_0000 && time < 0x8000_0000,
            None => extras_at(s@, pos as int) is None,
        },
{
    if pos >= s.len() {
        return Some((1, 0));
    }
    match read_number(s, pos, 1) {
        None => None,
        Some((bits, a)) => if bits / 4 % 2 == 1 || bits / 8 % 2 == 1 {
            None
        } else {
            match read_optional_number(bits % 2 == 1, s, a, 2, 1) {
                None => None,
                Some((lanes, b)) => match read_optional_number(bits / 2 % 2 == 1, s, b, 1, 0) {
                    None => None,
                    Some((time, _)) => Some((lanes, time)),
                },
            }
        },
    }
}

/// Two to the power of `e`.
fn power_of_two(e: u64) -> (r: u64)
    requires
        e <= 63,
    ensures
        r == pow2(e as nat),
        r > 0,
{
    let mut r: u64 = 1;
    let mut i: u64 = 0;
    proof {
        lemma2_to64();
    }
    while i < e
        invariant
            i <= e <= 63,
            r == pow2(i as nat),
            r > 0,
        decreases e - i,
    {
        proof {
            lemma2_to64();
            lemma_pow2_unfold((i + 1) as nat);
            lemma_pow2_strictly_increases((i + 1) as nat, 64);
        }
        r = 2 * r;
        i += 1;
    }
    r
}

/// Reads the parameters of a hash.
pub fn read_cost(text: &str) -> (r: Option<Cost>)
    ensures
        match r {
            Some(c) => cost_of(text@) == Some(c@) && c.block_size < 0x8000_0000 && 1 <= c.lanes
                < 0x8000_0000 && c.time < 0x8000_0000,
            None => cost_of(text@) is None,
        },
{
    let s = chars_of(text);
    match read_number(&s, 0, 0) {
        None => None,
        Some((flavor, a)) => match read_number(&s, a, 1) {
            None => None,
            Some((log_blocks, b)) => match read_number(&s, b, 1) {
                None => None,
                Some((block_size, c)) => match read_extras(&s, c) {
                    None => None,
                    Some((lanes, time)) => {
                        if flavor != 0 && flavor != 1 && flavor != READ_WRITE {
                            return None;
                        }
                        if log_blocks > 63 {
                            return None;
                        }
                        if flavor == READ_WRITE && power_of_two(log_blocks) / lanes <= 1 {
                            return None;
                        }
                        Some(Cost { flavor, log_blocks, block_size, lanes, time })
                    },
                },
            },
        },
    }
}

/// Whether the `yescrypt` crate refuses a computation for its size alone, before
/// it allocates any memory for it.
pub open spec fn is_refused(blocks: nat, block_size: nat, lanes: nat, time: nat) -> bool {
    ||| block_size * lanes >= 0x4000_0000
    ||| 128 * (blocks * block_size) > u64::MAX
    ||| blocks * (time + 1) > u64::MAX
}

/// Whether the memory of a computation has a size that can be represented: that
/// of the blocks, of the lanes, and of the tables that each lane may have.
pub open spec fn is_addressable(blocks: nat, block_size: nat, lanes: nat) -> bool {
    &&& 128 * (blocks * block_size) <= isize::MAX
    &&& 128 * (block_size * lanes) <= isize::MAX
    &&& 12288 * lanes <= isize::MAX
}

impl CostView {
    /// Whether a hash is computed twice, first with a 64th of the blocks.
    pub open spec fn is_prehashed(self) -> bool {
        &&& self.flavor == READ_WRITE
        &&& self.blocks() / self.lanes >= 0x100
        &&& self.blocks() / self.lanes * self.block_size >= 0x2_0000
    }

    /// Whether the sizes that the computation of a hash goes through can be
    /// represented.
    pub open spec fn is_representable(self) -> bool {
        &&& self.flavor == READ_WRITE ==> self.blocks() / self.lanes * self.block_size
            <= u64::MAX
        &&& is_refused(self.blocks(), self.block_size, self.lanes, self.time)
            || is_addressable(self.blocks(), self.block_size, self.lanes)
        &&& self.is_prehashed() ==> is_refused(
            self.blocks() / 64,
            self.block_size,
            self.lanes,
            0,
        ) || is_addressable(self.blocks() / 64, self.block_size, self.lanes)
    }
}

/// Whether a text stands for bytes. Four digits stand for three bytes, the lowest
/// digit first; the bits of the last digit that stand for nothing are zero.
pub open spec fn is_base64(s: Seq<char>) -> bool {
    &&& forall|i: int| 0 <= i < s.len() ==> digit_of(#[trigger] s[i]) is Some
    &&& s.len() % 4 != 1
    &&& s.len() % 4 == 2 ==> digit_of(s.last())->Some_0 < 4
    &&& s.len() % 4 == 3 ==> digit_of(s.last())->Some_0 < 16
}

/// Whether the cost of a yescrypt hash can be represented. That is asked only
/// where there is something to compute: where the hash has its three fields and
/// each of them can be read.
pub open spec fn has_representable_cost(hash: Seq<char>) -> bool {
    let parts = fields(hash, '$');
    parts.len() == 5 && is_base64(parts[3]) && is_base64(parts[4]) ==> (cost_of(
        parts[2],
    ) matches Some(c) ==> c.is_representable())
}

/// A product of a number of 64 bits and one of 31 bits has 95 bits.
proof fn lemma_product_fits(a: u64, b: u64)
    requires
        b <= 0x8000_0000,
    ensures
        0 <= a * b < 0x8000_0000_0000_0000_0000_0000,
{
    assert(0 <= a * b < 0x8000_0000_0000_0000_0000_0000) by (nonlinear_arith)
        requires
            0 <= a <= 0xffff_ffff_ffff_ffff,
            0 <= b <= 0x8000_0000,
    ;
}

/// The product of a number of 64 bits and one of 31 bits.
fn product(a: u64, b: u64) -> (r: u128)
    requires
        b <= 0x8000_0000,
    ensures
        r == a * b,
        r < 0x8000_0000_0000_0000_0000_0000,
{
    proof {
        lemma_product_fits(a, b);
    }
    a as u128 * b as u128
}

/// Whether a computation is refused, or its memory has a size that can be
/// represented.
fn fits(blocks: u64, block_size: u64, lanes: u64, time: u64) -> (r: bool)
    requires
        block_size < 0x8000_0000,
        lanes < 0x8000_0000,
        time < 0x8000_0000,
    ensures
        r == (is_refused(blocks as nat, block_size as nat, lanes as nat, time as nat)
            || is_addressable(blocks as nat, block_size as nat, lanes as nat)),
{
    let memory: u128 = 128 * product(blocks, block_size);
    let lane_size: u128 = product(block_size, lanes);
    let most: u128 = isize::MAX as u128;
    if lane_size >= 0x4000_0000 || memory > u64::MAX as u128 || product(blocks, time + 1)
        > u64::MAX as u128 {
        return true;
    }
    memory <= most && 128 * lane_size <= most && 12288 * lanes as u128 <= most
}

/// Whether the sizes that the computation of a hash goes through can be represented.
fn can_be_represented(c: &Cost) -> (r: bool)
    requires
        c.log_blocks <= 63,
        c.block_size < 0x8000_0000,
        1 <= c.lanes < 0x8000_0000,
        c.time < 0x8000_0000,
    ensures
        r == c@.is_representable(),
{
    let blocks: u64 = power_of_two(c.log_blocks);
    if c.flavor == READ_WRITE {
        let per_lane: u64 = blocks / c.lanes;
        let work: u128 = product(per_lane, c.block_size);
        if work > u64::MAX as u128 {
            return false;
        }
        if per_lane >= 0x100 && work >= 0x2_0000 && !fits(blocks / 64, c.block_size, c.lanes, 0) {
            return false;
        }
    }
    fits(blocks, c.block_size, c.lanes, c.time)
}

/// Whether a text stands for bytes.
pub fn stands_for_bytes(text: &str) -> (r: bool)
    ensures
        r == is_base64(text@),
{
    let s = chars_of(text);
    let mut last: u64 = 0;
    let mut i: usize = 0;
    while i < s.len()
        invariant
            i <= s.len(),
            s@ == text@,
            forall|k: int| 0 <= k < i ==> digit_of(#[trigger] s@[k]) is Some,
            i > 0 ==> digit_of(s@[i - 1]) == Some(last as nat),
        decreases s.len() - i,
    {
        match digit(s[i]) {
            Some(d) => {
                last = d;
            },
            None => {
                return false;
            },
        }
        i += 1;
    }
    match i % 4 {
        0 => true,
        1 => false,
        2 => last < 4,
        _ => last < 16,
    }
}

/// Whether the cost of a yescrypt hash can be represented.
pub fn cost_is_representable(hash: &str) -> (r: bool)
    ensures
        r == has_representable_cost(hash@),
{
    let parts = split(hash, '$');
    proof {
        assert(views(parts@).len() == parts@.len());
    }
    if parts.len() != 5 {
        return true;
    }
    proof {
        assert forall|i: int| 0 <= i < 5 implies views(parts@)[i] == #[trigger] parts@[i]@ by {}
    }
    if !stands_for_bytes(parts[3]) || !stands_for_bytes(parts[4]) {
        return true;
    }
    match read_cost(parts[2]) {
        None => true,
        Some(c) => can_be_represented(&c),
    }
}

/// A number is no smaller than the smallest one.
proof fn lemma_least_number(s: Seq<char>, pos: int, least: nat)
    ensures
        number_at(s, pos, least) matches Some((v, _)) ==> v >= least,
{
    if let Some((v, _)) = number_at(s, pos, least) {
        let d = digit_of(s[pos])->Some_0;
        let form = form_of(d);
        assert(0 <= (d - form.first) * form.unit) by (nonlinear_arith)
            requires
                d >= form.first,
                form.unit >= 0,
        ;
    }
}

/// A hash whose blocks take no more memory than a machine of 64 bits can address
/// has a cost that can be represented there.
pub proof fn lemma_addressable_costs_are_representable(s: Seq<char>)
    requires
        usize::BITS == 64,
        cost_of(s) matches Some(c) && 128 * (c.blocks() * c.block_size) <= isize::MAX,
    ensures
        cost_of(s) matches Some(c) && c.is_representable(),
{
    let c = cost_of(s)->Some_0;
    let (_, a) = number_at(s, 0, 0)->Some_0;
    let (_, b) = number_at(s, a, 1)->Some_0;
    let (_, e) = number_at(s, b, 1)->Some_0;
    lemma_least_number(s, b, 1);
    if e < s.len() {
        let (_, f) = number_at(s, e, 1)->Some_0;
        lemma_least_number(s, f, 2);
    }
    let n = c.blocks();
    let r = c.block_size;
    let p = c.lanes;
    let per_lane = n / p;
    let part = n / 64;
    assert(per_lane <= n) by (nonlinear_arith)
        requires
            p >= 1,
            per_lane == n / p,
    ;
    assert(per_lane * r <= n * r && part * r <= n * r) by (nonlinear_arith)
        requires
            per_lane <= n,
            part <= n,
    ;
    assert(p <= r * p) by (nonlinear_arith)
        requires
            r >= 1,
            p >= 1,
    ;
}

/// The digits before others are those of the text with anything around it.
proof fn lemma_digits_are_local(
    before: Seq<char>,
    s: Seq<char>,
    after: Seq<char>,
    pos: int,
    count: nat,
)
    requires
        0 <= pos,
        pos + count <= s.len(),
    ensures
        digits_at(before + s + after, before.len() + pos, count) == digits_at(s, pos, count),
    decreases count,
{
    if count > 0 {
        lemma_digits_are_local(before, s, after, pos, (count - 1) as nat);
        assert((before + s + after)[before.len() + pos + count - 1] == s[pos + count - 1]);
    }
}

/// Whether a text is one number of the given value.
#[verifier::opaque]
pub open spec fn is_number(s: Seq<char>, least: nat, value: nat) -> bool {
    number_at(s, 0, least) == Some((value, s.len() as int))
}

/// A number is read as it is wherever it stands.
proof fn lemma_numbers_are_local(
    before: Seq<char>,
    s: Seq<char>,
    after: Seq<char>,
    least: nat,
    value: nat,
)
    requires
        is_number(s, least, value),
    ensures
        number_at(before + s + after, before.len() as int, least) == Some(
            (value, (before.len() + s.len()) as int),
        ),
{
    reveal(is_number);
    let all = before + s + after;
    assert(all[before.len() as int] == s[0]);
    let form = form_of(digit_of(s[0])->Some_0);
    lemma_digits_are_local(before, s, after, 1, form.tail as nat);
}

/// The numbers of one digit are the 48 smallest; those of two go on for eight times
/// 64, those of three for four times 4096, those of four for twice 262144, those of
/// five for 16777216, and those of six for 1073741824.
pub proof fn lemma_numbers(least: nat, d: Seq<char>, v: Seq<nat>)
    requires
        d.len() == v.len(),
        forall|i: int| 0 <= i < d.len() ==> digit_of(#[trigger] d[i]) == Some(v[i]),
    ensures
        d.len() == 1 && v[0] < 48 ==> is_number(d, least, least + v[0]),
        d.len() == 2 && 48 <= v[0] < 56 ==> is_number(
            d,
            least,
            (least + 48 + 64 * (v[0] - 48) + v[1]) as nat,
        ),
        d.len() == 3 && 56 <= v[0] < 60 ==> is_number(
            d,
            least,
            (least + 560 + 4096 * (v[0] - 56) + 64 * v[1] + v[2]) as nat,
        ),
        d.len() == 4 && 60 <= v[0] < 62 ==> is_number(
            d,
            least,
            (least + 16944 + 262144 * (v[0] - 60) + 4096 * v[1] + 64 * v[2] + v[3]) as nat,
        ),
        d.len() == 5 && v[0] == 62 ==> is_number(
            d,
            least,
            least + 541232 + 262144 * v[1] + 4096 * v[2] + 64 * v[3] + v[4],
        ),
        d.len() == 6 && v[0] == 63 ==> is_number(
            d,
            least,
            least + 17318448 + 16777216 * v[1] + 262144 * v[2] + 4096 * v[3] + 64 * v[4] + v[5],
        ),
{
    if d.len() > 0 {
        assert(digit_of(d[0]) == Some(v[0]));
        if d.len() == 1 && v[0] < 48 {
            reveal_with_fuel(tail_value, 6);
            lemma_digits(d, v, 0, 0);
            lemma_number_of_digits(d, least, v[0], 0);
        } else if d.len() == 2 && 48 <= v[0] < 56 {
            reveal_with_fuel(tail_value, 6);
            lemma_digits(d, v, 1, v[1]);
            lemma_number_of_digits(d, least, v[0], v[1]);
        } else if d.len() == 3 && 56 <= v[0] < 60 {
            reveal_with_fuel(tail_value, 6);
            lemma_digits(d, v, 2, 64 * v[1] + v[2]);
            lemma_number_of_digits(d, least, v[0], 64 * v[1] + v[2]);
        } else if d.len() == 4 && 60 <= v[0] < 62 {
            let tail = 64 * (64 * v[1] + v[2]) + v[3];
            reveal_with_fuel(tail_value, 6);
            lemma_digits(d, v, 3, tail);
            lemma_number_of_digits(d, least, v[0], tail);
        } else if d.len() == 5 && v[0] == 62 {
            let tail = 64 * (64 * (64 * v[1] + v[2]) + v[3]) + v[4];
            reveal_with_fuel(tail_value, 6);
            lemma_digits(d, v, 4, tail);
            lemma_number_of_digits(d, least, v[0], tail);
        } else if d.len() == 6 && v[0] == 63 {
            let tail = 64 * (64 * (64 * (64 * v[1] + v[2]) + v[3]) + v[4]) + v[5];
            reveal_with_fuel(tail_value, 6);
            lemma_digits(d, v, 5, tail);
            lemma_number_of_digits(d, least, v[0], tail);
        }
    }
}

/// The value of some digits behind the first.
proof fn lemma_digits(d: Seq<char>, v: Seq<nat>, count: nat, value: nat)
    requires
        d.len() == v.len(),
        forall|i: int| 0 <= i < d.len() ==> digit_of(#[trigger] d[i]) == Some(v[i]),
        count < d.len(),
        count <= 5,
        value == tail_value(v, count),
    ensures
        digits_at(d, 1, count) == Some(value),
    decreases count,
{
    reveal_with_fuel(tail_value, 2);
    if count > 0 {
        lemma_digits(d, v, (count - 1) as nat, tail_value(v, (count - 1) as nat));
        assert(digit_of(d[count as int]) == Some(v[count as int]));
        assert(1 + count - 1 == count);
    }
}

/// The value of the digits behind the first, the highest first.
spec fn tail_value(v: Seq<nat>, count: nat) -> nat
    decreases count,
{
    if count == 0 {
        0
    } else {
        64 * tail_value(v, (count - 1) as nat) + v[count as int]
    }
}

/// A text of a first digit and the others that belong to it is a number.
proof fn lemma_number_of_digits(d: Seq<char>, least: nat, first: nat, tail: nat)
    requires
        d.len() == 1 + form_of(first).tail,
        digit_of(d[0]) == Some(first),
        first < 64,
        digits_at(d, 1, form_of(first).tail as nat) == Some(tail),
    ensures
        first < 48 ==> is_number(d, least, least + first + tail),
        48 <= first < 56 ==> is_number(d, least, (least + 48 + 64 * (first - 48) + tail) as nat),
        56 <= first < 60 ==> is_number(
            d,
            least,
            (least + 560 + 4096 * (first - 56) + tail) as nat,
        ),
        60 <= first < 62 ==> is_number(
            d,
            least,
            (least + 16944 + 262144 * (first - 60) + tail) as nat,
        ),
        first == 62 ==> is_number(d, least, least + 541232 + tail),
        first == 63 ==> is_number(d, least, least + 17318448 + tail),
{
    reveal(is_number);
    let f = form_of(first);
    lemma_times(first - f.first, f.unit as int);
}

/// Products with the units of the forms.
proof fn lemma_times(a: int, unit: int)
    ensures
        unit == 1 ==> a * unit == a,
        unit == 64 ==> a * unit == 64 * a,
        unit == 4096 ==> a * unit == 4096 * a,
        unit == 262144 ==> a * unit == 262144 * a,
        a == 0 ==> a * unit == 0,
{
    assert(unit == 1 ==> a * unit == a) by (nonlinear_arith);
    assert(unit == 64 ==> a * unit == 64 * a) by (nonlinear_arith);
    assert(unit == 4096 ==> a * unit == 4096 * a) by (nonlinear_arith);
    assert(unit == 262144 ==> a * unit == 262144 * a) by (nonlinear_arith);
    assert(a == 0 ==> a * unit == 0) by (nonlinear_arith);
}

/// The parameters of a hash are what the numbers say that its text is made of, in
/// their order: the flavor, the logarithm of the blocks and the size of a block,
/// with one lane and no additional time. They are supported where the flavor is one
/// of three, there are 63 doublings at most and, in the flavor that writes its
/// memory, there are two blocks.
pub proof fn lemma_parameters(
    flavor: Seq<char>,
    log_blocks: Seq<char>,
    block_size: Seq<char>,
    c: CostView,
)
    requires
        is_number(flavor, 0, c.flavor),
        is_number(log_blocks, 1, c.log_blocks),
        is_number(block_size, 1, c.block_size),
        c.flavor == 0 || c.flavor == 1 || c.flavor == 47,
        c.log_blocks <= 63,
        c.flavor == 47 ==> pow2(c.log_blocks) / c.lanes >= 2,
        c.lanes == 1 && c.time == 0,
    ensures
        cost_of(flavor + log_blocks + block_size) == Some(c),
{
    let none = Seq::<char>::empty();
    let start = flavor + log_blocks + block_size;
    lemma_first_parameters(flavor, log_blocks, block_size, none, c);
    assert(start + none =~= start);
}

/// A number behind the first three has one bit for the lanes and one for the time;
/// those of them whose bits are set follow, in that order.
pub proof fn lemma_further_parameters(
    flavor: Seq<char>,
    log_blocks: Seq<char>,
    block_size: Seq<char>,
    bits: Seq<char>,
    set: nat,
    lanes: Seq<char>,
    time: Seq<char>,
    c: CostView,
)
    requires
        is_number(flavor, 0, c.flavor),
        is_number(log_blocks, 1, c.log_blocks),
        is_number(block_size, 1, c.block_size),
        c.flavor == 0 || c.flavor == 1 || c.flavor == 47,
        c.log_blocks <= 63,
        c.flavor == 47 ==> pow2(c.log_blocks) / c.lanes >= 2,
        is_number(bits, 1, set),
        1 <= set <= 3,
        set == 2 ==> lanes.len() == 0 && c.lanes == 1,
        set != 2 ==> is_number(lanes, 2, c.lanes),
        set == 1 ==> time.len() == 0 && c.time == 0,
        set != 1 ==> is_number(time, 1, c.time),
    ensures
        cost_of(flavor + log_blocks + block_size + bits + lanes + time) == Some(c),
{
    let start = flavor + log_blocks + block_size;
    let rest = bits + lanes + time;
    lemma_extras(start, bits, set, lanes, time, c);
    lemma_first_parameters(flavor, log_blocks, block_size, rest, c);
    assert(start + rest =~= start + bits + lanes + time);
}

/// The lanes and the time are read behind what has bits for them.
proof fn lemma_extras(
    start: Seq<char>,
    bits: Seq<char>,
    set: nat,
    lanes: Seq<char>,
    time: Seq<char>,
    c: CostView,
)
    requires
        is_number(bits, 1, set),
        1 <= set <= 3,
        set == 2 ==> lanes.len() == 0 && c.lanes == 1,
        set != 2 ==> is_number(lanes, 2, c.lanes),
        set == 1 ==> time.len() == 0 && c.time == 0,
        set != 1 ==> is_number(time, 1, c.time),
    ensures
        extras_at(start + bits + lanes + time, start.len() as int) == Some((c.lanes, c.time)),
{
    let none = Seq::<char>::empty();
    let s = start + bits + lanes + time;
    lemma_numbers_are_local(start, bits, lanes + time, 1, set);
    assert(start + bits + (lanes + time) =~= s);
    if set != 2 {
        lemma_numbers_are_local(start + bits, lanes, time, 2, c.lanes);
    }
    if set != 1 {
        lemma_numbers_are_local(start + bits + lanes, time, none, 1, c.time);
        assert(start + bits + lanes + time + none =~= s);
    }
}

/// The first three numbers are read whatever follows them.
proof fn lemma_first_parameters(
    flavor: Seq<char>,
    log_blocks: Seq<char>,
    block_size: Seq<char>,
    rest: Seq<char>,
    c: CostView,
)
    requires
        is_number(flavor, 0, c.flavor),
        is_number(log_blocks, 1, c.log_blocks),
        is_number(block_size, 1, c.block_size),
    ensures
        ({
            let s = flavor + log_blocks + block_size + rest;
            let a = flavor.len() as int;
            let b = a + log_blocks.len();
            let d = b + block_size.len();
            &&& number_at(s, 0, 0) == Some((c.flavor, a))
            &&& number_at(s, a, 1) == Some((c.log_blocks, b))
            &&& number_at(s, b, 1) == Some((c.block_size, d))
        }),
{
    let none = Seq::<char>::empty();
    let s = flavor + log_blocks + block_size + rest;
    lemma_numbers_are_local(none, flavor, log_blocks + block_size + rest, 0, c.flavor);
    assert(none + flavor + (log_blocks + block_size + rest) =~= s);
    lemma_numbers_are_local(flavor, log_blocks, block_size + rest, 1, c.log_blocks);
    assert(flavor + log_blocks + (block_size + rest) =~= s);
    lemma_numbers_are_local(flavor + log_blocks, block_size, rest, 1, c.block_size);
}

/// A hash that is not refused for its size, and whose blocks take more memory than
/// can be addressed, has no cost that can be represented.
pub proof fn lemma_costs_beyond_memory(c: CostView)
    requires
        c.block_size * c.lanes < 0x4000_0000,
        128 * (c.blocks() * c.block_size) <= u64::MAX,
        c.blocks() * (c.time + 1) <= u64::MAX,
        128 * (c.blocks() * c.block_size) > isize::MAX,
    ensures
        !c.is_representable(),
{
}

/// A hash without three fields that can be read has nothing to be computed, and one
/// with them has the cost of its parameters.
pub proof fn lemma_costs_of_hashes(hash: Seq<char>)
    ensures
        fields(hash, '$').len() != 5 ==> has_representable_cost(hash),
        fields(hash, '$').len() == 5 ==> (has_representable_cost(hash) <==> {
            ||| !is_base64(fields(hash, '$')[3])
            ||| !is_base64(fields(hash, '$')[4])
            ||| cost_of(fields(hash, '$')[2]) is None
            ||| cost_of(fields(hash, '$')[2])->Some_0.is_representable()
        }),
{
}

/// Four digits stand for bytes whatever they are, and make no difference to those
/// behind them. Of what is left, one digit stands for nothing, and of two or three
/// the last is below 4 or 16.
pub proof fn lemma_base64(q: Seq<char>, s: Seq<char>)
    requires
        forall|i: int| 0 <= i < q.len() ==> digit_of(#[trigger] q[i]) is Some,
    ensures
        q.len() == 4 ==> (is_base64(q + s) <==> is_base64(s)),
        q.len() == 0 ==> is_base64(q),
        q.len() == 1 ==> !is_base64(q),
        q.len() == 2 ==> (is_base64(q) <==> digit_of(q[1])->Some_0 < 4),
        q.len() == 3 ==> (is_base64(q) <==> digit_of(q[2])->Some_0 < 16),
{
    if q.len() == 4 {
        let all = q + s;
        if is_base64(s) {
            assert forall|i: int| 0 <= i < all.len() implies digit_of(#[trigger] all[i]) is Some by {
                if i < 4 {
                    assert(all[i] == q[i]);
                } else {
                    assert(all[i] == s[i - 4]);
                }
            }
        }
        if is_base64(all) {
            assert forall|i: int| 0 <= i < s.len() implies digit_of(#[trigger] s[i]) is Some by {
                assert(all[i + 4] == s[i]);
            }
        }
        if s.len() > 0 {
            assert(all.last() == s.last());
        }
    }
}

/// The digits are `.`, `/`, the numerals, the capital letters and the small letters,
/// in that order, and no other character.
pub proof fn lemma_alphabet(c: char, i: nat)
    ensures
        digit_of('.') == Some(0nat),
        digit_of('/') == Some(1nat),
        i < 10 ==> digit_of(('0' as int + i) as char) == Some(2 + i),
        i < 26 ==> digit_of(('A' as int + i) as char) == Some(12 + i),
        i < 26 ==> digit_of(('a' as int + i) as char) == Some(38 + i),
        c < '.' || '9' < c < 'A' || 'Z' < c < 'a' || 'z' < c ==> digit_of(c) is None,
{
}

/// Parameters that are not supported are not told: neither another flavor, nor more
/// than 63 doublings, nor lanes of fewer than two blocks where memory is written.
pub proof fn lemma_parameters_are_supported(s: Seq<char>)
    ensures
        cost_of(s) matches Some(c) ==> {
            &&& c.flavor == 0 || c.flavor == 1 || c.flavor == 47
            &&& c.log_blocks <= 63
            &&& c.flavor == 47 ==> pow2(c.log_blocks) / c.lanes >= 2
        },
{
}

/// Parameters stand for the numbers that they hold.
pub proof fn lemma_values_of_parameters(c: Cost)
    ensures
        c@.flavor == c.flavor,
        c@.log_blocks == c.log_blocks,
        c@.block_size == c.block_size,
        c@.lanes == c.lanes,
        c@.time == c.time,
        c@.blocks() == pow2(c.log_blocks as nat),
{
}

/// What is refused for its size alone allocates nothing, so its cost can be
/// represented; where memory is written, the work of a lane has to fit as well, and
/// its cost cannot be represented where it does not.
pub proof fn lemma_refused_costs(c: CostView)
    ensures
        c.flavor != 47 && (c.block_size * c.lanes >= 0x4000_0000 || 128 * (c.blocks()
            * c.block_size) > u64::MAX || c.blocks() * (c.time + 1) > u64::MAX)
            ==> c.is_representable(),
        c.flavor == 47 && c.block_size * c.lanes >= 0x4000_0000 ==> (c.is_representable()
            <==> c.blocks() / c.lanes * c.block_size <= u64::MAX),
        c.flavor == 47 && c.blocks() / c.lanes * c.block_size > u64::MAX
            ==> !c.is_representable(),
{
}

} // verus!
