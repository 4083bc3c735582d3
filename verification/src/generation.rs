//! Choosing a node's generation: a number that grows with every restart, so
//! that a restarted node replaces its previous incarnation instead of being
//! taken for an outdated one.
//!
//! The wall clock alone is not enough: a clock that steps back between two
//! runs would give the new run a lower generation than the old one, which
//! peers that remember the old one then ignore. So the generation is the clock,
//! but never at or below one already handed out, in this process or, with a
//! store file, in an earlier one.
use crate::text::{
    chars_of, decimal_digits, decimal_value, is_decimal, is_digit, is_white_space_char,
    lemma_decimal_digits, parse_u64, string_from_utf8, trim, trim_end, trim_start, unsigned_part,
};
use std::time::{Duration, SystemTime};
use vstd::prelude::*;

verus! {

/// The value `pick` chooses: the clock, unless that is not past `floor`.
pub open spec fn picked(now: u64, floor: u64) -> u64 {
    let bumped = if floor == u64::MAX { u64::MAX } else { (floor + 1) as u64 };
    if now >= bumped { now } else { bumped }
}

/// What a new generation has to be past: the last one handed out, or the one
/// recorded by an earlier run, whichever is higher.
pub open spec fn generation_floor(last: u64, stored: u64) -> u64 {
    if last >= stored { last } else { stored }
}

/// The current time, unless that isn't past `floor`.
pub fn pick(now: u64, floor: u64) -> (r: u64)
    ensures
        r == picked(now, floor),
{
    let bumped = floor.saturating_add(1);
    if now >= bumped {
        now
    } else {
        bumped
    }
}

/// The generation for a node starting at time `now`, given `last`, the last
/// generation this process handed out, and `stored`, the one recorded by an
/// earlier run (0 if there is none).
pub fn next_generation(last: u64, stored: u64, now: u64) -> (r: u64)
    ensures
        r == picked(now, generation_floor(last, stored)),
{
    let floor = if last >= stored {
        last
    } else {
        stored
    };
    pick(now, floor)
}

/// A picked generation follows the clock and is past everything before it,
/// unless the floor is already the largest generation there is.
pub proof fn lemma_picked_is_past_the_floor(now: u64, floor: u64)
    ensures
        picked(now, floor) >= now,
        picked(now, floor) >= floor,
        floor < u64::MAX ==> picked(now, floor) > floor,
        now > floor ==> picked(now, floor) == now,
{
}

/// Generations handed out one after the other, each with the previous one as
/// `last`, keep growing, whatever the clock and the stores say in between.
pub proof fn lemma_generations_grow(last: u64, stored1: u64, now1: u64, stored2: u64, now2: u64)
    requires
        last < u64::MAX,
    ensures
        ({
            let first = picked(now1, if last >= stored1 { last } else { stored1 });
            let second = picked(now2, if first >= stored2 { first } else { stored2 });
            &&& first > last
            &&& first >= stored1
            &&& (first < u64::MAX ==> second > first)
            &&& second >= first
        }),
{
}

#[verifier::external_type_specification]
#[verifier::external_body]
pub struct ExSystemTime(SystemTime);

/// `SystemTime::now`: the current time. Nothing is known of what it returns.
#[verifier::external_body]
fn system_time_now() -> SystemTime {
    SystemTime::now()
}

/// `SystemTime::duration_since(UNIX_EPOCH)`: how long after the Unix epoch
/// `t` is, or `None` if it is before it. Nothing else is known of it.
#[verifier::external_body]
fn since_unix_epoch(t: &SystemTime) -> Option<Duration> {
    t.duration_since(SystemTime::UNIX_EPOCH).ok()
}

/// `Duration::as_millis`: the whole milliseconds in `d`. Durations are opaque
/// here, so nothing is stated of the result.
#[verifier::external_body]
fn duration_as_millis(d: &Duration) -> u128 {
    d.as_millis()
}

/// The current time in milliseconds since the Unix epoch, or 0 if the clock
/// is set before it.
pub fn now_millis() -> u64 {
    let now = system_time_now();
    match since_unix_epoch(&now) {
        Some(elapsed) => duration_as_millis(&elapsed) as u64,
        None => 0,
    }
}

/// The generations handed out so far in a process.
pub struct Generations {
    last: u64,
}

impl Generations {
    /// The last generation handed out, 0 before the first.
    pub closed spec fn last_view(&self) -> u64 {
        self.last
    }

    /// Nothing handed out yet.
    pub fn new() -> (r: Generations)
        ensures
            r.last_view() == 0,
    {
        Generations { last: 0 }
    }

    /// The last generation handed out, 0 before the first.
    pub fn last(&self) -> (r: u64)
        ensures
            r == self.last_view(),
    {
        self.last
    }

    /// A generation for a node starting now: the clock, but higher than any
    /// handed out before and than `stored`, the one an earlier run recorded
    /// (0 if there is none). It is remembered as the last one handed out.
    pub fn next(&mut self, stored: u64) -> (r: u64)
        ensures
            exists|now: u64|
                r == #[trigger] picked(now, generation_floor(old(self).last_view(), stored)),
            final(self).last_view() == r,
            old(self).last_view() < u64::MAX ==> r > old(self).last_view(),
            stored < u64::MAX ==> r > stored,
    {
        let ghost old_last = self.last_view();
        let now = now_millis();
        let generation = next_generation(self.last, stored, now);
        assert(generation == picked(now, generation_floor(old_last, stored)));
        self.last = generation;
        generation
    }
}

/// A digit sequence is worth at least as much as any prefix of it.
proof fn lemma_decimal_prefix(d: Seq<char>, k: int)
    requires
        0 <= k <= d.len(),
        forall|i: int| 0 <= i < d.len() ==> is_digit(#[trigger] d[i]),
    ensures
        decimal_value(d.take(k)) <= decimal_value(d),
    decreases d.len(),
{
    if k < d.len() {
        assert(d.drop_last().take(k) =~= d.take(k));
        assert forall|i: int| 0 <= i < d.drop_last().len() implies is_digit(
            #[trigger] d.drop_last()[i],
        ) by {
            assert(d.drop_last()[i] == d[i]);
        }
        lemma_decimal_prefix(d.drop_last(), k);
    } else {
        assert(d.take(k) =~= d);
    }
}

/// The number written in `cs[lo..hi]`, read as `u64::from_str` reads it.
fn parse_decimal(cs: &Vec<char>, lo: usize, hi: usize) -> (r: Option<u64>)
    requires
        lo <= hi <= cs@.len(),
    ensures
        r == parse_u64(cs@.subrange(lo as int, hi as int)),
{
    let ghost s = cs@.subrange(lo as int, hi as int);
    let mut start = lo;
    if lo < hi && cs[lo] == '+' {
        start = lo + 1;
    }
    let ghost digits = cs@.subrange(start as int, hi as int);
    assert(digits =~= unsigned_part(s));
    if start == hi {
        return None;
    }
    let mut value: u64 = 0;
    let mut i = start;
    while i < hi
        invariant
            lo <= start <= i <= hi <= cs@.len(),
            digits == cs@.subrange(start as int, hi as int),
            s == cs@.subrange(lo as int, hi as int),
            digits == unsigned_part(s),
            value == decimal_value(digits.take(i - start)),
            forall|j: int| 0 <= j < i - start ==> is_digit(#[trigger] digits[j]),
        decreases hi - i,
    {
        let c = cs[i];
        assert(c == digits[i - start]);
        if !('0' <= c && c <= '9') {
            assert(!is_decimal(digits)) by {
                assert(!is_digit(digits[i - start]));
            }
            return None;
        }
        let d = (c as u32 - 48) as u64;
        assert(digits.take(i - start + 1).drop_last() =~= digits.take(i - start));
        assert(decimal_value(digits.take(i - start + 1)) == value * 10 + d);
        if value > (u64::MAX - d) / 10 {
            proof {
                assert(value * 10 + d > u64::MAX) by (nonlinear_arith)
                    requires
                        value > (u64::MAX - d) / 10,
                        d <= 9,
                ;
                if is_decimal(digits) {
                    lemma_decimal_prefix(digits, i - start + 1);
                }
            }
            return None;
        }
        assert(value * 10 + d <= u64::MAX) by (nonlinear_arith)
            requires
                value <= (u64::MAX - d) / 10,
                d <= 9,
        ;
        value = value * 10 + d;
        i = i + 1;
    }
    assert(digits.take(i - start) =~= digits);
    Some(value)
}

/// The generation written in `text`: a decimal number, possibly surrounded
/// by whitespace, read as `str::trim` followed by `u64::from_str` reads it.
/// `None` if `text` holds anything else.
pub fn parse_generation(text: &str) -> (r: Option<u64>)
    ensures
        r == parse_u64(trim(text@)),
{
    let cs = chars_of(text);
    let n = cs.len();
    let mut lo: usize = 0;
    assert(cs@.skip(0) =~= cs@);
    while lo < n && is_white_space_char(cs[lo])
        invariant
            lo <= n,
            n == cs@.len(),
            cs@ == text@,
            trim_start(cs@) == trim_start(cs@.skip(lo as int)),
        decreases n - lo,
    {
        assert(cs@.skip(lo as int)[0] == cs@[lo as int]);
        assert(cs@.skip(lo as int).skip(1) =~= cs@.skip(lo + 1));
        lo = lo + 1;
    }
    if lo < n {
        assert(cs@.skip(lo as int)[0] == cs@[lo as int]);
    } else {
        assert(cs@.skip(lo as int) =~= Seq::<char>::empty());
    }
    assert(trim_start(cs@) =~= cs@.subrange(lo as int, n as int));
    let mut hi: usize = n;
    while hi > lo && is_white_space_char(cs[hi - 1])
        invariant
            lo <= hi <= n,
            n == cs@.len(),
            cs@ == text@,
            trim(cs@) == trim_end(cs@.subrange(lo as int, hi as int)),
        decreases hi - lo,
    {
        assert(cs@.subrange(lo as int, hi as int).last() == cs@[hi - 1]);
        assert(cs@.subrange(lo as int, hi as int).drop_last() =~= cs@.subrange(
            lo as int,
            hi - 1,
        ));
        hi = hi - 1;
    }
    if hi > lo {
        assert(cs@.subrange(lo as int, hi as int).last() == cs@[hi - 1]);
    }
    assert(trim(cs@) =~= cs@.subrange(lo as int, hi as int));
    parse_decimal(&cs, lo, hi)
}

/// Appends the ASCII decimal digits of `n` to `out`.
fn push_decimal(n: u64, out: &mut Vec<u8>)
    ensures
        final(out)@ == old(out)@ + decimal_digits(n as nat).map_values(|c: char| c as u8),
    decreases n,
{
    if n >= 10 {
        push_decimal(n / 10, out);
    }
    let ghost before = out@;
    out.push((n % 10) as u8 + 48u8);
    proof {
        let digits = decimal_digits(n as nat);
        if n >= 10 {
            assert(digits == decimal_digits((n / 10) as nat).push(((48 + n % 10) as nat) as char));
        }
        assert(out@ =~= old(out)@ + digits.map_values(|c: char| c as u8));
    }
}

/// How a generation is written down in a store: its decimal digits.
pub fn generation_text(generation: u64) -> (r: String)
    ensures
        r@ == decimal_digits(generation as nat),
{
    let mut bytes: Vec<u8> = Vec::new();
    push_decimal(generation, &mut bytes);
    let ghost digits = decimal_digits(generation as nat);
    proof {
        lemma_decimal_digits(generation as nat);
        vstd::utf8::is_ascii_chars_encode_utf8(digits);
        assert(bytes@ =~= vstd::utf8::encode_utf8(digits));
        vstd::utf8::encode_utf8_valid_utf8(digits);
        vstd::utf8::encode_utf8_decode_utf8(digits);
    }
    match string_from_utf8(bytes) {
        Some(text) => text,
        None => {
            assert(false);
            String::new()
        },
    }
}

/// The generation recorded in a store: 0 if there is none yet (`text` is
/// `None`), and `None` if the store holds something that is not a
/// generation, which is an error rather than a reset, since a reset could hand
/// out a generation that peers already know to be outdated.
pub fn stored_generation(text: Option<&str>) -> (r: Option<u64>)
    ensures
        r == (match text {
            None => Some(0u64),
            Some(t) => parse_u64(trim(t@)),
        }),
{
    match text {
        None => Some(0),
        Some(t) => parse_generation(t),
    }
}

/// Digits are not whitespace, so a number written down is read back as is.
proof fn lemma_digits_are_trimmed(d: Seq<char>)
    requires
        forall|i: int| 0 <= i < d.len() ==> is_digit(#[trigger] d[i]),
    ensures
        trim(d) == d,
{
    if d.len() > 0 {
        assert(is_digit(d[0]));
        assert(is_digit(d.last()));
    }
}

/// A store reads back the generation that was written to it.
pub proof fn lemma_store_round_trip(generation: u64)
    ensures
        parse_u64(trim(decimal_digits(generation as nat))) == Some(generation),
{
    let d = decimal_digits(generation as nat);
    lemma_decimal_digits(generation as nat);
    lemma_digits_are_trimmed(d);
}

} // verus!
