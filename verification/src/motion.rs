//! The clock the screens move against, and the arithmetic of its blink.
//!
//! Time is counted from one origin, the moment the process first asks
//! for it, and every animation is a function of `at - origin`, so two
//! screens asked for the same instant agree. The clock can be pinned:
//! a process started with a moment to draw at reads that moment for
//! its whole life, and says so through [`frozen`], so the screens stop
//! asking for ticks. Fetching the flag's and the variable's values is
//! the program's job; [`Clock::start`] decides from them whether and
//! where the clock is pinned, and holds it there.

use vstd::prelude::*;
use core::time::Duration;
use std::time::Instant;
use vstd::string::StrSliceExecFns;
use crate::text::{decimal_spec, digit_char};

verus! {

#[verifier::external_type_specification]
#[verifier::external_body]
pub struct ExInstant(Instant);

/// The whole microseconds in a duration, as `Duration::as_micros`
/// counts them.
pub uninterp spec fn duration_micros(d: Duration) -> u128;

/// `Duration::as_micros`: the whole microseconds in `d`.
#[verifier::external_body]
fn micros(d: Duration) -> (r: u128)
    ensures
        r == duration_micros(d),
{
    d.as_micros()
}

/// The duration `Duration::from_millis` makes of `millis` milliseconds.
pub uninterp spec fn millis_duration(millis: u64) -> Duration;

/// `Duration::from_millis`: a duration of `millis` milliseconds, which
/// is `millis * 1000` microseconds.
pub assume_specification[ core::time::Duration::from_millis ](millis: u64) -> (d: Duration)
    ensures
        d == millis_duration(millis),
        duration_micros(d) == millis as int * 1000,
;

/// The time from `earlier` to `later`, as
/// `Instant::saturating_duration_since` measures it.
pub uninterp spec fn span_between(later: Instant, earlier: Instant) -> Duration;

/// `Instant::saturating_duration_since`: the time from `earlier` to
/// `later`, or zero when `earlier` is not before it. From an instant to
/// itself it is zero, and so it is when `earlier` comes after `later`
/// by a microsecond or more.
#[verifier::external_body]
fn since(later: Instant, earlier: Instant) -> (r: Duration)
    ensures
        r == span_between(later, earlier),
        later == earlier ==> duration_micros(r) == 0,
        duration_micros(span_between(earlier, later)) > 0 ==> duration_micros(r) == 0,
{
    later.saturating_duration_since(earlier)
}

/// The instant `d` after `at`, as `Instant::checked_add` gives it, or
/// none when that instant cannot be represented.
pub uninterp spec fn later_by(at: Instant, d: Duration) -> Option<Instant>;

/// `Instant::checked_add`: the instant `d` after `at`, when it can be
/// represented. That instant is not before `at`, and the time from `at`
/// to it is `d`.
#[verifier::external_body]
fn add_to(at: Instant, d: Duration) -> (r: Option<Instant>)
    ensures
        r == later_by(at, d),
        r matches Some(t) ==> duration_micros(span_between(at, t)) == 0,
        r matches Some(t) ==> duration_micros(span_between(t, at)) == duration_micros(d),
{
    at.checked_add(d)
}

/// `Instant::now`: the wall clock. Nothing is stated of what it reads.
#[verifier::external_body]
fn wall_clock() -> (r: Instant) {
    Instant::now()
}

/// How the login traces blink their caret: lit for the first 600 ms of
/// every 1.2 s, counted from the document's begin.
pub fn caret_blink() -> (r: Duration)
    ensures
        r == millis_duration(1200),
        duration_micros(r) == 1_200_000,
{
    Duration::from_millis(1200)
}

/// The moment the traces are at rest: after the longest boot-in any
/// trace annotates, and two whole caret blinks, so the caret is lit
/// here as it is at 0.
pub fn rest() -> (r: Duration)
    ensures
        r == millis_duration(2400),
        duration_micros(r) == 2_400_000,
{
    Duration::from_millis(2400)
}

/// The text of an optional value.
pub open spec fn opt_text(v: Option<&str>) -> Option<Seq<char>> {
    match v {
        Some(t) => Some(t@),
        None => None,
    }
}

/// The moment a process was asked to draw at, in milliseconds: the
/// `--at-ms` flag's value when the flag is given, else the
/// `CP_ERAS_UI_AT_MS` variable's. A value that is not a number is no
/// value, and does not fall back to the variable.
pub open spec fn at_ms_spec(flag: Option<Seq<char>>, env: Option<Seq<char>>) -> Option<u64> {
    match flag {
        Some(v) => number_spec(trim_spec(v)),
        None => match env {
            Some(v) => number_spec(trim_spec(v)),
            None => None,
        },
    }
}

/// The process's clock: where time starts, and the moment it is pinned
/// to, if it is. A pinned moment is never before the origin.
pub struct Clock {
    origin: Instant,
    pinned: Option<Instant>,
}

impl Clock {
    #[verifier::type_invariant]
    spec fn pinned_after_origin(self) -> bool {
        self.pinned matches Some(t) ==> duration_micros(span_between(self.origin, t)) == 0
    }

    /// Where the clock's time starts.
    pub closed spec fn origin_spec(self) -> Instant {
        self.origin
    }

    /// The moment the clock is pinned to, if it is.
    pub closed spec fn pinned_spec(self) -> Option<Instant> {
        self.pinned
    }

    /// The clock of a process that started at `origin`, given the values
    /// of its `--at-ms` flag and its `CP_ERAS_UI_AT_MS` variable: pinned
    /// exactly when they name a moment, and then to that many
    /// milliseconds after the origin. `None` only when that moment is
    /// past what an `Instant` can hold.
    pub fn start(origin: Instant, flag: Option<&str>, env: Option<&str>) -> (r: Option<Clock>)
        ensures
            at_ms_spec(opt_text(flag), opt_text(env)) is None ==> (r matches Some(c)
                && c.origin_spec() == origin && c.pinned_spec() is None),
            at_ms_spec(opt_text(flag), opt_text(env)) matches Some(ms) ==> match later_by(
                origin,
                millis_duration(ms),
            ) {
                Some(t) => r matches Some(c) && c.origin_spec() == origin && c.pinned_spec()
                    == Some(t) && duration_micros(span_between(t, origin)) == ms * 1000,
                None => r is None,
            },
    {
        let value = match flag {
            Some(v) => Some(v),
            None => env,
        };
        let ms = match value {
            Some(v) => parse_at_ms(v),
            None => None,
        };
        match ms {
            None => Some(Clock { origin, pinned: None }),
            Some(ms) => {
                let d = Duration::from_millis(ms);
                match add_to(origin, d) {
                    Some(t) => Some(Clock { origin, pinned: Some(t) }),
                    None => None,
                }
            },
        }
    }
}

/// The moment the clock started: t = 0 of every trace.
pub fn origin(clock: &Clock) -> (r: Instant)
    ensures
        r == clock.origin_spec(),
{
    clock.origin
}

/// The time to draw at: the pinned moment when the process was started
/// with one, which is never before the origin; the wall clock otherwise.
pub fn now(clock: &Clock) -> (r: Instant)
    ensures
        clock.pinned_spec() matches Some(at) ==> r == at,
        clock.pinned_spec() is Some ==> duration_micros(span_between(clock.origin_spec(), r)) == 0,
{
    proof {
        use_type_invariant(clock);
    }
    match clock.pinned {
        Some(at) => at,
        None => wall_clock(),
    }
}

/// Whether the clock is pinned. A screen with motion asks for ticks only
/// when this is false: a frozen frame never changes.
pub fn frozen(clock: &Clock) -> (r: bool)
    ensures
        r == (clock.pinned_spec() is Some),
{
    clock.pinned.is_some()
}

/// The phase of a discrete two-state cycle of `period` microseconds at
/// `elapsed` microseconds: lit during the first half of every period. A
/// zero period counts as one microsecond.
pub open spec fn lit(period: int, elapsed: int) -> bool {
    let p = if period < 1 { 1 } else { period };
    (elapsed % p) * 2 < p
}

/// A discrete two-state cycle -- `values="1;0" keyTimes="0;0.5"` --
/// `elapsed` after the origin: true during the first half of every
/// `period`. Frame 0 is lit.
pub fn blink_since(period: Duration, elapsed: Duration) -> (r: bool)
    ensures
        r == lit(duration_micros(period) as int, duration_micros(elapsed) as int),
{
    let p = micros(period);
    let p = if p < 1 {
        1
    } else {
        p
    };
    let e = micros(elapsed);
    let phase = e % p;
    phase < p - phase
}

/// The same cycle read at the instant `at`, counted from the clock's
/// origin; an instant before the origin reads as the origin. The origin
/// itself is frame 0, so it is lit.
pub fn blink(clock: &Clock, period: Duration, at: Instant) -> (r: bool)
    ensures
        r == lit(
            duration_micros(period) as int,
            duration_micros(span_between(at, clock.origin_spec())) as int,
        ),
        at == clock.origin_spec() ==> r,
        duration_micros(span_between(clock.origin_spec(), at)) > 0 ==> r,
{
    let elapsed = since(at, clock.origin);
    proof {
        law_frame_zero_is_lit(duration_micros(period) as int);
    }
    blink_since(period, elapsed)
}

/// Frame 0 of every cycle is lit.
pub proof fn law_frame_zero_is_lit(period: int)
    ensures
        lit(period, 0),
{
    let p = if period < 1 { 1 } else { period };
    vstd::arithmetic::div_mod::lemma_small_mod(0, p as nat);
}

/// The rest frame is two whole caret blinks in, so the caret is lit
/// there as it is at the origin.
pub proof fn law_rest_frame_is_lit()
    ensures
        lit(1_200_000, 2_400_000),
        2_400_000int % 1_200_000int == 0,
{
    vstd::arithmetic::div_mod::lemma_mod_multiples_basic(2, 1_200_000);
    assert(2 * 1_200_000int == 2_400_000int);
}

/// The cycle repeats every period.
pub proof fn law_blink_is_periodic(period: int, elapsed: int)
    requires
        period >= 1,
        elapsed >= 0,
    ensures
        lit(period, elapsed + period) == lit(period, elapsed),
{
    vstd::arithmetic::div_mod::lemma_mod_add_multiples_vanish(elapsed, period);
}

/// Within one period the cycle is lit for the first half and dark for
/// the second; a period below a microsecond counts as one, which is
/// always lit.
pub proof fn law_lit_for_the_first_half(period: int, elapsed: int)
    requires
        0 <= elapsed,
    ensures
        period >= 1 && elapsed < period ==> (lit(period, elapsed) <==> 2 * elapsed < period),
        period < 1 ==> lit(period, elapsed),
{
    if period >= 1 && elapsed < period {
        vstd::arithmetic::div_mod::lemma_small_mod(elapsed as nat, period as nat);
    }
    if period < 1 {
        vstd::arithmetic::div_mod::lemma_small_mod(0, 1);
        assert(elapsed % 1 == 0);
    }
}

// ------------------------------------------------------------ the flag

/// The characters Unicode calls white space (its `White_Space`
/// property), which `str::trim` takes off either end.
pub open spec fn is_white(c: char) -> bool {
    let x = c as u32;
    (0x9 <= x <= 0xd) || x == 0x20 || x == 0x85 || x == 0xa0 || x == 0x1680 || (0x2000 <= x
        <= 0x200a) || x == 0x2028 || x == 0x2029 || x == 0x202f || x == 0x205f || x == 0x3000
}

/// `s` without its leading white space.
pub open spec fn trim_front(s: Seq<char>) -> Seq<char>
    decreases s.len(),
{
    if s.len() > 0 && is_white(s[0]) {
        trim_front(s.drop_first())
    } else {
        s
    }
}

/// `s` without its trailing white space.
pub open spec fn trim_back(s: Seq<char>) -> Seq<char>
    decreases s.len(),
{
    if s.len() > 0 && is_white(s.last()) {
        trim_back(s.drop_last())
    } else {
        s
    }
}

/// `s` without white space at either end.
pub open spec fn trim_spec(s: Seq<char>) -> Seq<char> {
    trim_back(trim_front(s))
}

pub open spec fn is_digit(c: char) -> bool {
    '0' <= c <= '9'
}

/// Whether every character of `d` is a decimal digit.
pub open spec fn all_digits(d: Seq<char>) -> bool {
    forall|i: int| 0 <= i < d.len() ==> is_digit(#[trigger] d[i])
}

/// The digits of a number's text: what follows its `+`, if it has one.
pub open spec fn unsigned_part(t: Seq<char>) -> Seq<char> {
    if t.len() > 0 && t[0] == '+' {
        t.drop_first()
    } else {
        t
    }
}

/// The number a run of decimal digits spells.
pub open spec fn digits_value(d: Seq<char>) -> int
    decreases d.len(),
{
    if d.len() == 0 {
        0
    } else {
        digits_value(d.drop_last()) * 10 + (d.last() as int - '0' as int)
    }
}

/// What `u64`'s `parse` makes of a text: an optional `+`, then one or
/// more decimal digits whose number fits in 64 bits; anything else is
/// no number.
pub open spec fn number_spec(t: Seq<char>) -> Option<u64> {
    let d = unsigned_part(t);
    if d.len() > 0 && all_digits(d) && digits_value(d) <= u64::MAX {
        Some(digits_value(d) as u64)
    } else {
        None
    }
}

fn white(c: char) -> (r: bool)
    ensures
        r == is_white(c),
{
    let x = c as u32;
    (0x9 <= x && x <= 0xd) || x == 0x20 || x == 0x85 || x == 0xa0 || x == 0x1680 || (0x2000 <= x
        && x <= 0x200a) || x == 0x2028 || x == 0x2029 || x == 0x202f || x == 0x205f || x == 0x3000
}

proof fn lemma_trim_front(s: Seq<char>, a: int)
    requires
        0 <= a <= s.len(),
        forall|k: int| 0 <= k < a ==> is_white(#[trigger] s[k]),
        a == s.len() || !is_white(s[a]),
    ensures
        trim_front(s) == s.skip(a),
    decreases a,
{
    if a == 0 {
        assert(s.skip(0) =~= s);
    } else {
        assert(s.drop_first().skip(a - 1) =~= s.skip(a));
        assert forall|k: int| 0 <= k < a - 1 implies is_white(#[trigger] s.drop_first()[k]) by {
            assert(s.drop_first()[k] == s[k + 1]);
        }
        lemma_trim_front(s.drop_first(), a - 1);
    }
}

proof fn lemma_trim_back(t: Seq<char>, b: int)
    requires
        0 <= b <= t.len(),
        forall|k: int| b <= k < t.len() ==> is_white(#[trigger] t[k]),
        b == 0 || !is_white(t[b - 1]),
    ensures
        trim_back(t) == t.take(b),
    decreases t.len() - b,
{
    if b == t.len() {
        assert(t.take(b) =~= t);
    } else {
        assert(t.drop_last().take(b) =~= t.take(b));
        assert forall|k: int| b <= k < t.len() - 1 implies is_white(#[trigger] t.drop_last()[k]) by {
            assert(t.drop_last()[k] == t[k]);
        }
        lemma_trim_back(t.drop_last(), b);
    }
}

proof fn lemma_digits_grow(d: Seq<char>, c: char)
    requires
        is_digit(c),
    ensures
        digits_value(d.push(c)) == digits_value(d) * 10 + (c as int - '0' as int),
        digits_value(d) >= 0 ==> digits_value(d.push(c)) >= digits_value(d),
{
    assert(d.push(c).drop_last() =~= d);
}

proof fn lemma_digits_nonneg(d: Seq<char>)
    requires
        forall|i: int| 0 <= i < d.len() ==> is_digit(#[trigger] d[i]),
    ensures
        digits_value(d) >= 0,
    decreases d.len(),
{
    if d.len() > 0 {
        assert forall|i: int| 0 <= i < d.len() - 1 implies is_digit(#[trigger] d.drop_last()[i]) by {
            assert(d.drop_last()[i] == d[i]);
        }
        lemma_digits_nonneg(d.drop_last());
    }
}

/// The moment a process was asked to draw at, in milliseconds, read
/// from the value of its flag or variable: white space either side is
/// allowed, and a value that is not a number is no value.
pub fn parse_at_ms(value: &str) -> (r: Option<u64>)
    ensures
        r == number_spec(trim_spec(value@)),
{
    let n = value.unicode_len();
    let mut a: usize = 0;
    while a < n && white(value.get_char(a))
        invariant
            n == value@.len(),
            a <= n,
            forall|k: int| 0 <= k < a ==> is_white(#[trigger] value@[k]),
        decreases n - a,
    {
        a = a + 1;
    }
    let mut b: usize = n;
    while b > a && white(value.get_char(b - 1))
        invariant
            n == value@.len(),
            a <= b <= n,
            forall|k: int| b <= k < n ==> is_white(#[trigger] value@[k]),
        decreases b - a,
    {
        b = b - 1;
    }
    let ghost t = value@.subrange(a as int, b as int);
    proof {
        lemma_trim_front(value@, a as int);
        let f = value@.skip(a as int);
        assert forall|k: int| b - a <= k < f.len() implies is_white(#[trigger] f[k]) by {
            assert(f[k] == value@[k + a]);
        }
        if b > a {
            assert(f[b - a - 1] == value@[b - 1]);
        }
        lemma_trim_back(f, b - a);
        assert(f.take(b - a) =~= t);
    }
    assert(trim_spec(value@) == t);
    let mut i: usize = a;
    if i < b && value.get_char(i) == '+' {
        i = i + 1;
    }
    let start = i;
    let ghost d = value@.subrange(start as int, b as int);
    assert(d =~= unsigned_part(t));
    if start == b {
        return None;
    }
    let mut v: u64 = 0;
    let mut over = false;
    assert(value@.subrange(start as int, start as int) =~= Seq::<char>::empty());
    while i < b
        invariant
            n == value@.len(),
            start <= i <= b <= n,
            start < b,
            d == value@.subrange(start as int, b as int),
            trim_spec(value@) == t,
            d == unsigned_part(t),
            forall|k: int| start <= k < i ==> is_digit(#[trigger] value@[k]),
            over ==> digits_value(value@.subrange(start as int, i as int)) > u64::MAX,
            !over ==> v == digits_value(value@.subrange(start as int, i as int)),
        decreases b - i,
    {
        let c = value.get_char(i);
        if !('0' <= c && c <= '9') {
            assert(!is_digit(d[i - start]));
            return None;
        }
        let ghost before = value@.subrange(start as int, i as int);
        assert(value@.subrange(start as int, i + 1) =~= before.push(c));
        proof {
            assert forall|k: int| 0 <= k < before.len() implies is_digit(#[trigger] before[k]) by {
                assert(before[k] == value@[start + k]);
            }
            lemma_digits_nonneg(before);
            lemma_digits_grow(before, c);
        }
        let digit = ((c as u32) - ('0' as u32)) as u64;
        if !over {
            if v > (u64::MAX - digit) / 10 {
                assert(v * 10 + digit > u64::MAX) by (nonlinear_arith)
                    requires
                        v > (u64::MAX - digit) / 10,
                        digit <= 9,
                ;
                over = true;
            } else {
                assert(v * 10 + digit <= u64::MAX) by (nonlinear_arith)
                    requires
                        v <= (u64::MAX - digit) / 10,
                        digit <= 9,
                ;
                v = v * 10 + digit;
            }
        }
        i = i + 1;
    }
    assert(all_digits(d)) by {
        assert forall|k: int| 0 <= k < d.len() implies is_digit(#[trigger] d[k]) by {
            assert(d[k] == value@[start + k]);
        }
    }
    if over {
        None
    } else {
        Some(v)
    }
}

/// A decimal digit's character stands for that digit.
proof fn lemma_digit_char(d: int)
    requires
        0 <= d < 10,
    ensures
        is_digit(digit_char(d)),
        digit_char(d) as int - '0' as int == d,
{
}

/// A number written in decimal is one or more digits, and they spell it:
/// what the clock's reader takes a number to be reads back every number
/// the library writes.
pub proof fn law_decimal_reads_back(n: nat)
    ensures
        decimal_spec(n).len() > 0,
        all_digits(decimal_spec(n)),
        digits_value(decimal_spec(n)) == n,
    decreases n,
{
    let s = decimal_spec(n);
    if n < 10 {
        lemma_digit_char(n as int);
        assert(s.drop_last() =~= Seq::<char>::empty());
        assert(digits_value(s.drop_last()) == 0);
        assert(digits_value(s) == digits_value(s.drop_last()) * 10 + (s.last() as int - '0' as int));
    } else {
        law_decimal_reads_back(n / 10);
        lemma_digit_char((n % 10) as int);
        let h = decimal_spec(n / 10);
        assert(s == h + seq![digit_char((n % 10) as int)]);
        assert(s.drop_last() =~= h);
        assert(digits_value(s) == digits_value(h) * 10 + (s.last() as int - '0' as int));
        assert((n / 10) * 10 + n % 10 == n);
        assert forall|i: int| 0 <= i < s.len() implies is_digit(#[trigger] s[i]) by {
            if i < h.len() {
                assert(s[i] == h[i]);
            }
        }
    }
}

/// The flag alone decides when it is given: what the variable holds,
/// or whether it is set at all, changes nothing. The variable, when it
/// is read, is read as the flag would be; with neither there is no
/// moment. And a moment written in decimal, as `--at-ms 2400` writes
/// it, is read as that many milliseconds -- with white space around it,
/// or a `+` before it, too.
pub proof fn law_the_flag_decides(v: Seq<char>, e1: Option<Seq<char>>, e2: Option<Seq<char>>, n: u64)
    ensures
        at_ms_spec(Some(v), e1) == at_ms_spec(Some(v), e2),
        at_ms_spec(None, Some(v)) == at_ms_spec(Some(v), None),
        at_ms_spec(None, None) is None,
        at_ms_spec(Some(decimal_spec(n as nat)), e1) == Some(n),
        at_ms_spec(None, Some(decimal_spec(n as nat))) == Some(n),
        at_ms_spec(Some(seq![' '] + decimal_spec(n as nat) + seq!['\n']), e1) == Some(n),
        at_ms_spec(Some(seq!['+'] + decimal_spec(n as nat)), e1) == Some(n),
{
    let s = decimal_spec(n as nat);
    law_decimal_reads_back(n as nat);
    assert(!is_white(s[0]) && s[0] != '+') by {
        assert(is_digit(s[0]));
    }
    assert(!is_white(s.last())) by {
        assert(is_digit(s[s.len() - 1]));
    }
    assert(trim_front(s) == s);
    assert(trim_back(s) == s);
    assert(unsigned_part(s) == s);
    let padded = seq![' '] + s + seq!['\n'];
    assert(padded.drop_first() =~= s + seq!['\n']);
    assert(trim_front(s + seq!['\n']) == s + seq!['\n']) by {
        assert((s + seq!['\n'])[0] == s[0]);
    }
    assert(trim_front(padded) == s + seq!['\n']);
    assert((s + seq!['\n']).drop_last() =~= s);
    assert(trim_back(s + seq!['\n']) == s);
    let signed = seq!['+'] + s;
    assert(trim_front(signed) == signed);
    assert(signed.last() == s.last());
    assert(trim_back(signed) == signed);
    assert(unsigned_part(signed) =~= s);
}

} // verus!
