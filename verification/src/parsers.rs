use crate::errors::DurationError;
use vstd::prelude::*;
use vstd::string::*;

verus! {

/// The largest duration, in minutes, the parser accepts.
pub const MAX_MINUTES: i64 = 1000000000;

/// The most fraction digits a decimal hour value may carry.
pub const MAX_FRACTION_DIGITS: usize = 9;

/// Digit values larger than this are only ever reported as "too large".
const VALUE_LIMIT: i64 = 1000000000000000;

pub open spec fn is_digit(c: char) -> bool {
    '0' <= c && c <= '9'
}

pub open spec fn digit_val(c: char) -> int {
    c as int - 48
}

pub open spec fn is_space(c: char) -> bool {
    c == ' ' || c == '\t'
}

/// The number a digit run denotes, most significant digit first.
pub open spec fn digits_val(s: Seq<char>) -> int
    decreases s.len(),
{
    if s.len() == 0 {
        0
    } else {
        digits_val(s.drop_last()) * 10 + digit_val(s.last())
    }
}

/// The first index at or after `i` that does not hold a digit.
pub open spec fn scan_digits(t: Seq<char>, i: int) -> int
    recommends
        0 <= i <= t.len(),
    decreases t.len() - i,
{
    if i < t.len() && is_digit(t[i]) {
        scan_digits(t, i + 1)
    } else {
        i
    }
}

/// The first index at or after `i` that does not hold a space.
pub open spec fn scan_spaces(t: Seq<char>, i: int) -> int
    recommends
        0 <= i <= t.len(),
    decreases t.len() - i,
{
    if i < t.len() && is_space(t[i]) {
        scan_spaces(t, i + 1)
    } else {
        i
    }
}

/// The first index that does not hold leading whitespace.
pub open spec fn trim_start_idx(s: Seq<char>, i: int) -> int
    recommends
        0 <= i <= s.len(),
    decreases s.len() - i,
{
    if i < s.len() && is_space(s[i]) {
        trim_start_idx(s, i + 1)
    } else {
        i
    }
}

/// The index just past the last non-whitespace character, scanning back
/// from `j`.
pub open spec fn trim_end_idx(s: Seq<char>, j: int) -> int
    recommends
        0 <= j <= s.len(),
    decreases j,
{
    if j > 0 && is_space(s[j - 1]) {
        trim_end_idx(s, j - 1)
    } else {
        j
    }
}

/// The input with leading and trailing whitespace removed.
pub open spec fn spec_trimmed(s: Seq<char>) -> Seq<char> {
    let lo = trim_start_idx(s, 0);
    let hi = trim_end_idx(s, s.len() as int);
    if lo <= hi {
        s.subrange(lo, hi)
    } else {
        Seq::<char>::empty()
    }
}

pub open spec fn pow10(k: nat) -> int
    decreases k,
{
    if k == 0 {
        1
    } else {
        10 * pow10((k - 1) as nat)
    }
}

/// Minutes denoted by the fraction digits of a decimal hour count:
/// sixty times the fraction, rounded down.
pub open spec fn frac_minutes(fr: Seq<char>) -> int {
    (60 * digits_val(fr)) / pow10(fr.len())
}

/// The hours part of a trimmed duration string: the minutes it denotes and
/// the index just past its `h`, if the digits starting the string continue
/// as a well-formed hours part.
pub open spec fn hours_part(t: Seq<char>, d1e: int) -> Option<(int, int)> {
    if d1e < t.len() && (t[d1e] == 'h' || t[d1e] == 'H') {
        Some((60 * digits_val(t.subrange(0, d1e)), d1e + 1))
    } else if d1e < t.len() && t[d1e] == '.' {
        let f_end = scan_digits(t, d1e + 1);
        if f_end > d1e + 1 && f_end - (d1e + 1) <= MAX_FRACTION_DIGITS as int && f_end < t.len() && (
        t[f_end] == 'h' || t[f_end] == 'H') {
            Some(
                (
                    60 * digits_val(t.subrange(0, d1e)) + frac_minutes(
                        t.subrange(d1e + 1, f_end),
                    ),
                    f_end + 1,
                ),
            )
        } else {
            None
        }
    } else {
        None
    }
}

/// What may follow the hours part: optional spaces, then either the end of
/// the string or a minutes part that runs to the end.
pub open spec fn tail_minutes(t: Seq<char>, j0: int) -> Option<int> {
    let j = scan_spaces(t, j0);
    if j == t.len() {
        Some(0)
    } else {
        let m_end = scan_digits(t, j);
        if m_end > j && m_end < t.len() && (t[m_end] == 'm' || t[m_end] == 'M') && m_end + 1
            == t.len() {
            Some(digits_val(t.subrange(j, m_end)))
        } else {
            None
        }
    }
}

/// The total minutes a trimmed, non-empty duration string denotes, if it
/// matches the grammar: digits then `m`; or digits (with an optional dot
/// fraction) then `h`, optionally followed by spaces and a minutes part.
/// Case-insensitive in the unit letters.
pub open spec fn spec_duration_minutes(t: Seq<char>) -> Option<int> {
    let d1e = scan_digits(t, 0);
    if d1e == 0 {
        None
    } else if d1e < t.len() && (t[d1e] == 'm' || t[d1e] == 'M') {
        if d1e + 1 == t.len() {
            Some(digits_val(t.subrange(0, d1e)))
        } else {
            None
        }
    } else {
        match hours_part(t, d1e) {
            Some((hm, j0)) => match tail_minutes(t, j0) {
                Some(m) => Some(hm + m),
                None => None,
            },
            None => None,
        }
    }
}

/// A digit run denotes a non-negative number, and grows by one digit at a
/// time.
proof fn lemma_digits_val_step(t: Seq<char>, from: int, j: int)
    requires
        0 <= from <= j < t.len(),
    ensures
        digits_val(t.subrange(from, j + 1)) == digits_val(t.subrange(from, j)) * 10 + digit_val(
            t[j],
        ),
{
    assert(t.subrange(from, j + 1).drop_last() =~= t.subrange(from, j));
    assert(t.subrange(from, j + 1).last() == t[j]);
}

/// A run of digits denotes a non-negative number.
proof fn lemma_digits_val_nonneg(s: Seq<char>)
    requires
        forall|i: int| 0 <= i < s.len() ==> is_digit(#[trigger] s[i]),
    ensures
        digits_val(s) >= 0,
    decreases s.len(),
{
    if s.len() > 0 {
        let pre = s.drop_last();
        assert(forall|i: int| 0 <= i < pre.len() ==> is_digit(#[trigger] pre[i]));
        lemma_digits_val_nonneg(pre);
    }
}

/// A run of `k` digits denotes less than ten to the `k`.
proof fn lemma_digits_val_upper(s: Seq<char>)
    requires
        forall|i: int| 0 <= i < s.len() ==> is_digit(#[trigger] s[i]),
    ensures
        0 <= digits_val(s) < pow10(s.len()),
    decreases s.len(),
{
    if s.len() > 0 {
        let pre = s.drop_last();
        assert(forall|i: int| 0 <= i < pre.len() ==> is_digit(#[trigger] pre[i]));
        lemma_digits_val_upper(pre);
        assert(is_digit(s.last()));
    }
}

/// Every character a digit scan passes over is a digit.
proof fn lemma_scan_digits_range(t: Seq<char>, i: int)
    requires
        0 <= i <= t.len(),
    ensures
        i <= scan_digits(t, i) <= t.len(),
        forall|j: int| i <= j < scan_digits(t, i) ==> is_digit(#[trigger] t[j]),
    decreases t.len() - i,
{
    if i < t.len() && is_digit(t[i]) {
        lemma_scan_digits_range(t, i + 1);
    }
}

/// The result of one digit scan, reported exactly up to `VALUE_LIMIT`.
struct ScannedNumber {
    /// Index just past the last digit.
    end: usize,
    /// The run's value, or `VALUE_LIMIT + 1` when the value exceeds the
    /// limit.
    value: i64,
}

/// True iff the character at `i` is a space or a tab.
fn space_at(s: &str, i: usize) -> (b: bool)
    requires
        i < s@.len(),
    ensures
        b == is_space(s@[i as int]),
{
    let c = s.get_char(i);
    c == ' ' || c == '\t'
}

/// True iff the character at `i` is a space or a tab.
fn space_at_vec(tv: &Vec<char>, i: usize) -> (b: bool)
    requires
        i < tv@.len(),
    ensures
        b == is_space(tv@[i as int]),
{
    let c = tv[i];
    c == ' ' || c == '\t'
}

/// True iff the character at `i` is a decimal digit.
fn digit_at(tv: &Vec<char>, i: usize) -> (b: bool)
    requires
        i < tv@.len(),
    ensures
        b == is_digit(tv@[i as int]),
{
    let c = tv[i];
    '0' <= c && c <= '9'
}

/// Scans the digit run starting at `from` and evaluates it, saturating just
/// above `VALUE_LIMIT`.
fn scan_number(tv: &Vec<char>, from: usize) -> (r: ScannedNumber)
    requires
        from <= tv@.len(),
    ensures
        r.end as int == scan_digits(tv@, from as int),
        from <= r.end <= tv@.len(),
        0 <= r.value <= VALUE_LIMIT + 1,
        ({
            let v = digits_val(tv@.subrange(from as int, r.end as int));
            if v <= VALUE_LIMIT {
                r.value as int == v
            } else {
                r.value == VALUE_LIMIT + 1
            }
        }),
{
    let t = tv;
    let ghost tseq = tv@;
    let mut j: usize = from;
    let mut value: i64 = 0;
    proof {
        assert(tseq.subrange(from as int, from as int) =~= Seq::<char>::empty());
    }
    loop
        invariant
            from <= j <= tseq.len(),
            tseq == tv@,
            scan_digits(tseq, from as int) == scan_digits(tseq, j as int),
            forall|k: int| from <= k < j ==> is_digit(#[trigger] tseq[k]),
            ({
                let v = digits_val(tseq.subrange(from as int, j as int));
                if v <= VALUE_LIMIT {
                    value as int == v
                } else {
                    value == VALUE_LIMIT + 1
                }
            }),
            0 <= value <= VALUE_LIMIT + 1,
        ensures
            from <= j <= tseq.len(),
            j as int == scan_digits(tseq, from as int),
            ({
                let v = digits_val(tseq.subrange(from as int, j as int));
                if v <= VALUE_LIMIT {
                    value as int == v
                } else {
                    value == VALUE_LIMIT + 1
                }
            }),
            0 <= value <= VALUE_LIMIT + 1,
        decreases tseq.len() - j,
    {
        if !(j < tv.len() && digit_at(tv, j)) {
            break ;
        }
        let c = tv[j];
        let d: i64 = (c as u32) as i64 - 48;
        proof {
            lemma_digits_val_step(tseq, from as int, j as int);
            lemma_digits_val_nonneg(tseq.subrange(from as int, j as int));
        }
        if value <= VALUE_LIMIT {
            let next = value * 10 + d;
            if next > VALUE_LIMIT {
                value = VALUE_LIMIT + 1;
            } else {
                value = next;
            }
        }
        j = j + 1;
    }
    proof {
        lemma_digits_val_nonneg(tseq.subrange(from as int, j as int));
    }
    ScannedNumber { end: j, value }
}

/// Parses and formats the duration strings the command line uses, such as
/// `2h 30m`, `1.5h` or `45m`.
pub struct DurationParser;

impl DurationParser {
    /// Parses a duration string into whole minutes.
    ///
    /// The input is trimmed first. It must then be digits followed by `m`,
    /// or digits (with an optional decimal fraction) followed by `h`,
    /// optionally followed by spaces and a minutes part; unit letters may be
    /// upper case. A fraction of an hour counts as sixty times its value,
    /// rounded down to whole minutes. Empty input, input off the grammar,
    /// an all-zero duration, and a duration over `MAX_MINUTES` are the four
    /// rejections.
    pub fn parse(input: &str) -> (r: Result<i64, DurationError>)
        ensures
            ({
                let t = spec_trimmed(input@);
                &&& (t.len() == 0 ==> r == Err::<i64, DurationError>(DurationError::Empty))
                &&& (t.len() > 0 ==> match spec_duration_minutes(t) {
                    None => r == Err::<i64, DurationError>(DurationError::BadFormat),
                    Some(v) => {
                        if v == 0 {
                            r == Err::<i64, DurationError>(DurationError::Zero)
                        } else if v > MAX_MINUTES {
                            r == Err::<i64, DurationError>(DurationError::TooLarge)
                        } else {
                            r matches Ok(m) && m as int == v
                        }
                    },
                })
            }),
    {
        let ghost s = input@;
        let n = input.unicode_len();
        // trim
        let mut lo: usize = 0;
        loop
            invariant
                s == input@,
                0 <= lo <= n,
                n == s.len(),
                trim_start_idx(s, 0) == trim_start_idx(s, lo as int),
            ensures
                0 <= lo <= n,
                lo as int == trim_start_idx(s, 0),
            decreases n - lo,
        {
            if !(lo < n && space_at(input, lo)) {
                break ;
            }
            lo = lo + 1;
        }
        let mut hi: usize = n;
        loop
            invariant
                s == input@,
                0 <= hi <= n,
                n == s.len(),
                trim_end_idx(s, n as int) == trim_end_idx(s, hi as int),
            ensures
                0 <= hi <= n,
                hi as int == trim_end_idx(s, n as int),
            decreases hi,
        {
            if !(hi > 0 && space_at(input, hi - 1)) {
                break ;
            }
            hi = hi - 1;
        }
        if lo >= hi {
            proof {
                if lo as int <= hi as int {
                    assert(spec_trimmed(s) =~= s.subrange(lo as int, hi as int));
                }
            }
            return Err(DurationError::Empty);
        }
        // materialize the trimmed characters
        let mut tv: Vec<char> = Vec::new();
        let mut k: usize = lo;
        while k < hi
            invariant
                s == input@,
                lo <= k <= hi <= n,
                n == s.len(),
                tv@.len() == k - lo,
                forall|j: int| 0 <= j < tv@.len() ==> tv@[j] == #[trigger] s[lo + j],
            decreases hi - k,
        {
            tv.push(input.get_char(k));
            k = k + 1;
        }
        let ghost t = spec_trimmed(s);
        proof {
            assert(t =~= s.subrange(lo as int, hi as int));
            assert forall|j: int| 0 <= j < tv@.len() implies tv@[j] == t[j] by {
                assert(tv@[j] == s[lo + j]);
                assert(t[j] == s.subrange(lo as int, hi as int)[j]);
            }
            assert(tv@ =~= t);
        }
        Self::parse_trimmed(&tv)
    }

    /// Parses an already-trimmed, non-empty duration string.
    fn parse_trimmed(tv: &Vec<char>) -> (r: Result<i64, DurationError>)
        requires
            tv@.len() > 0,
        ensures
            match spec_duration_minutes(tv@) {
                None => r == Err::<i64, DurationError>(DurationError::BadFormat),
                Some(v) => {
                    if v == 0 {
                        r == Err::<i64, DurationError>(DurationError::Zero)
                    } else if v > MAX_MINUTES {
                        r == Err::<i64, DurationError>(DurationError::TooLarge)
                    } else {
                        r matches Ok(m) && m as int == v
                    }
                },
            },
    {
        let ghost t = tv@;
        let first = scan_number(tv, 0);
        let d1e = first.end;
        if d1e == 0 {
            return Err(DurationError::BadFormat);
        }
        if d1e < tv.len() && {
            let c = tv[d1e];
            c == 'm' || c == 'M'
        } {
            // minutes only
            if d1e + 1 == tv.len() {
                return Self::finish(0, 0, first.value);
            } else {
                return Err(DurationError::BadFormat);
            }
        }
        // hours part, with an optional fraction
        let mut frac_min: i64 = 0;
        let after_h: usize;
        if d1e < tv.len() && tv[d1e] == 'h' || d1e < tv.len() && tv[d1e] == 'H' {
            after_h = d1e + 1;
        } else if d1e < tv.len() && tv[d1e] == '.' {
            let fr = scan_number(tv, d1e + 1);
            let f_end = fr.end;
            if !(f_end > d1e + 1 && f_end - (d1e + 1) <= MAX_FRACTION_DIGITS && f_end < tv.len()
                && {
                let c = tv[f_end];
                c == 'h' || c == 'H'
            }) {
                return Err(DurationError::BadFormat);
            }
            let k = f_end - (d1e + 1);
            let mut p: i64 = 1;
            let mut ki: usize = 0;
            while ki < k
                invariant
                    0 <= ki <= k <= 9,
                    p as int == pow10(ki as nat),
                    0 < p <= 1000000000,
                decreases k - ki,
            {
                proof {
                    lemma_pow10_mono((ki + 1) as nat, 9nat);
                    assert(pow10(9nat) == 1000000000) by {
                        reveal_with_fuel(pow10, 11);
                    }
                }
                p = p * 10;
                ki = ki + 1;
            }
            proof {
                lemma_scan_digits_range(t, d1e + 1);
                lemma_digits_val_nonneg(t.subrange(d1e + 1, f_end as int));
                lemma_pow10_pos(k as nat);
                lemma_pow10_mono(k as nat, 9nat);
                assert(pow10(9nat) == 1000000000) by {
                    reveal_with_fuel(pow10, 11);
                }
            }
            proof {
                lemma_digits_val_upper(t.subrange(d1e + 1, f_end as int));
            }
            // nine digits at most, so the exact value fits comfortably
            let numer: u64 = 60 * (fr.value as u64);
            frac_min = (numer / (p as u64)) as i64;
            proof {
                lemma_div_bound(numer as int, p as int);
                vstd::arithmetic::div_mod::lemma_div_is_ordered(
                    numer as int,
                    60 * (p as int),
                    p as int,
                );
                vstd::arithmetic::div_mod::lemma_div_multiples_vanish(60, p as int);
                assert(frac_min as int == frac_minutes(t.subrange(d1e + 1, f_end as int)));
            }
            after_h = f_end + 1;
        } else {
            return Err(DurationError::BadFormat);
        }
        // optional spaces, then an optional minutes part that must end the
        // string
        let mut j: usize = after_h;
        loop
            invariant
                after_h <= j <= t.len(),
                t == tv@,
                scan_spaces(t, after_h as int) == scan_spaces(t, j as int),
            ensures
                after_h <= j <= t.len(),
                j as int == scan_spaces(t, after_h as int),
            decreases t.len() - j,
        {
            if !(j < tv.len() && space_at_vec(tv, j)) {
                break ;
            }
            j = j + 1;
        }
        if j == tv.len() {
            return Self::finish(first.value, frac_min, 0);
        }
        let ms = scan_number(tv, j);
        let m_end = ms.end;
        if m_end > j && m_end < tv.len() && {
            let c = tv[m_end];
            c == 'm' || c == 'M'
        } && m_end + 1 == tv.len() {
            Self::finish(first.value, frac_min, ms.value)
        } else {
            Err(DurationError::BadFormat)
        }
    }


    /// Renders a non-negative whole-minute duration for display: `XhYm`
    /// when both parts are present, `Xh` or `Ym` when only one is.
    pub fn format(minutes: i64) -> (r: String)
        requires
            0 <= minutes,
        ensures
            r@ == spec_format_minutes(minutes as int),
    {
        let mu = minutes as u64;
        let h = mu / 60;
        let mm = mu % 60;
        let mut out = String::new();
        if h > 0 && mm > 0 {
            push_decimal(&mut out, h);
            out.append("h ");
            push_decimal(&mut out, mm);
            out.append("m");
        } else if h > 0 {
            push_decimal(&mut out, h);
            out.append("h");
        } else {
            push_decimal(&mut out, mm);
            out.append("m");
        }
        proof {
            assert(out@ =~= spec_format_minutes(minutes as int));
        }
        out
    }

    /// Combines the saturated hour, fraction and minute values into the
    /// final verdict. `hours` and `mins` are exact up to `VALUE_LIMIT` and
    /// saturated just above it; the true total is over `MAX_MINUTES`
    /// exactly when the computed one is.
    fn finish(hours: i64, frac_min: i64, mins: i64) -> (r: Result<i64, DurationError>)
        requires
            0 <= hours <= VALUE_LIMIT + 1,
            0 <= frac_min <= 60,
            0 <= mins <= VALUE_LIMIT + 1,
        ensures
            ({
                let total = hours * 60 + frac_min + mins;
                if total == 0 {
                    r == Err::<i64, DurationError>(DurationError::Zero)
                } else if total > MAX_MINUTES {
                    r == Err::<i64, DurationError>(DurationError::TooLarge)
                } else {
                    r matches Ok(m) && m as int == total
                }
            }),
    {
        let total = hours * 60 + frac_min + mins;
        if total == 0 {
            Err(DurationError::Zero)
        } else if total > MAX_MINUTES {
            Err(DurationError::TooLarge)
        } else {
            Ok(total)
        }
    }
}


/// The character for one decimal digit.
pub open spec fn digit_char(d: int) -> char {
    if d == 0 {
        '0'
    } else if d == 1 {
        '1'
    } else if d == 2 {
        '2'
    } else if d == 3 {
        '3'
    } else if d == 4 {
        '4'
    } else if d == 5 {
        '5'
    } else if d == 6 {
        '6'
    } else if d == 7 {
        '7'
    } else if d == 8 {
        '8'
    } else {
        '9'
    }
}

/// The decimal rendering of a non-negative number, no leading zeros.
pub open spec fn dec_rep(n: int) -> Seq<char>
    recommends
        n >= 0,
    decreases n,
{
    if n < 10 {
        seq![digit_char(n)]
    } else {
        dec_rep(n / 10).push(digit_char(n % 10))
    }
}

/// What `format` renders: `XhYm`, `Xh` or `Ym`, the minutes-only form
/// carrying the zero when the whole duration is zero.
pub open spec fn spec_format_minutes(m: int) -> Seq<char>
    recommends
        m >= 0,
{
    let h = m / 60;
    let mm = m % 60;
    if h > 0 && mm > 0 {
        dec_rep(h) + "h "@ + dec_rep(mm) + "m"@
    } else if h > 0 {
        dec_rep(h) + "h"@
    } else {
        dec_rep(mm) + "m"@
    }
}

/// The one-character string for a decimal digit.
fn digit_str(d: u64) -> (s: &'static str)
    requires
        d < 10,
    ensures
        s@ =~= seq![digit_char(d as int)],
{
    proof {
        reveal_strlit("0");
        reveal_strlit("1");
        reveal_strlit("2");
        reveal_strlit("3");
        reveal_strlit("4");
        reveal_strlit("5");
        reveal_strlit("6");
        reveal_strlit("7");
        reveal_strlit("8");
        reveal_strlit("9");
    }
    if d == 0 {
        "0"
    } else if d == 1 {
        "1"
    } else if d == 2 {
        "2"
    } else if d == 3 {
        "3"
    } else if d == 4 {
        "4"
    } else if d == 5 {
        "5"
    } else if d == 6 {
        "6"
    } else if d == 7 {
        "7"
    } else if d == 8 {
        "8"
    } else {
        "9"
    }
}

/// Appends the decimal rendering of `n`.
fn push_decimal(out: &mut String, n: u64)
    ensures
        final(out)@ == old(out)@ + dec_rep(n as int),
    decreases n,
{
    if n < 10 {
        out.append(digit_str(n));
    } else {
        push_decimal(out, n / 10);
        out.append(digit_str(n % 10));
        proof {
            assert(final(out)@ =~= old(out)@ + dec_rep(n as int));
        }
    }
    proof {
        assert(final(out)@ =~= old(out)@ + dec_rep(n as int));
    }
}

/// Powers of ten are positive.
proof fn lemma_pow10_pos(k: nat)
    ensures
        pow10(k) > 0,
    decreases k,
{
    if k > 0 {
        lemma_pow10_pos((k - 1) as nat);
    }
}

/// Powers of ten grow with the exponent.
proof fn lemma_pow10_mono(a: nat, b: nat)
    requires
        a <= b,
    ensures
        pow10(a) <= pow10(b),
    decreases b,
{
    if a < b {
        lemma_pow10_mono(a, (b - 1) as nat);
        lemma_pow10_pos((b - 1) as nat);
    }
}

/// Division of a bounded non-negative number by a positive one stays in
/// bounds.
proof fn lemma_div_bound(a: int, b: int)
    requires
        0 <= a,
        0 < b,
    ensures
        0 <= a / b <= a,
{
    vstd::arithmetic::div_mod::lemma_div_pos_is_pos(a, b);
    vstd::arithmetic::div_mod::lemma_div_nonincreasing(a, b);
}

} // verus!
