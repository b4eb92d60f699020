//! The time codec: `H:MM` / `HH:MM` strings to minutes from midnight and
//! back, with the round-trip law relating the two directions.

use vstd::prelude::*;

use crate::domain::SchedulerError;
use crate::text::{
    chars_of, dec_digit_char, digit_char, is_digit, push_char, spec_dec, spec_is_digit,
    spec_digit_val, u64_to_string,
};

verus! {

/// The accepted shape: one or two hour digits, a colon, two minute digits.
pub open spec fn hhmm_shape(s: Seq<char>) -> bool {
    ||| (s.len() == 4 && spec_is_digit(s[0]) && s[1] == ':' && spec_is_digit(s[2])
        && spec_is_digit(s[3]))
    ||| (s.len() == 5 && spec_is_digit(s[0]) && spec_is_digit(s[1]) && s[2] == ':'
        && spec_is_digit(s[3]) && spec_is_digit(s[4]))
}

pub open spec fn hhmm_hour(s: Seq<char>) -> int {
    if s.len() == 4 {
        spec_digit_val(s[0])
    } else {
        spec_digit_val(s[0]) * 10 + spec_digit_val(s[1])
    }
}

pub open spec fn hhmm_minute(s: Seq<char>) -> int {
    if s.len() == 4 {
        spec_digit_val(s[2]) * 10 + spec_digit_val(s[3])
    } else {
        spec_digit_val(s[3]) * 10 + spec_digit_val(s[4])
    }
}

/// A time string this codec accepts: correct shape, hour below 24,
/// minute below 60.
pub open spec fn valid_hhmm(s: Seq<char>) -> bool {
    hhmm_shape(s) && hhmm_hour(s) <= 23 && hhmm_minute(s) <= 59
}

/// The minutes-from-midnight value of a valid time string.
pub open spec fn hhmm_value(s: Seq<char>) -> int {
    hhmm_hour(s) * 60 + hhmm_minute(s)
}

/// Parses the character range `from..to` as a clock time.
pub fn parse_hhmm_range(v: &Vec<char>, from: usize, to: usize) -> (r: Option<i32>)
    requires
        from <= to <= v@.len(),
    ensures
        ({
            let s = v@.subrange(from as int, to as int);
            &&& valid_hhmm(s) ==> r == Some((hhmm_value(s)) as i32)
            &&& !valid_hhmm(s) ==> r is None
            &&& r matches Some(m) ==> 0 <= m <= 1439
        }),
{
    let ghost s = v@.subrange(from as int, to as int);
    let len = to - from;
    if len == 4 {
        if is_digit(v[from]) && v[from + 1] == ':' && is_digit(v[from + 2]) && is_digit(
            v[from + 3],
        ) {
            let h: u32 = v[from] as u32 - '0' as u32;
            let m: u32 = (v[from + 2] as u32 - '0' as u32) * 10 + (v[from + 3] as u32
                - '0' as u32);
            if h <= 23 && m <= 59 {
                Some((h * 60 + m) as i32)
            } else {
                None
            }
        } else {
            None
        }
    } else if len == 5 {
        if is_digit(v[from]) && is_digit(v[from + 1]) && v[from + 2] == ':' && is_digit(
            v[from + 3],
        ) && is_digit(v[from + 4]) {
            let h: u32 = (v[from] as u32 - '0' as u32) * 10 + (v[from + 1] as u32 - '0' as u32);
            let m: u32 = (v[from + 3] as u32 - '0' as u32) * 10 + (v[from + 4] as u32
                - '0' as u32);
            if h <= 23 && m <= 59 {
                Some((h * 60 + m) as i32)
            } else {
                None
            }
        } else {
            None
        }
    } else {
        None
    }
}

/// The rejection reply of the time parser.
pub open spec fn is_bad_time(r: Result<i32, SchedulerError>, s: Seq<char>) -> bool {
    &&& r matches Err(e)
    &&& e matches SchedulerError::BadTime(t)
    &&& t@ == s
}

/// Parses exactly `H:MM` or `HH:MM`, rejecting hours above 23 and minutes
/// above 59.
pub fn parse_hhmm_to_minutes(s: &str) -> (r: Result<i32, SchedulerError>)
    ensures
        valid_hhmm(s@) ==> r == Ok::<i32, SchedulerError>(hhmm_value(s@) as i32),
        !valid_hhmm(s@) ==> is_bad_time(r, s@),
        r matches Ok(m) ==> 0 <= m <= 1439,
{
    let v = chars_of(s);
    let n = v.len();
    proof {
        assert(v@.subrange(0, n as int) =~= s@);
    }
    match parse_hhmm_range(&v, 0, n) {
        Some(m) => Ok(m),
        None => Err(SchedulerError::BadTime(s.to_owned())),
    }
}

/// A number rendered to at least two digits, zero-padded.
pub open spec fn pad2(x: int) -> Seq<char> {
    if 0 <= x <= 9 {
        seq!['0', dec_digit_char(x)]
    } else {
        spec_dec(x)
    }
}

/// The rendering of a nonnegative minute count as `HH:MM`.
pub open spec fn fmt_hhmm(m: int) -> Seq<char> {
    pad2(m / 60) + seq![':'] + pad2(m % 60)
}

/// Renders minutes from midnight as `HH:MM` with two-digit zero-padding.
/// Negative values render with a leading minus sign; they never appear in
/// schedule results.
pub fn format_minutes_to_hhmm(m: i32) -> (r: String)
    ensures
        m >= 0 ==> r@ == fmt_hhmm(m as int),
        m < 0 ==> r@ == seq!['-'] + fmt_hhmm(-(m as int)),
{
    let neg = m < 0;
    let v: u64 = if neg {
        (-(m as i64)) as u64
    } else {
        m as u64
    };
    let h = v / 60;
    let mm = v % 60;
    let mut s = String::new();
    if neg {
        push_char(&mut s, '-');
    }
    if h <= 9 {
        push_char(&mut s, '0');
        push_char(&mut s, digit_char(h as u8));
    } else {
        let hs = u64_to_string(h);
        s.append(hs.as_str());
    }
    push_char(&mut s, ':');
    if mm <= 9 {
        push_char(&mut s, '0');
        push_char(&mut s, digit_char(mm as u8));
    } else {
        let ms = u64_to_string(mm);
        s.append(ms.as_str());
    }
    proof {
        let a = if m >= 0 { m as int } else { -(m as int) };
        assert(h == a / 60 && mm == a % 60);
        if m >= 0 {
            assert(s@ =~= fmt_hhmm(m as int));
        } else {
            assert(s@ =~= seq!['-'] + fmt_hhmm(-(m as int)));
        }
    }
    s
}

/// A digit character is recovered from its value.
proof fn lemma_digit_char_roundtrip(c: char)
    requires
        spec_is_digit(c),
    ensures
        dec_digit_char(spec_digit_val(c)) == c,
{
}

/// A digit value is recovered from its character.
proof fn lemma_digit_val_roundtrip(d: int)
    requires
        0 <= d <= 9,
    ensures
        spec_is_digit(dec_digit_char(d)),
        spec_digit_val(dec_digit_char(d)) == d,
{
}

/// A valid time string, zero-padded in the hour to the `HH:MM` form.
pub open spec fn normalized_hhmm(s: Seq<char>) -> Seq<char> {
    if s.len() == 4 {
        seq!['0'] + s
    } else {
        s
    }
}

/// Round trip one way: formatting a parsed valid time string yields the
/// string itself, zero-padded in the hour.
pub proof fn lemma_format_parse_roundtrip(s: Seq<char>)
    requires
        valid_hhmm(s),
    ensures
        fmt_hhmm(hhmm_value(s)) == normalized_hhmm(s),
{
    let h = hhmm_hour(s);
    let m = hhmm_minute(s);
    assert((h * 60 + m) / 60 == h && (h * 60 + m) % 60 == m) by (nonlinear_arith)
        requires
            0 <= m < 60,
            0 <= h,
    ;
    if s.len() == 4 {
        lemma_digit_char_roundtrip(s[0]);
        lemma_digit_char_roundtrip(s[2]);
        lemma_digit_char_roundtrip(s[3]);
        let d2 = spec_digit_val(s[2]);
        let d3 = spec_digit_val(s[3]);
        if m <= 9 {
            assert(d2 == 0) by (nonlinear_arith)
                requires
                    m == d2 * 10 + d3,
                    0 <= d3 <= 9,
                    0 <= d2,
                    m <= 9,
            ;
            assert(fmt_hhmm(hhmm_value(s)) =~= normalized_hhmm(s));
        } else {
            assert(m / 10 == d2 && m % 10 == d3) by (nonlinear_arith)
                requires
                    m == d2 * 10 + d3,
                    0 <= d3 <= 9,
                    0 <= d2,
            ;
            assert(0 <= m / 10 <= 9);
            assert(spec_dec(m / 10) == seq![dec_digit_char(m / 10)]);
            assert(pad2(m) =~= seq![s[2], s[3]]);
            assert(fmt_hhmm(hhmm_value(s)) =~= normalized_hhmm(s));
        }
    } else {
        lemma_digit_char_roundtrip(s[0]);
        lemma_digit_char_roundtrip(s[1]);
        lemma_digit_char_roundtrip(s[3]);
        lemma_digit_char_roundtrip(s[4]);
        let d0 = spec_digit_val(s[0]);
        let d1 = spec_digit_val(s[1]);
        let d3 = spec_digit_val(s[3]);
        let d4 = spec_digit_val(s[4]);
        if h <= 9 {
            assert(d0 == 0) by (nonlinear_arith)
                requires
                    h == d0 * 10 + d1,
                    0 <= d1 <= 9,
                    0 <= d0,
                    h <= 9,
            ;
        } else {
            assert(h / 10 == d0 && h % 10 == d1) by (nonlinear_arith)
                requires
                    h == d0 * 10 + d1,
                    0 <= d1 <= 9,
                    0 <= d0,
            ;
            assert(0 <= h / 10 <= 9);
            assert(spec_dec(h / 10) == seq![dec_digit_char(h / 10)]);
            assert(pad2(h) =~= seq![s[0], s[1]]);
        }
        if m <= 9 {
            assert(d3 == 0) by (nonlinear_arith)
                requires
                    m == d3 * 10 + d4,
                    0 <= d4 <= 9,
                    0 <= d3,
                    m <= 9,
            ;
        } else {
            assert(m / 10 == d3 && m % 10 == d4) by (nonlinear_arith)
                requires
                    m == d3 * 10 + d4,
                    0 <= d4 <= 9,
                    0 <= d3,
            ;
            assert(0 <= m / 10 <= 9);
            assert(spec_dec(m / 10) == seq![dec_digit_char(m / 10)]);
            assert(pad2(m) =~= seq![s[3], s[4]]);
        }
        assert(fmt_hhmm(hhmm_value(s)) =~= normalized_hhmm(s));
    }
}

/// Round trip the other way: a formatted in-range minute value parses back
/// to itself.
pub proof fn lemma_parse_format_roundtrip(m: int)
    requires
        0 <= m <= 1439,
    ensures
        valid_hhmm(fmt_hhmm(m)),
        hhmm_value(fmt_hhmm(m)) == m,
        fmt_hhmm(m).len() == 5,
{
    let h = m / 60;
    let mm = m % 60;
    assert(0 <= h <= 23 && 0 <= mm <= 59 && m == h * 60 + mm) by (nonlinear_arith)
        requires
            0 <= m <= 1439,
            h == m / 60,
            mm == m % 60,
    ;
    let s = fmt_hhmm(m);
    if h <= 9 {
        lemma_digit_val_roundtrip(h);
    } else {
        assert(0 <= h / 10 <= 9);
        assert(spec_dec(h / 10) == seq![dec_digit_char(h / 10)]);
        assert(spec_dec(h) =~= seq![dec_digit_char(h / 10), dec_digit_char(h % 10)]);
        lemma_digit_val_roundtrip(h / 10);
        lemma_digit_val_roundtrip(h % 10);
        assert(h / 10 * 10 + h % 10 == h);
    }
    if mm <= 9 {
        lemma_digit_val_roundtrip(mm);
    } else {
        assert(0 <= mm / 10 <= 9);
        assert(spec_dec(mm / 10) == seq![dec_digit_char(mm / 10)]);
        assert(spec_dec(mm) =~= seq![dec_digit_char(mm / 10), dec_digit_char(mm % 10)]);
        lemma_digit_val_roundtrip(mm / 10);
        lemma_digit_val_roundtrip(mm % 10);
        assert(mm / 10 * 10 + mm % 10 == mm);
    }
    assert(s.len() == 5);
    assert(valid_hhmm(s));
    assert(hhmm_value(s) == m);
}

} // verus!
