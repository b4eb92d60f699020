//! Character and string helpers shared by the time codec, the expression
//! parser and the schedule formatter: character classes, decimal rendering
//! of integers, lexicographic order on strings, and trimming.

use vstd::prelude::*;

verus! {

/// Whitespace as this library understands it: the ASCII blanks.
pub open spec fn spec_is_space(c: char) -> bool {
    c == ' ' || c == '\t' || c == '\r' || c == '\n'
}

pub fn is_space(c: char) -> (r: bool)
    ensures
        r == spec_is_space(c),
{
    c == ' ' || c == '\t' || c == '\r' || c == '\n'
}

pub open spec fn spec_is_digit(c: char) -> bool {
    ('0' as u32) <= (c as u32) && (c as u32) <= ('9' as u32)
}

pub fn is_digit(c: char) -> (r: bool)
    ensures
        r == spec_is_digit(c),
{
    ('0' as u32) <= (c as u32) && (c as u32) <= ('9' as u32)
}

/// Numeric value of a decimal digit character.
pub open spec fn spec_digit_val(c: char) -> int {
    (c as u32) - ('0' as u32)
}

pub open spec fn all_digits(s: Seq<char>) -> bool {
    forall|i: int| 0 <= i < s.len() ==> spec_is_digit(#[trigger] s[i])
}

/// Value of a string of decimal digits, most significant first.
pub open spec fn digits_val(s: Seq<char>) -> int
    decreases s.len(),
{
    if s.len() == 0 {
        0
    } else {
        digits_val(s.drop_last()) * 10 + spec_digit_val(s.last())
    }
}

pub proof fn lemma_digits_val_nonneg(s: Seq<char>)
    requires
        all_digits(s),
    ensures
        digits_val(s) >= 0,
    decreases s.len(),
{
    if s.len() > 0 {
        assert(all_digits(s.drop_last()));
        lemma_digits_val_nonneg(s.drop_last());
    }
}

/// A longer digit string never has a smaller value.
pub proof fn lemma_digits_val_prefix_le(s: Seq<char>, k: int)
    requires
        all_digits(s),
        0 <= k <= s.len(),
    ensures
        digits_val(s.take(k)) <= digits_val(s),
    decreases s.len() - k,
{
    assert(all_digits(s.take(k)));
    if k < s.len() {
        assert(s.take(k + 1).drop_last() =~= s.take(k));
        assert(s.take(k + 1).last() == s[k]);
        lemma_digits_val_nonneg(s.take(k));
        lemma_digits_val_prefix_le(s, k + 1);
    } else {
        assert(s.take(k) =~= s);
    }
}

/// The decimal digit character for a value below ten.
pub open spec fn dec_digit_char(d: int) -> char {
    if d == 0 {
        '0'
    } else if d == 1 {
        '1'
    } else if d == 2 {
        '2'
    } else if d == 3 {
        '3'
    } else if d == 4 {
        '4'
    } else if d == 5 {
        '5'
    } else if d == 6 {
        '6'
    } else if d == 7 {
        '7'
    } else if d == 8 {
        '8'
    } else {
        '9'
    }
}

pub fn digit_char(d: u8) -> (r: char)
    requires
        d < 10,
    ensures
        r == dec_digit_char(d as int),
{
    if d == 0 {
        '0'
    } else if d == 1 {
        '1'
    } else if d == 2 {
        '2'
    } else if d == 3 {
        '3'
    } else if d == 4 {
        '4'
    } else if d == 5 {
        '5'
    } else if d == 6 {
        '6'
    } else if d == 7 {
        '7'
    } else if d == 8 {
        '8'
    } else {
        '9'
    }
}

/// Decimal rendering of a nonnegative number, without leading zeros
/// (zero itself renders as "0").
pub open spec fn spec_dec(n: int) -> Seq<char>
    decreases n,
{
    if n < 10 {
        seq![dec_digit_char(n)]
    } else {
        spec_dec(n / 10).push(dec_digit_char(n % 10))
    }
}

/// Relies on String::push: appends one character at the end of the string.
#[verifier::external_body]
pub fn push_char(s: &mut String, c: char)
    ensures
        final(s)@ == old(s)@.push(c),
{
    s.push(c);
}

pub fn u64_to_string(n: u64) -> (r: String)
    ensures
        r@ == spec_dec(n as int),
    decreases n,
{
    if n < 10 {
        let mut s = String::new();
        push_char(&mut s, digit_char(n as u8));
        assert(s@ =~= spec_dec(n as int));
        s
    } else {
        let mut s = u64_to_string(n / 10);
        push_char(&mut s, digit_char((n % 10) as u8));
        s
    }
}

/// The decimal rendering of a nonnegative number is all digits and reads
/// back as the number itself.
pub proof fn lemma_spec_dec(n: int)
    requires
        n >= 0,
    ensures
        all_digits(spec_dec(n)),
        digits_val(spec_dec(n)) == n,
        spec_dec(n).len() >= 1,
    decreases n,
{
    if n < 10 {
        let s = spec_dec(n);
        assert(s =~= seq![dec_digit_char(n)]);
        assert(s.drop_last() =~= Seq::<char>::empty());
        assert(spec_is_digit(dec_digit_char(n)));
        assert(spec_digit_val(dec_digit_char(n)) == n);
        assert(digits_val(Seq::<char>::empty()) == 0);
        assert(s.last() == dec_digit_char(n));
        assert(digits_val(s) == digits_val(s.drop_last()) * 10 + spec_digit_val(s.last()));
    } else {
        lemma_spec_dec(n / 10);
        let s = spec_dec(n);
        let prefix = spec_dec(n / 10);
        assert(s == prefix.push(dec_digit_char(n % 10)));
        assert(s.drop_last() =~= prefix);
        assert(s.last() == dec_digit_char(n % 10));
        assert(forall|i: int|
            0 <= i < s.len() ==> #[trigger] s[i] == (if i < prefix.len() {
                prefix[i]
            } else {
                dec_digit_char(n % 10)
            }));
        assert(all_digits(s));
        assert(spec_is_digit(dec_digit_char(n % 10)));
        assert(digits_val(s) == n / 10 * 10 + spec_digit_val(dec_digit_char(n % 10)));
        assert(spec_digit_val(dec_digit_char(n % 10)) == n % 10);
    }
}

/// The characters of a string, as a vector.
pub fn chars_of(s: &str) -> (r: Vec<char>)
    ensures
        r@ == s@,
{
    let n = s.unicode_len();
    let mut v: Vec<char> = Vec::new();
    let mut i: usize = 0;
    while i < n
        invariant
            i <= n,
            n == s@.len(),
            v@.len() == i,
            forall|k: int| 0 <= k < i ==> v@[k] == s@[k],
        decreases n - i,
    {
        v.push(s.get_char(i));
        i = i + 1;
    }
    assert(v@ =~= s@);
    v
}

/// Lexicographic strict order on character sequences, by unicode value.
pub open spec fn lex_lt(a: Seq<char>, b: Seq<char>) -> bool
    decreases a.len() + b.len(),
{
    if b.len() == 0 {
        false
    } else if a.len() == 0 {
        true
    } else if (a[0] as u32) < (b[0] as u32) {
        true
    } else if a[0] == b[0] {
        lex_lt(a.drop_first(), b.drop_first())
    } else {
        false
    }
}

pub open spec fn lex_le(a: Seq<char>, b: Seq<char>) -> bool {
    lex_lt(a, b) || a == b
}

fn lex_le_from(a: &Vec<char>, b: &Vec<char>, i: usize) -> (r: bool)
    requires
        i <= a@.len(),
        i <= b@.len(),
    ensures
        r == lex_le(a@.skip(i as int), b@.skip(i as int)),
    decreases a@.len() - i,
{
    let ghost sa = a@.skip(i as int);
    let ghost sb = b@.skip(i as int);
    if i == b.len() {
        if i == a.len() {
            assert(sa =~= sb);
            true
        } else {
            false
        }
    } else if i == a.len() {
        true
    } else {
        let ca = a[i];
        let cb = b[i];
        if (ca as u32) < (cb as u32) {
            true
        } else if ca == cb {
            let r = lex_le_from(a, b, i + 1);
            proof {
                assert(sa.drop_first() =~= a@.skip(i + 1));
                assert(sb.drop_first() =~= b@.skip(i + 1));
                if r {
                    if a@.skip(i + 1) == b@.skip(i + 1) {
                        assert forall|k: int| 0 <= k < sa.len() implies sa[k] == sb[k] by {
                            if k > 0 {
                                assert(sa[k] == a@[i + k]);
                                assert(sb[k] == b@[i + k]);
                                assert(a@.skip(i + 1)[k - 1] == a@[i + k]);
                                assert(b@.skip(i + 1)[k - 1] == b@[i + k]);
                            }
                        }
                        assert(sa =~= sb);
                    }
                } else {
                    if sa == sb {
                        assert(sa.drop_first() == sb.drop_first());
                    }
                }
            }
            r
        } else {
            proof {
                if sa == sb {
                    assert(sa[0] == sb[0]);
                }
            }
            false
        }
    }
}

/// Compares two strings lexicographically by character value.
pub fn str_le(a: &str, b: &str) -> (r: bool)
    ensures
        r == lex_le(a@, b@),
{
    let va = chars_of(a);
    let vb = chars_of(b);
    let r = lex_le_from(&va, &vb, 0);
    proof {
        assert(va@.skip(0) =~= a@);
        assert(vb@.skip(0) =~= b@);
    }
    r
}

/// Case-insensitive match of a character against a lowercase letter
/// (non-letters match only themselves).
pub open spec fn ci_eq(c: char, k: char) -> bool {
    c == k || (('a' as u32) <= (k as u32) && (k as u32) <= ('z' as u32) && (c as u32) + 32
        == (k as u32))
}

pub fn ci_eq_exec(c: char, k: char) -> (r: bool)
    ensures
        r == ci_eq(c, k),
{
    c == k || (('a' as u32) <= (k as u32) && (k as u32) <= ('z' as u32) && (c as u32) + 32
        == (k as u32))
}

/// Case-insensitive match of a sequence against a lowercase keyword.
pub open spec fn matches_kw(s: Seq<char>, kw: Seq<char>) -> bool {
    s.len() == kw.len() && forall|i: int| 0 <= i < kw.len() ==> ci_eq(s[i], #[trigger] kw[i])
}

/// Whether the keyword occurs (case-insensitively) at position `at`.
pub fn match_kw_at(v: &Vec<char>, at: usize, kw: &Vec<char>) -> (r: bool)
    requires
        at <= v@.len(),
    ensures
        r == (at + kw@.len() <= v@.len() && matches_kw(
            v@.subrange(at as int, at + kw@.len()),
            kw@,
        )),
{
    let m = kw.len();
    let n = v.len();
    if n - at < m {
        return false;
    }
    let ghost sub = v@.subrange(at as int, at + kw@.len());
    let mut i: usize = 0;
    while i < m
        invariant
            i <= m,
            m == kw@.len(),
            n == v@.len(),
            at + m <= n,
            sub == v@.subrange(at as int, at + kw@.len()),
            forall|k: int| 0 <= k < i ==> ci_eq(#[trigger] sub[k], kw@[k]),
        decreases m - i,
    {
        if !ci_eq_exec(v[at + i], kw[i]) {
            assert(sub[i as int] == v@[at + i]);
            return false;
        }
        assert(sub[i as int] == v@[at + i]);
        i = i + 1;
    }
    true
}

/// How many digit characters the sequence starts with.
pub open spec fn digits_run(s: Seq<char>) -> int
    decreases s.len(),
{
    if s.len() > 0 && spec_is_digit(s[0]) {
        1 + digits_run(s.drop_first())
    } else {
        0
    }
}

pub proof fn lemma_digits_run_at(s: Seq<char>, i: int)
    requires
        0 <= i <= s.len(),
        forall|k: int| 0 <= k < i ==> spec_is_digit(#[trigger] s[k]),
        i == s.len() || !spec_is_digit(s[i]),
    ensures
        digits_run(s) == i,
    decreases i,
{
    if i > 0 {
        lemma_digits_run_at(s.drop_first(), i - 1);
    }
}

/// The first index at or after `from` whose character is not a digit.
pub fn scan_digits_from(v: &Vec<char>, from: usize) -> (r: usize)
    requires
        from <= v@.len(),
    ensures
        from <= r <= v@.len(),
        r - from == digits_run(v@.skip(from as int)),
        forall|k: int| from <= k < r ==> spec_is_digit(#[trigger] v@[k]),
        r < v@.len() ==> !spec_is_digit(v@[r as int]),
{
    let n = v.len();
    let mut i: usize = from;
    while i < n && is_digit(v[i])
        invariant
            from <= i <= n,
            n == v@.len(),
            forall|k: int| from <= k < i ==> spec_is_digit(#[trigger] v@[k]),
        decreases n - i,
    {
        i = i + 1;
    }
    proof {
        let s = v@.skip(from as int);
        assert(forall|k: int| 0 <= k < i - from ==> spec_is_digit(#[trigger] s[k]));
        lemma_digits_run_at(s, i - from);
    }
    i
}

/// How many whitespace characters the sequence starts with (as a run).
pub open spec fn spaces_run(s: Seq<char>) -> int
    decreases s.len(),
{
    if s.len() > 0 && spec_is_space(s[0]) {
        1 + spaces_run(s.drop_first())
    } else {
        0
    }
}

pub proof fn lemma_spaces_run_at(s: Seq<char>, i: int)
    requires
        0 <= i <= s.len(),
        forall|k: int| 0 <= k < i ==> spec_is_space(#[trigger] s[k]),
        i == s.len() || !spec_is_space(s[i]),
    ensures
        spaces_run(s) == i,
    decreases i,
{
    if i > 0 {
        lemma_spaces_run_at(s.drop_first(), i - 1);
    }
}

/// The first index at or after `from` whose character is not whitespace.
pub fn scan_spaces_from(v: &Vec<char>, from: usize) -> (r: usize)
    requires
        from <= v@.len(),
    ensures
        from <= r <= v@.len(),
        r - from == spaces_run(v@.skip(from as int)),
        forall|k: int| from <= k < r ==> spec_is_space(#[trigger] v@[k]),
        r < v@.len() ==> !spec_is_space(v@[r as int]),
{
    let n = v.len();
    let mut i: usize = from;
    while i < n && is_space(v[i])
        invariant
            from <= i <= n,
            n == v@.len(),
            forall|k: int| from <= k < i ==> spec_is_space(#[trigger] v@[k]),
        decreases n - i,
    {
        i = i + 1;
    }
    proof {
        let s = v@.skip(from as int);
        assert(forall|k: int| 0 <= k < i - from ==> spec_is_space(#[trigger] s[k]));
        lemma_spaces_run_at(s, i - from);
    }
    i
}

/// The numeric value of the digit range `from..to`, unless it exceeds `u32`.
pub fn digits_value_u32(v: &Vec<char>, from: usize, to: usize) -> (r: Option<u32>)
    requires
        from <= to <= v@.len(),
        forall|k: int| from <= k < to ==> spec_is_digit(#[trigger] v@[k]),
    ensures
        digits_val(v@.subrange(from as int, to as int)) <= u32::MAX ==> r == Some(
            digits_val(v@.subrange(from as int, to as int)) as u32,
        ),
        digits_val(v@.subrange(from as int, to as int)) > u32::MAX ==> r is None,
{
    let ghost s = v@.subrange(from as int, to as int);
    proof {
        assert(all_digits(s));
    }
    let mut acc: u64 = 0;
    let mut i: usize = from;
    while i < to
        invariant
            from <= i <= to <= v@.len(),
            s == v@.subrange(from as int, to as int),
            all_digits(s),
            forall|k: int| from <= k < to ==> spec_is_digit(#[trigger] v@[k]),
            acc == digits_val(s.take(i - from)),
            acc <= u32::MAX,
        decreases to - i,
    {
        let c = v[i];
        let d: u64 = (c as u32 - '0' as u32) as u64;
        proof {
            assert(s.take(i + 1 - from).drop_last() =~= s.take(i - from));
            assert(s.take(i + 1 - from).last() == v@[i as int]);
        }
        let nv: u64 = acc * 10 + d;
        if nv > u32::MAX as u64 {
            proof {
                lemma_digits_val_prefix_le(s, i + 1 - from);
            }
            return None;
        }
        acc = nv;
        i = i + 1;
    }
    proof {
        assert(s.take(to - from) =~= s);
    }
    Some(acc as u32)
}

/// A new vector holding the characters of the range `from..to`.
pub fn subvec(v: &Vec<char>, from: usize, to: usize) -> (r: Vec<char>)
    requires
        from <= to <= v@.len(),
    ensures
        r@ == v@.subrange(from as int, to as int),
{
    let mut out: Vec<char> = Vec::new();
    let mut i: usize = from;
    while i < to
        invariant
            from <= i <= to <= v@.len(),
            out@ == v@.subrange(from as int, i as int),
        decreases to - i,
    {
        out.push(v[i]);
        proof {
            assert(v@.subrange(from as int, i as int).push(v@[i as int]) =~= v@.subrange(
                from as int,
                i + 1,
            ));
        }
        i = i + 1;
    }
    out
}

/// A new string holding the characters of the range `from..to`.
pub fn string_from_range(v: &Vec<char>, from: usize, to: usize) -> (r: String)
    requires
        from <= to <= v@.len(),
    ensures
        r@ == v@.subrange(from as int, to as int),
{
    let mut s = String::new();
    let mut i: usize = from;
    while i < to
        invariant
            from <= i <= to <= v@.len(),
            s@ == v@.subrange(from as int, i as int),
        decreases to - i,
    {
        push_char(&mut s, v[i]);
        proof {
            assert(v@.subrange(from as int, i as int).push(v@[i as int]) =~= v@.subrange(
                from as int,
                i + 1,
            ));
        }
        i = i + 1;
    }
    s
}

/// How many whitespace characters the sequence starts with.
pub open spec fn trim_start_amt(s: Seq<char>) -> int
    decreases s.len(),
{
    if s.len() > 0 && spec_is_space(s[0]) {
        1 + trim_start_amt(s.drop_first())
    } else {
        0
    }
}

/// How many whitespace characters the sequence ends with.
pub open spec fn trim_end_amt(s: Seq<char>) -> int
    decreases s.len(),
{
    if s.len() > 0 && spec_is_space(s.last()) {
        1 + trim_end_amt(s.drop_last())
    } else {
        0
    }
}

/// The sequence with leading and trailing whitespace removed.
pub open spec fn spec_trim(s: Seq<char>) -> Seq<char> {
    let t = s.skip(trim_start_amt(s));
    t.take(t.len() - trim_end_amt(t))
}

pub proof fn lemma_trim_start_at(s: Seq<char>, i: int)
    requires
        0 <= i <= s.len(),
        forall|k: int| 0 <= k < i ==> spec_is_space(#[trigger] s[k]),
        i == s.len() || !spec_is_space(s[i]),
    ensures
        trim_start_amt(s) == i,
    decreases i,
{
    if i == 0 {
    } else {
        lemma_trim_start_at(s.drop_first(), i - 1);
    }
}

pub proof fn lemma_trim_end_at(s: Seq<char>, j: int)
    requires
        0 <= j <= s.len(),
        forall|k: int| j <= k < s.len() ==> spec_is_space(#[trigger] s[k]),
        j == 0 || !spec_is_space(s[j - 1]),
    ensures
        trim_end_amt(s) == s.len() - j,
    decreases s.len() - j,
{
    if j == s.len() {
    } else {
        assert(spec_is_space(s.last()));
        lemma_trim_end_at(s.drop_last(), j);
    }
}

/// A sequence without blank ends is its own trim.
pub proof fn lemma_trim_clean(s: Seq<char>)
    requires
        s.len() > 0,
        !spec_is_space(s[0]),
        !spec_is_space(s.last()),
    ensures
        spec_trim(s) == s,
{
    assert(trim_start_amt(s) == 0);
    let t = s.skip(0);
    assert(t =~= s);
    assert(trim_end_amt(t) == 0);
    assert(t.take(t.len() - 0) =~= s);
}

/// Trims the vector's characters, returning the trimmed range `start..end`.
pub fn trim_range(v: &Vec<char>) -> (r: (usize, usize))
    ensures
        r.0 <= r.1 <= v@.len(),
        v@.subrange(r.0 as int, r.1 as int) == spec_trim(v@),
{
    let n = v.len();
    let mut start: usize = 0;
    while start < n && is_space(v[start])
        invariant
            start <= n,
            n == v@.len(),
            forall|k: int| 0 <= k < start ==> spec_is_space(#[trigger] v@[k]),
        decreases n - start,
    {
        start = start + 1;
    }
    let mut end: usize = n;
    while end > start && is_space(v[end - 1])
        invariant
            start <= end <= n,
            n == v@.len(),
            forall|k: int| 0 <= k < start ==> spec_is_space(#[trigger] v@[k]),
            start == n || !spec_is_space(v@[start as int]),
            forall|k: int| end <= k < n ==> spec_is_space(#[trigger] v@[k]),
        decreases end,
    {
        end = end - 1;
    }
    proof {
        lemma_trim_start_at(v@, start as int);
        let t = v@.skip(start as int);
        if end == start {
            // everything after `start` is whitespace, or the input is all blank
            assert(forall|k: int| 0 <= k < t.len() ==> spec_is_space(#[trigger] t[k]));
            lemma_trim_end_at(t, 0);
        } else {
            assert(!spec_is_space(v@[end - 1]));
            assert(forall|k: int|
                end - start <= k < t.len() ==> spec_is_space(#[trigger] t[k]));
            lemma_trim_end_at(t, end - start);
        }
        assert(v@.subrange(start as int, end as int) =~= t.take(
            t.len() - trim_end_amt(t),
        ));
    }
    (start, end)
}

} // verus!
