//! The expression parser: constraint strings like "≥6h apart from food" and
//! window strings like "08:00" or "12:00-13:00", with their serializers and
//! the round-trip laws relating the two.

use vstd::prelude::*;

use crate::domain::{ConstraintExpr, ConstraintRef, ConstraintType, Entity, SchedulerError, WindowSpec};
use crate::text::{
    chars_of, ci_eq, ci_eq_exec, digits_run, digits_val, digits_value_u32, match_kw_at,
    matches_kw, push_char, scan_digits_from, scan_spaces_from, spaces_run, spec_dec,
    spec_is_space, spec_trim, string_from_range, subvec, trim_range, u64_to_string,
};
use crate::time::{fmt_hhmm, hhmm_value, parse_hhmm_range, valid_hhmm};

verus! {

pub open spec fn kw_apart() -> Seq<char> {
    seq!['a', 'p', 'a', 'r', 't']
}

pub open spec fn kw_before() -> Seq<char> {
    seq!['b', 'e', 'f', 'o', 'r', 'e']
}

pub open spec fn kw_after() -> Seq<char> {
    seq!['a', 'f', 't', 'e', 'r']
}

pub open spec fn kw_from() -> Seq<char> {
    seq!['f', 'r', 'o', 'm']
}

/// Length of the "at least" marker opening a constraint: `≥` or `>=`;
/// zero when absent.
pub open spec fn geq_prefix_len(t: Seq<char>) -> int {
    if t.len() >= 1 && t[0] == '≥' {
        1
    } else if t.len() >= 2 && t[0] == '>' && t[1] == '=' {
        2
    } else {
        0
    }
}

/// After `apart`: either the end of the string, or blanks, `from`, blanks,
/// and a nonempty word. `Some(None)` is a bare `apart`; `Some(Some(w))`
/// carries the word.
pub open spec fn spec_parse_apart_tail(rest: Seq<char>) -> Option<Option<Seq<char>>> {
    if rest.len() == 0 {
        Some(None)
    } else {
        let sp = spaces_run(rest);
        if sp < 1 {
            None
        } else {
            let f = rest.skip(sp);
            if f.len() >= 4 && matches_kw(f.take(4), kw_from()) {
                let sp2 = spaces_run(f.skip(4));
                if sp2 >= 1 && 4 + sp2 < f.len() {
                    Some(Some(f.skip(4 + sp2)))
                } else {
                    None
                }
            } else {
                None
            }
        }
    }
}

/// Blanks followed by a nonempty word.
pub open spec fn spec_word_after(rest: Seq<char>) -> Option<Seq<char>> {
    let sp = spaces_run(rest);
    if sp >= 1 && sp < rest.len() {
        Some(rest.skip(sp))
    } else {
        None
    }
}

/// The keyword part of a constraint and what follows it. Keywords match
/// case-insensitively; the word, if any, is taken verbatim.
pub open spec fn spec_parse_keyword_tail(kw: Seq<char>) -> Option<
    (ConstraintType, Option<Seq<char>>),
> {
    if kw.len() >= 5 && matches_kw(kw.take(5), kw_apart()) {
        match spec_parse_apart_tail(kw.skip(5)) {
            Some(None) => Some((ConstraintType::Apart, None)),
            Some(Some(w)) => Some((ConstraintType::ApartFrom, Some(w))),
            None => None,
        }
    } else if kw.len() >= 6 && matches_kw(kw.take(6), kw_before()) {
        match spec_word_after(kw.skip(6)) {
            Some(w) => Some((ConstraintType::Before, Some(w))),
            None => None,
        }
    } else if kw.len() >= 5 && matches_kw(kw.take(5), kw_after()) {
        match spec_word_after(kw.skip(5)) {
            Some(w) => Some((ConstraintType::After, Some(w))),
            None => None,
        }
    } else {
        None
    }
}

/// The constraint grammar over an already-trimmed sequence: the `≥`/`>=`
/// marker, one or more digits, an `h`, blanks, then `apart`,
/// `apart from <word>`, `before <word>` or `after <word>`.
pub open spec fn spec_parse_constraint(t: Seq<char>) -> Option<
    (int, ConstraintType, Option<Seq<char>>),
> {
    let g = geq_prefix_len(t);
    if g == 0 {
        None
    } else {
        let rest = t.skip(g);
        let d = digits_run(rest);
        if d < 1 {
            None
        } else if !(d < rest.len() && ci_eq(rest[d], 'h')) {
            None
        } else {
            let hours = digits_val(rest.take(d));
            let after_h = rest.skip(d + 1);
            let sp = spaces_run(after_h);
            if sp < 1 {
                None
            } else {
                match spec_parse_keyword_tail(after_h.skip(sp)) {
                    Some((ct, w)) => Some((hours, ct, w)),
                    None => None,
                }
            }
        }
    }
}

/// The rejection reply of the constraint parser.
pub open spec fn is_bad_constraint(
    r: Result<ConstraintExpr, SchedulerError>,
    s: Seq<char>,
) -> bool {
    &&& r matches Err(e)
    &&& e matches SchedulerError::BadConstraint(t)
    &&& t@ == s
}

/// What the constraint parser owes for input `s` with reply `r`.
pub open spec fn constraint_parse_post(
    r: Result<ConstraintExpr, SchedulerError>,
    s: Seq<char>,
) -> bool {
    match spec_parse_constraint(spec_trim(s)) {
        Some((h, ct, w)) => {
            if h <= u32::MAX {
                &&& r matches Ok(c)
                &&& c.time_hours == h
                &&& c.ctype == ct
                &&& (match w {
                    None => c.cref is WithinGroup,
                    Some(ws) => c.cref matches ConstraintRef::Unresolved(u) && u@ == ws,
                })
            } else {
                is_bad_constraint(r, s)
            }
        },
        None => is_bad_constraint(r, s),
    }
}

/// Blanks followed by a nonempty word, starting at `p`.
fn parse_word_after(t: &Vec<char>, p: usize) -> (r: Option<String>)
    requires
        p <= t@.len(),
    ensures
        match spec_word_after(t@.skip(p as int)) {
            Some(w) => r matches Some(u) && u@ == w,
            None => r is None,
        },
{
    let ghost rest = t@.skip(p as int);
    let n = t.len();
    let u = scan_spaces_from(t, p);
    if u == p || u == n {
        None
    } else {
        let w = string_from_range(t, u, n);
        proof {
            assert(t@.subrange(u as int, n as int) =~= rest.skip(u - p));
        }
        Some(w)
    }
}

/// The part after `apart`, starting at `p`: nothing, or ` from <word>`.
fn parse_apart_tail(t: &Vec<char>, p: usize, from_kw: &Vec<char>) -> (r: Option<Option<String>>)
    requires
        p <= t@.len(),
        from_kw@ == kw_from(),
    ensures
        match spec_parse_apart_tail(t@.skip(p as int)) {
            Some(None) => r matches Some(x) && x is None,
            Some(Some(w)) => r matches Some(x) && (x matches Some(u) && u@ == w),
            None => r is None,
        },
{
    let ghost rest = t@.skip(p as int);
    let n = t.len();
    if p == n {
        return Some(None);
    }
    let q = scan_spaces_from(t, p);
    if q == p {
        return None;
    }
    let ghost f = rest.skip(q - p);
    proof {
        assert(f =~= t@.skip(q as int));
    }
    if match_kw_at(t, q, from_kw) {
        proof {
            assert(t@.subrange(q as int, q + 4) =~= f.take(4));
        }
        let u = scan_spaces_from(t, q + 4);
        proof {
            assert(f.skip(4) =~= t@.skip(q + 4));
        }
        if u == q + 4 || u == n {
            None
        } else {
            let w = string_from_range(t, u, n);
            proof {
                assert(t@.subrange(u as int, n as int) =~= f.skip(4 + (u - (q + 4))));
            }
            Some(Some(w))
        }
    } else {
        None
    }
}

/// The keyword of a constraint and what follows it, starting at `k`.
fn parse_keyword_tail(t: &Vec<char>, k: usize) -> (r: Option<(ConstraintType, Option<String>)>)
    requires
        k <= t@.len(),
    ensures
        match spec_parse_keyword_tail(t@.skip(k as int)) {
            Some((ct, w)) => {
                &&& r matches Some(p)
                &&& p.0 == ct
                &&& (match w {
                    None => p.1 is None,
                    Some(ws) => p.1 matches Some(u) && u@ == ws,
                })
            },
            None => r is None,
        },
{
    let ghost kwv = t@.skip(k as int);
    let n = t.len();
    let apart_kw: Vec<char> = vec!['a', 'p', 'a', 'r', 't'];
    let before_kw: Vec<char> = vec!['b', 'e', 'f', 'o', 'r', 'e'];
    let after_kw: Vec<char> = vec!['a', 'f', 't', 'e', 'r'];
    let from_kw: Vec<char> = vec!['f', 'r', 'o', 'm'];
    proof {
        assert(apart_kw@ =~= kw_apart());
        assert(before_kw@ =~= kw_before());
        assert(after_kw@ =~= kw_after());
        assert(from_kw@ =~= kw_from());
    }
    if match_kw_at(t, k, &apart_kw) {
        proof {
            assert(k + 5 <= n);
            assert(t@.subrange(k as int, k + 5) =~= kwv.take(5));
            assert(kwv.skip(5) =~= t@.skip(k + 5));
        }
        match parse_apart_tail(t, k + 5, &from_kw) {
            Some(None) => Some((ConstraintType::Apart, None)),
            Some(Some(w)) => Some((ConstraintType::ApartFrom, Some(w))),
            None => None,
        }
    } else if match_kw_at(t, k, &before_kw) {
        proof {
            assert(k + 6 <= n);
            assert(t@.subrange(k as int, k + 6) =~= kwv.take(6));
            assert(kwv.skip(6) =~= t@.skip(k + 6));
        }
        match parse_word_after(t, k + 6) {
            Some(w) => Some((ConstraintType::Before, Some(w))),
            None => None,
        }
    } else if match_kw_at(t, k, &after_kw) {
        proof {
            assert(k + 5 <= n);
            assert(t@.subrange(k as int, k + 5) =~= kwv.take(5));
            assert(kwv.skip(5) =~= t@.skip(k + 5));
        }
        match parse_word_after(t, k + 5) {
            Some(w) => Some((ConstraintType::After, Some(w))),
            None => None,
        }
    } else {
        None
    }
}

/// Parses one constraint string, such as "≥6h apart" or "≥1h before food".
/// Keywords are matched case-insensitively after trimming; the referenced
/// word is kept verbatim. Anything else is rejected.
#[verifier::rlimit(30)]
pub fn parse_one_constraint(s: &str) -> (r: Result<ConstraintExpr, SchedulerError>)
    ensures
        constraint_parse_post(r, s@),
{
    let full = chars_of(s);
    let (ts, te) = trim_range(&full);
    let t = subvec(&full, ts, te);
    let ghost tv = spec_trim(s@);
    assert(t@ == tv);
    let n = t.len();
    let g: usize = if n >= 1 && t[0] == '≥' {
        1
    } else if n >= 2 && t[0] == '>' && t[1] == '=' {
        2
    } else {
        return Err(SchedulerError::BadConstraint(s.to_owned()));
    };
    let ghost rest = tv.skip(g as int);
    let de = scan_digits_from(&t, g);
    let d = de - g;
    proof {
        assert(rest =~= t@.skip(g as int));
    }
    if d == 0 {
        return Err(SchedulerError::BadConstraint(s.to_owned()));
    }
    if !(de < n && ci_eq_exec(t[de], 'h')) {
        proof {
            assert(de < n ==> rest[d as int] == tv[de as int]);
            assert(d < rest.len() <==> de < n);
        }
        return Err(SchedulerError::BadConstraint(s.to_owned()));
    }
    proof {
        assert(rest[d as int] == tv[de as int]);
    }
    let hours_opt = digits_value_u32(&t, g, de);
    proof {
        assert(t@.subrange(g as int, de as int) =~= rest.take(d as int));
        assert(crate::text::all_digits(rest.take(d as int)));
        crate::text::lemma_digits_val_nonneg(rest.take(d as int));
    }
    let ghost after_h = rest.skip(d + 1);
    proof {
        assert(after_h =~= tv.skip(de + 1));
    }
    let k = scan_spaces_from(&t, de + 1);
    if k == de + 1 {
        return Err(SchedulerError::BadConstraint(s.to_owned()));
    }
    proof {
        assert(after_h.skip(k - (de + 1)) =~= tv.skip(k as int));
    }
    let tail = parse_keyword_tail(&t, k);
    match (tail, hours_opt) {
        (Some(ct_w), Some(hours)) => {
            let cref = match ct_w.1 {
                None => ConstraintRef::WithinGroup,
                Some(w) => ConstraintRef::Unresolved(w),
            };
            Ok(ConstraintExpr { time_hours: hours, ctype: ct_w.0, cref })
        },
        _ => Err(SchedulerError::BadConstraint(s.to_owned())),
    }
}

/// Index of the first `-` in the sequence, or its length when absent.
pub open spec fn first_dash(s: Seq<char>) -> int
    decreases s.len(),
{
    if s.len() == 0 {
        0
    } else if s[0] == '-' {
        0
    } else {
        1 + first_dash(s.drop_first())
    }
}

pub proof fn lemma_first_dash_at(s: Seq<char>, i: int)
    requires
        0 <= i <= s.len(),
        forall|k: int| 0 <= k < i ==> s[k] != '-',
        i == s.len() || s[i] == '-',
    ensures
        first_dash(s) == i,
    decreases i,
{
    if i > 0 {
        lemma_first_dash_at(s.drop_first(), i - 1);
    }
}

/// The window grammar over an already-trimmed sequence: a clock time
/// (an anchor), or two clock times joined by `-` with the first not after
/// the second (a range).
pub open spec fn spec_parse_window(t: Seq<char>) -> Option<WindowSpec> {
    let i = first_dash(t);
    if i == t.len() {
        if valid_hhmm(t) {
            Some(WindowSpec::Anchor(hhmm_value(t) as i32))
        } else {
            None
        }
    } else {
        let a = t.take(i);
        let b = t.skip(i + 1);
        if valid_hhmm(a) && valid_hhmm(b) && hhmm_value(a) <= hhmm_value(b) {
            Some(WindowSpec::Range(hhmm_value(a) as i32, hhmm_value(b) as i32))
        } else {
            None
        }
    }
}

/// The rejection reply of the window parser.
pub open spec fn is_bad_window(r: Result<WindowSpec, SchedulerError>, s: Seq<char>) -> bool {
    &&& r matches Err(e)
    &&& e matches SchedulerError::BadWindow(t)
    &&& t@ == s
}

/// What the window parser owes for input `s` with reply `r`.
pub open spec fn window_parse_post(r: Result<WindowSpec, SchedulerError>, s: Seq<char>) -> bool {
    match spec_parse_window(spec_trim(s)) {
        Some(w) => r == Ok::<WindowSpec, SchedulerError>(w),
        None => is_bad_window(r, s),
    }
}

/// Parses one window string: `HH:MM` for an anchor, `HH:MM-HH:MM` for a
/// range (rejecting inverted ranges), after trimming.
pub fn parse_one_window(s: &str) -> (r: Result<WindowSpec, SchedulerError>)
    ensures
        window_parse_post(r, s@),
{
    let full = chars_of(s);
    let (ts, te) = trim_range(&full);
    let t = subvec(&full, ts, te);
    let ghost tv = spec_trim(s@);
    assert(t@ == tv);
    let n = t.len();
    // find the first dash
    let mut i: usize = 0;
    while i < n && t[i] != '-'
        invariant
            i <= n,
            n == t@.len(),
            forall|k: int| 0 <= k < i ==> t@[k] != '-',
        decreases n - i,
    {
        i = i + 1;
    }
    proof {
        lemma_first_dash_at(tv, i as int);
    }
    if i == n {
        proof {
            assert(tv.subrange(0, n as int) =~= tv);
        }
        match parse_hhmm_range(&t, 0, n) {
            Some(m) => Ok(WindowSpec::Anchor(m)),
            None => Err(SchedulerError::BadWindow(s.to_owned())),
        }
    } else {
        proof {
            assert(tv.subrange(0, i as int) =~= tv.take(i as int));
            assert(tv.subrange(i + 1, n as int) =~= tv.skip(i + 1));
        }
        let a = parse_hhmm_range(&t, 0, i);
        let b = parse_hhmm_range(&t, i + 1, n);
        match (a, b) {
            (Some(av), Some(bv)) => {
                if av <= bv {
                    Ok(WindowSpec::Range(av, bv))
                } else {
                    Err(SchedulerError::BadWindow(s.to_owned()))
                }
            },
            _ => Err(SchedulerError::BadWindow(s.to_owned())),
        }
    }
}

/// The canonical rendering of a window: the anchor minute as `HH:MM`, or
/// the two range bounds joined by `-`. Out-of-day minutes render signed.
pub open spec fn spec_window_str(w: WindowSpec) -> Seq<char> {
    match w {
        WindowSpec::Anchor(a) => spec_fmt_signed(a as int),
        WindowSpec::Range(a, b) => spec_fmt_signed(a as int) + seq!['-'] + spec_fmt_signed(
            b as int,
        ),
    }
}

/// `fmt_hhmm`, extended to negative minutes with a sign.
pub open spec fn spec_fmt_signed(m: int) -> Seq<char> {
    if m >= 0 {
        fmt_hhmm(m)
    } else {
        seq!['-'] + fmt_hhmm(-m)
    }
}

/// Serializes a window back to the string form the parser accepts.
pub fn window_to_string(w: &WindowSpec) -> (r: String)
    ensures
        r@ == spec_window_str(*w),
{
    match w {
        WindowSpec::Anchor(a) => crate::time::format_minutes_to_hhmm(*a),
        WindowSpec::Range(a, b) => {
            let mut s = crate::time::format_minutes_to_hhmm(*a);
            push_char(&mut s, '-');
            let t = crate::time::format_minutes_to_hhmm(*b);
            s.append(t.as_str());
            proof {
                assert(s@ =~= spec_window_str(*w));
            }
            s
        },
    }
}

/// A constraint string the parser accepts (with hours fitting the type).
pub open spec fn constraint_ok(s: Seq<char>) -> bool {
    match spec_parse_constraint(spec_trim(s)) {
        Some((h, ct, w)) => h <= u32::MAX,
        None => false,
    }
}

/// The parsed constraint a string denotes.
pub open spec fn constraint_val_matches(s: Seq<char>, c: ConstraintExpr) -> bool {
    match spec_parse_constraint(spec_trim(s)) {
        Some((h, ct, w)) => c.time_hours == h && c.ctype == ct && (match w {
            None => c.cref is WithinGroup,
            Some(ws) => c.cref matches ConstraintRef::Unresolved(u) && u@ == ws,
        }),
        None => false,
    }
}

/// Parses a list of constraint strings; the first rejected string aborts.
pub fn parse_constraints(constraints: &Vec<String>) -> (r: Result<
    Vec<ConstraintExpr>,
    SchedulerError,
>)
    ensures
        r matches Ok(cs) ==> cs@.len() == constraints@.len() && (forall|i: int|
            0 <= i < constraints@.len() ==> constraint_val_matches(
                (#[trigger] constraints@[i])@,
                cs@[i],
            )),
        r matches Err(e) ==> exists|i: int|
            #![trigger constraints@[i]]
            0 <= i < constraints@.len() && !constraint_ok(constraints@[i]@) && (forall|j: int|
                0 <= j < i ==> constraint_ok((#[trigger] constraints@[j])@)) && (e
                matches SchedulerError::BadConstraint(t) && t@ == constraints@[i]@),
        (forall|i: int| 0 <= i < constraints@.len() ==> constraint_ok((#[trigger] constraints@[i])@))
            ==> r is Ok,
{
    let n = constraints.len();
    let mut out: Vec<ConstraintExpr> = Vec::new();
    let mut i: usize = 0;
    while i < n
        invariant
            i <= n,
            n == constraints@.len(),
            out@.len() == i,
            forall|x: int|
                0 <= x < i ==> constraint_val_matches((#[trigger] constraints@[x])@, out@[x]),
            forall|x: int| 0 <= x < i ==> constraint_ok((#[trigger] constraints@[x])@),
        decreases n - i,
    {
        match parse_one_constraint(constraints[i].as_str()) {
            Ok(c) => {
                out.push(c);
            },
            Err(e) => {
                return Err(e);
            },
        }
        i = i + 1;
    }
    Ok(out)
}

/// A window string the parser accepts.
pub open spec fn window_str_ok(s: Seq<char>) -> bool {
    spec_parse_window(spec_trim(s)) is Some
}

/// Parses a list of window strings; the first rejected string aborts.
pub fn parse_windows(windows: &Vec<String>) -> (r: Result<Vec<WindowSpec>, SchedulerError>)
    ensures
        r matches Ok(ws) ==> ws@.len() == windows@.len() && (forall|i: int|
            0 <= i < windows@.len() ==> Some(#[trigger] ws@[i]) == spec_parse_window(
                spec_trim(windows@[i]@),
            )),
        r matches Err(e) ==> exists|i: int|
            #![trigger windows@[i]]
            0 <= i < windows@.len() && !window_str_ok(windows@[i]@) && (forall|j: int|
                0 <= j < i ==> window_str_ok((#[trigger] windows@[j])@)) && (e
                matches SchedulerError::BadWindow(t) && t@ == windows@[i]@),
        (forall|i: int| 0 <= i < windows@.len() ==> window_str_ok((#[trigger] windows@[i])@))
            ==> r is Ok,
{
    let n = windows.len();
    let mut out: Vec<WindowSpec> = Vec::new();
    let mut i: usize = 0;
    while i < n
        invariant
            i <= n,
            n == windows@.len(),
            out@.len() == i,
            forall|x: int|
                0 <= x < i ==> Some(#[trigger] out@[x]) == spec_parse_window(
                    spec_trim(windows@[x]@),
                ),
            forall|x: int| 0 <= x < i ==> window_str_ok((#[trigger] windows@[x])@),
        decreases n - i,
    {
        match parse_one_window(windows[i].as_str()) {
            Ok(w) => {
                out.push(w);
            },
            Err(e) => {
                return Err(e);
            },
        }
        i = i + 1;
    }
    Ok(out)
}

/// Index of the first occurrence of `c`, or the length when absent.
pub open spec fn first_occ(s: Seq<char>, c: char) -> int
    decreases s.len(),
{
    if s.len() == 0 {
        0
    } else if s[0] == c {
        0
    } else {
        1 + first_occ(s.drop_first(), c)
    }
}

pub proof fn lemma_first_occ_at(s: Seq<char>, c: char, i: int)
    requires
        0 <= i <= s.len(),
        forall|k: int| 0 <= k < i ==> s[k] != c,
        i == s.len() || s[i] == c,
    ensures
        first_occ(s, c) == i,
    decreases i,
{
    if i > 0 {
        lemma_first_occ_at(s.drop_first(), c, i - 1);
    }
}

/// One comma-separated piece of a windows option string: blank (skipped), a
/// clock time, or two clock times joined by `-`, each side trimmed.
pub open spec fn spec_window_part(part: Seq<char>) -> Option<Option<WindowSpec>> {
    if part.len() == 0 {
        Some(None)
    } else {
        let d = first_dash(part);
        if d == part.len() {
            if valid_hhmm(part) {
                Some(Some(WindowSpec::Anchor(hhmm_value(part) as i32)))
            } else {
                None
            }
        } else {
            let a = spec_trim(part.take(d));
            let b = spec_trim(part.skip(d + 1));
            if valid_hhmm(a) && valid_hhmm(b) && hhmm_value(a) <= hhmm_value(b) {
                Some(
                    Some(WindowSpec::Range(hhmm_value(a) as i32, hhmm_value(b) as i32)),
                )
            } else {
                None
            }
        }
    }
}

/// A whole windows option string: comma-separated parts, trimmed, blanks
/// skipped.
pub open spec fn spec_windows_string(s: Seq<char>) -> Option<Seq<WindowSpec>>
    decreases s.len(),
{
    let i = first_occ(s, ',');
    let head = spec_window_part(spec_trim(s.take(i)));
    match head {
        None => None,
        Some(hw) => {
            if i >= s.len() {
                match hw {
                    None => Some(Seq::<WindowSpec>::empty()),
                    Some(w) => Some(seq![w]),
                }
            } else if 0 <= i {
                match spec_windows_string(s.skip(i + 1)) {
                    None => None,
                    Some(rest) => match hw {
                        None => Some(rest),
                        Some(w) => Some(seq![w] + rest),
                    },
                }
            } else {
                None
            }
        },
    }
}

/// Parses one comma-separated piece; `Ok(None)` is a blank piece.
fn parse_window_part(part: &Vec<char>) -> (r: Result<Option<WindowSpec>, SchedulerError>)
    ensures
        match spec_window_part(part@) {
            Some(hw) => r == Ok::<Option<WindowSpec>, SchedulerError>(hw),
            None => r is Err,
        },
{
    let n = part.len();
    if n == 0 {
        return Ok(None);
    }
    let mut d: usize = 0;
    while d < n && part[d] != '-'
        invariant
            d <= n,
            n == part@.len(),
            forall|k: int| 0 <= k < d ==> part@[k] != '-',
        decreases n - d,
    {
        d = d + 1;
    }
    proof {
        lemma_first_dash_at(part@, d as int);
    }
    if d == n {
        proof {
            assert(part@.subrange(0, n as int) =~= part@);
        }
        match parse_hhmm_range(part, 0, n) {
            Some(m) => Ok(Some(WindowSpec::Anchor(m))),
            None => Err(
                SchedulerError::BadTime(crate::text::string_from_range(part, 0, n)),
            ),
        }
    } else {
        let av = subvec(part, 0, d);
        let bv = subvec(part, d + 1, n);
        proof {
            assert(av@ =~= part@.take(d as int));
            assert(bv@ =~= part@.skip(d + 1));
        }
        let (ats, ate) = trim_range(&av);
        let (bts, bte) = trim_range(&bv);
        let a = parse_hhmm_range(&av, ats, ate);
        let b = parse_hhmm_range(&bv, bts, bte);
        match (a, b) {
            (Some(x), Some(y)) => {
                if x <= y {
                    Ok(Some(WindowSpec::Range(x, y)))
                } else {
                    Err(SchedulerError::BadWindow(crate::text::string_from_range(part, 0, n)))
                }
            },
            _ => Err(SchedulerError::BadTime(crate::text::string_from_range(part, 0, n))),
        }
    }
}

fn parse_windows_string_from(v: &Vec<char>, from: usize) -> (r: Result<
    Vec<WindowSpec>,
    SchedulerError,
>)
    requires
        from <= v@.len(),
    ensures
        match spec_windows_string(v@.skip(from as int)) {
            Some(ws) => r matches Ok(u) && u@ == ws,
            None => r is Err,
        },
    decreases v@.len() - from,
{
    let ghost s = v@.skip(from as int);
    let n = v.len();
    let mut i: usize = from;
    while i < n && v[i] != ','
        invariant
            from <= i <= n,
            n == v@.len(),
            forall|k: int| from <= k < i ==> v@[k] != ',',
        decreases n - i,
    {
        i = i + 1;
    }
    proof {
        assert(forall|k: int| 0 <= k < i - from ==> s[k] != ',');
        lemma_first_occ_at(s, ',', i - from);
        assert(s.take(i - from) =~= v@.subrange(from as int, i as int));
    }
    let piece = subvec(v, from, i);
    let (ts, te) = trim_range(&piece);
    let part = subvec(&piece, ts, te);
    let head = match parse_window_part(&part) {
        Ok(hw) => hw,
        Err(e) => {
            return Err(e);
        },
    };
    if i == n {
        let mut out: Vec<WindowSpec> = Vec::new();
        if let Some(w) = head {
            out.push(w);
            proof {
                assert(out@ =~= seq![w]);
            }
        }
        Ok(out)
    } else {
        proof {
            assert(s.skip(i + 1 - from) =~= v@.skip(i + 1));
        }
        match parse_windows_string_from(v, i + 1) {
            Ok(rest) => {
                let mut out: Vec<WindowSpec> = Vec::new();
                if let Some(w) = head {
                    out.push(w);
                }
                let ghost head_seq = out@;
                let m = rest.len();
                let mut k: usize = 0;
                while k < m
                    invariant
                        k <= m,
                        m == rest@.len(),
                        out@ == head_seq + rest@.take(k as int),
                    decreases m - k,
                {
                    out.push(rest[k]);
                    proof {
                        assert(head_seq + rest@.take(k + 1) =~= (head_seq + rest@.take(
                            k as int,
                        )).push(rest@[k as int]));
                    }
                    k = k + 1;
                }
                proof {
                    assert(rest@.take(m as int) =~= rest@);
                    if head is Some {
                        assert(out@ =~= seq![head->0] + rest@);
                    } else {
                        assert(out@ =~= rest@);
                    }
                }
                Ok(out)
            },
            Err(e) => Err(e),
        }
    }
}

/// Parses a comma-separated list of windows, such as
/// "08:00,12:00-13:00,18:00"; blank pieces are skipped and the sides of a
/// range may carry surrounding blanks.
pub fn parse_windows_string(input: &str) -> (r: Result<Vec<WindowSpec>, SchedulerError>)
    ensures
        match spec_windows_string(input@) {
            Some(ws) => r matches Ok(u) && u@ == ws,
            None => r is Err,
        },
{
    let v = chars_of(input);
    proof {
        assert(v@.skip(0) =~= input@);
    }
    parse_windows_string_from(&v, 0)
}

/// The canonical rendering of a constraint: the `≥` marker, the hours, `h`,
/// and the keyword, with the referenced word when there is one.
pub open spec fn spec_constraint_str(c: ConstraintExpr) -> Seq<char> {
    let head = seq!['≥'] + spec_dec(c.time_hours as int) + seq!['h', ' '];
    let kw = match c.ctype {
        ConstraintType::Apart => kw_apart(),
        ConstraintType::ApartFrom => kw_apart() + seq![' '] + kw_from(),
        ConstraintType::Before => kw_before(),
        ConstraintType::After => kw_after(),
    };
    let word = match c.cref {
        ConstraintRef::WithinGroup => Seq::<char>::empty(),
        ConstraintRef::Unresolved(u) => seq![' '] + u@,
    };
    head + kw + word
}

/// Serializes a constraint back to the string form the parser accepts.
pub fn constraint_to_string(c: &ConstraintExpr) -> (r: String)
    ensures
        r@ == spec_constraint_str(*c),
{
    let mut s = String::new();
    push_char(&mut s, '≥');
    let hours = u64_to_string(c.time_hours as u64);
    s.append(hours.as_str());
    s.append("h ");
    match &c.ctype {
        ConstraintType::Apart => s.append("apart"),
        ConstraintType::ApartFrom => s.append("apart from"),
        ConstraintType::Before => s.append("before"),
        ConstraintType::After => s.append("after"),
    }
    match &c.cref {
        ConstraintRef::WithinGroup => (),
        ConstraintRef::Unresolved(u) => {
            push_char(&mut s, ' ');
            s.append(u.as_str());
        },
    }
    proof {
        reveal_strlit("h ");
        reveal_strlit("apart");
        reveal_strlit("apart from");
        reveal_strlit("before");
        reveal_strlit("after");
        assert(s@ =~= spec_constraint_str(*c));
    }
    s
}


/// The quoted content of one bracket-list piece.
pub open spec fn spec_quoted_content(piece: Seq<char>) -> Option<Seq<char>> {
    let q = spec_trim(piece);
    if q.len() >= 2 && q[0] == '"' && q.last() == '"' {
        Some(q.subrange(1, q.len() - 1))
    } else {
        None
    }
}

/// Comma-separated quoted strings (at least one).
pub open spec fn spec_quoted_items(inner: Seq<char>) -> Option<Seq<Seq<char>>>
    decreases inner.len(),
{
    let i = first_occ(inner, ',');
    match spec_quoted_content(inner.take(i)) {
        None => None,
        Some(c) => {
            if i >= inner.len() {
                Some(seq![c])
            } else if 0 <= i {
                match spec_quoted_items(inner.skip(i + 1)) {
                    None => None,
                    Some(rest) => Some(seq![c] + rest),
                }
            } else {
                None
            }
        },
    }
}

/// A bracketed list of quoted strings, such as `["a", "b"]`; a blank cell
/// counts as the empty list.
pub open spec fn spec_bracket_list(s: Seq<char>) -> Option<Seq<Seq<char>>> {
    let t = spec_trim(s);
    if t.len() == 0 {
        Some(Seq::<Seq<char>>::empty())
    } else if t.len() >= 2 && t[0] == '[' && t.last() == ']' {
        let inner = spec_trim(t.subrange(1, t.len() - 1));
        if inner.len() == 0 {
            Some(Seq::<Seq<char>>::empty())
        } else {
            spec_quoted_items(inner)
        }
    } else {
        None
    }
}

/// Parses one quoted piece, yielding its content.
fn parse_quoted_piece(piece: &Vec<char>) -> (r: Option<String>)
    ensures
        match spec_quoted_content(piece@) {
            Some(c) => r matches Some(u) && u@ == c,
            None => r is None,
        },
{
    let (ts, te) = trim_range(piece);
    let q = subvec(piece, ts, te);
    let n = q.len();
    if n >= 2 && q[0] == '"' && q[n - 1] == '"' {
        Some(string_from_range(&q, 1, n - 1))
    } else {
        None
    }
}

fn parse_quoted_items_from(v: &Vec<char>, from: usize) -> (r: Option<Vec<String>>)
    requires
        from <= v@.len(),
    ensures
        match spec_quoted_items(v@.skip(from as int)) {
            Some(items) => r matches Some(u) && u@.len() == items.len() && (forall|i: int|
                0 <= i < items.len() ==> (#[trigger] u@[i])@ == items[i]),
            None => r is None,
        },
    decreases v@.len() - from,
{
    let ghost s = v@.skip(from as int);
    let n = v.len();
    let mut i: usize = from;
    while i < n && v[i] != ','
        invariant
            from <= i <= n,
            n == v@.len(),
            forall|k: int| from <= k < i ==> v@[k] != ',',
        decreases n - i,
    {
        i = i + 1;
    }
    proof {
        assert(forall|k: int| 0 <= k < i - from ==> s[k] != ',');
        lemma_first_occ_at(s, ',', i - from);
        assert(s.take(i - from) =~= v@.subrange(from as int, i as int));
    }
    let piece = subvec(v, from, i);
    let head = match parse_quoted_piece(&piece) {
        Some(c) => c,
        None => {
            return None;
        },
    };
    if i == n {
        let mut out: Vec<String> = Vec::new();
        out.push(head);
        proof {
            assert(out@.len() == 1);
        }
        Some(out)
    } else {
        proof {
            assert(s.skip(i + 1 - from) =~= v@.skip(i + 1));
        }
        match parse_quoted_items_from(v, i + 1) {
            Some(rest) => {
                let ghost items = spec_quoted_items(v@.skip(from as int))->0;
                let mut out: Vec<String> = Vec::new();
                out.push(head);
                let m = rest.len();
                let ghost rest_items = spec_quoted_items(v@.skip(i + 1))->0;
                let mut k: usize = 0;
                while k < m
                    invariant
                        k <= m,
                        m == rest@.len(),
                        out@.len() == k + 1,
                        m == rest_items.len(),
                        forall|x: int|
                            0 <= x < rest@.len() ==> (#[trigger] rest@[x])@ == rest_items[x],
                        out@[0]@ == spec_quoted_content(s.take(first_occ(s, ',')))->0,
                        forall|x: int| 1 <= x < out@.len() ==> (#[trigger] out@[x])@
                            == rest_items[x - 1],
                    decreases m - k,
                {
                    out.push(rest[k].clone());
                    k = k + 1;
                }
                Some(out)
            },
            None => None,
        }
    }
}

/// Parses a bracketed list of quoted strings.
fn parse_bracket_list(s: &str) -> (r: Option<Vec<String>>)
    ensures
        match spec_bracket_list(s@) {
            Some(items) => r matches Some(u) && u@.len() == items.len() && (forall|i: int|
                0 <= i < items.len() ==> (#[trigger] u@[i])@ == items[i]),
            None => r is None,
        },
{
    let v = chars_of(s);
    let (ts, te) = trim_range(&v);
    let t = subvec(&v, ts, te);
    let n = t.len();
    if n == 0 {
        return Some(Vec::new());
    }
    if !(n >= 2 && t[0] == '[' && t[n - 1] == ']') {
        return None;
    }
    let body = subvec(&t, 1, n - 1);
    let (bs, be) = trim_range(&body);
    let inner = subvec(&body, bs, be);
    proof {
        assert(t@.subrange(1, n - 1) =~= body@);
    }
    if inner.len() == 0 {
        return Some(Vec::new());
    }
    proof {
        assert(inner@.skip(0) =~= inner@);
    }
    parse_quoted_items_from(&inner, 0)
}

pub open spec fn hdr_event() -> Seq<char> {
    seq!['E', 'v', 'e', 'n', 't']
}

pub open spec fn hdr_entity() -> Seq<char> {
    seq!['E', 'n', 't', 'i', 't', 'y']
}

pub open spec fn hdr_category() -> Seq<char> {
    seq!['C', 'a', 't', 'e', 'g', 'o', 'r', 'y']
}

pub open spec fn hdr_frequency() -> Seq<char> {
    seq!['F', 'r', 'e', 'q', 'u', 'e', 'n', 'c', 'y']
}

pub open spec fn hdr_constraints() -> Seq<char> {
    seq!['C', 'o', 'n', 's', 't', 'r', 'a', 'i', 'n', 't', 's']
}

pub open spec fn hdr_windows() -> Seq<char> {
    seq!['W', 'i', 'n', 'd', 'o', 'w', 's']
}

/// Index of the first header cell with exactly this text; the row's length
/// when absent.
pub open spec fn col_idx(hdr: Seq<String>, name: Seq<char>) -> int
    decreases hdr.len(),
{
    if hdr.len() == 0 {
        0
    } else if hdr[0]@ == name {
        0
    } else {
        1 + col_idx(hdr.drop_first(), name)
    }
}

proof fn lemma_col_idx_at(hdr: Seq<String>, name: Seq<char>, i: int)
    requires
        0 <= i <= hdr.len(),
        forall|k: int| 0 <= k < i ==> (#[trigger] hdr[k])@ != name,
        i == hdr.len() || hdr[i]@ == name,
    ensures
        col_idx(hdr, name) == i,
    decreases i,
{
    if i > 0 {
        lemma_col_idx_at(hdr.drop_first(), name, i - 1);
    }
}

fn find_col(hdr: &Vec<String>, target: &String) -> (r: Option<usize>)
    ensures
        r matches Some(c) ==> c < hdr@.len() && c == col_idx(hdr@, target@),
        r is None ==> col_idx(hdr@, target@) == hdr@.len(),
{
    let n = hdr.len();
    let mut i: usize = 0;
    while i < n
        invariant
            i <= n,
            n == hdr@.len(),
            forall|k: int| 0 <= k < i ==> (#[trigger] hdr@[k])@ != target@,
        decreases n - i,
    {
        if hdr[i] == *target {
            proof {
                lemma_col_idx_at(hdr@, target@, i as int);
            }
            return Some(i);
        }
        i = i + 1;
    }
    proof {
        lemma_col_idx_at(hdr@, target@, n as int);
    }
    None
}

/// The name column: `Event` if present, else `Entity`.
pub open spec fn name_col(hdr: Seq<String>) -> int {
    if col_idx(hdr, hdr_event()) < hdr.len() {
        col_idx(hdr, hdr_event())
    } else {
        col_idx(hdr, hdr_entity())
    }
}

/// The header carries the three required columns.
pub open spec fn table_hdr_ok(hdr: Seq<String>) -> bool {
    &&& name_col(hdr) < hdr.len()
    &&& col_idx(hdr, hdr_category()) < hdr.len()
    &&& col_idx(hdr, hdr_frequency()) < hdr.len()
}

/// The items of an optional bracket-list cell: the parsed list when the
/// column exists and the row reaches it, the empty list otherwise; nothing
/// when the cell is malformed.
pub open spec fn opt_cell_items(hdr: Seq<String>, row: Seq<String>, name: Seq<char>) -> Option<
    Seq<Seq<char>>,
> {
    let c = col_idx(hdr, name);
    if c < hdr.len() && c < row.len() {
        spec_bracket_list(row[c]@)
    } else {
        Some(Seq::<Seq<char>>::empty())
    }
}

/// A data row every one of whose cells the grammars accept.
pub open spec fn row_parseable(hdr: Seq<String>, row: Seq<String>) -> bool {
    let nc = name_col(hdr);
    let cc = col_idx(hdr, hdr_category());
    let fc = col_idx(hdr, hdr_frequency());
    &&& nc < row.len()
    &&& cc < row.len()
    &&& fc < row.len()
    &&& (match crate::domain::spec_parse_frequency(spec_trim(row[fc]@)) {
        Some(n) => n <= u32::MAX,
        None => false,
    })
    &&& (match opt_cell_items(hdr, row, hdr_constraints()) {
        Some(items) => forall|i: int| 0 <= i < items.len() ==> constraint_ok(#[trigger] items[i]),
        None => false,
    })
    &&& (match opt_cell_items(hdr, row, hdr_windows()) {
        Some(items) => forall|i: int| 0 <= i < items.len() ==> window_str_ok(#[trigger] items[i]),
        None => false,
    })
}

/// What one parsed entity owes to its table row.
pub open spec fn row_entity_ok(hdr: Seq<String>, row: Seq<String>, e: Entity) -> bool {
    let nc = name_col(hdr);
    let cc = col_idx(hdr, hdr_category());
    let fc = col_idx(hdr, hdr_frequency());
    &&& nc < row.len() && e.name@ == row[nc]@
    &&& cc < row.len() && e.category@ == row[cc]@
    &&& fc < row.len() && (match crate::domain::spec_parse_frequency(spec_trim(row[fc]@)) {
        Some(n) => n <= u32::MAX && e.frequency == crate::domain::Frequency::TimesPerDay(
            n as u32,
        ),
        None => false,
    })
    &&& (match opt_cell_items(hdr, row, hdr_constraints()) {
        Some(items) => e.constraints@.len() == items.len() && (forall|i: int|
            0 <= i < items.len() ==> constraint_val_matches(
                items[i],
                #[trigger] e.constraints@[i],
            )),
        None => false,
    })
    &&& (match opt_cell_items(hdr, row, hdr_windows()) {
        Some(items) => e.windows@.len() == items.len() && (forall|i: int|
            0 <= i < items.len() ==> Some(#[trigger] e.windows@[i]) == spec_parse_window(
                spec_trim(items[i]),
            )),
        None => false,
    })
}

/// One row in the cells the required and optional columns read.
fn parse_table_row(hdr: &Vec<String>, row: &Vec<String>, rowno: usize) -> (r: Result<
    Entity,
    SchedulerError,
>)
    requires
        table_hdr_ok(hdr@),
    ensures
        r matches Ok(e) ==> row_entity_ok(hdr@, row@, e),
        r matches Err(e) ==> e is BadTable,
        row_parseable(hdr@, row@) ==> r is Ok,
{
    let ev = String::from_str("Event");
    let en = String::from_str("Entity");
    let ca = String::from_str("Category");
    let fr = String::from_str("Frequency");
    let co = String::from_str("Constraints");
    let wi = String::from_str("Windows");
    proof {
        reveal_strlit("Event");
        reveal_strlit("Entity");
        reveal_strlit("Category");
        reveal_strlit("Frequency");
        reveal_strlit("Constraints");
        reveal_strlit("Windows");
        assert(ev@ =~= hdr_event());
        assert(en@ =~= hdr_entity());
        assert(ca@ =~= hdr_category());
        assert(fr@ =~= hdr_frequency());
        assert(co@ =~= hdr_constraints());
        assert(wi@ =~= hdr_windows());
    }
    let nc = match find_col(hdr, &ev) {
        Some(c) => c,
        None => match find_col(hdr, &en) {
            Some(c) => c,
            None => {
                return Err(
                    SchedulerError::BadTable(0, 0, String::from_str("no name column")),
                );
            },
        },
    };
    proof {
        assert(nc == name_col(hdr@));
    }
    let cc = match find_col(hdr, &ca) {
        Some(c) => c,
        None => {
            return Err(SchedulerError::BadTable(0, 0, String::from_str("no category column")));
        },
    };
    let fc = match find_col(hdr, &fr) {
        Some(c) => c,
        None => {
            return Err(
                SchedulerError::BadTable(0, 0, String::from_str("no frequency column")),
            );
        },
    };
    if nc >= row.len() {
        return Err(SchedulerError::BadTable(rowno, nc, String::from_str("missing name cell")));
    }
    if cc >= row.len() {
        return Err(
            SchedulerError::BadTable(rowno, cc, String::from_str("missing category cell")),
        );
    }
    if fc >= row.len() {
        return Err(
            SchedulerError::BadTable(rowno, fc, String::from_str("missing frequency cell")),
        );
    }
    let frequency = match crate::domain::Frequency::from_frequency_str(row[fc].as_str()) {
        Ok(f) => f,
        Err(_) => {
            return Err(SchedulerError::BadTable(rowno, fc, row[fc].clone()));
        },
    };
    let mut constraints: Vec<ConstraintExpr> = Vec::new();
    match find_col(hdr, &co) {
        Some(xc) => {
            if xc < row.len() {
                match parse_bracket_list(row[xc].as_str()) {
                    Some(items) => {
                        match parse_constraints(&items) {
                            Ok(cs) => {
                                proof {
                                    let spec_items = spec_bracket_list(
                                        row@[xc as int]@,
                                    )->0;
                                    assert forall|i: int|
                                        0 <= i < spec_items.len() implies constraint_val_matches(
                                        spec_items[i],
                                        cs@[i],
                                    ) by {
                                        assert(items@[i]@ == spec_items[i]);
                                        assert(constraint_val_matches(items@[i]@, cs@[i]));
                                    }
                                }
                                constraints = cs;
                            },
                            Err(_) => {
                                return Err(
                                    SchedulerError::BadTable(rowno, xc, row[xc].clone()),
                                );
                            },
                        }
                    },
                    None => {
                        return Err(SchedulerError::BadTable(rowno, xc, row[xc].clone()));
                    },
                }
            }
        },
        None => {},
    }
    let mut windows: Vec<WindowSpec> = Vec::new();
    match find_col(hdr, &wi) {
        Some(wc) => {
            if wc < row.len() {
                match parse_bracket_list(row[wc].as_str()) {
                    Some(items) => {
                        match parse_windows(&items) {
                            Ok(ws) => {
                                proof {
                                    let spec_items = spec_bracket_list(
                                        row@[wc as int]@,
                                    )->0;
                                    assert forall|i: int|
                                        0 <= i < spec_items.len() implies Some(ws@[i])
                                        == spec_parse_window(spec_trim(spec_items[i])) by {
                                        assert(items@[i]@ == spec_items[i]);
                                        assert(Some(ws@[i]) == spec_parse_window(
                                            spec_trim(items@[i]@),
                                        ));
                                    }
                                }
                                windows = ws;
                            },
                            Err(_) => {
                                return Err(
                                    SchedulerError::BadTable(rowno, wc, row[wc].clone()),
                                );
                            },
                        }
                    },
                    None => {
                        return Err(SchedulerError::BadTable(rowno, wc, row[wc].clone()));
                    },
                }
            }
        },
        None => {},
    }
    Ok(
        Entity {
            name: row[nc].clone(),
            category: row[cc].clone(),
            frequency,
            constraints,
            windows,
        },
    )
}

/// Parses a header-led table of cells into entities. Errors name the row
/// and column of the offending cell.
pub fn parse_from_table(rows: Vec<Vec<String>>) -> (r: Result<Vec<Entity>, SchedulerError>)
    ensures
        r matches Ok(es) ==> rows@.len() >= 1 && table_hdr_ok(rows@[0]@) && es@.len() == rows@.len()
            - 1 && (forall|k: int|
            0 <= k < es@.len() ==> row_entity_ok(rows@[0]@, rows@[k + 1]@, #[trigger] es@[k])),
        r matches Err(e) ==> e is BadTable,
        (rows@.len() >= 1 && table_hdr_ok(rows@[0]@) && (forall|k: int|
            1 <= k < rows@.len() ==> row_parseable(rows@[0]@, #[trigger] rows@[k]@))) ==> r is Ok,
{
    if rows.len() == 0 {
        return Err(SchedulerError::BadTable(0, 0, String::from_str("empty table")));
    }
    let hdr = &rows[0];
    {
        let ev = String::from_str("Event");
        let en = String::from_str("Entity");
        let ca = String::from_str("Category");
        let fr = String::from_str("Frequency");
        proof {
            reveal_strlit("Event");
            reveal_strlit("Entity");
            reveal_strlit("Category");
            reveal_strlit("Frequency");
            assert(ev@ =~= hdr_event());
            assert(en@ =~= hdr_entity());
            assert(ca@ =~= hdr_category());
            assert(fr@ =~= hdr_frequency());
        }
        let name_found = match find_col(hdr, &ev) {
            Some(_) => true,
            None => match find_col(hdr, &en) {
                Some(_) => true,
                None => false,
            },
        };
        if !name_found {
            return Err(SchedulerError::BadTable(0, 0, String::from_str("no name column")));
        }
        if let None = find_col(hdr, &ca) {
            return Err(SchedulerError::BadTable(0, 0, String::from_str("no category column")));
        }
        if let None = find_col(hdr, &fr) {
            return Err(
                SchedulerError::BadTable(0, 0, String::from_str("no frequency column")),
            );
        }
    }
    let n = rows.len();
    let mut es: Vec<Entity> = Vec::new();
    let mut k: usize = 1;
    while k < n
        invariant
            1 <= k <= n,
            n == rows@.len(),
            table_hdr_ok(rows@[0]@),
            es@.len() == k - 1,
            forall|x: int|
                0 <= x < es@.len() ==> row_entity_ok(rows@[0]@, rows@[x + 1]@, #[trigger] es@[x]),
        decreases n - k,
    {
        match parse_table_row(&rows[0], &rows[k], k) {
            Ok(e) => {
                es.push(e);
            },
            Err(e) => {
                return Err(e);
            },
        }
        k = k + 1;
    }
    Ok(es)
}


/// A window whose minutes have a clock-time rendering.
pub open spec fn window_in_day(w: WindowSpec) -> bool {
    match w {
        WindowSpec::Anchor(a) => 0 <= a <= 1439,
        WindowSpec::Range(a, b) => 0 <= a <= b <= 1439,
    }
}

/// A rendered clock time holds no blank, dash or quote, only digits and the
/// colon.
proof fn lemma_fmt_chars(m: int)
    requires
        0 <= m <= 1439,
    ensures
        forall|k: int|
            0 <= k < fmt_hhmm(m).len() ==> ({
                let c = #[trigger] fmt_hhmm(m)[k];
                (crate::text::spec_is_digit(c) || c == ':') && !crate::text::spec_is_space(c)
                    && c != '-'
            }),
{
    crate::time::lemma_parse_format_roundtrip(m);
    let s = fmt_hhmm(m);
    assert forall|k: int|
        0 <= k < s.len() implies ({
        let c = #[trigger] s[k];
        (crate::text::spec_is_digit(c) || c == ':') && !crate::text::spec_is_space(c) && c != '-'
    }) by {
        assert(s.len() == 5);
        assert(crate::time::hhmm_shape(s));
        if k == 2 {
            assert(s[2] == ':');
        } else {
            assert(crate::text::spec_is_digit(s[k]));
        }
    }
}

/// Serializer round trip for windows: re-parsing a rendered window yields
/// the window itself.
pub proof fn lemma_window_roundtrip(w: WindowSpec)
    requires
        window_in_day(w),
    ensures
        spec_parse_window(spec_trim(spec_window_str(w))) == Some(w),
{
    match w {
        WindowSpec::Anchor(a) => {
            let s = fmt_hhmm(a as int);
            crate::time::lemma_parse_format_roundtrip(a as int);
            lemma_fmt_chars(a as int);
            assert(spec_window_str(w) == s);
            crate::text::lemma_trim_clean(s);
            lemma_first_dash_at(s, s.len() as int);
            assert(spec_parse_window(s) == Some(WindowSpec::Anchor(hhmm_value(s) as i32)));
        },
        WindowSpec::Range(a, b) => {
            let fa = fmt_hhmm(a as int);
            let fb = fmt_hhmm(b as int);
            crate::time::lemma_parse_format_roundtrip(a as int);
            crate::time::lemma_parse_format_roundtrip(b as int);
            lemma_fmt_chars(a as int);
            lemma_fmt_chars(b as int);
            let s = fa + seq!['-'] + fb;
            assert(spec_window_str(w) == s);
            assert(s[0] == fa[0]);
            assert(s.last() == fb[4]);
            crate::text::lemma_trim_clean(s);
            assert(forall|k: int| 0 <= k < 5 ==> #[trigger] s[k] == fa[k]);
            assert(s[5] == '-');
            lemma_first_dash_at(s, 5);
            assert(s.take(5) =~= fa);
            assert(s.skip(6) =~= fb);
            assert(spec_parse_window(s) == Some(
                WindowSpec::Range(hhmm_value(fa) as i32, hhmm_value(fb) as i32),
            ));
        },
    }
}

/// A constraint the serializer and the parser agree on: the kind/reference
/// combinations the grammar can produce, with a word that carries no blank
/// ends.
pub open spec fn wf_constraint(c: ConstraintExpr) -> bool {
    match (c.ctype, c.cref) {
        (ConstraintType::Apart, ConstraintRef::WithinGroup) => true,
        (ConstraintType::ApartFrom, ConstraintRef::Unresolved(u)) => wf_word(u@),
        (ConstraintType::Before, ConstraintRef::Unresolved(u)) => wf_word(u@),
        (ConstraintType::After, ConstraintRef::Unresolved(u)) => wf_word(u@),
        _ => false,
    }
}

/// A reference word the grammar can capture back: nonempty, with no blank
/// at either end.
pub open spec fn wf_word(u: Seq<char>) -> bool {
    u.len() > 0 && !spec_is_space(u[0]) && !spec_is_space(u.last())
}

/// Keywords match themselves.
proof fn lemma_kw_self(kw: Seq<char>)
    ensures
        matches_kw(kw, kw),
{
    assert forall|i: int| 0 <= i < kw.len() implies ci_eq(kw[i], #[trigger] kw[i]) by {}
}

/// Serializer round trip for constraints: re-parsing a rendered constraint
/// yields an equal value.
#[verifier::rlimit(60)]
pub proof fn lemma_constraint_roundtrip(c: ConstraintExpr)
    requires
        wf_constraint(c),
    ensures
        constraint_val_matches(spec_constraint_str(c), c),
{
    let h = c.time_hours as int;
    let d = spec_dec(h);
    crate::text::lemma_spec_dec(h);
    let kw = match c.ctype {
        ConstraintType::Apart => kw_apart(),
        ConstraintType::ApartFrom => kw_apart() + seq![' '] + kw_from(),
        ConstraintType::Before => kw_before(),
        ConstraintType::After => kw_after(),
    };
    let word = match c.cref {
        ConstraintRef::WithinGroup => Seq::<char>::empty(),
        ConstraintRef::Unresolved(u) => seq![' '] + u@,
    };
    let s = seq!['≥'] + d + seq!['h', ' '] + kw + word;
    assert(spec_constraint_str(c) == s);
    // no blank ends, so trimming is the identity
    assert(s[0] == '≥');
    match c.cref {
        ConstraintRef::WithinGroup => {
            assert(s.last() == kw.last());
            assert(!spec_is_space(kw.last()));
        },
        ConstraintRef::Unresolved(u) => {
            assert(s.last() == u@.last());
        },
    }
    crate::text::lemma_trim_clean(s);
    assert(geq_prefix_len(s) == 1);
    let rest = s.skip(1);
    assert(rest =~= d + (seq!['h', ' '] + kw + word));
    // the digit run is exactly the rendered hours
    assert(rest[d.len() as int] == 'h');
    assert(forall|k: int| 0 <= k < d.len() ==> #[trigger] rest[k] == d[k]);
    crate::text::lemma_digits_run_at(rest, d.len() as int);
    assert(rest.take(d.len() as int) =~= d);
    assert(ci_eq(rest[digits_run(rest)], 'h'));
    let after_h = rest.skip(d.len() as int + 1);
    assert(after_h =~= seq![' '] + (kw + word));
    assert(after_h[0] == ' ');
    assert(after_h[1] == kw[0]);
    assert(!spec_is_space(kw[0]));
    crate::text::lemma_spaces_run_at(after_h, 1);
    let kwv = after_h.skip(1);
    assert(kwv =~= kw + word);
    lemma_keyword_tail(c, kw, word, kwv);
    assert(constraint_val_matches(s, c));
}

/// The keyword-and-word part of a rendered constraint parses back to the
/// constraint's kind and reference.
proof fn lemma_keyword_tail(c: ConstraintExpr, kw: Seq<char>, word: Seq<char>, kwv: Seq<char>)
    requires
        wf_constraint(c),
        kw == (match c.ctype {
            ConstraintType::Apart => kw_apart(),
            ConstraintType::ApartFrom => kw_apart() + seq![' '] + kw_from(),
            ConstraintType::Before => kw_before(),
            ConstraintType::After => kw_after(),
        }),
        word == (match c.cref {
            ConstraintRef::WithinGroup => Seq::<char>::empty(),
            ConstraintRef::Unresolved(u) => seq![' '] + u@,
        }),
        kwv == kw + word,
    ensures
        spec_parse_keyword_tail(kwv) == (match c.cref {
            ConstraintRef::WithinGroup => Some((c.ctype, None::<Seq<char>>)),
            ConstraintRef::Unresolved(u) => Some((c.ctype, Some(u@))),
        }),
{
    match (c.ctype, c.cref) {
        (ConstraintType::Apart, ConstraintRef::WithinGroup) => {
            assert(kwv =~= kw_apart());
            assert(kwv.take(5) =~= kw_apart());
            lemma_kw_self(kw_apart());
            assert(kwv.skip(5) =~= Seq::<char>::empty());
            assert(spec_parse_apart_tail(kwv.skip(5)) == Some(None::<Seq<char>>));
        },
        (ConstraintType::ApartFrom, ConstraintRef::Unresolved(u)) => {
            assert(kwv =~= kw_apart() + seq![' '] + kw_from() + seq![' '] + u@);
            assert(kwv.take(5) =~= kw_apart());
            lemma_kw_self(kw_apart());
            let ap = kwv.skip(5);
            assert(ap =~= seq![' '] + (kw_from() + seq![' '] + u@));
            assert(ap[0] == ' ');
            assert(ap[1] == 'f');
            crate::text::lemma_spaces_run_at(ap, 1);
            let f = ap.skip(1);
            assert(f =~= kw_from() + seq![' '] + u@);
            assert(f.take(4) =~= kw_from());
            lemma_kw_self(kw_from());
            let fr = f.skip(4);
            assert(fr =~= seq![' '] + u@);
            assert(fr[0] == ' ');
            assert(fr[1] == u@[0]);
            crate::text::lemma_spaces_run_at(fr, 1);
            assert(4 + 1 < f.len());
            assert(f.skip(5) =~= u@);
            assert(spec_parse_apart_tail(ap) == Some(Some(u@)));
        },
        (ConstraintType::Before, ConstraintRef::Unresolved(u)) => {
            assert(kwv =~= kw_before() + seq![' '] + u@);
            // not `apart`: the first letters differ
            assert(kwv.take(5)[0] == 'b');
            assert(!ci_eq(kwv.take(5)[0], kw_apart()[0]));
            assert(!matches_kw(kwv.take(5), kw_apart()));
            assert(kwv.take(6) =~= kw_before());
            lemma_kw_self(kw_before());
            let rest = kwv.skip(6);
            assert(rest =~= seq![' '] + u@);
            assert(rest[0] == ' ');
            assert(rest[1] == u@[0]);
            crate::text::lemma_spaces_run_at(rest, 1);
            assert(rest.skip(1) =~= u@);
            assert(spec_word_after(rest) == Some(u@));
        },
        (ConstraintType::After, ConstraintRef::Unresolved(u)) => {
            assert(kwv =~= kw_after() + seq![' '] + u@);
            // not `apart`: the second letters differ
            assert(kwv.take(5)[1] == 'f');
            assert(!ci_eq(kwv.take(5)[1], kw_apart()[1]));
            assert(!matches_kw(kwv.take(5), kw_apart()));
            // not `before`: the first letters differ
            if kwv.len() >= 6 {
                assert(kwv.take(6)[0] == 'a');
                assert(!ci_eq(kwv.take(6)[0], kw_before()[0]));
                assert(!matches_kw(kwv.take(6), kw_before()));
            }
            assert(kwv.take(5) =~= kw_after());
            lemma_kw_self(kw_after());
            let rest = kwv.skip(5);
            assert(rest =~= seq![' '] + u@);
            assert(rest[0] == ' ');
            assert(rest[1] == u@[0]);
            crate::text::lemma_spaces_run_at(rest, 1);
            assert(rest.skip(1) =~= u@);
            assert(spec_word_after(rest) == Some(u@));
        },
        _ => {},
    }
}

} // verus!
