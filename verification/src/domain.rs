//! The domain model: entities, frequencies, constraints, windows,
//! configuration and results, together with the frequency-string parser.

use vstd::prelude::*;

use crate::text::{
    chars_of, ci_eq, ci_eq_exec, digits_run, digits_val, digits_value_u32, match_kw_at,
    matches_kw, push_char, scan_digits_from, scan_spaces_from, spaces_run, spec_dec, spec_trim,
    subvec, trim_range, u64_to_string,
};

verus! {

/// How a constraint relates its owner to its reference.
#[derive(Debug, Clone, Copy, PartialEq, Eq, Structural)]
pub enum ConstraintType {
    Before,
    After,
    Apart,
    ApartFrom,
}

/// What a constraint is measured against: the owner's own instances, or a
/// named entity or category resolved at solve time.
#[derive(Debug, Clone)]
pub enum ConstraintRef {
    WithinGroup,
    Unresolved(String),
}

/// Equality of constraint references, by the referenced word's characters.
pub open spec fn cref_eq(a: &ConstraintRef, b: &ConstraintRef) -> bool {
    match (a, b) {
        (ConstraintRef::WithinGroup, ConstraintRef::WithinGroup) => true,
        (ConstraintRef::Unresolved(x), ConstraintRef::Unresolved(y)) => x@ == y@,
        _ => false,
    }
}

impl PartialEq for ConstraintRef {
    fn eq(&self, other: &ConstraintRef) -> (r: bool) {
        match (self, other) {
            (ConstraintRef::WithinGroup, ConstraintRef::WithinGroup) => true,
            (ConstraintRef::Unresolved(x), ConstraintRef::Unresolved(y)) => x.eq(y),
            _ => false,
        }
    }
}

impl vstd::std_specs::cmp::PartialEqSpecImpl for ConstraintRef {
    open spec fn obeys_eq_spec() -> bool {
        true
    }

    open spec fn eq_spec(&self, other: &ConstraintRef) -> bool {
        cref_eq(self, other)
    }
}

/// One parsed constraint: a number of hours, a kind, and a reference.
#[derive(Debug, Clone)]
pub struct ConstraintExpr {
    pub time_hours: u32,
    pub ctype: ConstraintType,
    pub cref: ConstraintRef,
}

/// Equality of constraint expressions, by fields.
pub open spec fn constraint_eq(a: &ConstraintExpr, b: &ConstraintExpr) -> bool {
    a.time_hours == b.time_hours && a.ctype == b.ctype && cref_eq(&a.cref, &b.cref)
}

impl PartialEq for ConstraintExpr {
    fn eq(&self, other: &ConstraintExpr) -> (r: bool) {
        self.time_hours == other.time_hours && self.ctype == other.ctype && self.cref
            == other.cref
    }
}

impl vstd::std_specs::cmp::PartialEqSpecImpl for ConstraintExpr {
    open spec fn obeys_eq_spec() -> bool {
        true
    }

    open spec fn eq_spec(&self, other: &ConstraintExpr) -> bool {
        constraint_eq(self, other)
    }
}

/// How often an entity occurs in the day.
#[derive(Debug, Clone, Copy, PartialEq, Eq, Structural)]
pub enum Frequency {
    /// "N x daily": exactly N instants in the day.
    TimesPerDay(u32),
}

/// The lowercase keyword that closes a frequency string.
pub open spec fn kw_daily() -> Seq<char> {
    seq!['d', 'a', 'i', 'l', 'y']
}

/// The frequency grammar over an already-trimmed sequence: one or more
/// digits, optional blanks, an `x`, optional blanks, and the word `daily`
/// (keyword letters case-insensitive). The result is the digits' value,
/// which must be at least one: an entity occurs a positive number of times.
pub open spec fn spec_parse_frequency(t: Seq<char>) -> Option<int> {
    let d = digits_run(t);
    if d < 1 {
        None
    } else {
        let s1 = d + spaces_run(t.skip(d));
        if !(s1 < t.len() && ci_eq(t[s1], 'x')) {
            None
        } else {
            let s2 = s1 + 1 + spaces_run(t.skip(s1 + 1));
            if matches_kw(t.skip(s2), kw_daily()) && digits_val(t.take(d)) >= 1 {
                Some(digits_val(t.take(d)))
            } else {
                None
            }
        }
    }
}

/// The rejection reply of the frequency parser.
pub open spec fn is_bad_frequency(r: Result<Frequency, SchedulerError>, s: Seq<char>) -> bool {
    &&& r matches Err(e)
    &&& e matches SchedulerError::BadFrequency(t)
    &&& t@ == s
}

impl Frequency {
    /// Parses strings like "3x daily". Anything else is rejected.
    pub fn from_frequency_str(s: &str) -> (r: Result<Frequency, SchedulerError>)
        ensures
            match spec_parse_frequency(spec_trim(s@)) {
                Some(n) => {
                    if n <= u32::MAX {
                        r == Ok::<Frequency, SchedulerError>(Frequency::TimesPerDay(n as u32))
                    } else {
                        is_bad_frequency(r, s@)
                    }
                },
                None => is_bad_frequency(r, s@),
            },
    {
        let full = chars_of(s);
        let (a, b) = trim_range(&full);
        let t = subvec(&full, a, b);
        let ghost tv = spec_trim(s@);
        let n = t.len();
        let d = scan_digits_from(&t, 0);
        proof {
            assert(t@.skip(0) =~= t@);
        }
        if d == 0 {
            return Err(SchedulerError::BadFrequency(s.to_owned()));
        }
        let s1 = scan_spaces_from(&t, d);
        if !(s1 < n && ci_eq_exec(t[s1], 'x')) {
            return Err(SchedulerError::BadFrequency(s.to_owned()));
        }
        let s2 = scan_spaces_from(&t, s1 + 1);
        let daily: Vec<char> = vec!['d', 'a', 'i', 'l', 'y'];
        proof {
            assert(daily@ =~= kw_daily());
        }
        if !(n - s2 == 5 && match_kw_at(&t, s2, &daily)) {
            proof {
                if matches_kw(tv.skip(s2 as int), kw_daily()) {
                    assert(tv.skip(s2 as int).len() == 5);
                    assert(tv.skip(s2 as int) =~= tv.subrange(s2 as int, s2 + 5));
                }
            }
            return Err(SchedulerError::BadFrequency(s.to_owned()));
        }
        proof {
            assert(tv.subrange(s2 as int, s2 + 5) =~= tv.skip(s2 as int));
        }
        match digits_value_u32(&t, 0, d) {
            Some(v) => {
                proof {
                    assert(t@.subrange(0, d as int) =~= t@.take(d as int));
                    assert(crate::text::all_digits(t@.take(d as int)));
                    crate::text::lemma_digits_val_nonneg(t@.take(d as int));
                }
                if v == 0 {
                    return Err(SchedulerError::BadFrequency(s.to_owned()));
                }
                Ok(Frequency::TimesPerDay(v))
            },
            None => {
                proof {
                    assert(t@.subrange(0, d as int) =~= t@.take(d as int));
                }
                Err(SchedulerError::BadFrequency(s.to_owned()))
            },
        }
    }

    /// The integer stored in `TimesPerDay(n)`.
    pub fn instances_per_day(&self) -> (r: usize)
        ensures
            r == self.spec_instances(),
    {
        match self {
            Frequency::TimesPerDay(n) => *n as usize,
        }
    }

    /// The number of instants an entity with this frequency requires.
    pub open spec fn spec_instances(&self) -> int {
        match self {
            Frequency::TimesPerDay(n) => *n as int,
        }
    }
}

/// A preferred placement: a single anchor minute, or a closed minute range.
#[derive(Debug, Clone, Copy, PartialEq, Eq, Structural)]
pub enum WindowSpec {
    Anchor(i32),
    Range(i32, i32),
}

/// Something to be scheduled: a named entity with a frequency, spacing
/// constraints, and preferred windows.
#[derive(Debug, Clone)]
pub struct Entity {
    pub name: String,
    pub category: String,
    pub frequency: Frequency,
    pub constraints: Vec<ConstraintExpr>,
    /// Preferred windows; when empty, the global windows of the
    /// configuration apply instead.
    pub windows: Vec<WindowSpec>,
}

/// One clock variable of the linear program, tagged with its owner.
#[derive(Clone)]
pub struct ClockVar {
    pub entity_name: String,
    pub instance: usize,
    pub var: good_lp::Variable,
}

/// Debug rendering of a clock variable: `(NAME_varI)`.
pub fn c2str(c: &ClockVar) -> (r: String)
    ensures
        r@ == seq!['('] + c.entity_name@ + "_var"@ + spec_dec(c.instance as int) + seq![')'],
{
    let mut s = String::new();
    push_char(&mut s, '(');
    s.append(c.entity_name.as_str());
    s.append("_var");
    let num = u64_to_string(c.instance as u64);
    s.append(num.as_str());
    push_char(&mut s, ')');
    proof {
        assert(s@ =~= seq!['('] + c.entity_name@ + "_var"@ + spec_dec(c.instance as int) + seq![
            ')',
        ]);
    }
    s
}

/// One placed instant of the returned schedule.
#[derive(Debug, Clone)]
pub struct ScheduledEvent {
    pub entity_name: String,
    /// 1-based instance index within the owning entity.
    pub instance: usize,
    pub time_minutes: i32,
}

/// Equality of scheduled events, by fields.
pub open spec fn event_eq(a: &ScheduledEvent, b: &ScheduledEvent) -> bool {
    a.entity_name@ == b.entity_name@ && a.instance == b.instance && a.time_minutes
        == b.time_minutes
}

impl PartialEq for ScheduledEvent {
    fn eq(&self, other: &ScheduledEvent) -> (r: bool) {
        self.entity_name == other.entity_name && self.instance == other.instance
            && self.time_minutes == other.time_minutes
    }
}

impl vstd::std_specs::cmp::PartialEqSpecImpl for ScheduledEvent {
    open spec fn obeys_eq_spec() -> bool {
        true
    }

    open spec fn eq_spec(&self, other: &ScheduledEvent) -> bool {
        event_eq(self, other)
    }
}

/// The solver's answer: every placed instant, the weighted penalty, and
/// which window each instance was assigned to.
///
/// `total_penalty` is measured in thousandths, like the configuration's
/// `penalty_weight`: it equals `penalty_weight` times the summed deviation
/// in minutes.
#[derive(Debug, Clone)]
pub struct ScheduleResult {
    pub scheduled_events: Vec<ScheduledEvent>,
    pub total_penalty: u64,
    /// Per `(entity, window label)`: the 1-based instances assigned to it.
    pub window_usage: Vec<(String, String, Vec<usize>)>,
}

/// Which end of the day the solver prefers.
#[derive(Debug, Clone, Copy, PartialEq, Eq, Structural)]
pub enum ScheduleStrategy {
    Earliest,
    Latest,
}

/// Bounds, strategy and weights for one solve call.
///
/// `penalty_weight` is a linear coefficient on window deviation, in
/// thousandths (300 means 0.3 per minute of deviation).
#[derive(Debug, Clone)]
pub struct SchedulerConfig {
    pub day_start_minutes: i32,
    pub day_end_minutes: i32,
    pub strategy: ScheduleStrategy,
    pub global_windows: Vec<WindowSpec>,
    pub penalty_weight: u32,
}

impl Default for SchedulerConfig {
    /// The default day runs 08:00 to 22:00, scheduling earliest, with no
    /// global windows and a penalty weight of 0.3 (in thousandths).
    fn default() -> (r: Self)
        ensures
            r.day_start_minutes == 480,
            r.day_end_minutes == 1320,
            r.strategy == ScheduleStrategy::Earliest,
            r.global_windows@.len() == 0,
            r.penalty_weight == 300,
    {
        SchedulerConfig {
            day_start_minutes: 8 * 60,
            day_end_minutes: 22 * 60,
            strategy: ScheduleStrategy::Earliest,
            global_windows: Vec::new(),
            penalty_weight: 300,
        }
    }
}

/// Reporting record for window usage.
#[derive(Debug, Clone)]
pub struct WindowInfo {
    pub entity_name: String,
    pub window_index: usize,
    pub time_desc: String,
}

/// Every failure the parsers and the solver can report.
#[derive(Debug, Clone)]
pub enum SchedulerError {
    /// A time string not of the form `H:MM` / `HH:MM`, or out of range.
    BadTime(String),
    /// A constraint string the grammar does not recognize.
    BadConstraint(String),
    /// A window string the grammar does not recognize, or an inverted range.
    BadWindow(String),
    /// A table cell rejected, with row and column indices and a reason.
    BadTable(usize, usize, String),
    /// A frequency string not of the form `N x daily`.
    BadFrequency(String),
    /// An inconsistent configuration, with the reason.
    BadConfig(String),
    /// The hard constraints cannot be satisfied together.
    Infeasible,
    /// The backend failed for another reason.
    SolverError(String),
}

} // verus!
