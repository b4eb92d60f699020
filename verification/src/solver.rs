//! The schedule solver: builds a mixed-integer linear program over the
//! entities' instances, solves it through the backend, and validates and
//! packages the answer. Every guarantee about the returned schedule is
//! established by verified checks on the extracted values, never taken from
//! the backend.

use vstd::prelude::*;

use crate::domain::{
    ConstraintExpr, ConstraintRef, ConstraintType, Entity, ScheduleResult, ScheduleStrategy,
    ScheduledEvent, SchedulerConfig, SchedulerError, WindowSpec,
};
use crate::lp::{
    constraint_var_bound, expr_var_bound, lp_add_binary_var, lp_add_bounded_var,
    lp_add_constraint, lp_add_nonneg_var, lp_eq, lp_expr_add_term, lp_expr_new, lp_geq, lp_leq,
    lp_minimise, lp_new_problem, lp_solve, lp_value_rounded, model_var_count, problem_var_count,
    solution_var_count, var_index, LpFailure,
};
use crate::text::{lex_lt, str_le};

verus! {

/// How many instances an entity asks for.
pub open spec fn inst_count(e: Entity) -> int {
    e.frequency.spec_instances()
}

/// The summed instance count of all entities.
pub open spec fn total_instances(es: Seq<Entity>) -> int
    decreases es.len(),
{
    if es.len() == 0 {
        0
    } else {
        total_instances(es.drop_last()) + inst_count(es.last())
    }
}

/// The windows governing an entity: its own, or the global fallback.
pub open spec fn spec_windows_for(e: Entity, cfg: SchedulerConfig) -> Seq<WindowSpec> {
    if e.windows@.len() > 0 {
        e.windows@
    } else {
        cfg.global_windows@
    }
}

/// A day bound the solver accepts: an interval within the day's minutes.
pub open spec fn day_ok(cfg: SchedulerConfig) -> bool {
    0 <= cfg.day_start_minutes <= cfg.day_end_minutes <= 1440
}

/// A window whose minutes lie within the day.
pub open spec fn window_ok(w: WindowSpec) -> bool {
    match w {
        WindowSpec::Anchor(a) => 0 <= a <= 1440,
        WindowSpec::Range(a, b) => 0 <= a <= b <= 1440,
    }
}

/// An entity whose within-group spacing cannot fit in the day: `n` ordered
/// instances each at least `60 h` minutes apart need `(n-1) * 60 h` minutes.
pub open spec fn apart_overflow(es: Seq<Entity>, cfg: SchedulerConfig) -> bool {
    exists|i: int, j: int|
        0 <= i < es.len() && 0 <= j < es[i].constraints@.len() && ({
            let c = #[trigger] es[i].constraints@[j];
            &&& c.ctype is Apart
            &&& c.cref is WithinGroup
            &&& inst_count(es[i]) >= 2
            &&& (inst_count(es[i]) - 1) * 60 * c.time_hours > cfg.day_end_minutes
                - cfg.day_start_minutes
        })
}

/// Whether entity `p` is a target of the reference word `w`: the first
/// entity with that exact name when one exists, else every entity of that
/// category.
pub open spec fn is_target_entity(es: Seq<Entity>, w: Seq<char>, p: int) -> bool {
    if exists|q: int| 0 <= q < es.len() && (#[trigger] es[q].name@) == w {
        &&& es[p].name@ == w
        &&& forall|q: int| 0 <= q < p ==> (#[trigger] es[q].name@) != w
    } else {
        es[p].category@ == w
    }
}

/// Some owner-target instance pair other than an instance with itself
/// exists for a cross constraint of entity `i` referencing `w`.
pub open spec fn cross_pair_exists(es: Seq<Entity>, i: int, w: Seq<char>) -> bool {
    inst_count(es[i]) >= 1 && exists|p: int|
        0 <= p < es.len() && #[trigger] is_target_entity(es, w, p) && (if p == i {
            inst_count(es[i]) >= 2
        } else {
            inst_count(es[p]) >= 1
        })
}

/// One cross-entity constraint demands a gap wider than the day while some
/// pair it applies to exists.
pub open spec fn cross_bad_at(es: Seq<Entity>, cfg: SchedulerConfig, i: int, j: int) -> bool {
    let c = es[i].constraints@[j];
    &&& (c.ctype is ApartFrom || c.ctype is Before || c.ctype is After)
    &&& (c.cref matches ConstraintRef::Unresolved(word) && cross_pair_exists(es, i, word@))
    &&& 60 * c.time_hours > cfg.day_end_minutes - cfg.day_start_minutes
}

/// A cross-entity constraint no schedule can satisfy within the day.
pub open spec fn cross_overflow(es: Seq<Entity>, cfg: SchedulerConfig) -> bool {
    exists|i: int, j: int|
        0 <= i < es.len() && 0 <= j < es[i].constraints@.len() && #[trigger] cross_bad_at(
            es,
            cfg,
            i,
            j,
        )
}

/// Whether an event belongs to some target entity of the word `w`.
pub open spec fn ev_is_target(es: Seq<Entity>, w: Seq<char>, ev: ScheduledEvent) -> bool {
    exists|p: int|
        0 <= p < es.len() && #[trigger] is_target_entity(es, w, p) && ev.entity_name@
            == es[p].name@
}

/// The spacing relation one constraint demands between an owner's event `x`
/// and a target event `y`.
pub open spec fn pair_gap_ok(x: ScheduledEvent, y: ScheduledEvent, ct: ConstraintType, h: int) -> bool {
    match ct {
        ConstraintType::Apart => x.time_minutes - y.time_minutes >= 60 * h || y.time_minutes
            - x.time_minutes >= 60 * h,
        ConstraintType::ApartFrom => x.time_minutes - y.time_minutes >= 60 * h || y.time_minutes
            - x.time_minutes >= 60 * h,
        ConstraintType::Before => y.time_minutes - x.time_minutes >= 60 * h,
        ConstraintType::After => x.time_minutes - y.time_minutes >= 60 * h,
    }
}

/// Every two distinct instances of the entity named `nm` lie at least
/// `60 h` minutes apart.
pub open spec fn apart_sat(evs: Seq<ScheduledEvent>, nm: Seq<char>, h: int) -> bool {
    forall|a: int, b: int|
        #![trigger evs[a], evs[b]]
        0 <= a < evs.len() && 0 <= b < evs.len() && evs[a].entity_name@ == nm
            && evs[b].entity_name@ == nm && evs[a].instance != evs[b].instance
            ==> pair_gap_ok(evs[a], evs[b], ConstraintType::Apart, h)
}

/// Every event of entity `i` stands in the demanded relation to every event
/// of every target of `w` (an event is never measured against itself).
pub open spec fn cross_sat(
    es: Seq<Entity>,
    evs: Seq<ScheduledEvent>,
    nm: Seq<char>,
    w: Seq<char>,
    ct: ConstraintType,
    h: int,
) -> bool {
    forall|a: int, b: int|
        #![trigger evs[a], evs[b]]
        0 <= a < evs.len() && 0 <= b < evs.len() && evs[a].entity_name@ == nm
            && ev_is_target(es, w, evs[b]) && !(evs[a].entity_name@ == evs[b].entity_name@
            && evs[a].instance == evs[b].instance) ==> pair_gap_ok(evs[a], evs[b], ct, h)
}

/// What one constraint demands of the events. Combinations the grammar
/// cannot produce demand nothing, as do references that resolve to nothing.
pub open spec fn constraint_sat(
    es: Seq<Entity>,
    evs: Seq<ScheduledEvent>,
    i: int,
    c: ConstraintExpr,
) -> bool {
    match (c.ctype, c.cref) {
        (ConstraintType::Apart, ConstraintRef::WithinGroup) => apart_sat(
            evs,
            es[i].name@,
            c.time_hours as int,
        ),
        (ConstraintType::ApartFrom, ConstraintRef::Unresolved(w)) => cross_sat(
            es,
            evs,
            es[i].name@,
            w@,
            ConstraintType::ApartFrom,
            c.time_hours as int,
        ),
        (ConstraintType::Before, ConstraintRef::Unresolved(w)) => cross_sat(
            es,
            evs,
            es[i].name@,
            w@,
            ConstraintType::Before,
            c.time_hours as int,
        ),
        (ConstraintType::After, ConstraintRef::Unresolved(w)) => cross_sat(
            es,
            evs,
            es[i].name@,
            w@,
            ConstraintType::After,
            c.time_hours as int,
        ),
        _ => true,
    }
}

/// One indexed constraint of one entity holds of the events.
pub open spec fn constraint_sat_at(
    es: Seq<Entity>,
    evs: Seq<ScheduledEvent>,
    i: int,
    j: int,
) -> bool {
    constraint_sat(es, evs, i, es[i].constraints@[j])
}

/// Every constraint of every entity holds of the events.
pub open spec fn all_constraints_sat(es: Seq<Entity>, evs: Seq<ScheduledEvent>) -> bool {
    forall|i: int, j: int|
        0 <= i < es.len() && 0 <= j < es[i].constraints@.len() ==> #[trigger] constraint_sat_at(
            es,
            evs,
            i,
            j,
        )
}

/// Every event's time lies within the configured day.
pub open spec fn events_in_day(evs: Seq<ScheduledEvent>, cfg: SchedulerConfig) -> bool {
    forall|a: int|
        0 <= a < evs.len() ==> cfg.day_start_minutes <= (#[trigger] evs[a]).time_minutes
            <= cfg.day_end_minutes
}

/// No two events carry the same entity name and instance index.
pub open spec fn distinct_keys(evs: Seq<ScheduledEvent>) -> bool {
    forall|a: int, b: int|
        #![trigger evs[a], evs[b]]
        0 <= a < b < evs.len() ==> !(evs[a].entity_name@ == evs[b].entity_name@
            && evs[a].instance == evs[b].instance)
}

/// Instance `k` of entity `i` appears among the events.
pub open spec fn instance_covered(
    es: Seq<Entity>,
    evs: Seq<ScheduledEvent>,
    i: int,
    k: int,
) -> bool {
    exists|a: int|
        0 <= a < evs.len() && (#[trigger] evs[a]).entity_name@ == es[i].name@ && evs[a].instance
            == k
}

/// Every instance of every entity appears among the events.
pub open spec fn covers_instances(es: Seq<Entity>, evs: Seq<ScheduledEvent>) -> bool {
    forall|i: int, k: int|
        0 <= i < es.len() && 1 <= k <= inst_count(es[i]) ==> #[trigger] instance_covered(
            es,
            evs,
            i,
            k,
        )
}

/// Within one entity, instance numbering follows time.
pub open spec fn instances_monotone(evs: Seq<ScheduledEvent>) -> bool {
    forall|a: int, b: int|
        #![trigger evs[a], evs[b]]
        0 <= a < evs.len() && 0 <= b < evs.len() && evs[a].entity_name@ == evs[b].entity_name@
            && evs[a].instance < evs[b].instance ==> evs[a].time_minutes <= evs[b].time_minutes
}

/// The well-formedness of a returned event list against its entities.
pub open spec fn events_wf(es: Seq<Entity>, evs: Seq<ScheduledEvent>, cfg: SchedulerConfig) -> bool {
    &&& evs.len() == total_instances(es)
    &&& events_in_day(evs, cfg)
    &&& distinct_keys(evs)
    &&& covers_instances(es, evs)
    &&& instances_monotone(evs)
}

/// The output order: time ascending; ties by name, then instance.
pub open spec fn event_le(x: ScheduledEvent, y: ScheduledEvent) -> bool {
    ||| x.time_minutes < y.time_minutes
    ||| (x.time_minutes == y.time_minutes && lex_lt(x.entity_name@, y.entity_name@))
    ||| (x.time_minutes == y.time_minutes && x.entity_name@ == y.entity_name@ && x.instance
        <= y.instance)
}

/// The events stand in output order.
pub open spec fn sorted_events(evs: Seq<ScheduledEvent>) -> bool {
    forall|a: int, b: int|
        #![trigger evs[a], evs[b]]
        0 <= a < b < evs.len() ==> event_le(evs[a], evs[b])
}

proof fn lemma_lex_lt_irrefl(a: Seq<char>)
    ensures
        !lex_lt(a, a),
    decreases a.len(),
{
    if a.len() > 0 {
        lemma_lex_lt_irrefl(a.drop_first());
    }
}

proof fn lemma_lex_lt_total(a: Seq<char>, b: Seq<char>)
    requires
        !lex_lt(a, b),
        a != b,
    ensures
        lex_lt(b, a),
    decreases a.len() + b.len(),
{
    if b.len() == 0 {
        if a.len() == 0 {
            assert(a =~= b);
        }
    } else if a.len() == 0 {
    } else if (a[0] as u32) < (b[0] as u32) {
    } else if a[0] == b[0] {
        if a.drop_first() == b.drop_first() {
            let ad = a.subrange(1, a.len() as int);
            let bd = b.subrange(1, b.len() as int);
            assert(ad == bd);
            assert(ad.len() == bd.len());
            assert(a.len() == b.len());
            assert forall|k: int| 0 <= k < a.len() implies a[k] == b[k] by {
                if k > 0 {
                    assert(ad[k - 1] == a[k]);
                    assert(bd[k - 1] == b[k]);
                }
            }
            assert(a =~= b);
        } else {
            lemma_lex_lt_total(a.drop_first(), b.drop_first());
        }
    } else {
        let c1 = a[0];
        let c2 = b[0];
        assert(c1 != c2);
        vstd::utf8::char_u32_cast(c1, c1 as u32);
        vstd::utf8::char_u32_cast(c2, c2 as u32);
        assert((c2 as u32) < (c1 as u32));
    }
}

proof fn lemma_lex_lt_trans(a: Seq<char>, b: Seq<char>, c: Seq<char>)
    requires
        lex_lt(a, b),
        lex_lt(b, c),
    ensures
        lex_lt(a, c),
    decreases a.len() + b.len() + c.len(),
{
    if a.len() > 0 && b.len() > 0 && c.len() > 0 && a[0] == b[0] && b[0] == c[0] {
        lemma_lex_lt_trans(a.drop_first(), b.drop_first(), c.drop_first());
    }
}

/// The output order holds between any two events, one way or the other.
pub proof fn lemma_event_le_total(x: ScheduledEvent, y: ScheduledEvent)
    ensures
        event_le(x, y) || event_le(y, x),
{
    if x.time_minutes == y.time_minutes && !lex_lt(x.entity_name@, y.entity_name@) && !lex_lt(
        y.entity_name@,
        x.entity_name@,
    ) {
        if x.entity_name@ != y.entity_name@ {
            lemma_lex_lt_total(x.entity_name@, y.entity_name@);
        }
    }
}

/// The output order is transitive.
pub proof fn lemma_event_le_trans(x: ScheduledEvent, y: ScheduledEvent, z: ScheduledEvent)
    requires
        event_le(x, y),
        event_le(y, z),
    ensures
        event_le(x, z),
{
    if x.time_minutes == y.time_minutes && y.time_minutes == z.time_minutes {
        let a = x.entity_name@;
        let b = y.entity_name@;
        let c = z.entity_name@;
        if lex_lt(a, b) && lex_lt(b, c) {
            lemma_lex_lt_trans(a, b, c);
        }
    }
}

/// Whether `x` comes no later than `y` in the output order.
fn event_le_exec(x: &ScheduledEvent, y: &ScheduledEvent) -> (r: bool)
    ensures
        r == event_le(*x, *y),
{
    if x.time_minutes < y.time_minutes {
        true
    } else if x.time_minutes > y.time_minutes {
        false
    } else {
        let names_eq = x.entity_name == y.entity_name;
        if names_eq {
            proof {
                lemma_lex_lt_irrefl(x.entity_name@);
            }
            x.instance <= y.instance
        } else {
            let le = str_le(x.entity_name.as_str(), y.entity_name.as_str());
            proof {
                if le {
                    assert(lex_lt(x.entity_name@, y.entity_name@));
                } else {
                    lemma_lex_lt_total(x.entity_name@, y.entity_name@);
                    lemma_lex_lt_irrefl(y.entity_name@);
                }
            }
            le
        }
    }
}

/// Sorts the events into output order. The sorted list holds exactly the
/// given events.
fn sort_events(v: &mut Vec<ScheduledEvent>)
    ensures
        sorted_events(final(v)@),
        final(v)@.to_multiset() == old(v)@.to_multiset(),
{
    let n = v.len();
    let mut i: usize = 1;
    while i < n
        invariant
            1 <= i <= n || n == 0,
            n == v@.len(),
            v@.to_multiset() == old(v)@.to_multiset(),
            forall|a: int, b: int|
                #![trigger v@[a], v@[b]]
                0 <= a < b < i ==> event_le(v@[a], v@[b]),
        decreases n - i,
    {
        let mut j: usize = i;
        while j > 0 && !event_le_exec(&v[j - 1], &v[j])
            invariant
                0 <= j <= i < n,
                n == v@.len(),
                v@.to_multiset() == old(v)@.to_multiset(),
                forall|a: int, b: int|
                    #![trigger v@[a], v@[b]]
                    0 <= a < b <= i && b != j ==> event_le(v@[a], v@[b]),
                forall|b: int| #![trigger v@[b]] j < b <= i ==> event_le(v@[j as int], v@[b]),
            decreases j,
        {
            proof {
                lemma_event_le_total(v@[j - 1], v@[j as int]);
            }
            let ghost old_view = v@;
            let x = clone_event(&v[j - 1]);
            let y = clone_event(&v[j]);
            v.set(j - 1, y);
            v.set(j, x);
            proof {
                broadcast use vstd::seq_lib::group_to_multiset_ensures;

                let s1 = old_view.update(j - 1, old_view[j as int]);
                let s2 = s1.update(j as int, old_view[j - 1]);
                assert(v@ =~= s2);
                assert(s2.to_multiset() =~= old_view.to_multiset());
                assert forall|a: int, b: int|
                    #![trigger v@[a], v@[b]]
                    0 <= a < b <= i && b != j - 1 implies event_le(v@[a], v@[b]) by {
                    if b == j {
                        if a < j - 1 {
                            assert(event_le(old_view[a], old_view[j - 1]));
                        }
                    } else {
                        if a == j - 1 {
                            assert(event_le(old_view[j as int], old_view[b]));
                            assert(event_le(old_view[j - 1], old_view[b]));
                        } else if a == j {
                            assert(event_le(old_view[j - 1], old_view[b]));
                        } else {
                            assert(event_le(old_view[a], old_view[b]));
                        }
                    }
                }
                assert forall|b: int| #![trigger v@[b]] j - 1 < b <= i implies event_le(
                    v@[j - 1],
                    v@[b],
                ) by {
                    if b == j {
                    } else {
                        assert(event_le(old_view[j as int], old_view[b]));
                    }
                }
            }
            j = j - 1;
        }
        proof {
            assert forall|a: int, b: int|
                #![trigger v@[a], v@[b]]
                0 <= a < b <= i implies event_le(v@[a], v@[b]) by {
                if b == j as int && j > 0 && a < j - 1 {
                    assert(event_le(v@[a], v@[j - 1]));
                    lemma_event_le_trans(v@[a], v@[j - 1], v@[j as int]);
                }
            }
        }
        i = i + 1;
    }
    proof {
        if n == 0 {
        }
    }
}

/// Instance counts of a longer entity list never shrink.
proof fn lemma_total_instances_prefix_le(es: Seq<Entity>, k: int)
    requires
        0 <= k <= es.len(),
    ensures
        total_instances(es.take(k)) <= total_instances(es),
    decreases es.len() - k,
{
    if k < es.len() {
        assert(es.take(k + 1).drop_last() =~= es.take(k));
        assert(es.take(k + 1).last() == es[k]);
        lemma_total_instances_prefix_le(es, k + 1);
    } else {
        assert(es.take(k) =~= es);
    }
}

/// The largest instance total the solver will build a program for.
pub const MAX_TOTAL_INSTANCES: usize = 100000;

/// Sums the entities' instance counts, unless the sum exceeds the cap that
/// keeps the later arithmetic within machine bounds.
fn count_instances(es: &Vec<Entity>) -> (r: Option<usize>)
    ensures
        r matches Some(t) ==> t == total_instances(es@) && t <= MAX_TOTAL_INSTANCES,
        r is None ==> total_instances(es@) > MAX_TOTAL_INSTANCES,
{
    let n = es.len();
    let mut acc: usize = 0;
    let mut i: usize = 0;
    while i < n
        invariant
            i <= n,
            n == es@.len(),
            acc == total_instances(es@.take(i as int)),
            acc <= MAX_TOTAL_INSTANCES,
        decreases n - i,
    {
        let k = es[i].frequency.instances_per_day();
        proof {
            assert(es@.take(i + 1).drop_last() =~= es@.take(i as int));
            assert(es@.take(i + 1).last() == es@[i as int]);
        }
        if k > MAX_TOTAL_INSTANCES - acc {
            proof {
                lemma_total_instances_prefix_le(es@, i + 1);
            }
            return None;
        }
        acc = acc + k;
        i = i + 1;
    }
    proof {
        assert(es@.take(n as int) =~= es@);
    }
    Some(acc)
}

/// Looks for an entity with exactly the given name, returning the first.
fn find_name(es: &Vec<Entity>, w: &String) -> (r: Option<usize>)
    ensures
        r matches Some(p) ==> 0 <= p < es@.len() && es@[p as int].name@ == w@ && (forall|q: int|
            0 <= q < p ==> (#[trigger] es@[q].name@) != w@),
        r is None ==> forall|q: int| 0 <= q < es@.len() ==> (#[trigger] es@[q].name@) != w@,
{
    let n = es.len();
    let mut i: usize = 0;
    while i < n
        invariant
            i <= n,
            n == es@.len(),
            forall|q: int| 0 <= q < i ==> (#[trigger] es@[q].name@) != w@,
        decreases n - i,
    {
        if es[i].name == *w {
            return Some(i);
        }
        i = i + 1;
    }
    None
}

/// Whether the event belongs to a target of the word `w`.
fn is_target_event(es: &Vec<Entity>, w: &String, ev: &ScheduledEvent) -> (r: bool)
    ensures
        r == ev_is_target(es@, w@, *ev),
{
    match find_name(es, w) {
        Some(p) => {
            let hit = ev.entity_name == es[p].name;
            proof {
                if hit {
                    assert(is_target_entity(es@, w@, p as int));
                } else {
                    if ev_is_target(es@, w@, *ev) {
                        let p2 = choose|p2: int|
                            0 <= p2 < es@.len() && #[trigger] is_target_entity(es@, w@, p2)
                                && ev.entity_name@ == es@[p2].name@;
                        assert(es@[p2].name@ == w@);
                        assert(es@[p as int].name@ == w@);
                        if p2 < p as int {
                            assert(es@[p2].name@ != w@);
                        } else if (p as int) < p2 {
                            assert(es@[p as int].name@ != w@);
                        }
                    }
                }
            }
            hit
        },
        None => {
            let n = es.len();
            let mut q: usize = 0;
            while q < n
                invariant
                    q <= n,
                    n == es@.len(),
                    forall|q2: int| 0 <= q2 < es@.len() ==> (#[trigger] es@[q2].name@) != w@,
                    forall|q2: int|
                        0 <= q2 < q ==> !((#[trigger] es@[q2].category@) == w@ && ev.entity_name@
                            == es@[q2].name@),
                decreases n - q,
            {
                if es[q].category == *w && ev.entity_name == es[q].name {
                    proof {
                        assert(is_target_entity(es@, w@, q as int));
                    }
                    return true;
                }
                q = q + 1;
            }
            proof {
                if ev_is_target(es@, w@, *ev) {
                    let p2 = choose|p2: int|
                        0 <= p2 < es@.len() && #[trigger] is_target_entity(es@, w@, p2)
                            && ev.entity_name@ == es@[p2].name@;
                    assert(es@[p2].category@ == w@);
                }
            }
            false
        },
    }
}

/// Whether the demanded spacing holds between two events.
fn pair_gap_exec(x: &ScheduledEvent, y: &ScheduledEvent, ct: ConstraintType, h: u32) -> (r: bool)
    ensures
        r == pair_gap_ok(*x, *y, ct, h as int),
{
    let gap: i64 = 60 * (h as i64);
    let dx: i64 = x.time_minutes as i64 - y.time_minutes as i64;
    match ct {
        ConstraintType::Apart => dx >= gap || -dx >= gap,
        ConstraintType::ApartFrom => dx >= gap || -dx >= gap,
        ConstraintType::Before => -dx >= gap,
        ConstraintType::After => dx >= gap,
    }
}

/// Checks the within-group spacing of the entity named `nm`.
fn check_apart_pairs(evs: &Vec<ScheduledEvent>, nm: &String, h: u32) -> (r: bool)
    ensures
        r == apart_sat(evs@, nm@, h as int),
{
    let n = evs.len();
    let mut a: usize = 0;
    while a < n
        invariant
            a <= n,
            n == evs@.len(),
            forall|x: int, y: int|
                #![trigger evs@[x], evs@[y]]
                0 <= x < a && 0 <= y < n && evs@[x].entity_name@ == nm@ && evs@[y].entity_name@
                    == nm@ && evs@[x].instance != evs@[y].instance ==> pair_gap_ok(
                    evs@[x],
                    evs@[y],
                    ConstraintType::Apart,
                    h as int,
                ),
        decreases n - a,
    {
        let mut b: usize = 0;
        while b < n
            invariant
                a < n,
                b <= n,
                n == evs@.len(),
                forall|x: int, y: int|
                    #![trigger evs@[x], evs@[y]]
                    0 <= x < a && 0 <= y < n && evs@[x].entity_name@ == nm@ && evs@[y].entity_name@
                        == nm@ && evs@[x].instance != evs@[y].instance ==> pair_gap_ok(
                        evs@[x],
                        evs@[y],
                        ConstraintType::Apart,
                        h as int,
                    ),
                forall|y: int|
                    #![trigger evs@[y]]
                    0 <= y < b && evs@[a as int].entity_name@ == nm@ && evs@[y].entity_name@ == nm@
                        && evs@[a as int].instance != evs@[y].instance ==> pair_gap_ok(
                        evs@[a as int],
                        evs@[y],
                        ConstraintType::Apart,
                        h as int,
                    ),
            decreases n - b,
        {
            if evs[a].entity_name == *nm && evs[b].entity_name == *nm && evs[a].instance
                != evs[b].instance {
                if !pair_gap_exec(&evs[a], &evs[b], ConstraintType::Apart, h) {
                    return false;
                }
            }
            b = b + 1;
        }
        a = a + 1;
    }
    true
}

/// Checks one cross-entity constraint of the entity named `nm`.
fn check_cross_pairs(
    es: &Vec<Entity>,
    evs: &Vec<ScheduledEvent>,
    nm: &String,
    w: &String,
    ct: ConstraintType,
    h: u32,
) -> (r: bool)
    ensures
        r == cross_sat(es@, evs@, nm@, w@, ct, h as int),
{
    let n = evs.len();
    let mut a: usize = 0;
    while a < n
        invariant
            a <= n,
            n == evs@.len(),
            forall|x: int, y: int|
                #![trigger evs@[x], evs@[y]]
                0 <= x < a && 0 <= y < n && evs@[x].entity_name@ == nm@ && ev_is_target(
                    es@,
                    w@,
                    evs@[y],
                ) && !(evs@[x].entity_name@ == evs@[y].entity_name@ && evs@[x].instance
                    == evs@[y].instance) ==> pair_gap_ok(evs@[x], evs@[y], ct, h as int),
        decreases n - a,
    {
        let mut b: usize = 0;
        while b < n
            invariant
                a < n,
                b <= n,
                n == evs@.len(),
                forall|x: int, y: int|
                    #![trigger evs@[x], evs@[y]]
                    0 <= x < a && 0 <= y < n && evs@[x].entity_name@ == nm@ && ev_is_target(
                        es@,
                        w@,
                        evs@[y],
                    ) && !(evs@[x].entity_name@ == evs@[y].entity_name@ && evs@[x].instance
                        == evs@[y].instance) ==> pair_gap_ok(evs@[x], evs@[y], ct, h as int),
                forall|y: int|
                    #![trigger evs@[y]]
                    0 <= y < b && evs@[a as int].entity_name@ == nm@ && ev_is_target(
                        es@,
                        w@,
                        evs@[y],
                    ) && !(evs@[a as int].entity_name@ == evs@[y].entity_name@
                        && evs@[a as int].instance == evs@[y].instance) ==> pair_gap_ok(
                        evs@[a as int],
                        evs@[y],
                        ct,
                        h as int,
                    ),
            decreases n - b,
        {
            if evs[a].entity_name == *nm {
                let same_key = evs[a].entity_name == evs[b].entity_name && evs[a].instance
                    == evs[b].instance;
                if !same_key && is_target_event(es, w, &evs[b]) {
                    if !pair_gap_exec(&evs[a], &evs[b], ct, h) {
                        return false;
                    }
                }
            }
            b = b + 1;
        }
        a = a + 1;
    }
    true
}

/// Checks every constraint of every entity against the events.
fn check_constraints(es: &Vec<Entity>, evs: &Vec<ScheduledEvent>) -> (r: bool)
    ensures
        r == all_constraints_sat(es@, evs@),
{
    let n = es.len();
    let mut i: usize = 0;
    while i < n
        invariant
            i <= n,
            n == es@.len(),
            forall|x: int, y: int|
                0 <= x < i && 0 <= y < es@[x].constraints@.len() ==> #[trigger] constraint_sat_at(
                    es@,
                    evs@,
                    x,
                    y,
                ),
        decreases n - i,
    {
        let m = es[i].constraints.len();
        let mut j: usize = 0;
        while j < m
            invariant
                i < n,
                j <= m,
                n == es@.len(),
                m == es@[i as int].constraints@.len(),
                forall|x: int, y: int|
                    0 <= x < i && 0 <= y < es@[x].constraints@.len()
                        ==> #[trigger] constraint_sat_at(es@, evs@, x, y),
                forall|y: int|
                    0 <= y < j ==> #[trigger] constraint_sat_at(es@, evs@, i as int, y),
            decreases m - j,
        {
            let c = &es[i].constraints[j];
            let h = c.time_hours;
            let ok = match (&c.ctype, &c.cref) {
                (ConstraintType::Apart, ConstraintRef::WithinGroup) => check_apart_pairs(
                    evs,
                    &es[i].name,
                    h,
                ),
                (ConstraintType::ApartFrom, ConstraintRef::Unresolved(w)) => check_cross_pairs(
                    es,
                    evs,
                    &es[i].name,
                    w,
                    ConstraintType::ApartFrom,
                    h,
                ),
                (ConstraintType::Before, ConstraintRef::Unresolved(w)) => check_cross_pairs(
                    es,
                    evs,
                    &es[i].name,
                    w,
                    ConstraintType::Before,
                    h,
                ),
                (ConstraintType::After, ConstraintRef::Unresolved(w)) => check_cross_pairs(
                    es,
                    evs,
                    &es[i].name,
                    w,
                    ConstraintType::After,
                    h,
                ),
                _ => true,
            };
            proof {
                assert(ok == constraint_sat_at(es@, evs@, i as int, j as int));
            }
            if !ok {
                return false;
            }
            j = j + 1;
        }
        i = i + 1;
    }
    true
}

/// Checks that every event lies within the day.
fn check_in_day(evs: &Vec<ScheduledEvent>, cfg: &SchedulerConfig) -> (r: bool)
    ensures
        r == events_in_day(evs@, *cfg),
{
    let n = evs.len();
    let mut a: usize = 0;
    while a < n
        invariant
            a <= n,
            n == evs@.len(),
            forall|x: int|
                0 <= x < a ==> cfg.day_start_minutes <= (#[trigger] evs@[x]).time_minutes
                    <= cfg.day_end_minutes,
        decreases n - a,
    {
        if evs[a].time_minutes < cfg.day_start_minutes || evs[a].time_minutes
            > cfg.day_end_minutes {
            return false;
        }
        a = a + 1;
    }
    true
}

/// Checks that no two events share an entity name and instance index.
fn check_distinct_keys(evs: &Vec<ScheduledEvent>) -> (r: bool)
    ensures
        r == distinct_keys(evs@),
{
    let n = evs.len();
    let mut a: usize = 0;
    while a < n
        invariant
            a <= n,
            n == evs@.len(),
            forall|x: int, y: int|
                #![trigger evs@[x], evs@[y]]
                0 <= x < y < n && x < a ==> !(evs@[x].entity_name@ == evs@[y].entity_name@
                    && evs@[x].instance == evs@[y].instance),
        decreases n - a,
    {
        let mut b: usize = a + 1;
        while b < n
            invariant
                a < b <= n || b == a + 1,
                a < n,
                n == evs@.len(),
                forall|x: int, y: int|
                    #![trigger evs@[x], evs@[y]]
                    0 <= x < y < n && x < a ==> !(evs@[x].entity_name@ == evs@[y].entity_name@
                        && evs@[x].instance == evs@[y].instance),
                forall|y: int|
                    #![trigger evs@[y]]
                    a < y < b ==> !(evs@[a as int].entity_name@ == evs@[y].entity_name@
                        && evs@[a as int].instance == evs@[y].instance),
            decreases n - b,
        {
            if evs[a].entity_name == evs[b].entity_name && evs[a].instance == evs[b].instance {
                return false;
            }
            b = b + 1;
        }
        a = a + 1;
    }
    true
}

/// Checks that instance numbering follows time within each entity.
fn check_monotone(evs: &Vec<ScheduledEvent>) -> (r: bool)
    ensures
        r == instances_monotone(evs@),
{
    let n = evs.len();
    let mut a: usize = 0;
    while a < n
        invariant
            a <= n,
            n == evs@.len(),
            forall|x: int, y: int|
                #![trigger evs@[x], evs@[y]]
                0 <= x < a && 0 <= y < n && evs@[x].entity_name@ == evs@[y].entity_name@
                    && evs@[x].instance < evs@[y].instance ==> evs@[x].time_minutes
                    <= evs@[y].time_minutes,
        decreases n - a,
    {
        let mut b: usize = 0;
        while b < n
            invariant
                a < n,
                b <= n,
                n == evs@.len(),
                forall|x: int, y: int|
                    #![trigger evs@[x], evs@[y]]
                    0 <= x < a && 0 <= y < n && evs@[x].entity_name@ == evs@[y].entity_name@
                        && evs@[x].instance < evs@[y].instance ==> evs@[x].time_minutes
                        <= evs@[y].time_minutes,
                forall|y: int|
                    #![trigger evs@[y]]
                    0 <= y < b && evs@[a as int].entity_name@ == evs@[y].entity_name@
                        && evs@[a as int].instance < evs@[y].instance ==> evs@[a as int].time_minutes
                        <= evs@[y].time_minutes,
            decreases n - b,
        {
            if evs[a].entity_name == evs[b].entity_name && evs[a].instance < evs[b].instance
                && evs[a].time_minutes > evs[b].time_minutes {
                return false;
            }
            b = b + 1;
        }
        a = a + 1;
    }
    true
}

/// Finds the event of one instance of one entity.
fn find_event(evs: &Vec<ScheduledEvent>, nm: &String, k: usize) -> (r: Option<usize>)
    ensures
        r matches Some(a) ==> 0 <= a < evs@.len() && evs@[a as int].entity_name@ == nm@
            && evs@[a as int].instance == k,
        r is None ==> forall|a: int|
            0 <= a < evs@.len() ==> !((#[trigger] evs@[a]).entity_name@ == nm@ && evs@[a].instance
                == k),
{
    let n = evs.len();
    let mut a: usize = 0;
    while a < n
        invariant
            a <= n,
            n == evs@.len(),
            forall|x: int|
                0 <= x < a ==> !((#[trigger] evs@[x]).entity_name@ == nm@ && evs@[x].instance
                    == k),
        decreases n - a,
    {
        if evs[a].entity_name == *nm && evs[a].instance == k {
            return Some(a);
        }
        a = a + 1;
    }
    None
}

/// Checks that every instance of every entity appears among the events.
fn check_covers(es: &Vec<Entity>, evs: &Vec<ScheduledEvent>) -> (r: bool)
    ensures
        r == covers_instances(es@, evs@),
{
    let n = es.len();
    let mut i: usize = 0;
    while i < n
        invariant
            i <= n,
            n == es@.len(),
            forall|x: int, k: int|
                0 <= x < i && 1 <= k <= inst_count(es@[x]) ==> #[trigger] instance_covered(
                    es@,
                    evs@,
                    x,
                    k,
                ),
        decreases n - i,
    {
        let cnt = es[i].frequency.instances_per_day();
        let mut k0: usize = 0;
        while k0 < cnt
            invariant
                i < n,
                k0 <= cnt,
                n == es@.len(),
                cnt == inst_count(es@[i as int]),
                forall|x: int, k2: int|
                    0 <= x < i && 1 <= k2 <= inst_count(es@[x]) ==> #[trigger] instance_covered(
                        es@,
                        evs@,
                        x,
                        k2,
                    ),
                forall|k2: int|
                    1 <= k2 <= k0 ==> #[trigger] instance_covered(es@, evs@, i as int, k2),
            decreases cnt - k0,
        {
            let k = k0 + 1;
            match find_event(evs, &es[i].name, k) {
                Some(a) => {
                    proof {
                        assert(instance_covered(es@, evs@, i as int, k as int));
                    }
                },
                None => {
                    proof {
                        assert(!instance_covered(es@, evs@, i as int, k as int));
                    }
                    return false;
                },
            }
            k0 = k0 + 1;
        }
        i = i + 1;
    }
    true
}

/// Scans for an entity whose within-group spacing cannot fit in the day.
fn check_apart_overflow(es: &Vec<Entity>, cfg: &SchedulerConfig) -> (r: bool)
    requires
        day_ok(*cfg),
    ensures
        r == apart_overflow(es@, *cfg),
{
    let span: u64 = (cfg.day_end_minutes - cfg.day_start_minutes) as u64;
    let n = es.len();
    let mut i: usize = 0;
    while i < n
        invariant
            i <= n,
            n == es@.len(),
            span == cfg.day_end_minutes - cfg.day_start_minutes,
            forall|x: int, y: int|
                0 <= x < i && 0 <= y < es@[x].constraints@.len() ==> !({
                    let c = #[trigger] es@[x].constraints@[y];
                    &&& c.ctype is Apart
                    &&& c.cref is WithinGroup
                    &&& inst_count(es@[x]) >= 2
                    &&& (inst_count(es@[x]) - 1) * 60 * c.time_hours > cfg.day_end_minutes
                        - cfg.day_start_minutes
                }),
        decreases n - i,
    {
        let cnt = es[i].frequency.instances_per_day();
        let m = es[i].constraints.len();
        let mut j: usize = 0;
        while j < m
            invariant
                i < n,
                j <= m,
                n == es@.len(),
                m == es@[i as int].constraints@.len(),
                span == cfg.day_end_minutes - cfg.day_start_minutes,
                cnt == inst_count(es@[i as int]),
                forall|x: int, y: int|
                    0 <= x < i && 0 <= y < es@[x].constraints@.len() ==> !({
                        let c = #[trigger] es@[x].constraints@[y];
                        &&& c.ctype is Apart
                        &&& c.cref is WithinGroup
                        &&& inst_count(es@[x]) >= 2
                        &&& (inst_count(es@[x]) - 1) * 60 * c.time_hours > cfg.day_end_minutes
                            - cfg.day_start_minutes
                    }),
                forall|y: int|
                    0 <= y < j ==> !({
                        let c = #[trigger] es@[i as int].constraints@[y];
                        &&& c.ctype is Apart
                        &&& c.cref is WithinGroup
                        &&& inst_count(es@[i as int]) >= 2
                        &&& (inst_count(es@[i as int]) - 1) * 60 * c.time_hours
                            > cfg.day_end_minutes - cfg.day_start_minutes
                    }),
            decreases m - j,
        {
            let c = &es[i].constraints[j];
            let is_apart_group = match (&c.ctype, &c.cref) {
                (ConstraintType::Apart, ConstraintRef::WithinGroup) => true,
                _ => false,
            };
            if is_apart_group && cnt >= 2 {
                proof {
                    assert(cnt <= u32::MAX);
                }
                let base: u128 = (cnt - 1) as u128;
                let b60: u128 = base * 60;
                proof {
                    assert(b60 * (c.time_hours as u128) <= 0x6000000000u128 * 0xffffffffu128)
                        by (nonlinear_arith)
                        requires
                            b60 <= 0x6000000000u128,
                            (c.time_hours as u128) <= 0xffffffffu128,
                    ;
                }
                let need: u128 = b60 * (c.time_hours as u128);
                if need > span as u128 {
                    return true;
                }
            }
            j = j + 1;
        }
        i = i + 1;
    }
    false
}

/// How far a time lies from a window: distance to the anchor, or distance
/// outside the range.
pub open spec fn window_dev(w: WindowSpec, t: int) -> int {
    match w {
        WindowSpec::Anchor(a) => if t >= a {
            t - a
        } else {
            a - t
        },
        WindowSpec::Range(a, b) => if t < a {
            a - t
        } else if t > b {
            t - b
        } else {
            0
        },
    }
}

/// A point range behaves exactly like an anchor at that point.
pub proof fn lemma_point_range_is_anchor(a: i32, t: int)
    ensures
        window_dev(WindowSpec::Range(a, a), t) == window_dev(WindowSpec::Anchor(a), t),
{
}

/// A window assignment: for each entity with windows, one window index per
/// instance (zero where an entity has no windows).
pub open spec fn valid_choice(es: Seq<Entity>, cfg: SchedulerConfig, ch: Seq<Seq<usize>>) -> bool {
    &&& ch.len() == es.len()
    &&& forall|i: int| 0 <= i < es.len() ==> (#[trigger] ch[i]).len() == inst_count(es[i])
    &&& forall|i: int, k: int|
        0 <= i < es.len() && 0 <= k < inst_count(es[i]) ==> ({
            let ws = spec_windows_for(es[i], cfg);
            if ws.len() > 0 {
                0 <= #[trigger] ch[i][k] < ws.len()
            } else {
                ch[i][k] == 0
            }
        })
}

/// The time of one instance, read off the (unique) matching event.
pub open spec fn inst_time(evs: Seq<ScheduledEvent>, nm: Seq<char>, k: int) -> int {
    let a = choose|a: int|
        0 <= a < evs.len() && (#[trigger] evs[a]).entity_name@ == nm && evs[a].instance == k;
    evs[a].time_minutes as int
}

/// The deviation of instance `k` (zero-based) of entity `i` from its chosen
/// window; zero when the entity has no windows.
pub open spec fn inst_dev(
    es: Seq<Entity>,
    cfg: SchedulerConfig,
    evs: Seq<ScheduledEvent>,
    ch: Seq<Seq<usize>>,
    i: int,
    k: int,
) -> int {
    let ws = spec_windows_for(es[i], cfg);
    if ws.len() == 0 {
        0
    } else {
        window_dev(ws[ch[i][k] as int], inst_time(evs, es[i].name@, k + 1))
    }
}

/// Summed deviation of the first `upto` instances of entity `i`.
pub open spec fn entity_dev(
    es: Seq<Entity>,
    cfg: SchedulerConfig,
    evs: Seq<ScheduledEvent>,
    ch: Seq<Seq<usize>>,
    i: int,
    upto: int,
) -> int
    decreases upto,
{
    if upto <= 0 {
        0
    } else {
        entity_dev(es, cfg, evs, ch, i, upto - 1) + inst_dev(es, cfg, evs, ch, i, upto - 1)
    }
}

/// Summed deviation of all instances of the first `upto` entities.
pub open spec fn total_dev_upto(
    es: Seq<Entity>,
    cfg: SchedulerConfig,
    evs: Seq<ScheduledEvent>,
    ch: Seq<Seq<usize>>,
    upto: int,
) -> int
    decreases upto,
{
    if upto <= 0 {
        0
    } else {
        total_dev_upto(es, cfg, evs, ch, upto - 1) + entity_dev(
            es,
            cfg,
            evs,
            ch,
            upto - 1,
            inst_count(es[upto - 1]),
        )
    }
}

/// Summed deviation of every instance from its chosen window.
pub open spec fn total_dev(
    es: Seq<Entity>,
    cfg: SchedulerConfig,
    evs: Seq<ScheduledEvent>,
    ch: Seq<Seq<usize>>,
) -> int {
    total_dev_upto(es, cfg, evs, ch, es.len() as int)
}

/// The nested view of a chosen-window table.
pub open spec fn chosen_view(ch: Vec<Vec<usize>>) -> Seq<Seq<usize>> {
    Seq::new(ch@.len(), |i: int| ch@[i]@)
}

/// One window-usage record is about a real entity, one of its governing
/// windows, and in-range ascending instance numbers, each of which the
/// assignment `ch` indeed places on that window.
pub open spec fn usage_entry_ok(
    es: Seq<Entity>,
    cfg: SchedulerConfig,
    ch: Seq<Seq<usize>>,
    entry: (String, String, Vec<usize>),
) -> bool {
    exists|i: int, w: int|
        #![trigger spec_windows_for(es[i], cfg)[w]]
        0 <= i < es.len() && 0 <= w < spec_windows_for(es[i], cfg).len() && entry.0@
            == es[i].name@ && entry.1@ == crate::parse::spec_window_str(
            spec_windows_for(es[i], cfg)[w],
        ) && entry.2@.len() > 0 && (forall|x: int|
            0 <= x < entry.2@.len() ==> 1 <= #[trigger] entry.2@[x] <= inst_count(es[i])) && (
        forall|x: int, y: int|
            #![trigger entry.2@[x], entry.2@[y]]
            0 <= x < y < entry.2@.len() ==> entry.2@[x] < entry.2@[y]) && (0 <= i < ch.len()
        && forall|x: int|
            0 <= x < entry.2@.len() ==> 0 <= (#[trigger] entry.2@[x]) - 1 < ch[i].len() && ch[i][entry.2@[x]
                - 1] == w)
}

/// The deviation of a time from a window, as a machine integer.
fn dev_exec(w: &WindowSpec, t: i32) -> (r: u64)
    ensures
        r == window_dev(*w, t as int),
{
    let ti = t as i64;
    match w {
        WindowSpec::Anchor(a) => {
            let ai = *a as i64;
            if ti >= ai {
                (ti - ai) as u64
            } else {
                (ai - ti) as u64
            }
        },
        WindowSpec::Range(a, b) => {
            let ai = *a as i64;
            let bi = *b as i64;
            if ti < ai {
                (ai - ti) as u64
            } else if ti > bi {
                (ti - bi) as u64
            } else {
                0
            }
        },
    }
}

/// Sums every instance's deviation from its chosen window, reading each
/// instance's time off its event. Gives nothing back only if the sum would
/// not fit.
fn compute_dev_sum(
    es: &Vec<Entity>,
    cfg: &SchedulerConfig,
    evs: &Vec<ScheduledEvent>,
    chosen: &Vec<Vec<usize>>,
) -> (r: Option<u64>)
    requires
        covers_instances(es@, evs@),
        distinct_keys(evs@),
        chosen@.len() == es@.len(),
        forall|i: int| 0 <= i < es@.len() ==> (#[trigger] chosen@[i])@.len() == inst_count(es@[i]),
        forall|i: int, k: int|
            0 <= i < es@.len() && 0 <= k < inst_count(es@[i]) ==> ({
                let ws = spec_windows_for(es@[i], *cfg);
                ws.len() > 0 ==> 0 <= #[trigger] (chosen@[i]@[k]) < ws.len()
            }),
    ensures
        r matches Some(s) ==> s == total_dev(es@, *cfg, evs@, chosen_view(*chosen)),
{
    let ghost ch = chosen_view(*chosen);
    let n = es.len();
    let mut acc: u64 = 0;
    let mut i: usize = 0;
    while i < n
        invariant
            i <= n,
            n == es@.len(),
            ch == chosen_view(*chosen),
            covers_instances(es@, evs@),
            distinct_keys(evs@),
            chosen@.len() == es@.len(),
            forall|x: int|
                0 <= x < es@.len() ==> (#[trigger] chosen@[x])@.len() == inst_count(es@[x]),
            forall|x: int, k: int|
                0 <= x < es@.len() && 0 <= k < inst_count(es@[x]) ==> ({
                    let ws = spec_windows_for(es@[x], *cfg);
                    ws.len() > 0 ==> 0 <= #[trigger] (chosen@[x]@[k]) < ws.len()
                }),
            acc == total_dev_upto(es@, *cfg, evs@, ch, i as int),
        decreases n - i,
    {
        let has_own = es[i].windows.len() > 0;
        let cnt = es[i].frequency.instances_per_day();
        let ghost ws = spec_windows_for(es@[i as int], *cfg);
        let mut k0: usize = 0;
        let mut inner: u64 = acc;
        while k0 < cnt
            invariant
                i < n,
                k0 <= cnt,
                n == es@.len(),
                ch == chosen_view(*chosen),
                covers_instances(es@, evs@),
                distinct_keys(evs@),
                chosen@.len() == es@.len(),
                cnt == inst_count(es@[i as int]),
                has_own == (es@[i as int].windows@.len() > 0),
                ws == spec_windows_for(es@[i as int], *cfg),
                forall|x: int|
                    0 <= x < es@.len() ==> (#[trigger] chosen@[x])@.len() == inst_count(es@[x]),
                forall|x: int, k: int|
                    0 <= x < es@.len() && 0 <= k < inst_count(es@[x]) ==> ({
                        let wsx = spec_windows_for(es@[x], *cfg);
                        wsx.len() > 0 ==> 0 <= #[trigger] (chosen@[x]@[k]) < wsx.len()
                    }),
                inner == total_dev_upto(es@, *cfg, evs@, ch, i as int) + entity_dev(
                    es@,
                    *cfg,
                    evs@,
                    ch,
                    i as int,
                    k0 as int,
                ),
                acc == total_dev_upto(es@, *cfg, evs@, ch, i as int),
            decreases cnt - k0,
        {
            let wlen = if has_own {
                es[i].windows.len()
            } else {
                cfg.global_windows.len()
            };
            let d: u64 = if wlen == 0 {
                0
            } else {
                let k = k0 + 1;
                let a = match find_event(evs, &es[i].name, k) {
                    Some(a) => a,
                    None => {
                        proof {
                            assert(instance_covered(es@, evs@, i as int, k as int));
                        }
                        vstd::pervasive::unreached()
                    },
                };
                let t = evs[a].time_minutes;
                proof {
                    let a2 = choose|a2: int|
                        0 <= a2 < evs@.len() && (#[trigger] evs@[a2]).entity_name@
                            == es@[i as int].name@ && evs@[a2].instance == k as int;
                    assert(instance_covered(es@, evs@, i as int, k as int));
                    if a2 != a as int {
                        assert(!(evs@[a2].entity_name@ == evs@[a as int].entity_name@
                            && evs@[a2].instance == evs@[a as int].instance));
                    }
                    assert(t == inst_time(evs@, es@[i as int].name@, k as int));
                }
                let widx = chosen[i][k0];
                let wref = if has_own {
                    &es[i].windows[widx]
                } else {
                    &cfg.global_windows[widx]
                };
                proof {
                    assert(chosen@[i as int]@[k0 as int] == ch[i as int][k0 as int]);
                    assert(*wref == ws[ch[i as int][k0 as int] as int]);
                }
                dev_exec(wref, t)
            };
            proof {
                assert(d == inst_dev(es@, *cfg, evs@, ch, i as int, k0 as int));
            }
            if d > u64::MAX - inner {
                return None;
            }
            inner = inner + d;
            k0 = k0 + 1;
        }
        acc = inner;
        i = i + 1;
    }
    proof {
        assert(acc == total_dev(es@, *cfg, evs@, ch));
    }
    Some(acc)
}

/// Whether a cross constraint of entity `i` referencing `w` applies to some
/// instance pair.
fn check_cross_pair_exists(es: &Vec<Entity>, i: usize, w: &String) -> (r: bool)
    requires
        i < es@.len(),
    ensures
        r == cross_pair_exists(es@, i as int, w@),
{
    let cnt_i = es[i].frequency.instances_per_day();
    if cnt_i == 0 {
        return false;
    }
    let targets = resolve_targets(es, w);
    let tl = targets.len();
    let mut t0: usize = 0;
    while t0 < tl
        invariant
            t0 <= tl,
            tl == targets@.len(),
            i < es@.len(),
            cnt_i == inst_count(es@[i as int]),
            cnt_i >= 1,
            forall|t: int|
                0 <= t < targets@.len() ==> (#[trigger] targets@[t]) < es@.len()
                    && is_target_entity(es@, w@, targets@[t] as int),
            forall|p: int|
                0 <= p < es@.len() && #[trigger] is_target_entity(es@, w@, p) ==> exists|t: int|
                    0 <= t < targets@.len() && targets@[t] == p,
            forall|t: int|
                0 <= t < t0 ==> !(if (#[trigger] targets@[t]) as int == i as int {
                    inst_count(es@[i as int]) >= 2
                } else {
                    inst_count(es@[targets@[t] as int]) >= 1
                }),
        decreases tl - t0,
    {
        let p = targets[t0];
        let hit = if p == i {
            cnt_i >= 2
        } else {
            es[p].frequency.instances_per_day() >= 1
        };
        if hit {
            proof {
                assert(is_target_entity(es@, w@, p as int));
                assert(cross_pair_exists(es@, i as int, w@));
            }
            return true;
        }
        t0 = t0 + 1;
    }
    proof {
        if cross_pair_exists(es@, i as int, w@) {
            let p = choose|p: int|
                0 <= p < es@.len() && #[trigger] is_target_entity(es@, w@, p) && (if p == i as int {
                    inst_count(es@[i as int]) >= 2
                } else {
                    inst_count(es@[p]) >= 1
                });
            let t = choose|t: int| 0 <= t < targets@.len() && targets@[t] == p;
            assert(!(if targets@[t] as int == i as int {
                inst_count(es@[i as int]) >= 2
            } else {
                inst_count(es@[targets@[t] as int]) >= 1
            }));
        }
    }
    false
}

/// Scans for a cross constraint that cannot fit within the day.
fn check_cross_overflow(es: &Vec<Entity>, cfg: &SchedulerConfig) -> (r: bool)
    requires
        day_ok(*cfg),
    ensures
        r == cross_overflow(es@, *cfg),
{
    let span: u64 = (cfg.day_end_minutes - cfg.day_start_minutes) as u64;
    let n = es.len();
    let mut i: usize = 0;
    while i < n
        invariant
            i <= n,
            n == es@.len(),
            day_ok(*cfg),
            span == cfg.day_end_minutes - cfg.day_start_minutes,
            forall|x: int, y: int|
                0 <= x < i && 0 <= y < es@[x].constraints@.len() ==> !#[trigger] cross_bad_at(
                    es@,
                    *cfg,
                    x,
                    y,
                ),
        decreases n - i,
    {
        let m = es[i].constraints.len();
        let mut j: usize = 0;
        while j < m
            invariant
                j <= m,
                i < n,
                n == es@.len(),
                m == es@[i as int].constraints@.len(),
                day_ok(*cfg),
                span == cfg.day_end_minutes - cfg.day_start_minutes,
                forall|x: int, y: int|
                    0 <= x < i && 0 <= y < es@[x].constraints@.len() ==> !#[trigger] cross_bad_at(
                        es@,
                        *cfg,
                        x,
                        y,
                    ),
                forall|y: int|
                    0 <= y < j ==> !#[trigger] cross_bad_at(es@, *cfg, i as int, y),
            decreases m - j,
        {
            let c = &es[i].constraints[j];
            let word: Option<&String> = match (&c.ctype, &c.cref) {
                (ConstraintType::ApartFrom, ConstraintRef::Unresolved(w)) => Some(w),
                (ConstraintType::Before, ConstraintRef::Unresolved(w)) => Some(w),
                (ConstraintType::After, ConstraintRef::Unresolved(w)) => Some(w),
                _ => None,
            };
            match word {
                Some(w) => {
                    let hm: u64 = 60 * (c.time_hours as u64);
                    if hm > span && check_cross_pair_exists(es, i, w) {
                        proof {
                            assert(cross_bad_at(es@, *cfg, i as int, j as int));
                        }
                        return true;
                    }
                    proof {
                        assert(!cross_bad_at(es@, *cfg, i as int, j as int));
                    }
                },
                None => {
                    proof {
                        assert(!cross_bad_at(es@, *cfg, i as int, j as int));
                    }
                },
            }
            j = j + 1;
        }
        i = i + 1;
    }
    false
}

/// An explicit copy of one event.
fn clone_event(e: &ScheduledEvent) -> (r: ScheduledEvent)
    ensures
        r == *e,
{
    ScheduledEvent {
        entity_name: e.entity_name.clone(),
        instance: e.instance,
        time_minutes: e.time_minutes,
    }
}


/// The time variables of the program, one row per entity.
pub open spec fn tv_wf(tv: Seq<Vec<good_lp::Variable>>, es: Seq<Entity>) -> bool {
    &&& tv.len() == es.len()
    &&& forall|i: int| 0 <= i < es.len() ==> (#[trigger] tv[i])@.len() == inst_count(es[i])
}

/// Every clock variable's index lies below `n`.
pub open spec fn tv_within(tv: Seq<Vec<good_lp::Variable>>, n: int) -> bool {
    forall|i: int, j: int|
        0 <= i < tv.len() && 0 <= j < tv[i]@.len() ==> var_index(#[trigger] tv[i]@[j]) < n
}

/// Every collected constraint's variable indices lie below `n`.
pub open spec fn cons_within(cs: Seq<good_lp::Constraint>, n: int) -> bool {
    forall|k: int| 0 <= k < cs.len() ==> constraint_var_bound(#[trigger] cs[k]) <= n
}

/// Every assignment variable's index lies below `n`.
pub open spec fn yv_within(yv: Seq<Vec<Vec<good_lp::Variable>>>, n: int) -> bool {
    forall|i: int, j: int, w: int|
        0 <= i < yv.len() && 0 <= j < yv[i]@.len() && 0 <= w < yv[i]@[j]@.len() ==> var_index(
            #[trigger] yv[i]@[j]@[w],
        ) < n
}

/// Every window of every entity and of the global fallback lies in the day.
pub open spec fn windows_lists_ok(es: Seq<Entity>, cfg: SchedulerConfig) -> bool {
    &&& forall|i: int, w: int|
        0 <= i < es.len() && 0 <= w < es[i].windows@.len() ==> window_ok(
            #[trigger] es[i].windows@[w],
        )
    &&& forall|w: int|
        0 <= w < cfg.global_windows@.len() ==> window_ok(#[trigger] cfg.global_windows@[w])
}

fn window_ok_exec(w: &WindowSpec) -> (r: bool)
    ensures
        r == window_ok(*w),
{
    match w {
        WindowSpec::Anchor(a) => 0 <= *a && *a <= 1440,
        WindowSpec::Range(a, b) => 0 <= *a && *a <= *b && *b <= 1440,
    }
}

/// Scans all window lists; names the first window lying outside the day.
fn find_invalid_window(es: &Vec<Entity>, cfg: &SchedulerConfig) -> (r: Option<String>)
    ensures
        r is None ==> windows_lists_ok(es@, *cfg),
        r is Some ==> !windows_lists_ok(es@, *cfg),
{
    let n = es.len();
    let mut i: usize = 0;
    while i < n
        invariant
            i <= n,
            n == es@.len(),
            forall|x: int, w: int|
                0 <= x < i && 0 <= w < es@[x].windows@.len() ==> window_ok(
                    #[trigger] es@[x].windows@[w],
                ),
        decreases n - i,
    {
        let m = es[i].windows.len();
        let mut w: usize = 0;
        while w < m
            invariant
                i < n,
                w <= m,
                n == es@.len(),
                m == es@[i as int].windows@.len(),
                forall|x: int, w2: int|
                    0 <= x < i && 0 <= w2 < es@[x].windows@.len() ==> window_ok(
                        #[trigger] es@[x].windows@[w2],
                    ),
                forall|w2: int|
                    0 <= w2 < w ==> window_ok(#[trigger] es@[i as int].windows@[w2]),
            decreases m - w,
        {
            if !window_ok_exec(&es[i].windows[w]) {
                proof {
                    assert(!window_ok(es@[i as int].windows@[w as int]));
                }
                return Some(crate::parse::window_to_string(&es[i].windows[w]));
            }
            w = w + 1;
        }
        i = i + 1;
    }
    let g = cfg.global_windows.len();
    let mut w: usize = 0;
    while w < g
        invariant
            w <= g,
            g == cfg.global_windows@.len(),
            forall|w2: int|
                0 <= w2 < w ==> window_ok(#[trigger] cfg.global_windows@[w2]),
        decreases g - w,
    {
        if !window_ok_exec(&cfg.global_windows[w]) {
            proof {
                assert(!window_ok(cfg.global_windows@[w as int]));
            }
            return Some(crate::parse::window_to_string(&cfg.global_windows[w]));
        }
        w = w + 1;
    }
    None
}

/// Adds one bounded clock variable per instance.
fn add_time_vars(
    prob: &mut good_lp::ProblemVariables,
    es: &Vec<Entity>,
    ds: i32,
    de: i32,
) -> (tv: Vec<Vec<good_lp::Variable>>)
    ensures
        tv_wf(tv@, es@),
        problem_var_count(*final(prob)) >= problem_var_count(*old(prob)),
        tv_within(tv@, problem_var_count(*final(prob))),
{
    let n = es.len();
    let mut tv: Vec<Vec<good_lp::Variable>> = Vec::new();
    let mut i: usize = 0;
    while i < n
        invariant
            i <= n,
            n == es@.len(),
            tv@.len() == i,
            forall|x: int| 0 <= x < i ==> (#[trigger] tv@[x])@.len() == inst_count(es@[x]),
            problem_var_count(*prob) >= problem_var_count(*old(prob)),
            tv_within(tv@, problem_var_count(*prob)),
        decreases n - i,
    {
        let cnt = es[i].frequency.instances_per_day();
        let mut row: Vec<good_lp::Variable> = Vec::new();
        let mut j: usize = 0;
        while j < cnt
            invariant
                j <= cnt,
                row@.len() == j,
                problem_var_count(*prob) >= problem_var_count(*old(prob)),
                tv_within(tv@, problem_var_count(*prob)),
                forall|x: int|
                    0 <= x < j ==> var_index(#[trigger] row@[x]) < problem_var_count(*prob),
            decreases cnt - j,
        {
            row.push(lp_add_bounded_var(prob, ds, de));
            j = j + 1;
        }
        tv.push(row);
        i = i + 1;
    }
    tv
}

/// Adds the ordering chain and the within-group spacing chain of every
/// entity. With the ordering in place, spacing between neighbours carries to
/// every pair of instances. Reports an entity whose spacing cannot fit.
fn add_spacing_constraints(
    cons: &mut Vec<good_lp::Constraint>,
    tv: &Vec<Vec<good_lp::Variable>>,
    es: &Vec<Entity>,
    span: i64,
    Ghost(bound): Ghost<int>,
) -> (feasible: bool)
    requires
        tv_wf(tv@, es@),
        0 <= span <= 1440,
        bound >= 0,
        tv_within(tv@, bound),
        cons_within(old(cons)@, bound),
    ensures
        cons_within(final(cons)@, bound),
{
    let n = es.len();
    let mut i: usize = 0;
    while i < n
        invariant
            i <= n,
            n == es@.len(),
            tv_wf(tv@, es@),
            0 <= span <= 1440,
            bound >= 0,
            tv_within(tv@, bound),
            cons_within(cons@, bound),
        decreases n - i,
    {
        let cnt = tv[i].len();
        let mut j: usize = 1;
        while j < cnt
            invariant
                1 <= j || cnt == 0,
                j <= cnt || cnt == 0,
                i < n,
                cnt == tv@[i as int]@.len(),
                tv_wf(tv@, es@),
                n == es@.len(),
                bound >= 0,
                tv_within(tv@, bound),
                cons_within(cons@, bound),
            decreases cnt - j,
        {
            let mut e = lp_expr_new();
            lp_expr_add_term(&mut e, 1, tv[i][j]);
            lp_expr_add_term(&mut e, -1, tv[i][j - 1]);
            cons.push(lp_geq(e, 0));
            j = j + 1;
        }
        let m = es[i].constraints.len();
        let mut c0: usize = 0;
        while c0 < m
            invariant
                c0 <= m,
                i < n,
                m == es@[i as int].constraints@.len(),
                cnt == tv@[i as int]@.len(),
                tv_wf(tv@, es@),
                n == es@.len(),
                0 <= span <= 1440,
                bound >= 0,
                tv_within(tv@, bound),
                cons_within(cons@, bound),
            decreases m - c0,
        {
            let c = &es[i].constraints[c0];
            let within_apart = match (&c.ctype, &c.cref) {
                (ConstraintType::Apart, ConstraintRef::WithinGroup) => true,
                _ => false,
            };
            if within_apart && cnt >= 2 {
                let hm: i64 = 60 * (c.time_hours as i64);
                if hm > span {
                    return false;
                }
                let rhs: i32 = hm as i32;
                let mut j: usize = 1;
                while j < cnt
                    invariant
                        1 <= j <= cnt,
                        i < n,
                        cnt == tv@[i as int]@.len(),
                        tv_wf(tv@, es@),
                        n == es@.len(),
                        bound >= 0,
                        tv_within(tv@, bound),
                        cons_within(cons@, bound),
                    decreases cnt - j,
                {
                    let mut e = lp_expr_new();
                    lp_expr_add_term(&mut e, 1, tv[i][j]);
                    lp_expr_add_term(&mut e, -1, tv[i][j - 1]);
                    cons.push(lp_geq(e, rhs));
                    j = j + 1;
                }
            }
            c0 = c0 + 1;
        }
        i = i + 1;
    }
    true
}

/// The entity indices a reference word stands for: exactly the targets of
/// the word.
fn resolve_targets(es: &Vec<Entity>, w: &String) -> (r: Vec<usize>)
    ensures
        forall|t: int|
            0 <= t < r@.len() ==> (#[trigger] r@[t]) < es@.len() && is_target_entity(
                es@,
                w@,
                r@[t] as int,
            ),
        forall|p: int|
            0 <= p < es@.len() && #[trigger] is_target_entity(es@, w@, p) ==> exists|t: int|
                0 <= t < r@.len() && r@[t] == p,
{
    let mut out: Vec<usize> = Vec::new();
    match find_name(es, w) {
        Some(p) => {
            out.push(p);
            proof {
                assert(is_target_entity(es@, w@, p as int));
                assert forall|p2: int|
                    0 <= p2 < es@.len() && #[trigger] is_target_entity(es@, w@, p2) implies exists|
                    t: int,
                |
                    0 <= t < out@.len() && out@[t] == p2 by {
                    if p2 < p as int {
                        assert(es@[p2].name@ != w@);
                    } else if (p as int) < p2 {
                        assert(es@[p as int].name@ != w@);
                    }
                    assert(out@[0] == p);
                }
            }
        },
        None => {
            let n = es.len();
            let mut q: usize = 0;
            while q < n
                invariant
                    q <= n,
                    n == es@.len(),
                    forall|q2: int| 0 <= q2 < es@.len() ==> (#[trigger] es@[q2].name@) != w@,
                    forall|t: int|
                        0 <= t < out@.len() ==> (#[trigger] out@[t]) < es@.len()
                            && is_target_entity(es@, w@, out@[t] as int),
                    forall|p: int|
                        0 <= p < q && #[trigger] is_target_entity(es@, w@, p) ==> exists|t: int|
                            0 <= t < out@.len() && out@[t] == p,
                decreases n - q,
            {
                if es[q].category == *w {
                    proof {
                        assert(is_target_entity(es@, w@, q as int));
                    }
                    let ghost prev = out@;
                    out.push(q);
                    proof {
                        assert(out@ == prev.push(q));
                        assert forall|p: int|
                            0 <= p < q + 1 && #[trigger] is_target_entity(es@, w@, p) implies exists|
                            t: int,
                        |
                            0 <= t < out@.len() && out@[t] == p by {
                            if p == q as int {
                                assert(out@[out@.len() - 1] == q);
                            } else {
                                let t0 = choose|t0: int|
                                    0 <= t0 < prev.len() && prev[t0] == p;
                                assert(out@[t0] == p);
                            }
                        }
                    }
                } else {
                    proof {
                        assert(!is_target_entity(es@, w@, q as int));
                    }
                }
                q = q + 1;
            }
        },
    }
    out
}

/// The big-M constant of the disjunctive rows: larger than any reachable
/// slack once the day and all windows lie within `0..=1440` and every built
/// spacing fits the day.
pub const BIG_M: i32 = 6000;

/// Adds the cross-entity rows: `before` and `after` directly, `apart from`
/// through a binary disjunction. Reports a constraint that cannot fit.
fn add_cross_constraints(
    prob: &mut good_lp::ProblemVariables,
    cons: &mut Vec<good_lp::Constraint>,
    tv: &Vec<Vec<good_lp::Variable>>,
    es: &Vec<Entity>,
    span: i64,
    debug: bool,
) -> (feasible: bool)
    requires
        tv_wf(tv@, es@),
        0 <= span <= 1440,
        problem_var_count(*old(prob)) >= 0,
        tv_within(tv@, problem_var_count(*old(prob))),
        cons_within(old(cons)@, problem_var_count(*old(prob))),
    ensures
        problem_var_count(*final(prob)) >= problem_var_count(*old(prob)),
        cons_within(final(cons)@, problem_var_count(*final(prob))),
{
    let n = es.len();
    let mut i: usize = 0;
    while i < n
        invariant
            i <= n,
            n == es@.len(),
            tv_wf(tv@, es@),
            0 <= span <= 1440,
            problem_var_count(*prob) >= problem_var_count(*old(prob)),
            problem_var_count(*old(prob)) >= 0,
            tv_within(tv@, problem_var_count(*prob)),
            cons_within(cons@, problem_var_count(*prob)),
        decreases n - i,
    {
        let m = es[i].constraints.len();
        let mut c0: usize = 0;
        while c0 < m
            invariant
                c0 <= m,
                i < n,
                m == es@[i as int].constraints@.len(),
                tv_wf(tv@, es@),
                n == es@.len(),
                0 <= span <= 1440,
                problem_var_count(*prob) >= problem_var_count(*old(prob)),
                problem_var_count(*old(prob)) >= 0,
                tv_within(tv@, problem_var_count(*prob)),
                cons_within(cons@, problem_var_count(*prob)),
            decreases m - c0,
        {
            let c = &es[i].constraints[c0];
            let cross: Option<(ConstraintType, &String)> = match (&c.ctype, &c.cref) {
                (ConstraintType::ApartFrom, ConstraintRef::Unresolved(w)) => Some(
                    (ConstraintType::ApartFrom, w),
                ),
                (ConstraintType::Before, ConstraintRef::Unresolved(w)) => Some(
                    (ConstraintType::Before, w),
                ),
                (ConstraintType::After, ConstraintRef::Unresolved(w)) => Some(
                    (ConstraintType::After, w),
                ),
                _ => None,
            };
            if let Some((ct, w)) = cross {
                let targets = resolve_targets(es, w);
                let src = tv[i].len();
                // whether any owner-target pair other than an instance with
                // itself exists
                let mut pair_exists = false;
                let tl = targets.len();
                let mut t0: usize = 0;
                while t0 < tl
                    invariant
                        t0 <= tl,
                        tl == targets@.len(),
                        i < n,
                        src == tv@[i as int]@.len(),
                        forall|t: int|
                            0 <= t < targets@.len() ==> (#[trigger] targets@[t]) < es@.len(),
                        tv_wf(tv@, es@),
                        n == es@.len(),
                    decreases tl - t0,
                {
                    let p = targets[t0];
                    if src >= 1 && (p != i && tv[p].len() >= 1 || p == i && src >= 2) {
                        pair_exists = true;
                    }
                    t0 = t0 + 1;
                }
                if pair_exists {
                    if debug {
                        let mut line = String::new();
                        line.append("resolved targets of ");
                        line.append(es[i].name.as_str());
                        line.append(": ");
                        let num = crate::text::u64_to_string(targets.len() as u64);
                        line.append(num.as_str());
                        line.append(" entities");
                        crate::lp::emit_line(line.as_str());
                    }
                    let hm: i64 = 60 * (c.time_hours as i64);
                    if hm > span {
                        return false;
                    }
                    let rhs: i32 = hm as i32;
                    let mut j: usize = 0;
                    while j < src
                        invariant
                            j <= src,
                            i < n,
                            src == tv@[i as int]@.len(),
                            tl == targets@.len(),
                            forall|t: int|
                                0 <= t < targets@.len() ==> (#[trigger] targets@[t]) < es@.len(),
                            tv_wf(tv@, es@),
                            n == es@.len(),
                            -1440 <= rhs <= 1440,
                            problem_var_count(*prob) >= problem_var_count(*old(prob)),
                            problem_var_count(*old(prob)) >= 0,
                            tv_within(tv@, problem_var_count(*prob)),
                            cons_within(cons@, problem_var_count(*prob)),
                        decreases src - j,
                    {
                        let mut t0: usize = 0;
                        while t0 < tl
                            invariant
                                t0 <= tl,
                                j < src,
                                i < n,
                                src == tv@[i as int]@.len(),
                                tl == targets@.len(),
                                forall|t: int|
                                    0 <= t < targets@.len() ==> (#[trigger] targets@[t])
                                        < es@.len(),
                                tv_wf(tv@, es@),
                                n == es@.len(),
                                -1440 <= rhs <= 1440,
                                problem_var_count(*prob) >= problem_var_count(*old(prob)),
                                problem_var_count(*old(prob)) >= 0,
                                tv_within(tv@, problem_var_count(*prob)),
                                cons_within(cons@, problem_var_count(*prob)),
                            decreases tl - t0,
                        {
                            let p = targets[t0];
                            let pcnt = tv[p].len();
                            let mut q: usize = 0;
                            while q < pcnt
                                invariant
                                    q <= pcnt,
                                    j < src,
                                    i < n,
                                    p < n,
                                    src == tv@[i as int]@.len(),
                                    pcnt == tv@[p as int]@.len(),
                                    tv_wf(tv@, es@),
                                    n == es@.len(),
                                    -1440 <= rhs <= 1440,
                                    problem_var_count(*prob) >= problem_var_count(*old(prob)),
                                    problem_var_count(*old(prob)) >= 0,
                                    tv_within(tv@, problem_var_count(*prob)),
                                    cons_within(cons@, problem_var_count(*prob)),
                                decreases pcnt - q,
                            {
                                if !(p == i && q == j) {
                                    match ct {
                                        ConstraintType::Before => {
                                            let mut e = lp_expr_new();
                                            lp_expr_add_term(&mut e, 1, tv[p][q]);
                                            lp_expr_add_term(&mut e, -1, tv[i][j]);
                                            cons.push(lp_geq(e, rhs));
                                        },
                                        ConstraintType::After => {
                                            let mut e = lp_expr_new();
                                            lp_expr_add_term(&mut e, 1, tv[i][j]);
                                            lp_expr_add_term(&mut e, -1, tv[p][q]);
                                            cons.push(lp_geq(e, rhs));
                                        },
                                        _ => {
                                            let b = lp_add_binary_var(prob);
                                            let mut e1 = lp_expr_new();
                                            lp_expr_add_term(&mut e1, 1, tv[i][j]);
                                            lp_expr_add_term(&mut e1, -1, tv[p][q]);
                                            lp_expr_add_term(&mut e1, BIG_M, b);
                                            cons.push(lp_geq(e1, rhs));
                                            let mut e2 = lp_expr_new();
                                            lp_expr_add_term(&mut e2, 1, tv[p][q]);
                                            lp_expr_add_term(&mut e2, -1, tv[i][j]);
                                            lp_expr_add_term(&mut e2, -BIG_M, b);
                                            cons.push(lp_geq(e2, rhs - BIG_M));
                                        },
                                    }
                                }
                                q = q + 1;
                            }
                            t0 = t0 + 1;
                        }
                        j = j + 1;
                    }
                } else if debug {
                    let mut line = String::new();
                    line.append("constraint of ");
                    line.append(es[i].name.as_str());
                    line.append(" resolves to nothing and is dropped");
                    crate::lp::emit_line(line.as_str());
                }
            }
            c0 = c0 + 1;
        }
        i = i + 1;
    }
    true
}

/// Adds the penalty objective terms for one slack variable, splitting the
/// weight so every passed coefficient fits the backend's integer argument.
fn add_weight_term(obj: &mut good_lp::Expression, weight: u32, v: good_lp::Variable)
    ensures
        expr_var_bound(*final(obj)) == (if var_index(v) + 1 > expr_var_bound(*old(obj)) {
            var_index(v) + 1
        } else {
            expr_var_bound(*old(obj))
        }),
{
    let half = weight / 2;
    lp_expr_add_term(obj, half as i32, v);
    lp_expr_add_term(obj, half as i32, v);
    lp_expr_add_term(obj, (weight % 2) as i32, v);
}

/// The shape of the assignment-variable table.
pub open spec fn yv_wf(
    yv: Seq<Vec<Vec<good_lp::Variable>>>,
    es: Seq<Entity>,
    cfg: SchedulerConfig,
) -> bool {
    &&& yv.len() == es.len()
    &&& forall|i: int|
        0 <= i < es.len() ==> ({
            let ws = spec_windows_for(es[i], cfg);
            if ws.len() > 0 {
                (#[trigger] yv[i])@.len() == inst_count(es[i]) && (forall|j: int|
                    0 <= j < yv[i]@.len() ==> (#[trigger] yv[i]@[j])@.len() == ws.len())
            } else {
                yv[i]@.len() == 0
            }
        })
}

/// Adds, per instance of a windowed entity, one slack variable, one binary
/// per window, the exactly-one row, and the window rows; and, when an entity
/// has at least as many windows as instances, the at-most-one rows that
/// prefer distinct windows.
fn add_window_constraints(
    prob: &mut good_lp::ProblemVariables,
    cons: &mut Vec<good_lp::Constraint>,
    obj: &mut good_lp::Expression,
    tv: &Vec<Vec<good_lp::Variable>>,
    es: &Vec<Entity>,
    cfg: &SchedulerConfig,
) -> (yv: Vec<Vec<Vec<good_lp::Variable>>>)
    requires
        tv_wf(tv@, es@),
        windows_lists_ok(es@, *cfg),
        problem_var_count(*old(prob)) >= 0,
        tv_within(tv@, problem_var_count(*old(prob))),
        cons_within(old(cons)@, problem_var_count(*old(prob))),
        expr_var_bound(*old(obj)) <= problem_var_count(*old(prob)),
    ensures
        yv_wf(yv@, es@, *cfg),
        problem_var_count(*final(prob)) >= problem_var_count(*old(prob)),
        cons_within(final(cons)@, problem_var_count(*final(prob))),
        expr_var_bound(*final(obj)) <= problem_var_count(*final(prob)),
        yv_within(yv@, problem_var_count(*final(prob))),
{
    let n = es.len();
    let mut yv: Vec<Vec<Vec<good_lp::Variable>>> = Vec::new();
    let mut i: usize = 0;
    while i < n
        invariant
            i <= n,
            n == es@.len(),
            tv_wf(tv@, es@),
            windows_lists_ok(es@, *cfg),
            yv@.len() == i,
            forall|x: int|
                0 <= x < i ==> ({
                    let ws = spec_windows_for(es@[x], *cfg);
                    if ws.len() > 0 {
                        (#[trigger] yv@[x])@.len() == inst_count(es@[x]) && (forall|j: int|
                            0 <= j < yv@[x]@.len() ==> (#[trigger] yv@[x]@[j])@.len() == ws.len())
                    } else {
                        yv@[x]@.len() == 0
                    }
                }),
            problem_var_count(*prob) >= problem_var_count(*old(prob)),
            problem_var_count(*old(prob)) >= 0,
            tv_within(tv@, problem_var_count(*prob)),
            cons_within(cons@, problem_var_count(*prob)),
            expr_var_bound(*obj) <= problem_var_count(*prob),
            yv_within(yv@, problem_var_count(*prob)),
        decreases n - i,
    {
        let has_own = es[i].windows.len() > 0;
        let wlen = if has_own {
            es[i].windows.len()
        } else {
            cfg.global_windows.len()
        };
        let ghost ws = spec_windows_for(es@[i as int], *cfg);
        let mut rows: Vec<Vec<good_lp::Variable>> = Vec::new();
        if wlen > 0 {
            let cnt = tv[i].len();
            let mut j: usize = 0;
            while j < cnt
                invariant
                    j <= cnt,
                    i < n,
                    cnt == tv@[i as int]@.len(),
                    wlen == ws.len(),
                    has_own == (es@[i as int].windows@.len() > 0),
                    ws == spec_windows_for(es@[i as int], *cfg),
                    n == es@.len(),
                    tv_wf(tv@, es@),
                    windows_lists_ok(es@, *cfg),
                    rows@.len() == j,
                    forall|j2: int|
                        0 <= j2 < j ==> (#[trigger] rows@[j2])@.len() == ws.len(),
                    problem_var_count(*prob) >= problem_var_count(*old(prob)),
                    problem_var_count(*old(prob)) >= 0,
                    tv_within(tv@, problem_var_count(*prob)),
                    cons_within(cons@, problem_var_count(*prob)),
                    expr_var_bound(*obj) <= problem_var_count(*prob),
                    yv_within(yv@, problem_var_count(*prob)),
                    forall|j2: int, w2: int|
                        0 <= j2 < j && 0 <= w2 < rows@[j2]@.len() ==> var_index(
                            #[trigger] rows@[j2]@[w2],
                        ) < problem_var_count(*prob),
                decreases cnt - j,
            {
                let d = lp_add_nonneg_var(prob);
                add_weight_term(obj, cfg.penalty_weight, d);
                let mut ysum = lp_expr_new();
                let mut yrow: Vec<good_lp::Variable> = Vec::new();
                let mut w: usize = 0;
                while w < wlen
                    invariant
                        w <= wlen,
                        i < n,
                        j < cnt,
                        cnt == tv@[i as int]@.len(),
                        wlen == ws.len(),
                        has_own == (es@[i as int].windows@.len() > 0),
                        ws == spec_windows_for(es@[i as int], *cfg),
                        n == es@.len(),
                        tv_wf(tv@, es@),
                        windows_lists_ok(es@, *cfg),
                        yrow@.len() == w,
                        problem_var_count(*prob) >= problem_var_count(*old(prob)),
                        problem_var_count(*old(prob)) >= 0,
                        tv_within(tv@, problem_var_count(*prob)),
                        cons_within(cons@, problem_var_count(*prob)),
                        expr_var_bound(*obj) <= problem_var_count(*prob),
                        yv_within(yv@, problem_var_count(*prob)),
                        var_index(d) < problem_var_count(*prob),
                        expr_var_bound(ysum) <= problem_var_count(*prob),
                        forall|j2: int, w2: int|
                            0 <= j2 < rows@.len() && 0 <= w2 < rows@[j2]@.len() ==> var_index(
                                #[trigger] rows@[j2]@[w2],
                            ) < problem_var_count(*prob),
                        forall|w2: int|
                            0 <= w2 < w ==> var_index(#[trigger] yrow@[w2]) < problem_var_count(
                                *prob,
                            ),
                    decreases wlen - w,
                {
                    let y = lp_add_binary_var(prob);
                    lp_expr_add_term(&mut ysum, 1, y);
                    let t = tv[i][j];
                    let win = if has_own {
                        es[i].windows[w]
                    } else {
                        cfg.global_windows[w]
                    };
                    proof {
                        assert(win == ws[w as int]);
                        assert(window_ok(win));
                    }
                    match win {
                        WindowSpec::Anchor(a) => {
                            // t - a <= d + M (1 - y), two sided
                            let mut e1 = lp_expr_new();
                            lp_expr_add_term(&mut e1, 1, t);
                            lp_expr_add_term(&mut e1, -1, d);
                            lp_expr_add_term(&mut e1, BIG_M, y);
                            cons.push(lp_leq(e1, a + BIG_M));
                            let mut e2 = lp_expr_new();
                            lp_expr_add_term(&mut e2, -1, t);
                            lp_expr_add_term(&mut e2, -1, d);
                            lp_expr_add_term(&mut e2, BIG_M, y);
                            cons.push(lp_leq(e2, BIG_M - a));
                        },
                        WindowSpec::Range(a, b) => {
                            // a - d - M (1 - y) <= t <= b + d + M (1 - y)
                            let mut e1 = lp_expr_new();
                            lp_expr_add_term(&mut e1, 1, t);
                            lp_expr_add_term(&mut e1, 1, d);
                            lp_expr_add_term(&mut e1, -BIG_M, y);
                            cons.push(lp_geq(e1, a - BIG_M));
                            let mut e2 = lp_expr_new();
                            lp_expr_add_term(&mut e2, 1, t);
                            lp_expr_add_term(&mut e2, -1, d);
                            lp_expr_add_term(&mut e2, BIG_M, y);
                            cons.push(lp_leq(e2, b + BIG_M));
                        },
                    }
                    yrow.push(y);
                    w = w + 1;
                }
                cons.push(lp_eq(ysum, 1));
                rows.push(yrow);
                j = j + 1;
            }
            // prefer distinct windows when there are enough of them
            if wlen >= cnt {
                let mut w: usize = 0;
                while w < wlen
                    invariant
                        w <= wlen,
                        cnt == rows@.len(),
                        forall|j2: int|
                            0 <= j2 < cnt ==> (#[trigger] rows@[j2])@.len() == wlen,
                        problem_var_count(*prob) >= 0,
                        cons_within(cons@, problem_var_count(*prob)),
                        forall|j2: int, w2: int|
                            0 <= j2 < cnt && 0 <= w2 < rows@[j2]@.len() ==> var_index(
                                #[trigger] rows@[j2]@[w2],
                            ) < problem_var_count(*prob),
                    decreases wlen - w,
                {
                    let mut e = lp_expr_new();
                    let mut j: usize = 0;
                    while j < cnt
                        invariant
                            j <= cnt,
                            w < wlen,
                            cnt == rows@.len(),
                            forall|j2: int|
                                0 <= j2 < cnt ==> (#[trigger] rows@[j2])@.len() == wlen,
                            problem_var_count(*prob) >= 0,
                            expr_var_bound(e) <= problem_var_count(*prob),
                            forall|j2: int, w2: int|
                                0 <= j2 < cnt && 0 <= w2 < rows@[j2]@.len() ==> var_index(
                                    #[trigger] rows@[j2]@[w2],
                                ) < problem_var_count(*prob),
                        decreases cnt - j,
                    {
                        lp_expr_add_term(&mut e, 1, rows[j][w]);
                        j = j + 1;
                    }
                    cons.push(lp_leq(e, 1));
                    w = w + 1;
                }
            }
        }
        yv.push(rows);
        i = i + 1;
    }
    yv
}

/// Reads every clock value out of the solution, rounded to whole minutes
/// and clamped into the day.
fn extract_times(
    sol: &good_lp::solvers::microlp::MicroLpSolution,
    tv: &Vec<Vec<good_lp::Variable>>,
    es: &Vec<Entity>,
    ds: i32,
    de: i32,
) -> (ts: Vec<Vec<i32>>)
    requires
        tv_wf(tv@, es@),
        ds <= de,
        tv_within(tv@, solution_var_count(*sol)),
    ensures
        ts@.len() == es@.len(),
        forall|i: int| 0 <= i < es@.len() ==> (#[trigger] ts@[i])@.len() == inst_count(es@[i]),
{
    let n = tv.len();
    let mut ts: Vec<Vec<i32>> = Vec::new();
    let mut i: usize = 0;
    while i < n
        invariant
            i <= n,
            n == es@.len(),
            tv_wf(tv@, es@),
            ds <= de,
            tv_within(tv@, solution_var_count(*sol)),
            ts@.len() == i,
            forall|x: int| 0 <= x < i ==> (#[trigger] ts@[x])@.len() == inst_count(es@[x]),
        decreases n - i,
    {
        let cnt = tv[i].len();
        let mut row: Vec<i32> = Vec::new();
        let mut j: usize = 0;
        while j < cnt
            invariant
                j <= cnt,
                i < n,
                cnt == tv@[i as int]@.len(),
                tv_wf(tv@, es@),
                n == es@.len(),
                ds <= de,
                tv_within(tv@, solution_var_count(*sol)),
                row@.len() == j,
            decreases cnt - j,
        {
            let raw = lp_value_rounded(sol, tv[i][j]);
            let clamped: i32 = if raw < ds as i64 {
                ds
            } else if raw > de as i64 {
                de
            } else {
                raw as i32
            };
            row.push(clamped);
            j = j + 1;
        }
        ts.push(row);
        i = i + 1;
    }
    ts
}

/// Turns the time table into the event list, instances numbered from one.
fn build_events(es: &Vec<Entity>, ts: &Vec<Vec<i32>>) -> (evs: Vec<ScheduledEvent>)
    requires
        ts@.len() == es@.len(),
        forall|i: int| 0 <= i < es@.len() ==> (#[trigger] ts@[i])@.len() == inst_count(es@[i]),
{
    let n = es.len();
    let mut evs: Vec<ScheduledEvent> = Vec::new();
    let mut i: usize = 0;
    while i < n
        invariant
            i <= n,
            n == es@.len(),
            ts@.len() == es@.len(),
            forall|x: int| 0 <= x < es@.len() ==> (#[trigger] ts@[x])@.len() == inst_count(es@[x]),
        decreases n - i,
    {
        let cnt = ts[i].len();
        proof {
            assert(cnt <= u32::MAX);
        }
        let mut j: usize = 0;
        while j < cnt
            invariant
                j <= cnt,
                i < n,
                cnt <= u32::MAX,
                n == es@.len(),
                ts@.len() == es@.len(),
                cnt == ts@[i as int]@.len(),
            decreases cnt - j,
        {
            evs.push(
                ScheduledEvent {
                    entity_name: es[i].name.clone(),
                    instance: j + 1,
                    time_minutes: ts[i][j],
                },
            );
            j = j + 1;
        }
        i = i + 1;
    }
    evs
}

/// Reads the chosen window of every instance off the assignment binaries,
/// falling back to the nearest window where the binaries are unreadable.
fn choose_windows(
    sol: &good_lp::solvers::microlp::MicroLpSolution,
    yv: &Vec<Vec<Vec<good_lp::Variable>>>,
    ts: &Vec<Vec<i32>>,
    es: &Vec<Entity>,
    cfg: &SchedulerConfig,
) -> (ch: Vec<Vec<usize>>)
    requires
        yv_wf(yv@, es@, *cfg),
        yv_within(yv@, solution_var_count(*sol)),
        ts@.len() == es@.len(),
        forall|i: int| 0 <= i < es@.len() ==> (#[trigger] ts@[i])@.len() == inst_count(es@[i]),
    ensures
        ch@.len() == es@.len(),
        forall|i: int| 0 <= i < es@.len() ==> (#[trigger] ch@[i])@.len() == inst_count(es@[i]),
        forall|i: int, k: int|
            0 <= i < es@.len() && 0 <= k < inst_count(es@[i]) ==> ({
                let ws = spec_windows_for(es@[i], *cfg);
                if ws.len() > 0 {
                    0 <= #[trigger] (ch@[i]@[k]) < ws.len()
                } else {
                    ch@[i]@[k] == 0
                }
            }),
{
    let n = es.len();
    let mut ch: Vec<Vec<usize>> = Vec::new();
    let mut i: usize = 0;
    while i < n
        invariant
            i <= n,
            n == es@.len(),
            yv_wf(yv@, es@, *cfg),
            yv_within(yv@, solution_var_count(*sol)),
            ts@.len() == es@.len(),
            forall|x: int| 0 <= x < es@.len() ==> (#[trigger] ts@[x])@.len() == inst_count(es@[x]),
            ch@.len() == i,
            forall|x: int| 0 <= x < i ==> (#[trigger] ch@[x])@.len() == inst_count(es@[x]),
            forall|x: int, k: int|
                0 <= x < i && 0 <= k < inst_count(es@[x]) ==> ({
                    let ws = spec_windows_for(es@[x], *cfg);
                    if ws.len() > 0 {
                        0 <= #[trigger] (ch@[x]@[k]) < ws.len()
                    } else {
                        ch@[x]@[k] == 0
                    }
                }),
        decreases n - i,
    {
        let ghost ws = spec_windows_for(es@[i as int], *cfg);
        let has_own = es[i].windows.len() > 0;
        let wlen = if has_own {
            es[i].windows.len()
        } else {
            cfg.global_windows.len()
        };
        let cnt = ts[i].len();
        let mut row: Vec<usize> = Vec::new();
        let mut j: usize = 0;
        while j < cnt
            invariant
                j <= cnt,
                i < n,
                n == es@.len(),
                ts@.len() == es@.len(),
                cnt == inst_count(es@[i as int]),
                cnt == ts@[i as int]@.len(),
                wlen == ws.len(),
                has_own == (es@[i as int].windows@.len() > 0),
                ws == spec_windows_for(es@[i as int], *cfg),
                yv_wf(yv@, es@, *cfg),
                yv_within(yv@, solution_var_count(*sol)),
                row@.len() == j,
                forall|k: int|
                    0 <= k < j ==> ({
                        if ws.len() > 0 {
                            0 <= #[trigger] (row@[k]) < ws.len()
                        } else {
                            row@[k] == 0
                        }
                    }),
            decreases cnt - j,
        {
            if wlen == 0 {
                row.push(0);
            } else {
                let mut pick: usize = 0;
                let mut found = false;
                let mut w: usize = 0;
                while w < wlen
                    invariant
                        w <= wlen,
                        i < n,
                        j < cnt,
                        cnt == inst_count(es@[i as int]),
                        wlen == ws.len(),
                        wlen > 0,
                        ws == spec_windows_for(es@[i as int], *cfg),
                        yv_wf(yv@, es@, *cfg),
                        yv_within(yv@, solution_var_count(*sol)),
                        n == es@.len(),
                        pick < wlen,
                        j < yv@[i as int]@.len(),
                    decreases wlen - w,
                {
                    if !found {
                        let v = lp_value_rounded(sol, yv[i][j][w]);
                        if v >= 1 {
                            pick = w;
                            found = true;
                        }
                    }
                    w = w + 1;
                }
                if !found {
                    // fall back to the nearest window
                    proof {
                        assert(ts@.len() == es@.len());
                    }
                    let t = ts[i][j];
                    let mut best: usize = 0;
                    let mut best_dev: u64 = u64::MAX;
                    let mut w: usize = 0;
                    while w < wlen
                        invariant
                            w <= wlen,
                            i < n,
                            j < cnt,
                            wlen == ws.len(),
                            wlen > 0,
                            has_own == (es@[i as int].windows@.len() > 0),
                            ws == spec_windows_for(es@[i as int], *cfg),
                            n == es@.len(),
                            best < wlen,
                        decreases wlen - w,
                    {
                        let wref = if has_own {
                            &es[i].windows[w]
                        } else {
                            &cfg.global_windows[w]
                        };
                        let d = dev_exec(wref, t);
                        if d < best_dev {
                            best = w;
                            best_dev = d;
                        }
                        w = w + 1;
                    }
                    pick = best;
                }
                row.push(pick);
            }
            j = j + 1;
        }
        ch.push(row);
        i = i + 1;
    }
    ch
}

/// Builds the window-usage report: per entity and governing window, the
/// instances assigned to it, in ascending order.
fn build_usage(
    es: &Vec<Entity>,
    cfg: &SchedulerConfig,
    chosen: &Vec<Vec<usize>>,
) -> (u: Vec<(String, String, Vec<usize>)>)
    requires
        chosen@.len() == es@.len(),
        forall|i: int| 0 <= i < es@.len() ==> (#[trigger] chosen@[i])@.len() == inst_count(es@[i]),
    ensures
        forall|e: int|
            0 <= e < u@.len() ==> usage_entry_ok(es@, *cfg, chosen_view(*chosen), #[trigger] u@[e]),
{
    let ghost ch = chosen_view(*chosen);
    let n = es.len();
    let mut out: Vec<(String, String, Vec<usize>)> = Vec::new();
    let mut i: usize = 0;
    while i < n
        invariant
            i <= n,
            n == es@.len(),
            chosen@.len() == es@.len(),
            ch == chosen_view(*chosen),
            forall|x: int|
                0 <= x < es@.len() ==> (#[trigger] chosen@[x])@.len() == inst_count(es@[x]),
            forall|e: int|
                0 <= e < out@.len() ==> usage_entry_ok(es@, *cfg, ch, #[trigger] out@[e]),
        decreases n - i,
    {
        let ghost ws = spec_windows_for(es@[i as int], *cfg);
        let has_own = es[i].windows.len() > 0;
        let wlen = if has_own {
            es[i].windows.len()
        } else {
            cfg.global_windows.len()
        };
        let cnt = chosen[i].len();
        proof {
            assert(cnt <= u32::MAX);
        }
        let mut w: usize = 0;
        while w < wlen
            invariant
                w <= wlen,
                i < n,
                n == es@.len(),
                cnt <= u32::MAX,
                cnt == inst_count(es@[i as int]),
                cnt == chosen@[i as int]@.len(),
                wlen == ws.len(),
                has_own == (es@[i as int].windows@.len() > 0),
                ws == spec_windows_for(es@[i as int], *cfg),
                chosen@.len() == es@.len(),
                ch == chosen_view(*chosen),
                forall|x: int|
                    0 <= x < es@.len() ==> (#[trigger] chosen@[x])@.len() == inst_count(es@[x]),
                forall|e: int|
                    0 <= e < out@.len() ==> usage_entry_ok(es@, *cfg, ch, #[trigger] out@[e]),
            decreases wlen - w,
        {
            let mut lst: Vec<usize> = Vec::new();
            let mut k0: usize = 0;
            while k0 < cnt
                invariant
                    k0 <= cnt,
                    i < n,
                    w < wlen,
                    cnt <= u32::MAX,
                    cnt == chosen@[i as int]@.len(),
                    cnt == inst_count(es@[i as int]),
                    chosen@.len() == es@.len(),
                    ch == chosen_view(*chosen),
                    n == es@.len(),
                    forall|x: int|
                        0 <= x < lst@.len() ==> 1 <= #[trigger] (lst@[x]) && lst@[x] <= k0,
                    forall|x: int, y: int|
                        #![trigger lst@[x], lst@[y]]
                        0 <= x < y < lst@.len() ==> lst@[x] < lst@[y],
                    forall|x: int|
                        0 <= x < lst@.len() ==> ch[i as int][(#[trigger] lst@[x]) - 1] == w,
                decreases cnt - k0,
            {
                if chosen[i][k0] == w {
                    lst.push(k0 + 1);
                }
                k0 = k0 + 1;
            }
            if lst.len() > 0 {
                let wref = if has_own {
                    &es[i].windows[w]
                } else {
                    &cfg.global_windows[w]
                };
                proof {
                    assert(*wref == ws[w as int]);
                }
                let label = crate::parse::window_to_string(wref);
                let entry = (es[i].name.clone(), label, lst);
                proof {
                    assert(usage_entry_ok(es@, *cfg, ch, entry));
                }
                out.push(entry);
            }
            w = w + 1;
        }
        i = i + 1;
    }
    out
}

/// What the solver owes for entity list `es` and configuration `cfg` when
/// it replies `r`: a rejected day bound yields `BadConfig`; a within-group
/// spacing that cannot fit yields `Infeasible`; and a returned schedule lies
/// within the day, covers exactly the demanded instances once each in
/// time-monotone numbering, satisfies every constraint, comes sorted, and
/// carries the weighted deviation of a valid window assignment.
pub open spec fn solve_post(
    es: Seq<Entity>,
    cfg: SchedulerConfig,
    r: Result<ScheduleResult, SchedulerError>,
) -> bool {
    &&& !day_ok(cfg) ==> (r matches Err(e) && e is BadConfig)
    &&& day_ok(cfg) ==> !(r matches Err(e) && e is BadConfig)
    &&& day_ok(cfg) && apart_overflow(es, cfg) ==> r == Err::<ScheduleResult, SchedulerError>(
        SchedulerError::Infeasible,
    )
    &&& day_ok(cfg) && !apart_overflow(es, cfg) && cross_overflow(es, cfg) ==> r == Err::<
        ScheduleResult,
        SchedulerError,
    >(SchedulerError::Infeasible)
    &&& (day_ok(cfg) && !apart_overflow(es, cfg) && !cross_overflow(es, cfg)
        && windows_lists_ok(es, cfg) && total_instances(es) > MAX_TOTAL_INSTANCES as int ==> (r
        matches Err(e) && e is SolverError))
    &&& day_ok(cfg) && windows_lists_ok(es, cfg) ==> !(r matches Err(e) && e is BadWindow)
    &&& (day_ok(cfg) && !apart_overflow(es, cfg) && !cross_overflow(es, cfg) && !windows_lists_ok(
        es,
        cfg,
    ) ==> (r matches Err(e) && e is BadWindow))
    &&& r matches Err(e) ==> (e is BadConfig || e is BadWindow || e is Infeasible
        || e is SolverError)
    &&& r == Err::<ScheduleResult, SchedulerError>(SchedulerError::Infeasible) ==> day_ok(cfg)
    &&& r is Ok ==> total_instances(es) <= MAX_TOTAL_INSTANCES as int
    &&& r matches Ok(res) ==> ({
        let evs = res.scheduled_events@;
        &&& day_ok(cfg)
        &&& evs.len() == total_instances(es)
        &&& events_in_day(evs, cfg)
        &&& distinct_keys(evs)
        &&& covers_instances(es, evs)
        &&& instances_monotone(evs)
        &&& all_constraints_sat(es, evs)
        &&& sorted_events(evs)
        &&& (cfg.penalty_weight == 0 ==> res.total_penalty == 0)
        &&& (exists|ch: Seq<Seq<usize>>|
            valid_choice(es, cfg, ch) && res.total_penalty == cfg.penalty_weight * total_dev(
                es,
                cfg,
                evs,
                ch,
            ) && (forall|e: int|
                0 <= e < res.window_usage@.len() ==> usage_entry_ok(
                    es,
                    cfg,
                    ch,
                    #[trigger] res.window_usage@[e],
                )))
    })
}

/// Prints the chosen window and deviation of every windowed instance.
fn emit_choice_dump(
    es: &Vec<Entity>,
    cfg: &SchedulerConfig,
    chosen: &Vec<Vec<usize>>,
    evs: &Vec<ScheduledEvent>,
) {
    let n = es.len();
    let mut i: usize = 0;
    while i < n
        invariant
            i <= n,
            n == es@.len(),
        decreases n - i,
    {
        if i < chosen.len() {
            let has_own = es[i].windows.len() > 0;
            let wlen = if has_own {
                es[i].windows.len()
            } else {
                cfg.global_windows.len()
            };
            let cnt = chosen[i].len();
            let mut k0: usize = 0;
            while k0 < cnt
                invariant
                    i < n,
                    n == es@.len(),
                    i < chosen@.len(),
                    cnt == chosen@[i as int]@.len(),
                    has_own == (es@[i as int].windows@.len() > 0),
                    wlen == (if has_own {
                        es@[i as int].windows@.len()
                    } else {
                        cfg.global_windows@.len()
                    }),
                decreases cnt - k0,
            {
                let widx = chosen[i][k0];
                if wlen > 0 && widx < wlen {
                    let wref = if has_own {
                        &es[i].windows[widx]
                    } else {
                        &cfg.global_windows[widx]
                    };
                    let mut line = String::new();
                    line.append(es[i].name.as_str());
                    line.append(" instance ");
                    let num = crate::text::u64_to_string((k0 + 1) as u64);
                    line.append(num.as_str());
                    line.append(" uses window ");
                    let label = crate::parse::window_to_string(wref);
                    line.append(label.as_str());
                    match find_event(evs, &es[i].name, k0 + 1) {
                        Some(a) => {
                            let d = dev_exec(wref, evs[a].time_minutes);
                            line.append(", deviation ");
                            let dn = crate::text::u64_to_string(d);
                            line.append(dn.as_str());
                            line.append(" minutes");
                        },
                        None => {},
                    }
                    crate::lp::emit_line(line.as_str());
                }
                k0 = k0 + 1;
            }
        }
        i = i + 1;
    }
}

/// Schedules every instance of every entity into the configured day.
///
/// The answer is produced by the linear-programming backend, but nothing is
/// taken from it on trust: the returned events are validated by verified
/// checks, so an `Ok` reply always lies within the day, covers exactly the
/// demanded instances, respects every spacing constraint, and carries the
/// weighted window deviation of some valid window assignment.
pub fn solve_schedule(entities: Vec<Entity>, config: SchedulerConfig, debug: bool) -> (r: Result<
    ScheduleResult,
    SchedulerError,
>)
    ensures
        solve_post(entities@, config, r),
{
    let ds = config.day_start_minutes;
    let de = config.day_end_minutes;
    if de < ds {
        return Err(SchedulerError::BadConfig(String::from_str("day end before day start")));
    }
    if ds < 0 || de > 1440 {
        return Err(
            SchedulerError::BadConfig(String::from_str("day bounds outside minutes of a day")),
        );
    }
    if check_apart_overflow(&entities, &config) {
        return Err(SchedulerError::Infeasible);
    }
    if check_cross_overflow(&entities, &config) {
        return Err(SchedulerError::Infeasible);
    }
    if let Some(bad) = find_invalid_window(&entities, &config) {
        return Err(SchedulerError::BadWindow(bad));
    }
    let total = match count_instances(&entities) {
        Some(t) => t,
        None => {
            return Err(SchedulerError::SolverError(String::from_str("too many instances")));
        },
    };
    let mut prob = lp_new_problem();
    let tv = add_time_vars(&mut prob, &entities, ds, de);
    let mut obj = lp_expr_new();
    let sign: i32 = match config.strategy {
        ScheduleStrategy::Earliest => 1000,
        ScheduleStrategy::Latest => -1000,
    };
    let n = entities.len();
    let mut i: usize = 0;
    while i < n
        invariant
            i <= n,
            n == entities@.len(),
            tv_wf(tv@, entities@),
            tv_within(tv@, problem_var_count(prob)),
            expr_var_bound(obj) <= problem_var_count(prob),
        decreases n - i,
    {
        let cnt = tv[i].len();
        let mut j: usize = 0;
        while j < cnt
            invariant
                j <= cnt,
                i < n,
                cnt == tv@[i as int]@.len(),
                tv_wf(tv@, entities@),
                n == entities@.len(),
                tv_within(tv@, problem_var_count(prob)),
                expr_var_bound(obj) <= problem_var_count(prob),
            decreases cnt - j,
        {
            lp_expr_add_term(&mut obj, sign, tv[i][j]);
            j = j + 1;
        }
        i = i + 1;
    }
    let span: i64 = de as i64 - ds as i64;
    let mut cons: Vec<good_lp::Constraint> = Vec::new();
    proof {
        assert(cons_within(cons@, problem_var_count(prob)));
    }
    if !add_spacing_constraints(&mut cons, &tv, &entities, span, Ghost(problem_var_count(prob))) {
        return Err(SchedulerError::Infeasible);
    }
    if !add_cross_constraints(&mut prob, &mut cons, &tv, &entities, span, debug) {
        return Err(SchedulerError::Infeasible);
    }
    let yv = add_window_constraints(&mut prob, &mut cons, &mut obj, &tv, &entities, &config);
    if debug {
        let mut line = String::new();
        line.append("clock variables: ");
        let num = crate::text::u64_to_string(total as u64);
        line.append(num.as_str());
        line.append(", constraint rows: ");
        let num2 = crate::text::u64_to_string(cons.len() as u64);
        line.append(num2.as_str());
        crate::lp::emit_line(line.as_str());
    }
    let ghost var_total = problem_var_count(prob);
    let mut model = lp_minimise(prob, obj);
    loop
        invariant
            model_var_count(model) == var_total,
            cons_within(cons@, var_total),
            tv_within(tv@, var_total),
            yv_within(yv@, var_total),
        decreases cons@.len(),
    {
        match cons.pop() {
            Some(c) => {
                model = lp_add_constraint(model, c);
            },
            None => {
                break ;
            },
        }
    }
    let sol = match lp_solve(model) {
        Ok(s) => s,
        Err(LpFailure::Infeasible) => {
            return Err(SchedulerError::Infeasible);
        },
        Err(LpFailure::Unbounded) => {
            return Err(
                SchedulerError::SolverError(
                    String::from_str("the backend reported an unbounded program"),
                ),
            );
        },
        Err(LpFailure::Other(msg)) => {
            return Err(SchedulerError::SolverError(msg));
        },
    };
    let times = extract_times(&sol, &tv, &entities, ds, de);
    let mut evs = build_events(&entities, &times);
    sort_events(&mut evs);
    if evs.len() != total {
        return Err(
            SchedulerError::SolverError(String::from_str("the solution failed validation")),
        );
    }
    if !check_in_day(&evs, &config) || !check_distinct_keys(&evs) || !check_covers(
        &entities,
        &evs,
    ) || !check_monotone(&evs) || !check_constraints(&entities, &evs) {
        return Err(
            SchedulerError::SolverError(String::from_str("the solution failed validation")),
        );
    }
    let chosen = choose_windows(&sol, &yv, &times, &entities, &config);
    let sum = match compute_dev_sum(&entities, &config, &evs, &chosen) {
        Some(s) => s,
        None => {
            return Err(
                SchedulerError::SolverError(String::from_str("penalty out of range")),
            );
        },
    };
    let weight = config.penalty_weight;
    proof {
        assert((weight as u128) * (sum as u128) <= 0xffffffffu128 * 0xffffffffffffffffu128)
            by (nonlinear_arith)
            requires
                weight as u128 <= 0xffffffffu128,
                sum as u128 <= 0xffffffffffffffffu128,
        ;
    }
    let prod: u128 = (weight as u128) * (sum as u128);
    if prod > u64::MAX as u128 {
        return Err(SchedulerError::SolverError(String::from_str("penalty out of range")));
    }
    let total_penalty: u64 = prod as u64;
    if debug {
        emit_choice_dump(&entities, &config, &chosen, &evs);
    }
    let usage = build_usage(&entities, &config, &chosen);
    let result = ScheduleResult { scheduled_events: evs, total_penalty, window_usage: usage };
    proof {
        let ch = chosen_view(chosen);
        assert(valid_choice(entities@, config, ch));
        assert(result.total_penalty == config.penalty_weight * total_dev(
            entities@,
            config,
            result.scheduled_events@,
            ch,
        ));
    }
    Ok(result)
}

} // verus!
