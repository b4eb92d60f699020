//! The linear-programming backend, behind a small trusted surface.
//!
//! The solver builds its mixed-integer program through these wrappers and
//! never relies on the backend for correctness: every value read back is
//! clamped and validated by verified code in `solver`. The contracts here
//! say only what the backend's source plainly shows: how variables are
//! numbered (so no call can reach the backend's out-of-range panics), that
//! the deterministic solve outcome is a function of the model, and the
//! shape of the failure report.

use vstd::prelude::*;

use good_lp::solvers::microlp::{microlp, MicroLpProblem, MicroLpSolution};
use std::io::Write;
use good_lp::{variable, Expression, ProblemVariables, ResolutionError, Solution, SolverModel, Variable};

verus! {

#[verifier::external_type_specification]
#[verifier::external_body]
pub struct ExProblemVariables(ProblemVariables);

#[verifier::external_type_specification]
#[verifier::external_body]
pub struct ExVariable(Variable);

#[verifier::external_type_specification]
#[verifier::external_body]
pub struct ExExpression(Expression);

#[verifier::external_type_specification]
#[verifier::external_body]
pub struct ExConstraint(good_lp::Constraint);

#[verifier::external_type_specification]
#[verifier::external_body]
pub struct ExMicroLpProblem(MicroLpProblem);

#[verifier::external_type_specification]
#[verifier::external_body]
pub struct ExMicroLpSolution(MicroLpSolution);

/// Relies on good_lp's derived Clone for Variable, a Copy type: the clone is
/// the same value.
pub assume_specification[ <Variable as Clone>::clone ](v: &Variable) -> (r: Variable)
    ensures
        r == *v,
;

/// The position of a variable handle within its problem (what good_lp's
/// Variable::index returns).
pub uninterp spec fn var_index(v: Variable) -> int;

/// How many variables a problem holds.
pub uninterp spec fn problem_var_count(p: ProblemVariables) -> int;

/// A bound above every variable index an expression mentions.
pub uninterp spec fn expr_var_bound(e: Expression) -> int;

/// A bound above every variable index a constraint mentions.
pub uninterp spec fn constraint_var_bound(c: good_lp::Constraint) -> int;

/// How many variables a model holds.
pub uninterp spec fn model_var_count(m: MicroLpProblem) -> int;

/// How many variables the problem behind a solution holds.
pub uninterp spec fn solution_var_count(s: MicroLpSolution) -> int;

/// Whether the backend solves this model. The backend is deterministic (it
/// draws no randomness outside its own tests, and good_lp's coefficient
/// maps hash with the fixed FNV hasher), so the outcome is a function of
/// the model.
pub uninterp spec fn lp_solves(m: MicroLpProblem) -> bool;

/// Whether the backend reports this model infeasible.
pub uninterp spec fn lp_infeasible(m: MicroLpProblem) -> bool;

/// The value the backend's solution assigns to a variable, rounded to a
/// whole number; a function of the solution and the variable.
pub uninterp spec fn lp_value_of(s: MicroLpSolution, v: Variable) -> i64;

/// How a solve attempt can fail, as the backend reports it.
#[derive(Debug, Clone)]
pub enum LpFailure {
    Infeasible,
    Unbounded,
    Other(String),
}

/// Relies on good_lp's ProblemVariables::new: creates an empty problem.
#[verifier::external_body]
pub(crate) fn lp_new_problem() -> (r: ProblemVariables)
    ensures
        problem_var_count(r) == 0,
{
    ProblemVariables::new()
}

/// Relies on good_lp's variable builder and ProblemVariables::add: adds one
/// continuous variable bounded to `lo..=hi`. Variables are numbered
/// consecutively from zero, and `add` returns the newest index.
#[verifier::external_body]
pub(crate) fn lp_add_bounded_var(vars: &mut ProblemVariables, lo: i32, hi: i32) -> (v: Variable)
    ensures
        problem_var_count(*final(vars)) == problem_var_count(*old(vars)) + 1,
        var_index(v) == problem_var_count(*old(vars)),
{
    vars.add(variable().min(lo).max(hi))
}

/// Relies on good_lp's variable builder and ProblemVariables::add: adds one
/// binary (zero-or-one) variable, numbered like every other.
#[verifier::external_body]
pub(crate) fn lp_add_binary_var(vars: &mut ProblemVariables) -> (v: Variable)
    ensures
        problem_var_count(*final(vars)) == problem_var_count(*old(vars)) + 1,
        var_index(v) == problem_var_count(*old(vars)),
{
    vars.add(variable().binary())
}

/// Relies on good_lp's variable builder and ProblemVariables::add: adds one
/// continuous variable bounded below by zero, numbered like every other.
#[verifier::external_body]
pub(crate) fn lp_add_nonneg_var(vars: &mut ProblemVariables) -> (v: Variable)
    ensures
        problem_var_count(*final(vars)) == problem_var_count(*old(vars)) + 1,
        var_index(v) == problem_var_count(*old(vars)),
{
    vars.add(variable().min(0))
}

/// Relies on good_lp's Expression::default: the zero expression, mentioning
/// no variable.
#[verifier::external_body]
pub(crate) fn lp_expr_new() -> (e: Expression)
    ensures
        expr_var_bound(e) == 0,
{
    Expression::default()
}

/// Relies on good_lp's Expression::add_mul: adds `coeff * v` to the
/// expression, so the expression mentions at most the old variables and `v`.
#[verifier::external_body]
pub(crate) fn lp_expr_add_term(e: &mut Expression, coeff: i32, v: Variable)
    ensures
        expr_var_bound(*final(e)) == (if var_index(v) + 1 > expr_var_bound(*old(e)) {
            var_index(v) + 1
        } else {
            expr_var_bound(*old(e))
        }),
{
    e.add_mul(coeff, v);
}

/// Relies on good_lp's constraint::leq: the constraint `e <= rhs`; the
/// constant right side adds no variable.
#[verifier::external_body]
pub(crate) fn lp_leq(e: Expression, rhs: i32) -> (r: good_lp::Constraint)
    ensures
        constraint_var_bound(r) == expr_var_bound(e),
{
    good_lp::constraint::leq(e, rhs)
}

/// Relies on good_lp's constraint::geq: the constraint `e >= rhs`; the
/// constant right side adds no variable.
#[verifier::external_body]
pub(crate) fn lp_geq(e: Expression, rhs: i32) -> (r: good_lp::Constraint)
    ensures
        constraint_var_bound(r) == expr_var_bound(e),
{
    good_lp::constraint::geq(e, rhs)
}

/// Relies on good_lp's constraint::eq: the constraint `e == rhs`; the
/// constant right side adds no variable.
#[verifier::external_body]
pub(crate) fn lp_eq(e: Expression, rhs: i32) -> (r: good_lp::Constraint)
    ensures
        constraint_var_bound(r) == expr_var_bound(e),
{
    good_lp::constraint::eq(e, rhs)
}

/// Relies on good_lp's ProblemVariables::minimise and the microlp backend:
/// a model over exactly the problem's variables that minimises the given
/// objective.
#[verifier::external_body]
pub(crate) fn lp_minimise(vars: ProblemVariables, objective: Expression) -> (r: MicroLpProblem)
    requires
        expr_var_bound(objective) <= problem_var_count(vars),
    ensures
        model_var_count(r) == problem_var_count(vars),
{
    vars.minimise(objective).using(microlp)
}

/// Relies on good_lp's SolverModel::with: adds one constraint row to the
/// model, leaving the variables as they are. The constraint may mention
/// only this model's variables: the backend indexes its variable table by
/// them and would panic on a foreign handle.
#[verifier::external_body]
pub(crate) fn lp_add_constraint(m: MicroLpProblem, c: good_lp::Constraint) -> (r: MicroLpProblem)
    requires
        constraint_var_bound(c) <= model_var_count(m),
    ensures
        model_var_count(r) == model_var_count(m),
{
    m.with(c)
}

/// Relies on good_lp's SolverModel::solve for the microlp backend: runs the
/// solver; each failure kind of the backend maps to one variant of
/// LpFailure, exhaustively. The backend is deterministic, so success and
/// infeasibility are functions of the model, named here; a returned
/// solution speaks for exactly the model's variables.
#[verifier::external_body]
pub(crate) fn lp_solve(m: MicroLpProblem) -> (r: Result<MicroLpSolution, LpFailure>)
    ensures
        r is Ok <==> lp_solves(m),
        (r matches Err(f) && f is Infeasible) <==> lp_infeasible(m),
        r matches Ok(s) ==> solution_var_count(s) == model_var_count(m),
{
    match m.solve() {
        Ok(s) => Ok(s),
        Err(ResolutionError::Infeasible) => Err(LpFailure::Infeasible),
        Err(ResolutionError::Unbounded) => Err(LpFailure::Unbounded),
        Err(ResolutionError::Other(msg)) => Err(LpFailure::Other(msg.to_string())),
        Err(ResolutionError::Str(msg)) => Err(LpFailure::Other(msg)),
    }
}

/// Relies on std::io::stdout and the writeln macro: prints one line of the
/// solver's debug dump to standard output.
#[verifier::external_body]
pub(crate) fn emit_line(s: &str) {
    let _ = writeln!(std::io::stdout(), "{}", s);
}

/// Relies on good_lp's Solution::value for the microlp backend, rounded
/// here to the nearest integer (saturating at the i64 range ends;
/// not-a-number reads as zero). The variable must belong to the solution's
/// problem: the backend's accessor panics on an out-of-range index. Its
/// other panic, an integer value beyond the integrality rounding tolerance,
/// cannot fire on a solution the backend itself returned, since its search
/// only accepts integral incumbents.
#[verifier::external_body]
pub(crate) fn lp_value_rounded(s: &MicroLpSolution, v: Variable) -> (r: i64)
    requires
        var_index(v) < solution_var_count(*s),
    ensures
        r == lp_value_of(*s, v),
{
    s.value(v).round() as i64
}

} // verus!
