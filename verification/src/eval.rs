//! The evaluation and claim engine: a depth-first walk of a requirement
//! rule tree against a student's transcript. Reservations thread through
//! the walk left to right; Either and Count-of evaluate children
//! tentatively against the inbound set and commit only the selected
//! children's claims; named requirements are evaluated once and
//! memoized.
//!
//! The walk is specified by the interpreter `spec_eval`, a deterministic
//! function from a rule, a student, an inbound reservation set and a
//! memo table to the resulting status, rank pair, reservation set and
//! memo table. `evaluate_rule` is proved to return exactly what
//! `spec_eval` says.

use vstd::prelude::*;

use crate::action::{spec_cmp, Action, Command, Operator, Value, ValueView};
use crate::claim::{spec_has_course, Claim, ClaimView, ReservedPairings};
use crate::filter::{spec_filter_matches, spec_guard_result, CompoundPredicate, TriState};
use crate::rule_result::{RequirementResult, RuleResult, RuleResultDetails, RuleStatus};
use crate::rules::{course, Conditional, GivenRule, Limit, QuerySource, Rule};
use crate::student::{Course, CourseView, Student};

verus! {

/// A named top-level requirement of an area.
#[derive(Debug)]
pub struct NamedRule {
    pub name: String,
    pub rule: Rule,
}

/// An area of study: a name, the named requirements it defines, and the
/// root rule of the audit.
#[derive(Debug)]
pub struct AreaOfStudy {
    pub name: String,
    pub catalog: String,
    pub requirements: Vec<NamedRule>,
    pub result: Rule,
}

/// The memoized outcome of a named requirement: its status, rank pair,
/// and the claims its first evaluation added.
#[derive(Debug, Clone)]
pub struct MemoEntry {
    pub name: String,
    pub status: RuleStatus,
    pub rank: u64,
    pub max_rank: u64,
    pub claims: Vec<Claim>,
}

/// The mathematical model of a memo entry.
pub struct MemoEntryView {
    pub name: Seq<char>,
    pub status: RuleStatus,
    pub rank: u64,
    pub max_rank: u64,
    pub claims: Seq<ClaimView>,
}

impl View for MemoEntry {
    type V = MemoEntryView;

    open spec fn view(&self) -> MemoEntryView {
        MemoEntryView {
            name: self.name@,
            status: self.status,
            rank: self.rank,
            max_rank: self.max_rank,
            claims: self.claims@.map_values(|c: Claim| c@),
        }
    }
}

/// A data-integrity failure that aborts the audit run.
#[derive(Debug, Clone)]
pub enum EvalError {
    /// A mandatory requirement reference named an unknown requirement.
    UnknownRequirement(String),
    /// Requirement references nest deeper than the requirement count,
    /// which only a reference cycle can cause.
    DepthExceeded,
}

/// The mathematical model of an evaluation error.
pub enum EvalErrView {
    Unknown(Seq<char>),
    Depth,
}

impl View for EvalError {
    type V = EvalErrView;

    open spec fn view(&self) -> EvalErrView {
        match self {
            EvalError::UnknownRequirement(n) => EvalErrView::Unknown(n@),
            EvalError::DepthExceeded => EvalErrView::Depth,
        }
    }
}

/// What one evaluation step yields: the node's status and rank pair,
/// the outbound reservation set, and the updated memo table.
pub struct EvalOut {
    pub status: RuleStatus,
    pub rank: u64,
    pub max_rank: u64,
    pub reservations: Seq<ClaimView>,
    pub memo: Seq<MemoEntryView>,
}

/// Rank addition, saturating at the machine bound.
pub open spec fn sat_add(a: u64, b: u64) -> u64 {
    if a + b <= u64::MAX {
        (a + b) as u64
    } else {
        u64::MAX
    }
}

/// Both: a failing child fails the pair; otherwise a pending child
/// leaves it pending; a pair of passes passes.
pub open spec fn both_status(l: RuleStatus, r: RuleStatus) -> RuleStatus {
    if l == RuleStatus::Fail || r == RuleStatus::Fail {
        RuleStatus::Fail
    } else if l == RuleStatus::Pending || r == RuleStatus::Pending {
        RuleStatus::Pending
    } else if l == RuleStatus::Pass && r == RuleStatus::Pass {
        RuleStatus::Pass
    } else {
        RuleStatus::Skipped
    }
}

/// Count-of: passes once enough children pass; pending while the
/// pending children could still make up the count; fails otherwise.
pub open spec fn count_status(n_pass: int, n_pending: int, n: int) -> RuleStatus {
    if n_pass >= n {
        RuleStatus::Pass
    } else if n_pass + n_pending >= n {
        RuleStatus::Pending
    } else {
        RuleStatus::Fail
    }
}

/// The preference class of a status when choosing between alternatives:
/// a pass beats a pending child, which beats anything else.
pub open spec fn prefer_score(s: RuleStatus) -> int {
    if s == RuleStatus::Pass {
        2
    } else if s == RuleStatus::Pending {
        1
    } else {
        0
    }
}

/// The rank ratio numerator; a zero max_rank counts as vacuously full
/// when passing and empty otherwise.
pub open spec fn ratio_num(rank: u64, max_rank: u64, s: RuleStatus) -> int {
    if max_rank == 0 {
        if s == RuleStatus::Pass {
            1
        } else {
            0
        }
    } else {
        rank as int
    }
}

pub open spec fn ratio_den(max_rank: u64) -> int {
    if max_rank == 0 {
        1
    } else {
        max_rank as int
    }
}

/// Either's selection policy: a passing child over a failing one, then
/// the higher rank-to-max_rank ratio, then the left child on a tie.
pub open spec fn spec_prefers_left(
    ls: RuleStatus,
    lr: u64,
    lm: u64,
    rs: RuleStatus,
    rr: u64,
    rm: u64,
) -> bool {
    if prefer_score(ls) != prefer_score(rs) {
        prefer_score(ls) > prefer_score(rs)
    } else {
        ratio_num(lr, lm, ls) * ratio_den(rm) >= ratio_num(rr, rm, rs) * ratio_den(lm)
    }
}

/// The first named requirement with the given name.
pub open spec fn lookup_req(reqs: Seq<NamedRule>, name: Seq<char>) -> Option<int>
    decreases reqs.len(),
{
    if reqs.len() == 0 {
        None
    } else if reqs[0].name@ == name {
        Some(0)
    } else {
        match lookup_req(reqs.drop_first(), name) {
            Some(i) => Some(i + 1),
            None => None,
        }
    }
}

/// The first memo entry recorded for the given name.
pub open spec fn memo_lookup(memo: Seq<MemoEntryView>, name: Seq<char>) -> Option<MemoEntryView>
    decreases memo.len(),
{
    if memo.len() == 0 {
        None
    } else if memo[0].name == name {
        Some(memo[0])
    } else {
        memo_lookup(memo.drop_first(), name)
    }
}

/// Commits claims one by one, skipping any whose course is already
/// reserved in the accumulating set.
pub open spec fn merge_added(acc: Seq<ClaimView>, added: Seq<ClaimView>) -> Seq<ClaimView>
    decreases added.len(),
{
    if added.len() == 0 {
        acc
    } else if spec_has_course(acc, added[0].clbid) {
        merge_added(acc, added.drop_first())
    } else {
        merge_added(acc.push(added[0]), added.drop_first())
    }
}

/// Whether a course-match rule accepts a record.
pub open spec fn spec_course_matches(cr: course::Rule, c: CourseView) -> bool {
    &&& c.course == cr.course@
    &&& match cr.term {
        Some(t) => c.term == t@,
        None => true,
    }
    &&& match cr.section {
        Some(s) => c.section == s@,
        None => true,
    }
    &&& match cr.year {
        Some(y) => c.year == y,
        None => true,
    }
    &&& match cr.semester {
        Some(s) => c.semester == s@,
        None => true,
    }
    &&& match cr.lab {
        Some(b) => c.lab == b,
        None => true,
    }
}

/// The first matching record that may still be claimed: any match when
/// reuse is allowed, else the first match not yet reserved.
pub open spec fn find_claimable(
    courses: Seq<CourseView>,
    cr: course::Rule,
    inbound: Seq<ClaimView>,
) -> Option<CourseView>
    decreases courses.len(),
{
    if courses.len() == 0 {
        None
    } else if spec_course_matches(cr, courses[0]) && (cr.can_match_used == Some(true)
        || !spec_has_course(inbound, courses[0].clbid)) {
        Some(courses[0])
    } else {
        find_claimable(courses.drop_first(), cr, inbound)
    }
}

/// The claim a rule node at `path` takes on a record.
pub open spec fn claim_of(c: CourseView, path: Seq<u64>) -> ClaimView {
    ClaimView { clbid: c.clbid, path: path, credits: c.credits }
}

/// What a course-match node yields.
pub open spec fn course_out(
    cr: course::Rule,
    student: Student,
    inbound: Seq<ClaimView>,
    path: Seq<u64>,
    memo: Seq<MemoEntryView>,
) -> EvalOut {
    match find_claimable(student.courses@.map_values(|c: Course| c@), cr, inbound) {
        Some(c) => EvalOut {
            status: RuleStatus::Pass,
            rank: 100,
            max_rank: 100,
            reservations: inbound.push(claim_of(c, path)),
            memo,
        },
        None => EvalOut {
            status: RuleStatus::Fail,
            rank: 0,
            max_rank: 100,
            reservations: inbound,
            memo,
        },
    }
}

/// The transcript records selected by a query's filter, in transcript
/// order.
pub open spec fn filter_pool(courses: Seq<CourseView>, f: Option<CompoundPredicate>) -> Seq<
    CourseView,
>
    decreases courses.len(),
{
    if courses.len() == 0 {
        courses
    } else {
        let rest = filter_pool(courses.drop_first(), f);
        if pool_filter_matches(f, courses[0]) {
            seq![courses[0]] + rest
        } else {
            rest
        }
    }
}

pub open spec fn pool_filter_matches(f: Option<CompoundPredicate>, c: CourseView) -> bool {
    match f {
        Some(p) => spec_filter_matches(p, c),
        None => true,
    }
}

/// Splits off the records already reserved elsewhere; they cannot be
/// claimed again unless the query allows reuse.
pub open spec fn drop_reserved(pool: Seq<CourseView>, inbound: Seq<ClaimView>) -> Seq<CourseView>
    decreases pool.len(),
{
    if pool.len() == 0 {
        pool
    } else {
        let rest = drop_reserved(pool.drop_first(), inbound);
        if spec_has_course(inbound, pool[0].clbid) {
            rest
        } else {
            seq![pool[0]] + rest
        }
    }
}

/// Keeps only the records already reserved elsewhere (the
/// claimed-courses source).
pub open spec fn keep_reserved(pool: Seq<CourseView>, inbound: Seq<ClaimView>) -> Seq<CourseView>
    decreases pool.len(),
{
    if pool.len() == 0 {
        pool
    } else {
        let rest = keep_reserved(pool.drop_first(), inbound);
        if spec_has_course(inbound, pool[0].clbid) {
            seq![pool[0]] + rest
        } else {
            rest
        }
    }
}

/// One limit applied to a pool: up to `k` records matching the limit's
/// clause stay; further matches are dropped; other records pass through.
pub open spec fn take_limited(pool: Seq<CourseView>, l: Limit, k: int) -> Seq<CourseView>
    decreases pool.len(),
{
    if pool.len() == 0 {
        pool
    } else if spec_filter_matches(l.filter, pool[0]) {
        if k > 0 {
            seq![pool[0]] + take_limited(pool.drop_first(), l, k - 1)
        } else {
            take_limited(pool.drop_first(), l, 0)
        }
    } else {
        seq![pool[0]] + take_limited(pool.drop_first(), l, k)
    }
}

/// All limits applied in declaration order.
pub open spec fn apply_limits(limits: Seq<Limit>, pool: Seq<CourseView>) -> Seq<CourseView>
    decreases limits.len(),
{
    if limits.len() == 0 {
        pool
    } else {
        apply_limits(limits.drop_first(), take_limited(pool, limits[0], limits[0].at_most as int))
    }
}

/// The credit total of a pool, in hundredths.
pub open spec fn credits_sum(pool: Seq<CourseView>) -> int
    decreases pool.len(),
{
    if pool.len() == 0 {
        0
    } else {
        pool[0].credits + credits_sum(pool.drop_first())
    }
}

/// The smallest credit value in a non-empty pool, in hundredths.
pub open spec fn credits_min(pool: Seq<CourseView>) -> int
    decreases pool.len(),
{
    if pool.len() <= 1 {
        if pool.len() == 0 {
            0
        } else {
            pool[0].credits as int
        }
    } else {
        let rest = credits_min(pool.drop_first());
        if pool[0].credits <= rest {
            pool[0].credits as int
        } else {
            rest
        }
    }
}

/// The largest credit value in a non-empty pool, in hundredths.
pub open spec fn credits_max(pool: Seq<CourseView>) -> int
    decreases pool.len(),
{
    if pool.len() <= 1 {
        if pool.len() == 0 {
            0
        } else {
            pool[0].credits as int
        }
    } else {
        let rest = credits_max(pool.drop_first());
        if pool[0].credits >= rest {
            pool[0].credits as int
        } else {
            rest
        }
    }
}

/// Whether one assertion holds of the remaining pool: count compares
/// the record count, sum/average/minimum/maximum compare credit values;
/// an average needs a non-empty pool; a non-numeric target or a
/// non-command left side never holds.
pub open spec fn assertion_holds(a: Action, pool: Seq<CourseView>) -> bool {
    match (a.op, a.rhs) {
        (Some(op), Some(rhs)) => match crate::action::num_hundredths(rhs@) {
            Some(t) => match a.lhs {
                Value::Command(Command::Count) => spec_cmp(op, pool.len() as int * 100, t),
                Value::Command(Command::Sum) => spec_cmp(op, credits_sum(pool), t),
                Value::Command(Command::Average) => pool.len() > 0 && spec_cmp(
                    op,
                    credits_sum(pool),
                    t * pool.len(),
                ),
                Value::Command(Command::Minimum) => pool.len() > 0 && spec_cmp(
                    op,
                    credits_min(pool),
                    t,
                ),
                Value::Command(Command::Maximum) => pool.len() > 0 && spec_cmp(
                    op,
                    credits_max(pool),
                    t,
                ),
                _ => false,
            },
            None => false,
        },
        // a bare assertion queries the aggregate and never fails the rule
        _ => true,
    }
}

pub open spec fn assertions_hold(asserts: Seq<Action>, pool: Seq<CourseView>) -> bool {
    forall|i: int| 0 <= i < asserts.len() ==> assertion_holds(#[trigger] asserts[i], pool)
}

/// The claims a query at `path` takes on its retained pool.
pub open spec fn claims_of_pool(pool: Seq<CourseView>, path: Seq<u64>) -> Seq<ClaimView> {
    pool.map_values(|c: CourseView| claim_of(c, path))
}

/// What a query node yields: records selected in transcript order,
/// already-reserved records dropped unless reuse is allowed, limits
/// applied in order, every assertion checked over the remaining pool,
/// and a claim taken on each retained record. The area and music
/// sources are outside the audited transcript, so such a query is
/// skipped.
pub open spec fn given_out(
    q: GivenRule,
    student: Student,
    inbound: Seq<ClaimView>,
    path: Seq<u64>,
    memo: Seq<MemoEntryView>,
) -> EvalOut {
    match q.source {
        QuerySource::Courses | QuerySource::ClaimedCourses => {
            let all = student.courses@.map_values(|c: Course| c@);
            let sourced = if q.source == QuerySource::ClaimedCourses {
                keep_reserved(all, inbound)
            } else {
                all
            };
            let matched = filter_pool(sourced, q.filter);
            let candidates = if q.allow_claimed || q.source == QuerySource::ClaimedCourses {
                matched
            } else {
                drop_reserved(matched, inbound)
            };
            let pool = apply_limits(q.limit@, candidates);
            let pass = assertions_hold(q.assertions@, pool);
            let claims = if q.source == QuerySource::ClaimedCourses {
                // reading already-claimed records takes no new claims
                Seq::<ClaimView>::empty()
            } else {
                claims_of_pool(pool, path)
            };
            EvalOut {
                status: if pass {
                    RuleStatus::Pass
                } else {
                    RuleStatus::Fail
                },
                rank: if pass {
                    100
                } else {
                    0
                },
                max_rank: 100,
                reservations: inbound + claims,
                memo,
            }
        },
        _ => EvalOut {
            status: RuleStatus::Skipped,
            rank: 0,
            max_rank: 0,
            reservations: inbound,
            memo,
        },
    }
}

/// How many of the child results pass.
pub open spec fn count_with_status(outs: Seq<EvalOut>, s: RuleStatus) -> int
    decreases outs.len(),
{
    if outs.len() == 0 {
        0
    } else {
        (if outs[0].status == s {
            1int
        } else {
            0
        }) + count_with_status(outs.drop_first(), s)
    }
}

/// The rank earned by the first `n` passing children, in child order.
pub open spec fn committed_rank(outs: Seq<EvalOut>, n: int) -> u64
    decreases outs.len(),
{
    if outs.len() == 0 || n <= 0 {
        0
    } else if outs[0].status == RuleStatus::Pass {
        sat_add(outs[0].rank, committed_rank(outs.drop_first(), n - 1))
    } else {
        committed_rank(outs.drop_first(), n)
    }
}

/// The rank obtainable from the first `n` children.
pub open spec fn take_max_rank(outs: Seq<EvalOut>, n: int) -> u64
    decreases outs.len(),
{
    if outs.len() == 0 || n <= 0 {
        0
    } else {
        sat_add(outs[0].max_rank, take_max_rank(outs.drop_first(), n - 1))
    }
}

/// The reservations after committing the first `n` passing children's
/// added claims, each child's claims merged with course-level
/// exclusivity.
pub open spec fn count_commit(
    acc: Seq<ClaimView>,
    outs: Seq<EvalOut>,
    inbound_len: int,
    n: int,
) -> Seq<ClaimView>
    decreases outs.len(),
{
    if outs.len() == 0 || n <= 0 {
        acc
    } else if outs[0].status == RuleStatus::Pass {
        count_commit(
            merge_added(acc, outs[0].reservations.skip(inbound_len)),
            outs.drop_first(),
            inbound_len,
            n - 1,
        )
    } else {
        count_commit(acc, outs.drop_first(), inbound_len, n)
    }
}

/// The deterministic interpreter of the rule language; `evaluate_rule`
/// returns exactly what this function says.
pub open spec fn spec_eval(
    r: Rule,
    student: Student,
    reqs: Seq<NamedRule>,
    inbound: Seq<ClaimView>,
    path: Seq<u64>,
    memo: Seq<MemoEntryView>,
    fuel: nat,
) -> Result<EvalOut, EvalErrView>
    decreases fuel, r,
{
    match r {
        Rule::Course(cr) => Ok(course_out(cr, student, inbound, path, memo)),
        Rule::Given(q) => Ok(given_out(q, student, inbound, path, memo)),
        Rule::Requirement(rr) => match lookup_req(reqs, rr.requirement@) {
            None => if rr.optional {
                Ok(
                    EvalOut {
                        status: RuleStatus::Skipped,
                        rank: 0,
                        max_rank: 0,
                        reservations: inbound,
                        memo,
                    },
                )
            } else {
                Err(EvalErrView::Unknown(rr.requirement@))
            },
            Some(idx) => match memo_lookup(memo, rr.requirement@) {
                Some(e) => Ok(
                    EvalOut {
                        status: e.status,
                        rank: e.rank,
                        max_rank: e.max_rank,
                        reservations: merge_added(inbound, e.claims),
                        memo,
                    },
                ),
                None => if fuel == 0 {
                    Err(EvalErrView::Depth)
                } else {
                    match spec_eval(
                        reqs[idx].rule,
                        student,
                        reqs,
                        inbound,
                        seq![1u64, idx as u64],
                        memo,
                        (fuel - 1) as nat,
                    ) {
                        Err(e) => Err(e),
                        Ok(o) => Ok(
                            EvalOut {
                                status: o.status,
                                rank: o.rank,
                                max_rank: o.max_rank,
                                reservations: o.reservations,
                                memo: o.memo.push(
                                    MemoEntryView {
                                        name: rr.requirement@,
                                        status: o.status,
                                        rank: o.rank,
                                        max_rank: o.max_rank,
                                        claims: o.reservations.skip(inbound.len() as int),
                                    },
                                ),
                            },
                        ),
                    }
                },
            },
        },
        Rule::Conditional(c) => match spec_guard_result(c.condition, student) {
            TriState::True => spec_eval(
                c.when_true,
                student,
                reqs,
                inbound,
                path.push(0),
                memo,
                fuel,
            ),
            TriState::False => match c.when_false {
                Some(f) => spec_eval(f, student, reqs, inbound, path.push(1), memo, fuel),
                None => Ok(
                    EvalOut {
                        status: RuleStatus::Pass,
                        rank: 0,
                        max_rank: 0,
                        reservations: inbound,
                        memo,
                    },
                ),
            },
            TriState::Unknown => Ok(
                EvalOut {
                    status: RuleStatus::Pending,
                    rank: 0,
                    max_rank: 0,
                    reservations: inbound,
                    memo,
                },
            ),
        },
        Rule::Both { left, right } => match spec_eval(
            *left,
            student,
            reqs,
            inbound,
            path.push(0),
            memo,
            fuel,
        ) {
            Err(e) => Err(e),
            Ok(lo) => match spec_eval(
                *right,
                student,
                reqs,
                lo.reservations,
                path.push(1),
                lo.memo,
                fuel,
            ) {
                Err(e) => Err(e),
                Ok(ro) => Ok(
                    EvalOut {
                        status: both_status(lo.status, ro.status),
                        rank: sat_add(lo.rank, ro.rank),
                        max_rank: sat_add(lo.max_rank, ro.max_rank),
                        reservations: ro.reservations,
                        memo: ro.memo,
                    },
                ),
            },
        },
        Rule::Either { left, right } => match spec_eval(
            *left,
            student,
            reqs,
            inbound,
            path.push(0),
            memo,
            fuel,
        ) {
            Err(e) => Err(e),
            Ok(lo) => match spec_eval(
                *right,
                student,
                reqs,
                inbound,
                path.push(1),
                lo.memo,
                fuel,
            ) {
                Err(e) => Err(e),
                Ok(ro) => {
                    let keep_left = spec_prefers_left(
                        lo.status,
                        lo.rank,
                        lo.max_rank,
                        ro.status,
                        ro.rank,
                        ro.max_rank,
                    );
                    if keep_left {
                        Ok(
                            EvalOut {
                                status: lo.status,
                                rank: lo.rank,
                                max_rank: lo.max_rank,
                                reservations: lo.reservations,
                                memo: ro.memo,
                            },
                        )
                    } else {
                        Ok(
                            EvalOut {
                                status: ro.status,
                                rank: ro.rank,
                                max_rank: ro.max_rank,
                                reservations: ro.reservations,
                                memo: ro.memo,
                            },
                        )
                    }
                },
            },
        },
        Rule::CountOf { count, children } => match spec_eval_list(
            children@,
            student,
            reqs,
            inbound,
            path,
            memo,
            fuel,
            0,
        ) {
            Err(e) => Err(e),
            Ok(outs) => {
                let np = count_with_status(outs, RuleStatus::Pass);
                let npend = count_with_status(outs, RuleStatus::Pending);
                Ok(
                    EvalOut {
                        status: count_status(np, npend, count as int),
                        rank: committed_rank(outs, count as int),
                        max_rank: take_max_rank(outs, count as int),
                        reservations: count_commit(
                            inbound,
                            outs,
                            inbound.len() as int,
                            count as int,
                        ),
                        memo: if outs.len() > 0 {
                            outs.last().memo
                        } else {
                            memo
                        },
                    },
                )
            },
        },
    }
}

/// The memo table as the spec sees it.
pub open spec fn memo_view(m: Seq<MemoEntry>) -> Seq<MemoEntryView> {
    m.map_values(|e: MemoEntry| e@)
}

/// The spec-level summary of an evaluation result.
pub open spec fn out_of(res: RuleResult, memo: Seq<MemoEntryView>) -> EvalOut {
    EvalOut {
        status: res.status,
        rank: res.rank,
        max_rank: res.max_rank,
        reservations: res.reservations@,
        memo,
    }
}

/// What `evaluate_rule` promises: its result and final memo table are
/// exactly what the interpreter computes.
pub open spec fn eval_matches(
    rule: Rule,
    student: Student,
    reqs: Seq<NamedRule>,
    inbound: Seq<ClaimView>,
    path: Seq<u64>,
    memo0: Seq<MemoEntryView>,
    memo1: Seq<MemoEntryView>,
    fuel: nat,
    r: Result<RuleResult, EvalError>,
) -> bool {
    match r {
        Ok(res) => spec_eval(rule, student, reqs, inbound, path, memo0, fuel) == Ok::<
            EvalOut,
            EvalErrView,
        >(out_of(res, memo1)),
        Err(e) => spec_eval(rule, student, reqs, inbound, path, memo0, fuel) == Err::<
            EvalOut,
            EvalErrView,
        >(e@),
    }
}

/// The result payload kind matching each rule kind.
pub open spec fn detail_matches(rule: Rule, d: RuleResultDetails) -> bool {
    match rule {
        Rule::Course(_) => d is Course,
        Rule::Given(_) => d is Given,
        Rule::Requirement(_) => d is Requirement,
        Rule::Conditional(_) => d is Do,
        Rule::Both { .. } => d is Both,
        Rule::Either { .. } => d is Either,
        Rule::CountOf { .. } => d is CountOf,
    }
}

/// Evaluates a child list against independent copies of the inbound
/// reservation set, threading the memo table left to right.
pub open spec fn spec_eval_list(
    children: Seq<Rule>,
    student: Student,
    reqs: Seq<NamedRule>,
    inbound: Seq<ClaimView>,
    path: Seq<u64>,
    memo: Seq<MemoEntryView>,
    fuel: nat,
    idx: u64,
) -> Result<Seq<EvalOut>, EvalErrView>
    decreases fuel, children,
{
    if children.len() == 0 {
        Ok(Seq::empty())
    } else {
        match spec_eval(children[0], student, reqs, inbound, path.push(idx), memo, fuel) {
            Err(e) => Err(e),
            Ok(o) => match spec_eval_list(
                children.drop_first(),
                student,
                reqs,
                inbound,
                path,
                o.memo,
                fuel,
                (idx + 1) as u64,
            ) {
                Err(e) => Err(e),
                Ok(rest) => Ok(seq![o] + rest),
            },
        }
    }
}


/// A sequence is a prefix of itself with anything appended.
pub proof fn lemma_prefix_append(a: Seq<ClaimView>, b: Seq<ClaimView>)
    ensures
        a.is_prefix_of(a + b),
{
    assert(a =~= (a + b).subrange(0, a.len() as int));
}

/// Committing claims only ever extends the accumulating set.
pub proof fn lemma_merge_added_extends(acc: Seq<ClaimView>, added: Seq<ClaimView>)
    ensures
        acc.is_prefix_of(merge_added(acc, added)),
        merge_added(acc, added).len() >= acc.len(),
    decreases added.len(),
{
    if added.len() > 0 {
        if spec_has_course(acc, added[0].clbid) {
            lemma_merge_added_extends(acc, added.drop_first());
        } else {
            lemma_merge_added_extends(acc.push(added[0]), added.drop_first());
            assert(acc.is_prefix_of(acc.push(added[0])));
        }
    }
}

/// Selecting and committing count-of children only extends the set.
pub proof fn lemma_count_commit_extends(
    acc: Seq<ClaimView>,
    outs: Seq<EvalOut>,
    inbound_len: int,
    n: int,
)
    ensures
        acc.is_prefix_of(count_commit(acc, outs, inbound_len, n)),
    decreases outs.len(),
{
    if outs.len() > 0 && n > 0 {
        if outs[0].status == RuleStatus::Pass {
            let acc2 = merge_added(acc, outs[0].reservations.skip(inbound_len));
            lemma_merge_added_extends(acc, outs[0].reservations.skip(inbound_len));
            lemma_count_commit_extends(acc2, outs.drop_first(), inbound_len, n - 1);
            assert(acc.is_prefix_of(acc2));
        } else {
            lemma_count_commit_extends(acc, outs.drop_first(), inbound_len, n);
        }
    }
}

/// Whether a successful outcome's reservations extend the inbound set.
pub open spec fn extends_ok(inbound: Seq<ClaimView>, r: Result<EvalOut, EvalErrView>) -> bool {
    match r {
        Ok(o) => inbound.is_prefix_of(o.reservations),
        Err(_) => true,
    }
}

/// Evaluation only adds reservations: the inbound set is a prefix of
/// every outbound set.
pub proof fn lemma_eval_extends(
    r: Rule,
    student: Student,
    reqs: Seq<NamedRule>,
    inbound: Seq<ClaimView>,
    path: Seq<u64>,
    memo: Seq<MemoEntryView>,
    fuel: nat,
)
    ensures
        extends_ok(inbound, spec_eval(r, student, reqs, inbound, path, memo, fuel)),
    decreases fuel,
        r,
{
    match r {
        Rule::Course(cr) => {
            match find_claimable(student.courses@.map_values(|c: Course| c@), cr, inbound) {
                Some(c) => {
                    let cl = claim_of(c, path);
                    lemma_prefix_append(inbound, seq![cl]);
                    assert(inbound.push(cl) =~= inbound + seq![cl]);
                },
                None => {},
            }
        },
        Rule::Given(q) => {
            let o = given_out(q, student, inbound, path, memo);
            assert(exists|cl: Seq<ClaimView>| o.reservations == inbound + cl) by {
                match q.source {
                    QuerySource::Courses | QuerySource::ClaimedCourses => {},
                    _ => {
                        assert(inbound + Seq::<ClaimView>::empty() =~= inbound);
                        assert(o.reservations == inbound + Seq::<ClaimView>::empty());
                    },
                }
            }
            let cl = choose|cl: Seq<ClaimView>| o.reservations == inbound + cl;
            lemma_prefix_append(inbound, cl);
        },
        Rule::Requirement(rr) => {
            match lookup_req(reqs, rr.requirement@) {
                None => {},
                Some(idx) => {
                    match memo_lookup(memo, rr.requirement@) {
                        Some(e) => {
                            lemma_merge_added_extends(inbound, e.claims);
                        },
                        None => {
                            if fuel > 0 {
                                lemma_eval_extends(
                                    reqs[idx].rule,
                                    student,
                                    reqs,
                                    inbound,
                                    seq![1u64, idx as u64],
                                    memo,
                                    (fuel - 1) as nat,
                                );
                            }
                        },
                    }
                },
            }
        },
        Rule::Conditional(c) => {
            match spec_guard_result(c.condition, student) {
                TriState::True => {
                    lemma_eval_extends(c.when_true, student, reqs, inbound, path.push(0), memo, fuel);
                },
                TriState::False => {
                    match c.when_false {
                        Some(f) => {
                            lemma_eval_extends(f, student, reqs, inbound, path.push(1), memo, fuel);
                        },
                        None => {},
                    }
                },
                TriState::Unknown => {},
            }
        },
        Rule::Both { left, right } => {
            lemma_eval_extends(*left, student, reqs, inbound, path.push(0), memo, fuel);
            match spec_eval(*left, student, reqs, inbound, path.push(0), memo, fuel) {
                Err(_) => {},
                Ok(lo) => {
                    lemma_eval_extends(
                        *right,
                        student,
                        reqs,
                        lo.reservations,
                        path.push(1),
                        lo.memo,
                        fuel,
                    );
                },
            }
        },
        Rule::Either { left, right } => {
            lemma_eval_extends(*left, student, reqs, inbound, path.push(0), memo, fuel);
            match spec_eval(*left, student, reqs, inbound, path.push(0), memo, fuel) {
                Err(_) => {},
                Ok(lo) => {
                    lemma_eval_extends(*right, student, reqs, inbound, path.push(1), lo.memo, fuel);
                },
            }
        },
        Rule::CountOf { count, children } => {
            match spec_eval_list(children@, student, reqs, inbound, path, memo, fuel, 0) {
                Err(_) => {},
                Ok(outs) => {
                    lemma_count_commit_extends(inbound, outs, inbound.len() as int, count as int);
                },
            }
        },
    }
}


/// Whether a single record may satisfy a course rule here: it must
/// match, and be unreserved unless the rule may match used records.
pub open spec fn claimable(cr: course::Rule, c: CourseView, inbound: Seq<ClaimView>) -> bool {
    spec_course_matches(cr, c) && (cr.can_match_used == Some(true) || !spec_has_course(
        inbound,
        c.clbid,
    ))
}

proof fn lemma_find_claimable_at(
    cs: Seq<CourseView>,
    cr: course::Rule,
    inbound: Seq<ClaimView>,
    k: int,
)
    requires
        0 <= k < cs.len(),
        claimable(cr, cs[k], inbound),
        forall|j: int| 0 <= j < k ==> !claimable(cr, #[trigger] cs[j], inbound),
    ensures
        find_claimable(cs, cr, inbound) == Some(cs[k]),
    decreases k,
{
    if k > 0 {
        let t = cs.drop_first();
        assert(forall|j: int| 0 <= j < k - 1 ==> !claimable(cr, #[trigger] t[j], inbound));
        lemma_find_claimable_at(t, cr, inbound, k - 1);
    }
}

proof fn lemma_find_claimable_none(cs: Seq<CourseView>, cr: course::Rule, inbound: Seq<ClaimView>)
    requires
        forall|j: int| 0 <= j < cs.len() ==> !claimable(cr, #[trigger] cs[j], inbound),
    ensures
        find_claimable(cs, cr, inbound) == None::<CourseView>,
    decreases cs.len(),
{
    if cs.len() > 0 {
        let t = cs.drop_first();
        assert(forall|j: int| 0 <= j < t.len() ==> !claimable(cr, #[trigger] t[j], inbound));
        lemma_find_claimable_none(t, cr, inbound);
    }
}

fn opt_str_matches(o: &Option<String>, v: &str) -> (b: bool)
    ensures
        b == match o {
            Some(s) => v@ == s@,
            None => true,
        },
{
    match o {
        Some(s) => crate::student::str_eq(v, s.as_str()),
        None => true,
    }
}

/// Whether a course rule accepts a record.
fn course_matches(cr: &course::Rule, c: &Course) -> (b: bool)
    ensures
        b == spec_course_matches(*cr, c@),
{
    let code_ok = crate::student::str_eq(c.course.as_str(), cr.course.as_str());
    let term_ok = opt_str_matches(&cr.term, c.term.as_str());
    let sec_ok = opt_str_matches(&cr.section, c.section.as_str());
    let year_ok = match cr.year {
        Some(y) => c.year == y,
        None => true,
    };
    let sem_ok = opt_str_matches(&cr.semester, c.semester.as_str());
    let lab_ok = match cr.lab {
        Some(b) => c.lab == b,
        None => true,
    };
    code_ok && term_ok && sec_ok && year_ok && sem_ok && lab_ok
}

/// Evaluates a course-match node: claim the first matching, claimable
/// record, or fail with the inbound set unchanged.
#[verifier::loop_isolation(false)]
fn eval_course(
    cr: &course::Rule,
    student: &Student,
    inbound: &ReservedPairings,
    path: &Vec<u64>,
) -> (res: RuleResult)
    ensures
        res.detail is Course,
        ({
            let o = course_out(*cr, *student, inbound@, path@, Seq::<MemoEntryView>::empty());
            res.status == o.status && res.rank == o.rank && res.max_rank == o.max_rank
                && res.reservations@ == o.reservations
        }),
{
    let ghost mapped = student.courses@.map_values(|c: Course| c@);
    let n = student.courses.len();
    proof {
        assert(mapped.len() == student.courses@.len());
    }
    let mut i: usize = 0;
    while i < n
        invariant
            0 <= i <= n,
            forall|j: int| 0 <= j < i ==> !claimable(*cr, #[trigger] mapped[j], inbound@),
        decreases n - i,
    {
        let c = &student.courses[i];
        proof {
            assert(mapped[i as int] == c@);
        }
        let ok = course_matches(cr, c) && (matches!(cr.can_match_used, Some(true))
            || !inbound.contains_course(c.clbid.as_str()));
        if ok {
            proof {
                lemma_find_claimable_at(mapped, *cr, inbound@, i as int);
            }
            let mut rp = inbound.clone();
            rp.push(
                Claim { clbid: c.clbid.clone(), path: crate::claim::clone_path(path), credits: c.credits },
            );
            proof {
                assert(rp@ =~= inbound@.push(claim_of(mapped[i as int], path@)));
            }
            return RuleResult {
                detail: RuleResultDetails::Course,
                reservations: rp,
                status: RuleStatus::Pass,
                rank: 100,
                max_rank: 100,
            };
        }
        i = i + 1;
    }
    proof {
        lemma_find_claimable_none(mapped, *cr, inbound@);
    }
    RuleResult {
        detail: RuleResultDetails::Course,
        reservations: inbound.clone(),
        status: RuleStatus::Fail,
        rank: 0,
        max_rank: 100,
    }
}

fn pool_matches(f: &Option<CompoundPredicate>, c: &Course) -> (b: bool)
    ensures
        b == pool_filter_matches(*f, c@),
{
    match f {
        Some(p) => p.matches(c),
        None => true,
    }
}

/// The records selected by a query filter, from index `i` on.
fn filter_exec(courses: &Vec<Course>, f: &Option<CompoundPredicate>, i: usize) -> (r: Vec<Course>)
    requires
        i <= courses.len(),
    ensures
        r@.map_values(|c: Course| c@) == filter_pool(
            courses@.map_values(|c: Course| c@).skip(i as int),
            *f,
        ),
    decreases courses.len() - i,
{
    let ghost mapped = courses@.map_values(|c: Course| c@);
    proof {
        assert(mapped.len() == courses@.len());
    }
    if i == courses.len() {
        let r: Vec<Course> = Vec::new();
        proof {
            assert(mapped.skip(i as int) =~= Seq::<CourseView>::empty());
            assert(r@.map_values(|c: Course| c@) =~= filter_pool(mapped.skip(i as int), *f));
        }
        r
    } else {
        let mut rest = filter_exec(courses, f, i + 1);
        proof {
            assert(mapped.skip(i as int)[0] == mapped[i as int]);
            assert(mapped[i as int] == courses@[i as int]@);
            assert(mapped.skip(i as int).drop_first() =~= mapped.skip(i + 1 as int));
        }
        if pool_matches(f, &courses[i]) {
            let mut r: Vec<Course> = Vec::new();
            r.push(courses[i].clone());
            r.append(&mut rest);
            proof {
                assert(r@.map_values(|c: Course| c@) =~= seq![mapped[i as int]] + filter_pool(
                    mapped.skip(i + 1 as int),
                    *f,
                ));
            }
            r
        } else {
            rest
        }
    }
}

/// Drops the records already reserved in the inbound set, from `i` on.
fn drop_reserved_exec(pool: &Vec<Course>, inbound: &ReservedPairings, i: usize) -> (r: Vec<Course>)
    requires
        i <= pool.len(),
    ensures
        r@.map_values(|c: Course| c@) == drop_reserved(
            pool@.map_values(|c: Course| c@).skip(i as int),
            inbound@,
        ),
    decreases pool.len() - i,
{
    let ghost mapped = pool@.map_values(|c: Course| c@);
    proof {
        assert(mapped.len() == pool@.len());
    }
    if i == pool.len() {
        let r: Vec<Course> = Vec::new();
        proof {
            assert(mapped.skip(i as int) =~= Seq::<CourseView>::empty());
            assert(r@.map_values(|c: Course| c@) =~= drop_reserved(mapped.skip(i as int), inbound@));
        }
        r
    } else {
        let mut rest = drop_reserved_exec(pool, inbound, i + 1);
        proof {
            assert(mapped.skip(i as int)[0] == mapped[i as int]);
            assert(mapped[i as int] == pool@[i as int]@);
            assert(mapped.skip(i as int).drop_first() =~= mapped.skip(i + 1 as int));
        }
        if inbound.contains_course(pool[i].clbid.as_str()) {
            rest
        } else {
            let mut r: Vec<Course> = Vec::new();
            r.push(pool[i].clone());
            r.append(&mut rest);
            proof {
                assert(r@.map_values(|c: Course| c@) =~= seq![mapped[i as int]] + drop_reserved(
                    mapped.skip(i + 1 as int),
                    inbound@,
                ));
            }
            r
        }
    }
}

/// Keeps only the records already reserved in the inbound set.
fn keep_reserved_exec(pool: &Vec<Course>, inbound: &ReservedPairings, i: usize) -> (r: Vec<Course>)
    requires
        i <= pool.len(),
    ensures
        r@.map_values(|c: Course| c@) == keep_reserved(
            pool@.map_values(|c: Course| c@).skip(i as int),
            inbound@,
        ),
    decreases pool.len() - i,
{
    let ghost mapped = pool@.map_values(|c: Course| c@);
    proof {
        assert(mapped.len() == pool@.len());
    }
    if i == pool.len() {
        let r: Vec<Course> = Vec::new();
        proof {
            assert(mapped.skip(i as int) =~= Seq::<CourseView>::empty());
            assert(r@.map_values(|c: Course| c@) =~= keep_reserved(mapped.skip(i as int), inbound@));
        }
        r
    } else {
        let mut rest = keep_reserved_exec(pool, inbound, i + 1);
        proof {
            assert(mapped.skip(i as int)[0] == mapped[i as int]);
            assert(mapped[i as int] == pool@[i as int]@);
            assert(mapped.skip(i as int).drop_first() =~= mapped.skip(i + 1 as int));
        }
        if inbound.contains_course(pool[i].clbid.as_str()) {
            let mut r: Vec<Course> = Vec::new();
            r.push(pool[i].clone());
            r.append(&mut rest);
            proof {
                assert(r@.map_values(|c: Course| c@) =~= seq![mapped[i as int]] + keep_reserved(
                    mapped.skip(i + 1 as int),
                    inbound@,
                ));
            }
            r
        } else {
            rest
        }
    }
}

/// Applies one limit from index `i` on, with `k` matching slots left.
fn take_limited_exec(pool: &Vec<Course>, l: &Limit, k: u64, i: usize) -> (r: Vec<Course>)
    requires
        i <= pool.len(),
    ensures
        r@.map_values(|c: Course| c@) == take_limited(
            pool@.map_values(|c: Course| c@).skip(i as int),
            *l,
            k as int,
        ),
    decreases pool.len() - i,
{
    let ghost mapped = pool@.map_values(|c: Course| c@);
    proof {
        assert(mapped.len() == pool@.len());
    }
    if i == pool.len() {
        let r: Vec<Course> = Vec::new();
        proof {
            assert(mapped.skip(i as int) =~= Seq::<CourseView>::empty());
            assert(r@.map_values(|c: Course| c@) =~= take_limited(
                mapped.skip(i as int),
                *l,
                k as int,
            ));
        }
        r
    } else {
        proof {
            assert(mapped.skip(i as int)[0] == mapped[i as int]);
            assert(mapped[i as int] == pool@[i as int]@);
            assert(mapped.skip(i as int).drop_first() =~= mapped.skip(i + 1 as int));
        }
        if l.filter.matches(&pool[i]) {
            if k > 0 {
                let mut rest = take_limited_exec(pool, l, k - 1, i + 1);
                let mut r: Vec<Course> = Vec::new();
                r.push(pool[i].clone());
                r.append(&mut rest);
                proof {
                    assert(r@.map_values(|c: Course| c@) =~= seq![mapped[i as int]] + take_limited(
                        mapped.skip(i + 1 as int),
                        *l,
                        k - 1 as int,
                    ));
                }
                r
            } else {
                take_limited_exec(pool, l, 0, i + 1)
            }
        } else {
            let mut rest = take_limited_exec(pool, l, k, i + 1);
            let mut r: Vec<Course> = Vec::new();
            r.push(pool[i].clone());
            r.append(&mut rest);
            proof {
                assert(r@.map_values(|c: Course| c@) =~= seq![mapped[i as int]] + take_limited(
                    mapped.skip(i + 1 as int),
                    *l,
                    k as int,
                ));
            }
            r
        }
    }
}

/// Applies the limits in declaration order, from limit `i` on.
fn apply_limits_exec(limits: &Vec<Limit>, pool: Vec<Course>, i: usize) -> (r: Vec<Course>)
    requires
        i <= limits.len(),
    ensures
        r@.map_values(|c: Course| c@) == apply_limits(
            limits@.skip(i as int),
            pool@.map_values(|c: Course| c@),
        ),
    decreases limits.len() - i,
{
    if i == limits.len() {
        proof {
            assert(limits@.skip(i as int) =~= Seq::<Limit>::empty());
        }
        pool
    } else {
        proof {
            assert(limits@.skip(i as int)[0] == limits@[i as int]);
            assert(limits@.skip(i as int).drop_first() =~= limits@.skip(i + 1 as int));
        }
        let capped = take_limited_exec(&pool, &limits[i], limits[i].at_most, 0);
        proof {
            let mapped = pool@.map_values(|c: Course| c@);
            assert(mapped.skip(0) =~= mapped);
        }
        apply_limits_exec(limits, capped, i + 1)
    }
}


/// The credit total of any pool is bounded by its size times the
/// largest credit value a record can hold.
pub proof fn lemma_credits_sum_bound(s: Seq<CourseView>)
    ensures
        0 <= credits_sum(s),
        credits_sum(s) <= s.len() * (u64::MAX as int),
    decreases s.len(),
{
    if s.len() > 0 {
        lemma_credits_sum_bound(s.drop_first());
        assert(credits_sum(s) == s[0].credits + credits_sum(s.drop_first()));
        assert(s.len() * (u64::MAX as int) == (s.len() - 1) * (u64::MAX as int) + u64::MAX as int)
            by (nonlinear_arith);
    }
}

/// Totals a pool's credits, from index `i` on.
fn sum_credits(pool: &Vec<Course>, i: usize) -> (s: u128)
    requires
        i <= pool.len(),
    ensures
        s as int == credits_sum(pool@.map_values(|c: Course| c@).skip(i as int)),
    decreases pool.len() - i,
{
    let ghost mapped = pool@.map_values(|c: Course| c@);
    proof {
        assert(mapped.len() == pool@.len());
    }
    if i == pool.len() {
        proof {
            assert(mapped.skip(i as int) =~= Seq::<CourseView>::empty());
        }
        0
    } else {
        let rest = sum_credits(pool, i + 1);
        proof {
            assert(mapped.skip(i as int)[0] == mapped[i as int]);
            assert(mapped[i as int] == pool@[i as int]@);
            assert(mapped.skip(i as int).drop_first() =~= mapped.skip(i + 1 as int));
            lemma_credits_sum_bound(mapped.skip(i + 1 as int));
            assert(mapped.skip(i + 1 as int).len() * (u64::MAX as int) <= (usize::MAX as int) * (
            u64::MAX as int)) by (nonlinear_arith)
                requires
                    0 <= mapped.skip(i + 1 as int).len() <= usize::MAX as int,
            ;
        }
        pool[i].credits.hundredths as u128 + rest
    }
}

/// The smallest credit value in a pool, from index `i` on.
fn min_credits(pool: &Vec<Course>, i: usize) -> (m: u64)
    requires
        i < pool.len(),
    ensures
        m as int == credits_min(pool@.map_values(|c: Course| c@).skip(i as int)),
    decreases pool.len() - i,
{
    let ghost mapped = pool@.map_values(|c: Course| c@);
    proof {
        assert(mapped.len() == pool@.len());
        assert(mapped.skip(i as int)[0] == mapped[i as int]);
        assert(mapped[i as int] == pool@[i as int]@);
        assert(mapped.skip(i as int).drop_first() =~= mapped.skip(i + 1 as int));
    }
    if i == pool.len() - 1 {
        proof {
            assert(mapped.skip(i as int).len() == 1);
        }
        pool[i].credits.hundredths
    } else {
        let rest = min_credits(pool, i + 1);
        let c = pool[i].credits.hundredths;
        if c <= rest {
            c
        } else {
            rest
        }
    }
}

/// The largest credit value in a pool, from index `i` on.
fn max_credits(pool: &Vec<Course>, i: usize) -> (m: u64)
    requires
        i < pool.len(),
    ensures
        m as int == credits_max(pool@.map_values(|c: Course| c@).skip(i as int)),
    decreases pool.len() - i,
{
    let ghost mapped = pool@.map_values(|c: Course| c@);
    proof {
        assert(mapped.len() == pool@.len());
        assert(mapped.skip(i as int)[0] == mapped[i as int]);
        assert(mapped[i as int] == pool@[i as int]@);
        assert(mapped.skip(i as int).drop_first() =~= mapped.skip(i + 1 as int));
    }
    if i == pool.len() - 1 {
        proof {
            assert(mapped.skip(i as int).len() == 1);
        }
        pool[i].credits.hundredths
    } else {
        let rest = max_credits(pool, i + 1);
        let c = pool[i].credits.hundredths;
        if c >= rest {
            c
        } else {
            rest
        }
    }
}

/// Checks one assertion against a pool's precomputed aggregates.
fn check_assertion(
    a: &Action,
    count: usize,
    sum: u128,
    minv: u64,
    maxv: u64,
    Ghost(pool): Ghost<Seq<CourseView>>,
) -> (b: bool)
    requires
        count == pool.len(),
        sum as int == credits_sum(pool),
        pool.len() > 0 ==> minv as int == credits_min(pool),
        pool.len() > 0 ==> maxv as int == credits_max(pool),
    ensures
        b == assertion_holds(*a, pool),
{
    let (op, rhs) = match (&a.op, &a.rhs) {
        (Some(op), Some(rhs)) => (op, rhs),
        _ => {
            return true;
        },
    };
    let t = match crate::action::value_hundredths(rhs) {
        Some(t) => t,
        None => {
            return false;
        },
    };
    match &a.lhs {
        Value::Command(Command::Count) => crate::action::cmp_nums(op, count as u128 * 100, t),
        Value::Command(Command::Sum) => crate::action::cmp_nums(op, sum, t),
        Value::Command(Command::Average) => {
            if count == 0 {
                return false;
            }
            let n = count as u128;
            if t > u128::MAX / n {
                proof {
                    vstd::arithmetic::div_mod::lemma_fundamental_div_mod(
                        u128::MAX as int,
                        n as int,
                    );
                    vstd::arithmetic::div_mod::lemma_mod_division_less_than_divisor(
                        u128::MAX as int,
                        n as int,
                    );
                    assert(t * n > u128::MAX as int) by (nonlinear_arith)
                        requires
                            n >= 1,
                            t as int > (u128::MAX as int) / (n as int),
                            u128::MAX as int == (n as int) * ((u128::MAX as int) / (n as int)) + (
                            u128::MAX as int) % (n as int),
                            0 <= (u128::MAX as int) % (n as int) < n as int,
                    ;
                    assert(credits_sum(pool) <= u128::MAX as int);
                }
                match op {
                    Operator::LessThan => true,
                    Operator::LessThanEqualTo => true,
                    Operator::EqualTo => false,
                    Operator::GreaterThan => false,
                    Operator::GreaterThanEqualTo => false,
                    Operator::NotEqualTo => true,
                }
            } else {
                proof {
                    vstd::arithmetic::div_mod::lemma_fundamental_div_mod(
                        u128::MAX as int,
                        n as int,
                    );
                    vstd::arithmetic::div_mod::lemma_mod_division_less_than_divisor(
                        u128::MAX as int,
                        n as int,
                    );
                    assert(t * n <= u128::MAX as int) by (nonlinear_arith)
                        requires
                            n >= 1,
                            0 <= t as int <= (u128::MAX as int) / (n as int),
                            u128::MAX as int == (n as int) * ((u128::MAX as int) / (n as int)) + (
                            u128::MAX as int) % (n as int),
                            0 <= (u128::MAX as int) % (n as int) < n as int,
                    ;
                }
                crate::action::cmp_nums(op, sum, t * n)
            }
        },
        Value::Command(Command::Minimum) => {
            if count == 0 {
                return false;
            }
            crate::action::cmp_nums(op, minv as u128, t)
        },
        Value::Command(Command::Maximum) => {
            if count == 0 {
                return false;
            }
            crate::action::cmp_nums(op, maxv as u128, t)
        },
        _ => false,
    }
}

/// Checks every assertion of a query against the remaining pool.
#[verifier::loop_isolation(false)]
fn check_assertions(asserts: &Vec<Action>, pool: &Vec<Course>) -> (b: bool)
    ensures
        b == assertions_hold(asserts@, pool@.map_values(|c: Course| c@)),
{
    let ghost mapped = pool@.map_values(|c: Course| c@);
    proof {
        assert(mapped.len() == pool@.len());
        assert(mapped.skip(0) =~= mapped);
    }
    let count = pool.len();
    let sum = sum_credits(pool, 0);
    let mut minv: u64 = 0;
    let mut maxv: u64 = 0;
    if count > 0 {
        minv = min_credits(pool, 0);
        maxv = max_credits(pool, 0);
    }
    let mut i: usize = 0;
    while i < asserts.len()
        invariant
            0 <= i <= asserts@.len(),
            forall|j: int| 0 <= j < i ==> assertion_holds(#[trigger] asserts@[j], mapped),
        decreases asserts@.len() - i,
    {
        if !check_assertion(&asserts[i], count, sum, minv, maxv, Ghost(mapped)) {
            proof {
                assert(!assertion_holds(asserts@[i as int], mapped));
            }
            return false;
        }
        i = i + 1;
    }
    true
}

/// Evaluates a query node.
#[verifier::loop_isolation(false)]
fn eval_given(
    q: &GivenRule,
    student: &Student,
    inbound: &ReservedPairings,
    path: &Vec<u64>,
) -> (res: RuleResult)
    ensures
        res.detail is Given,
        ({
            let o = given_out(*q, *student, inbound@, path@, Seq::<MemoEntryView>::empty());
            res.status == o.status && res.rank == o.rank && res.max_rank == o.max_rank
                && res.reservations@ == o.reservations
        }),
{
    let is_courses = matches!(q.source, QuerySource::Courses);
    let is_claimed = matches!(q.source, QuerySource::ClaimedCourses);
    if !is_courses && !is_claimed {
        return RuleResult {
            detail: RuleResultDetails::Given,
            reservations: inbound.clone(),
            status: RuleStatus::Skipped,
            rank: 0,
            max_rank: 0,
        };
    }
    let ghost all = student.courses@.map_values(|c: Course| c@);
    let sourced: Vec<Course> = if is_claimed {
        let v = keep_reserved_exec(&student.courses, inbound, 0);
        proof {
            assert(all.skip(0) =~= all);
        }
        v
    } else {
        let mut v: Vec<Course> = Vec::new();
        let mut i: usize = 0;
        while i < student.courses.len()
            invariant
                0 <= i <= student.courses@.len(),
                v@.map_values(|c: Course| c@) == all.take(i as int),
            decreases student.courses@.len() - i,
        {
            v.push(student.courses[i].clone());
            proof {
                assert(v@.map_values(|c: Course| c@).len() == v@.len());
                assert(v@.map_values(|c: Course| c@) =~= all.take(i + 1 as int));
            }
            i = i + 1;
        }
        proof {
            assert(all.take(student.courses@.len() as int) =~= all);
        }
        v
    };
    let matched = filter_exec(&sourced, &q.filter, 0);
    proof {
        let sv = sourced@.map_values(|c: Course| c@);
        assert(sv.skip(0) =~= sv);
    }
    let candidates: Vec<Course> = if q.allow_claimed || is_claimed {
        matched
    } else {
        let v = drop_reserved_exec(&matched, inbound, 0);
        proof {
            let mv = matched@.map_values(|c: Course| c@);
            assert(mv.skip(0) =~= mv);
        }
        v
    };
    let pool = apply_limits_exec(&q.limit, candidates, 0);
    proof {
        assert(q.limit@.skip(0) =~= q.limit@);
    }
    let pass = check_assertions(&q.assertions, &pool);
    let mut rp = inbound.clone();
    let ghost poolv = pool@.map_values(|c: Course| c@);
    if !is_claimed {
        let mut i: usize = 0;
        proof {
            assert(inbound@ + claims_of_pool(poolv.take(0), path@) =~= inbound@);
        }
        while i < pool.len()
            invariant
                0 <= i <= pool@.len(),
                rp@ == inbound@ + claims_of_pool(poolv.take(i as int), path@),
            decreases pool@.len() - i,
        {
            let c = &pool[i];
            rp.push(
                Claim {
                    clbid: c.clbid.clone(),
                    path: crate::claim::clone_path(path),
                    credits: c.credits,
                },
            );
            proof {
                assert(poolv[i as int] == pool@[i as int]@);
                assert(rp@ =~= inbound@ + claims_of_pool(poolv.take(i + 1 as int), path@));
            }
            i = i + 1;
        }
        proof {
            assert(poolv.take(pool@.len() as int) =~= poolv);
        }
    } else {
        proof {
            assert(rp@ =~= inbound@ + Seq::<ClaimView>::empty());
        }
    }
    RuleResult {
        detail: RuleResultDetails::Given,
        reservations: rp,
        status: if pass {
            RuleStatus::Pass
        } else {
            RuleStatus::Fail
        },
        rank: if pass {
            100
        } else {
            0
        },
        max_rank: 100,
    }
}


proof fn lemma_lookup_req_at(reqs: Seq<NamedRule>, name: Seq<char>, k: int)
    requires
        0 <= k < reqs.len(),
        reqs[k].name@ == name,
        forall|j: int| 0 <= j < k ==> (#[trigger] reqs[j].name@) != name,
    ensures
        lookup_req(reqs, name) == Some(k),
    decreases k,
{
    if k > 0 {
        let t = reqs.drop_first();
        assert(forall|j: int| 0 <= j < k - 1 ==> (#[trigger] t[j].name@) != name);
        lemma_lookup_req_at(t, name, k - 1);
    }
}

proof fn lemma_lookup_req_none(reqs: Seq<NamedRule>, name: Seq<char>)
    requires
        forall|j: int| 0 <= j < reqs.len() ==> (#[trigger] reqs[j].name@) != name,
    ensures
        lookup_req(reqs, name) == None::<int>,
    decreases reqs.len(),
{
    if reqs.len() > 0 {
        let t = reqs.drop_first();
        assert(forall|j: int| 0 <= j < t.len() ==> (#[trigger] t[j].name@) != name);
        lemma_lookup_req_none(t, name);
    }
}

/// Finds the named requirement, first declaration wins.
fn lookup_req_exec(reqs: &Vec<NamedRule>, name: &str) -> (r: Option<usize>)
    ensures
        match r {
            Some(i) => 0 <= i < reqs@.len() && lookup_req(reqs@, name@) == Some(i as int),
            None => lookup_req(reqs@, name@) is None,
        },
{
    let mut i: usize = 0;
    while i < reqs.len()
        invariant
            0 <= i <= reqs@.len(),
            forall|j: int| 0 <= j < i ==> (#[trigger] reqs@[j].name@) != name@,
        decreases reqs@.len() - i,
    {
        if crate::student::str_eq(reqs[i].name.as_str(), name) {
            proof {
                lemma_lookup_req_at(reqs@, name@, i as int);
            }
            return Some(i);
        }
        i = i + 1;
    }
    proof {
        lemma_lookup_req_none(reqs@, name@);
    }
    None
}

proof fn lemma_memo_lookup_at(memo: Seq<MemoEntryView>, name: Seq<char>, k: int)
    requires
        0 <= k < memo.len(),
        memo[k].name == name,
        forall|j: int| 0 <= j < k ==> (#[trigger] memo[j].name) != name,
    ensures
        memo_lookup(memo, name) == Some(memo[k]),
    decreases k,
{
    if k > 0 {
        let t = memo.drop_first();
        assert(forall|j: int| 0 <= j < k - 1 ==> (#[trigger] t[j].name) != name);
        lemma_memo_lookup_at(t, name, k - 1);
    }
}

proof fn lemma_memo_lookup_none(memo: Seq<MemoEntryView>, name: Seq<char>)
    requires
        forall|j: int| 0 <= j < memo.len() ==> (#[trigger] memo[j].name) != name,
    ensures
        memo_lookup(memo, name) == None::<MemoEntryView>,
    decreases memo.len(),
{
    if memo.len() > 0 {
        let t = memo.drop_first();
        assert(forall|j: int| 0 <= j < t.len() ==> (#[trigger] t[j].name) != name);
        lemma_memo_lookup_none(t, name);
    }
}

/// Finds a memo entry by requirement name, first recording wins.
fn memo_lookup_exec(memo: &Vec<MemoEntry>, name: &str) -> (r: Option<usize>)
    ensures
        match r {
            Some(i) => 0 <= i < memo@.len() && memo_lookup(memo_view(memo@), name@) == Some(
                memo@[i as int]@,
            ),
            None => memo_lookup(memo_view(memo@), name@) is None,
        },
{
    let ghost mv = memo_view(memo@);
    proof {
        assert(mv.len() == memo@.len());
    }
    let mut i: usize = 0;
    while i < memo.len()
        invariant
            0 <= i <= memo@.len(),
            mv == memo_view(memo@),
            mv.len() == memo@.len(),
            forall|j: int| 0 <= j < i ==> (#[trigger] mv[j].name) != name@,
        decreases memo@.len() - i,
    {
        proof {
            assert(mv[i as int] == memo@[i as int]@);
        }
        if crate::student::str_eq(memo[i].name.as_str(), name) {
            proof {
                lemma_memo_lookup_at(mv, name@, i as int);
            }
            return Some(i);
        }
        i = i + 1;
    }
    proof {
        lemma_memo_lookup_none(mv, name@);
    }
    None
}

/// Commits a list of claims onto a reservation set, skipping claims on
/// courses the set already holds.
#[verifier::loop_isolation(false)]
fn merge_added_exec(acc: ReservedPairings, added: &Vec<Claim>) -> (r: ReservedPairings)
    ensures
        r@ == merge_added(acc@, added@.map_values(|c: Claim| c@)),
{
    let ghost av = added@.map_values(|c: Claim| c@);
    proof {
        assert(av.len() == added@.len());
    }
    let mut cur = acc;
    let ghost acc0 = cur@;
    let mut i: usize = 0;
    proof {
        assert(av.skip(0) =~= av);
    }
    while i < added.len()
        invariant
            0 <= i <= added@.len(),
            merge_added(acc0, av) == merge_added(cur@, av.skip(i as int)),
        decreases added@.len() - i,
    {
        proof {
            assert(av.skip(i as int)[0] == av[i as int]);
            assert(av[i as int] == added@[i as int]@);
            assert(av.skip(i as int).drop_first() =~= av.skip(i + 1 as int));
        }
        if !cur.contains_course(added[i].clbid.as_str()) {
            cur.push(added[i].clone());
        }
        i = i + 1;
    }
    proof {
        assert(av.skip(added@.len() as int) =~= Seq::<ClaimView>::empty());
    }
    cur
}

/// The claims a child evaluation added beyond the first `from` pairs.
fn claims_suffix(rp: &ReservedPairings, from: usize) -> (r: Vec<Claim>)
    requires
        from <= rp@.len(),
    ensures
        r@.map_values(|c: Claim| c@) == rp@.skip(from as int),
{
    let mut r: Vec<Claim> = Vec::new();
    let mut i: usize = from;
    proof {
        assert(rp@.len() == rp.pairs@.len());
        assert(r@.map_values(|c: Claim| c@) =~= rp@.subrange(from as int, from as int));
    }
    while i < rp.pairs.len()
        invariant
            from <= i <= rp.pairs@.len(),
            rp@.len() == rp.pairs@.len(),
            r@.map_values(|c: Claim| c@) == rp@.subrange(from as int, i as int),
        decreases rp.pairs@.len() - i,
    {
        let c = rp.pairs[i].clone();
        proof {
            assert(r@.map_values(|cl: Claim| cl@).len() == r@.len());
            assert(rp@[i as int] == rp.pairs@[i as int]@);
        }
        r.push(c);
        proof {
            assert(r@.map_values(|cl: Claim| cl@) =~= rp@.subrange(from as int, i + 1 as int));
        }
        i = i + 1;
    }
    proof {
        assert(rp@.subrange(from as int, rp@.len() as int) =~= rp@.skip(from as int));
    }
    r
}

/// Extends a node path by one child index.
fn path_push(path: &Vec<u64>, x: u64) -> (r: Vec<u64>)
    ensures
        r@ == path@.push(x),
{
    let mut r = crate::claim::clone_path(path);
    r.push(x);
    r
}

fn status_both(l: RuleStatus, r: RuleStatus) -> (s: RuleStatus)
    ensures
        s == both_status(l, r),
{
    if matches!(l, RuleStatus::Fail) || matches!(r, RuleStatus::Fail) {
        RuleStatus::Fail
    } else if matches!(l, RuleStatus::Pending) || matches!(r, RuleStatus::Pending) {
        RuleStatus::Pending
    } else if matches!(l, RuleStatus::Pass) && matches!(r, RuleStatus::Pass) {
        RuleStatus::Pass
    } else {
        RuleStatus::Skipped
    }
}

/// Saturating rank addition.
pub fn add_rank(a: u64, b: u64) -> (r: u64)
    ensures
        r == sat_add(a, b),
{
    if a <= u64::MAX - b {
        a + b
    } else {
        u64::MAX
    }
}

fn prefer_score_exec(s: RuleStatus) -> (r: u64)
    ensures
        r as int == prefer_score(s),
{
    match s {
        RuleStatus::Pass => 2,
        RuleStatus::Pending => 1,
        _ => 0,
    }
}

/// Either's selection: does the left child win?
fn prefers_left_exec(ls: RuleStatus, lr: u64, lm: u64, rs: RuleStatus, rr: u64, rm: u64) -> (b:
    bool)
    ensures
        b == spec_prefers_left(ls, lr, lm, rs, rr, rm),
{
    let a = prefer_score_exec(ls);
    let c = prefer_score_exec(rs);
    if a != c {
        a > c
    } else {
        let ln: u128 = if lm == 0 {
            if matches!(ls, RuleStatus::Pass) {
                1
            } else {
                0
            }
        } else {
            lr as u128
        };
        let ld: u128 = if lm == 0 {
            1
        } else {
            lm as u128
        };
        let rn: u128 = if rm == 0 {
            if matches!(rs, RuleStatus::Pass) {
                1
            } else {
                0
            }
        } else {
            rr as u128
        };
        let rd: u128 = if rm == 0 {
            1
        } else {
            rm as u128
        };
        proof {
            assert(ln * rd <= u128::MAX as int) by (nonlinear_arith)
                requires
                    0 <= ln <= u64::MAX,
                    0 <= rd <= u64::MAX,
            ;
            assert(rn * ld <= u128::MAX as int) by (nonlinear_arith)
                requires
                    0 <= rn <= u64::MAX,
                    0 <= ld <= u64::MAX,
            ;
        }
        ln * rd >= rn * ld
    }
}


/// Whether a child-result vector agrees with a spec outcome list on
/// status, ranks and reservations.
pub open spec fn outs_match(results: Seq<RuleResult>, outs: Seq<EvalOut>) -> bool {
    &&& results.len() == outs.len()
    &&& forall|j: int|
        0 <= j < results.len() ==> (#[trigger] outs[j]).status == results[j].status && outs[j].rank
            == results[j].rank && outs[j].max_rank == results[j].max_rank && outs[j].reservations
            == results[j].reservations@
}

fn count_status_rec(
    results: &Vec<RuleResult>,
    i: usize,
    s: RuleStatus,
    Ghost(outs): Ghost<Seq<EvalOut>>,
) -> (n: usize)
    requires
        outs_match(results@, outs),
        i <= results@.len(),
    ensures
        n as int == count_with_status(outs.skip(i as int), s),
    decreases results@.len() - i,
{
    if i == results.len() {
        proof {
            assert(outs.skip(i as int) =~= Seq::<EvalOut>::empty());
        }
        0
    } else {
        let rest = count_status_rec(results, i + 1, s, Ghost(outs));
        proof {
            assert(outs.skip(i as int)[0] == outs[i as int]);
            assert(outs.skip(i as int).drop_first() =~= outs.skip(i + 1 as int));
            assert(count_with_status(outs.skip(i + 1 as int), s) <= outs.skip(
                i + 1 as int,
            ).len()) by {
                lemma_count_with_status_bound(outs.skip(i + 1 as int), s);
            }
        }
        if results[i].status == s {
            rest + 1
        } else {
            rest
        }
    }
}

proof fn lemma_count_with_status_bound(outs: Seq<EvalOut>, s: RuleStatus)
    ensures
        0 <= count_with_status(outs, s) <= outs.len(),
    decreases outs.len(),
{
    if outs.len() > 0 {
        lemma_count_with_status_bound(outs.drop_first(), s);
    }
}

/// A status count never exceeds the number of children.
pub proof fn lemma_count_with_status_bound_pub(outs: Seq<EvalOut>, s: RuleStatus)
    ensures
        0 <= count_with_status(outs, s) <= outs.len(),
{
    lemma_count_with_status_bound(outs, s);
}

fn committed_rank_rec(
    results: &Vec<RuleResult>,
    i: usize,
    k: u64,
    Ghost(outs): Ghost<Seq<EvalOut>>,
) -> (r: u64)
    requires
        outs_match(results@, outs),
        i <= results@.len(),
    ensures
        r == committed_rank(outs.skip(i as int), k as int),
    decreases results@.len() - i,
{
    if i == results.len() || k == 0 {
        proof {
            if i == results@.len() {
                assert(outs.skip(i as int) =~= Seq::<EvalOut>::empty());
            }
        }
        0
    } else {
        proof {
            assert(outs.skip(i as int)[0] == outs[i as int]);
            assert(outs.skip(i as int).drop_first() =~= outs.skip(i + 1 as int));
        }
        if results[i].is_pass() {
            let rest = committed_rank_rec(results, i + 1, k - 1, Ghost(outs));
            add_rank(results[i].rank, rest)
        } else {
            committed_rank_rec(results, i + 1, k, Ghost(outs))
        }
    }
}

fn take_max_rank_rec(
    results: &Vec<RuleResult>,
    i: usize,
    k: u64,
    Ghost(outs): Ghost<Seq<EvalOut>>,
) -> (r: u64)
    requires
        outs_match(results@, outs),
        i <= results@.len(),
    ensures
        r == take_max_rank(outs.skip(i as int), k as int),
    decreases results@.len() - i,
{
    if i == results.len() || k == 0 {
        proof {
            if i == results@.len() {
                assert(outs.skip(i as int) =~= Seq::<EvalOut>::empty());
            }
        }
        0
    } else {
        proof {
            assert(outs.skip(i as int)[0] == outs[i as int]);
            assert(outs.skip(i as int).drop_first() =~= outs.skip(i + 1 as int));
        }
        let rest = take_max_rank_rec(results, i + 1, k - 1, Ghost(outs));
        add_rank(results[i].max_rank, rest)
    }
}

fn count_commit_rec(
    results: &Vec<RuleResult>,
    i: usize,
    k: u64,
    acc: ReservedPairings,
    inbound_len: usize,
    Ghost(outs): Ghost<Seq<EvalOut>>,
) -> (r: ReservedPairings)
    requires
        outs_match(results@, outs),
        i <= results@.len(),
        forall|j: int| 0 <= j < results@.len() ==> inbound_len <= (#[trigger] outs[j]).reservations.len(),
    ensures
        r@ == count_commit(acc@, outs.skip(i as int), inbound_len as int, k as int),
    decreases results@.len() - i,
{
    if i == results.len() || k == 0 {
        proof {
            if i == results@.len() {
                assert(outs.skip(i as int) =~= Seq::<EvalOut>::empty());
            }
        }
        acc
    } else {
        proof {
            assert(outs.skip(i as int)[0] == outs[i as int]);
            assert(outs.skip(i as int).drop_first() =~= outs.skip(i + 1 as int));
        }
        if results[i].is_pass() {
            let added = claims_suffix(&results[i].reservations, inbound_len);
            let acc2 = merge_added_exec(acc, &added);
            count_commit_rec(results, i + 1, k - 1, acc2, inbound_len, Ghost(outs))
        } else {
            count_commit_rec(results, i + 1, k, acc, inbound_len, Ghost(outs))
        }
    }
}

/// Evaluates one rule node against the student, the inbound reservation
/// set and the memo table, returning exactly what `spec_eval` says.
#[verifier::loop_isolation(false)]
#[verifier::rlimit(50)]
pub fn evaluate_rule(
    rule: &Rule,
    student: &Student,
    reqs: &Vec<NamedRule>,
    inbound: &ReservedPairings,
    path: &Vec<u64>,
    memo: &mut Vec<MemoEntry>,
    fuel: u64,
) -> (r: Result<RuleResult, EvalError>)
    ensures
        eval_matches(
            *rule,
            *student,
            reqs@,
            inbound@,
            path@,
            memo_view(old(memo)@),
            memo_view(final(memo)@),
            fuel as nat,
            r,
        ),
        (r matches Ok(res) ==> detail_matches(*rule, res.detail)),
    decreases fuel, *rule, 1int,
{
    let ghost m0 = memo_view(memo@);
    match rule {
        Rule::Course(cr) => {
            let res = eval_course(cr, student, inbound, path);
            proof {
                let o = course_out(*cr, *student, inbound@, path@, m0);
                let oe = course_out(*cr, *student, inbound@, path@, Seq::<MemoEntryView>::empty());
                assert(o.status == oe.status && o.rank == oe.rank && o.max_rank == oe.max_rank
                    && o.reservations == oe.reservations);
                assert(o == out_of(res, m0));
            }
            Ok(res)
        },
        Rule::Given(q) => {
            let res = eval_given(q, student, inbound, path);
            proof {
                let o = given_out(*q, *student, inbound@, path@, m0);
                let oe = given_out(*q, *student, inbound@, path@, Seq::<MemoEntryView>::empty());
                assert(o.status == oe.status && o.rank == oe.rank && o.max_rank == oe.max_rank
                    && o.reservations == oe.reservations);
                assert(o == out_of(res, m0));
            }
            Ok(res)
        },
        Rule::Requirement(rr) => eval_requirement(rule, rr, student, reqs, inbound, path, memo, fuel),
        Rule::Conditional(c) => eval_conditional(rule, c, student, reqs, inbound, path, memo, fuel),
        Rule::Both { left, right } => eval_both(rule, left, right, student, reqs, inbound, path, memo, fuel),
        Rule::Either { left, right } => eval_either(rule, left, right, student, reqs, inbound, path, memo, fuel),
        Rule::CountOf { count, children } => eval_countof(rule, *count, children, student, reqs, inbound, path, memo, fuel),
    }
}

#[verifier::loop_isolation(false)]
#[verifier::rlimit(50)]
fn eval_requirement(
    rule: &Rule,
    rr: &crate::rules::requirement::RequirementRule,
    student: &Student,
    reqs: &Vec<NamedRule>,
    inbound: &ReservedPairings,
    path: &Vec<u64>,
    memo: &mut Vec<MemoEntry>,
    fuel: u64,
) -> (r: Result<RuleResult, EvalError>)
    requires
        *rule == Rule::Requirement(*rr),
    ensures
        eval_matches(
            *rule,
            *student,
            reqs@,
            inbound@,
            path@,
            memo_view(old(memo)@),
            memo_view(final(memo)@),
            fuel as nat,
            r,
        ),
        (r matches Ok(res) ==> detail_matches(*rule, res.detail)),
    decreases fuel, *rule, 0int,
{
    let ghost m0 = memo_view(memo@);

            match lookup_req_exec(reqs, rr.requirement.as_str()) {
                None => {
                    if rr.optional {
                        let res = RuleResult {
                            detail: RuleResultDetails::Requirement(RequirementResult {}),
                            reservations: inbound.clone(),
                            status: RuleStatus::Skipped,
                            rank: 0,
                            max_rank: 0,
                        };
                        Ok(res)
                    } else {
                        Err(EvalError::UnknownRequirement(rr.requirement.clone()))
                    }
                },
                Some(idx) => {
                    match memo_lookup_exec(memo, rr.requirement.as_str()) {
                        Some(mi) => {
                            let status = memo[mi].status;
                            let rank = memo[mi].rank;
                            let max_rank = memo[mi].max_rank;
                            let merged = merge_added_exec(inbound.clone(), &memo[mi].claims);
                            proof {
                                assert(memo@[mi as int]@.claims == memo@[mi as int].claims@.map_values(
                                    |c: Claim| c@,
                                ));
                            }
                            let res = RuleResult {
                                detail: RuleResultDetails::Requirement(RequirementResult {}),
                                reservations: merged,
                                status,
                                rank,
                                max_rank,
                            };
                            Ok(res)
                        },
                        None => {
                            if fuel == 0 {
                                return Err(EvalError::DepthExceeded);
                            }
                            let mut sp: Vec<u64> = Vec::new();
                            sp.push(1);
                            sp.push(idx as u64);
                            proof {
                                assert(sp@ =~= seq![1u64, idx as u64]);
                            }
                            match evaluate_rule(
                                &reqs[idx].rule,
                                student,
                                reqs,
                                inbound,
                                &sp,
                                memo,
                                fuel - 1,
                            ) {
                                Err(e) => Err(e),
                                Ok(o) => {
                                    let ghost m1 = memo_view(memo@);
                                    proof {
                                        lemma_eval_extends(
                                            reqs@[idx as int].rule,
                                            *student,
                                            reqs@,
                                            inbound@,
                                            sp@,
                                            m0,
                                            (fuel - 1) as nat,
                                        );
                                        assert(inbound@.len() <= o.reservations@.len());
                                        assert(o.reservations@.len() == o.reservations.pairs@.len());
                                    }
                                    let added = claims_suffix(&o.reservations, inbound.len());
                                    memo.push(
                                        MemoEntry {
                                            name: rr.requirement.clone(),
                                            status: o.status,
                                            rank: o.rank,
                                            max_rank: o.max_rank,
                                            claims: added,
                                        },
                                    );
                                    proof {
                                        assert(memo_view(memo@) =~= m1.push(memo@.last()@));
                                    }
                                    let res = RuleResult {
                                        detail: RuleResultDetails::Requirement(
                                            RequirementResult {},
                                        ),
                                        reservations: o.reservations,
                                        status: o.status,
                                        rank: o.rank,
                                        max_rank: o.max_rank,
                                    };
                                    Ok(res)
                                },
                            }
                        },
                    }
                },
            }
        
}

#[verifier::loop_isolation(false)]
#[verifier::rlimit(50)]
fn eval_conditional(
    rule: &Rule,
    c: &Conditional,
    student: &Student,
    reqs: &Vec<NamedRule>,
    inbound: &ReservedPairings,
    path: &Vec<u64>,
    memo: &mut Vec<MemoEntry>,
    fuel: u64,
) -> (r: Result<RuleResult, EvalError>)
    requires
        *rule matches Rule::Conditional(cb) && *cb == *c,
    ensures
        eval_matches(
            *rule,
            *student,
            reqs@,
            inbound@,
            path@,
            memo_view(old(memo)@),
            memo_view(final(memo)@),
            fuel as nat,
            r,
        ),
        (r matches Ok(res) ==> detail_matches(*rule, res.detail)),
    decreases fuel, *rule, 0int,
{
    let ghost m0 = memo_view(memo@);

            match c.condition.result(student) {
                TriState::True => {
                    let p0 = path_push(path, 0);
                    match evaluate_rule(&c.when_true, student, reqs, inbound, &p0, memo, fuel) {
                        Err(e) => Err(e),
                        Ok(sub) => {
                            let status = sub.status;
                            let rank = sub.rank;
                            let max_rank = sub.max_rank;
                            let resv = sub.reservations.clone();
                            Ok(
                                RuleResult {
                                    detail: RuleResultDetails::Do(Some(Box::new(sub))),
                                    reservations: resv,
                                    status,
                                    rank,
                                    max_rank,
                                },
                            )
                        },
                    }
                },
                TriState::False => {
                    match &c.when_false {
                        Some(f) => {
                            let p1 = path_push(path, 1);
                            match evaluate_rule(f, student, reqs, inbound, &p1, memo, fuel) {
                                Err(e) => Err(e),
                                Ok(sub) => {
                                    let status = sub.status;
                                    let rank = sub.rank;
                                    let max_rank = sub.max_rank;
                                    let resv = sub.reservations.clone();
                                    Ok(
                                        RuleResult {
                                            detail: RuleResultDetails::Do(Some(Box::new(sub))),
                                            reservations: resv,
                                            status,
                                            rank,
                                            max_rank,
                                        },
                                    )
                                },
                            }
                        },
                        None => Ok(
                            RuleResult {
                                detail: RuleResultDetails::Do(None),
                                reservations: inbound.clone(),
                                status: RuleStatus::Pass,
                                rank: 0,
                                max_rank: 0,
                            },
                        ),
                    }
                },
                TriState::Unknown => Ok(
                    RuleResult {
                        detail: RuleResultDetails::Do(None),
                        reservations: inbound.clone(),
                        status: RuleStatus::Pending,
                        rank: 0,
                        max_rank: 0,
                    },
                ),
            }
        
}

#[verifier::loop_isolation(false)]
#[verifier::rlimit(50)]
fn eval_both(
    rule: &Rule,
    left: &Rule,
    right: &Rule,
    student: &Student,
    reqs: &Vec<NamedRule>,
    inbound: &ReservedPairings,
    path: &Vec<u64>,
    memo: &mut Vec<MemoEntry>,
    fuel: u64,
) -> (r: Result<RuleResult, EvalError>)
    requires
        (*rule matches Rule::Both { left: bl, right: br } && *bl == *left && *br == *right),
    ensures
        eval_matches(
            *rule,
            *student,
            reqs@,
            inbound@,
            path@,
            memo_view(old(memo)@),
            memo_view(final(memo)@),
            fuel as nat,
            r,
        ),
        (r matches Ok(res) ==> detail_matches(*rule, res.detail)),
    decreases fuel, *rule, 0int,
{
    let ghost m0 = memo_view(memo@);

            let p0 = path_push(path, 0);
            match evaluate_rule(left, student, reqs, inbound, &p0, memo, fuel) {
                Err(e) => Err(e),
                Ok(lres) => {
                    let p1 = path_push(path, 1);
                    match evaluate_rule(right, student, reqs, &lres.reservations, &p1, memo, fuel) {
                        Err(e) => Err(e),
                        Ok(rres) => {
                            let status = status_both(lres.status, rres.status);
                            let rank = add_rank(lres.rank, rres.rank);
                            let max_rank = add_rank(lres.max_rank, rres.max_rank);
                            let resv = rres.reservations.clone();
                            Ok(
                                RuleResult {
                                    detail: RuleResultDetails::Both(
                                        (Box::new(lres), Box::new(rres)),
                                    ),
                                    reservations: resv,
                                    status,
                                    rank,
                                    max_rank,
                                },
                            )
                        },
                    }
                },
            }
        
}

#[verifier::loop_isolation(false)]
#[verifier::rlimit(50)]
fn eval_either(
    rule: &Rule,
    left: &Rule,
    right: &Rule,
    student: &Student,
    reqs: &Vec<NamedRule>,
    inbound: &ReservedPairings,
    path: &Vec<u64>,
    memo: &mut Vec<MemoEntry>,
    fuel: u64,
) -> (r: Result<RuleResult, EvalError>)
    requires
        (*rule matches Rule::Either { left: bl, right: br } && *bl == *left && *br == *right),
    ensures
        eval_matches(
            *rule,
            *student,
            reqs@,
            inbound@,
            path@,
            memo_view(old(memo)@),
            memo_view(final(memo)@),
            fuel as nat,
            r,
        ),
        (r matches Ok(res) ==> detail_matches(*rule, res.detail)),
    decreases fuel, *rule, 0int,
{
    let ghost m0 = memo_view(memo@);

            let p0 = path_push(path, 0);
            match evaluate_rule(left, student, reqs, inbound, &p0, memo, fuel) {
                Err(e) => Err(e),
                Ok(lres) => {
                    let p1 = path_push(path, 1);
                    match evaluate_rule(right, student, reqs, inbound, &p1, memo, fuel) {
                        Err(e) => Err(e),
                        Ok(rres) => {
                            let keep_left = prefers_left_exec(
                                lres.status,
                                lres.rank,
                                lres.max_rank,
                                rres.status,
                                rres.rank,
                                rres.max_rank,
                            );
                            if keep_left {
                                let status = lres.status;
                                let rank = lres.rank;
                                let max_rank = lres.max_rank;
                                let resv = lres.reservations.clone();
                                Ok(
                                    RuleResult {
                                        detail: RuleResultDetails::Either(
                                            (Some(Box::new(lres)), Some(Box::new(rres))),
                                        ),
                                        reservations: resv,
                                        status,
                                        rank,
                                        max_rank,
                                    },
                                )
                            } else {
                                let status = rres.status;
                                let rank = rres.rank;
                                let max_rank = rres.max_rank;
                                let resv = rres.reservations.clone();
                                Ok(
                                    RuleResult {
                                        detail: RuleResultDetails::Either(
                                            (Some(Box::new(lres)), Some(Box::new(rres))),
                                        ),
                                        reservations: resv,
                                        status,
                                        rank,
                                        max_rank,
                                    },
                                )
                            }
                        },
                    }
                },
            }
        
}

#[verifier::loop_isolation(false)]
#[verifier::rlimit(100)]
fn eval_countof(
    rule: &Rule,
    count: u64,
    children: &Vec<Rule>,
    student: &Student,
    reqs: &Vec<NamedRule>,
    inbound: &ReservedPairings,
    path: &Vec<u64>,
    memo: &mut Vec<MemoEntry>,
    fuel: u64,
) -> (r: Result<RuleResult, EvalError>)
    requires
        (*rule matches Rule::CountOf { count: c0, children: ch0 } && c0 == count && ch0@ == children@),
    ensures
        eval_matches(
            *rule,
            *student,
            reqs@,
            inbound@,
            path@,
            memo_view(old(memo)@),
            memo_view(final(memo)@),
            fuel as nat,
            r,
        ),
        (r matches Ok(res) ==> detail_matches(*rule, res.detail)),
    decreases fuel, *rule, 0int,
{
    let ghost m0 = memo_view(memo@);

            let n = children.len();
            let mut results: Vec<RuleResult> = Vec::new();
            let ghost mut outs: Seq<EvalOut> = Seq::empty();
            let mut i: usize = 0;
            proof {
                assert(children@.skip(0) =~= children@);
                assert(Seq::<EvalOut>::empty() + Seq::<EvalOut>::empty() =~= Seq::<
                    EvalOut,
                >::empty());
            }
            loop
                invariant
                    0 <= i <= n,
                    n == children@.len(),
                    results@.len() == i,
                    outs.len() == i,
                    outs_match(results@, outs),
                    forall|j: int| 0 <= j < i ==> inbound@.len() <= (#[trigger] outs[j]).reservations.len(),
                    i < n ==> spec_eval_list(children@, *student, reqs@, inbound@, path@, m0, fuel as nat, 0)
                        == spec_eval_list_tail(children@, *student, reqs@, inbound@, path@, memo_view(memo@), fuel as nat, i, outs),
                    i == n ==> spec_eval_list(children@, *student, reqs@, inbound@, path@, m0, fuel as nat, 0)
                        == Ok::<Seq<EvalOut>, EvalErrView>(outs),
                    i > 0 ==> outs.last().memo == memo_view(memo@),
                    i == 0 ==> m0 == memo_view(memo@),
                decreases n - i,
            {
                if i == n {
                    break;
                }
                let ghost mcur = memo_view(memo@);
                proof {
                    assert(decreases_to!(*rule => rule->CountOf_children));
                    broadcast use vstd::std_specs::vec::group_vec_axioms;
                    assert(decreases_to!(rule->CountOf_children => rule->CountOf_children[i as int]));
                    assert(children@[i as int] == rule->CountOf_children[i as int]);
                    assert(decreases_to!(*rule => children@[i as int]));
                }
                let pi = path_push(path, i as u64);
                match evaluate_rule(&children[i], student, reqs, inbound, &pi, memo, fuel) {
                    Err(e) => {
                        proof {
                            assert(children@.skip(i as int)[0] == children@[i as int]);
                            assert(children@.skip(i as int).drop_first() =~= children@.skip(
                                i + 1 as int,
                            ));
                        }
                        return Err(e);
                    },
                    Ok(cres) => {
                        let ghost mafter = memo_view(memo@);
                        let ghost outs_old = outs;
                        let ghost o = out_of(cres, mafter);
                        proof {
                            lemma_eval_extends(
                                children@[i as int],
                                *student,
                                reqs@,
                                inbound@,
                                pi@,
                                mcur,
                                fuel as nat,
                            );
                            assert(children@.skip(i as int)[0] == children@[i as int]);
                            assert(children@.skip(i as int).drop_first() =~= children@.skip(
                                i + 1 as int,
                            ));
                            outs = outs.push(o);
                            let tailrest = spec_eval_list(
                                children@.skip(i + 1 as int),
                                *student,
                                reqs@,
                                inbound@,
                                path@,
                                mafter,
                                fuel as nat,
                                (i + 1) as u64,
                            );
                            match tailrest {
                                Ok(rest) => {
                                    assert(outs_old + (seq![o] + rest) =~= outs_old.push(o)
                                        + rest);
                                },
                                Err(_) => {},
                            }
                            if i + 1 == n {
                                assert(children@.skip(n as int) =~= Seq::<Rule>::empty());
                                assert(spec_eval_list(
                                    children@.skip(n as int),
                                    *student,
                                    reqs@,
                                    inbound@,
                                    path@,
                                    mafter,
                                    fuel as nat,
                                    n as u64,
                                ) == Ok::<Seq<EvalOut>, EvalErrView>(Seq::<EvalOut>::empty()));
                                assert(outs_old.push(o) + Seq::<EvalOut>::empty() =~= outs_old.push(
                                    o,
                                ));
                            }
                        }
                        results.push(cres);
                        i = i + 1;
                    },
                }
            }
            let np = count_status_rec(&results, 0, RuleStatus::Pass, Ghost(outs));
            let npend = count_status_rec(&results, 0, RuleStatus::Pending, Ghost(outs));
            let rank = committed_rank_rec(&results, 0, count, Ghost(outs));
            let max_rank = take_max_rank_rec(&results, 0, count, Ghost(outs));
            let resv = count_commit_rec(
                &results,
                0,
                count,
                inbound.clone(),
                inbound.len(),
                Ghost(outs),
            );
            proof {
                assert(outs.skip(0) =~= outs);
            }
            let status = if (np as u128) >= (count as u128) {
                RuleStatus::Pass
            } else if (np as u128) + (npend as u128) >= (count as u128) {
                RuleStatus::Pending
            } else {
                RuleStatus::Fail
            };
            let mut det: Vec<Option<RuleResult>> = Vec::new();
            let mut rem = results;
            while rem.len() > 0
                decreases rem@.len(),
            {
                let head = rem.remove(0);
                det.push(Some(head));
            }
            Ok(
                RuleResult {
                    detail: RuleResultDetails::CountOf(det),
                    reservations: resv,
                    status,
                    rank,
                    max_rank,
                },
            )
        
}

/// The tail view of a child-list evaluation: what the whole list
/// computes once the first `i` children are done with outcomes `outs`.
pub open spec fn spec_eval_list_tail(
    children: Seq<Rule>,
    student: Student,
    reqs: Seq<NamedRule>,
    inbound: Seq<ClaimView>,
    path: Seq<u64>,
    memo: Seq<MemoEntryView>,
    fuel: nat,
    i: usize,
    outs: Seq<EvalOut>,
) -> Result<Seq<EvalOut>, EvalErrView> {
    match spec_eval_list(children.skip(i as int), student, reqs, inbound, path, memo, fuel, i as u64) {
        Err(e) => Err(e),
        Ok(rest) => Ok(outs + rest),
    }
}


/// What one whole audit run computes: the area's root rule against an
/// empty reservation set and memo table, with enough fuel that only a
/// reference cycle can exhaust it.
pub open spec fn spec_audit(area: AreaOfStudy, student: Student) -> Result<EvalOut, EvalErrView> {
    spec_eval(
        area.result,
        student,
        area.requirements@,
        Seq::empty(),
        seq![0u64],
        Seq::empty(),
        (area.requirements@.len() + 1) as nat,
    )
}

/// What `AreaOfStudy::evaluate` promises of its result.
pub open spec fn audit_matches(
    area: AreaOfStudy,
    student: Student,
    r: Result<RuleResult, EvalError>,
) -> bool {
    match r {
        Ok(res) => match spec_audit(area, student) {
            Ok(o) => o.status == res.status && o.rank == res.rank && o.max_rank == res.max_rank
                && o.reservations == res.reservations@,
            Err(_) => false,
        },
        Err(e) => spec_audit(area, student) == Err::<EvalOut, EvalErrView>(e@),
    }
}

impl AreaOfStudy {
    /// Audits a student against this area: walks the root rule with a
    /// fresh reservation set and memo table and returns the result
    /// tree, or the data-integrity error that aborted the run.
    pub fn evaluate(&self, student: &Student) -> (r: Result<RuleResult, EvalError>)
        requires
            self.requirements@.len() < u64::MAX,
        ensures
            audit_matches(*self, *student, r),
    {
        let mut memo: Vec<MemoEntry> = Vec::new();
        let mut path: Vec<u64> = Vec::new();
        path.push(0);
        let inbound = ReservedPairings::new();
        let fuel = self.requirements.len() as u64 + 1;
        proof {
            assert(path@ =~= seq![0u64]);
            assert(memo_view(memo@) =~= Seq::<MemoEntryView>::empty());
        }
        evaluate_rule(&self.result, student, &self.requirements, &inbound, &path, &mut memo, fuel)
    }
}

} // verus!
