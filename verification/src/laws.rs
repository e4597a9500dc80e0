//! The engine's governing laws, proved once and for all against the
//! interpreter `spec_eval`: exclusivity of claims, the Both rule's
//! status and rank arithmetic, Either's commit-exactly-one policy, the
//! vacuous count-of, the do-nothing conditional, and totality for
//! self-contained rule trees.

use vstd::prelude::*;

use crate::claim::{spec_has_course, ClaimView};
use crate::eval::{
    apply_limits, both_status, claims_of_pool, count_commit, drop_reserved, filter_pool, given_out,
    lemma_eval_extends, lemma_merge_added_extends, merge_added, sat_add, spec_eval, spec_eval_list,
    spec_prefers_left, take_limited, EvalErrView, EvalOut, MemoEntryView, NamedRule,
};
use crate::filter::{spec_guard_result, TriState};
use crate::rule_result::RuleStatus;
use crate::rules::{no_references, no_references_list, GivenRule, Limit, QuerySource, Rule};
use crate::student::{CourseView, Student};

verus! {

/// Whether a successful outcome's added claims all lie under the node's
/// own path.
pub open spec fn scoped_ok(
    inbound: Seq<ClaimView>,
    path: Seq<u64>,
    r: Result<EvalOut, EvalErrView>,
) -> bool {
    match r {
        Ok(o) => forall|j: int|
            inbound.len() <= j < o.reservations.len() ==> path.is_prefix_of(
                (#[trigger] o.reservations[j]).path,
            ),
        Err(_) => true,
    }
}

proof fn lemma_prefix_trans(a: Seq<u64>, b: Seq<u64>, c: Seq<u64>)
    requires
        a.is_prefix_of(b),
        b.is_prefix_of(c),
    ensures
        a.is_prefix_of(c),
{
    assert(a =~= c.subrange(0, a.len() as int));
}

proof fn lemma_prefix_push(p: Seq<u64>, x: u64)
    ensures
        p.is_prefix_of(p.push(x)),
{
    assert(p =~= p.push(x).subrange(0, p.len() as int));
}

/// Every element a merge adds beyond its accumulator came from the
/// added list.
proof fn lemma_merge_added_membership(acc: Seq<ClaimView>, added: Seq<ClaimView>)
    ensures
        forall|j: int|
            acc.len() <= j < merge_added(acc, added).len() ==> added.contains(
                #[trigger] merge_added(acc, added)[j],
            ),
    decreases added.len(),
{
    if added.len() > 0 {
        let rest = added.drop_first();
        let res = merge_added(acc, added);
        if spec_has_course(acc, added[0].clbid) {
            lemma_merge_added_membership(acc, rest);
            assert(res == merge_added(acc, rest));
            assert forall|j: int| acc.len() <= j < res.len() implies added.contains(
                #[trigger] res[j],
            ) by {
                assert(res[j] == merge_added(acc, rest)[j]);
                assert(rest.contains(res[j]));
                let k = choose|k: int| 0 <= k < rest.len() && rest[k] == res[j];
                assert(added[k + 1] == res[j]);
            }
        } else {
            let acc2 = acc.push(added[0]);
            lemma_merge_added_membership(acc2, rest);
            lemma_merge_added_extends(acc2, rest);
            assert(res == merge_added(acc2, rest));
            assert forall|j: int| acc.len() <= j < res.len() implies added.contains(
                #[trigger] res[j],
            ) by {
                if j == acc.len() {
                    assert(acc2.is_prefix_of(res));
                    assert(res[j] == acc2[j]);
                    assert(res[j] == added[0]);
                    assert(added[0int] == added[0]);
                } else {
                    assert(res[j] == merge_added(acc2, rest)[j]);
                    assert(rest.contains(res[j]));
                    let k = choose|k: int| 0 <= k < rest.len() && rest[k] == res[j];
                    assert(added[k + 1] == res[j]);
                }
            }
        }
    }
}

/// Every claim a count-of commit adds beyond its accumulator came from
/// some child's added claims.
proof fn lemma_count_commit_membership(
    acc: Seq<ClaimView>,
    outs: Seq<EvalOut>,
    ilen: int,
    n: int,
)
    ensures
        forall|j: int|
            acc.len() <= j < count_commit(acc, outs, ilen, n).len() ==> exists|k: int|
                0 <= k < outs.len() && (#[trigger] outs[k]).reservations.skip(ilen).contains(
                    #[trigger] count_commit(acc, outs, ilen, n)[j],
                ),
    decreases outs.len(),
{
    if outs.len() > 0 && n > 0 {
        let rest = outs.drop_first();
        let res = count_commit(acc, outs, ilen, n);
        if outs[0].status == RuleStatus::Pass {
            let added = outs[0].reservations.skip(ilen);
            let acc2 = merge_added(acc, added);
            lemma_merge_added_extends(acc, added);
            lemma_merge_added_membership(acc, added);
            lemma_count_commit_membership(acc2, rest, ilen, n - 1);
            assert(res == count_commit(acc2, rest, ilen, n - 1));
            assert forall|j: int| acc.len() <= j < res.len() implies exists|k: int|
                0 <= k < outs.len() && (#[trigger] outs[k]).reservations.skip(ilen).contains(
                    #[trigger] res[j],
                ) by {
                if j < acc2.len() {
                    lemma_count_commit_extends_local(acc2, rest, ilen, n - 1);
                    assert(res[j] == acc2[j]);
                    assert(acc2[j] == merge_added(acc, added)[j]);
                    assert(added.contains(acc2[j]));
                    assert(outs[0int].reservations.skip(ilen).contains(res[j]));
                } else {
                    assert(res[j] == count_commit(acc2, rest, ilen, n - 1)[j]);
                    let k0 = choose|k: int|
                        0 <= k < rest.len() && (#[trigger] rest[k]).reservations.skip(
                            ilen,
                        ).contains(count_commit(acc2, rest, ilen, n - 1)[j]);
                    assert(outs[k0 + 1] == rest[k0]);
                    assert(outs[k0 + 1].reservations.skip(ilen).contains(res[j]));
                }
            }
        } else {
            lemma_count_commit_membership(acc, rest, ilen, n);
            assert(res == count_commit(acc, rest, ilen, n));
            assert forall|j: int| acc.len() <= j < res.len() implies exists|k: int|
                0 <= k < outs.len() && (#[trigger] outs[k]).reservations.skip(ilen).contains(
                    #[trigger] res[j],
                ) by {
                assert(res[j] == count_commit(acc, rest, ilen, n)[j]);
                let k0 = choose|k: int|
                    0 <= k < rest.len() && (#[trigger] rest[k]).reservations.skip(ilen).contains(
                        count_commit(acc, rest, ilen, n)[j],
                    );
                assert(outs[k0 + 1] == rest[k0]);
                assert(outs[k0 + 1].reservations.skip(ilen).contains(res[j]));
            }
        }
    }
}

proof fn lemma_count_commit_extends_local(
    acc: Seq<ClaimView>,
    outs: Seq<EvalOut>,
    ilen: int,
    n: int,
)
    ensures
        acc.is_prefix_of(count_commit(acc, outs, ilen, n)),
{
    crate::eval::lemma_count_commit_extends(acc, outs, ilen, n);
}

/// Claims added by a self-contained rule tree all lie under the tree's
/// own path: tentative branches can never leak claims into one another.
pub proof fn lemma_eval_scoped(
    r: Rule,
    student: Student,
    reqs: Seq<NamedRule>,
    inbound: Seq<ClaimView>,
    path: Seq<u64>,
    memo: Seq<MemoEntryView>,
    fuel: nat,
)
    requires
        no_references(r),
    ensures
        scoped_ok(inbound, path, spec_eval(r, student, reqs, inbound, path, memo, fuel)),
    decreases fuel, r,
{
    match r {
        Rule::Course(_) => {
            assert(path.is_prefix_of(path)) by {
                assert(path =~= path.subrange(0, path.len() as int));
            }
        },
        Rule::Given(_) => {
            assert(path.is_prefix_of(path)) by {
                assert(path =~= path.subrange(0, path.len() as int));
            }
        },
        Rule::Requirement(_) => {},
        Rule::Conditional(c) => {
            lemma_prefix_push(path, 0);
            lemma_prefix_push(path, 1);
            match spec_guard_result(c.condition, student) {
                TriState::True => {
                    lemma_eval_scoped(c.when_true, student, reqs, inbound, path.push(0), memo, fuel);
                    match spec_eval(c.when_true, student, reqs, inbound, path.push(0), memo, fuel) {
                        Ok(o) => {
                            assert forall|j: int|
                                inbound.len() <= j < o.reservations.len() implies path.is_prefix_of(
                                (#[trigger] o.reservations[j]).path,
                            ) by {
                                lemma_prefix_trans(path, path.push(0), o.reservations[j].path);
                            }
                        },
                        Err(_) => {},
                    }
                },
                TriState::False => {
                    match c.when_false {
                        Some(f) => {
                            lemma_eval_scoped(f, student, reqs, inbound, path.push(1), memo, fuel);
                            match spec_eval(f, student, reqs, inbound, path.push(1), memo, fuel) {
                                Ok(o) => {
                                    assert forall|j: int|
                                        inbound.len() <= j
                                            < o.reservations.len() implies path.is_prefix_of(
                                        (#[trigger] o.reservations[j]).path,
                                    ) by {
                                        lemma_prefix_trans(
                                            path,
                                            path.push(1),
                                            o.reservations[j].path,
                                        );
                                    }
                                },
                                Err(_) => {},
                            }
                        },
                        None => {},
                    }
                },
                TriState::Unknown => {},
            }
        },
        Rule::Both { left, right } => {
            lemma_prefix_push(path, 0);
            lemma_prefix_push(path, 1);
            lemma_eval_scoped(*left, student, reqs, inbound, path.push(0), memo, fuel);
            lemma_eval_extends(*left, student, reqs, inbound, path.push(0), memo, fuel);
            match spec_eval(*left, student, reqs, inbound, path.push(0), memo, fuel) {
                Err(_) => {},
                Ok(lo) => {
                    lemma_eval_scoped(
                        *right,
                        student,
                        reqs,
                        lo.reservations,
                        path.push(1),
                        lo.memo,
                        fuel,
                    );
                    lemma_eval_extends(
                        *right,
                        student,
                        reqs,
                        lo.reservations,
                        path.push(1),
                        lo.memo,
                        fuel,
                    );
                    match spec_eval(
                        *right,
                        student,
                        reqs,
                        lo.reservations,
                        path.push(1),
                        lo.memo,
                        fuel,
                    ) {
                        Err(_) => {},
                        Ok(ro) => {
                            assert forall|j: int|
                                inbound.len() <= j
                                    < ro.reservations.len() implies path.is_prefix_of(
                                (#[trigger] ro.reservations[j]).path,
                            ) by {
                                if j < lo.reservations.len() {
                                    assert(ro.reservations[j] == lo.reservations[j]);
                                    lemma_prefix_trans(
                                        path,
                                        path.push(0),
                                        lo.reservations[j].path,
                                    );
                                } else {
                                    lemma_prefix_trans(
                                        path,
                                        path.push(1),
                                        ro.reservations[j].path,
                                    );
                                }
                            }
                        },
                    }
                },
            }
        },
        Rule::Either { left, right } => {
            lemma_prefix_push(path, 0);
            lemma_prefix_push(path, 1);
            lemma_eval_scoped(*left, student, reqs, inbound, path.push(0), memo, fuel);
            match spec_eval(*left, student, reqs, inbound, path.push(0), memo, fuel) {
                Err(_) => {},
                Ok(lo) => {
                    lemma_eval_scoped(*right, student, reqs, inbound, path.push(1), lo.memo, fuel);
                    match spec_eval(*right, student, reqs, inbound, path.push(1), lo.memo, fuel) {
                        Err(_) => {},
                        Ok(ro) => {
                            assert forall|j: int|
                                inbound.len() <= j < lo.reservations.len() implies path.is_prefix_of(
                                (#[trigger] lo.reservations[j]).path,
                            ) by {
                                lemma_prefix_trans(path, path.push(0), lo.reservations[j].path);
                            }
                            assert forall|j: int|
                                inbound.len() <= j < ro.reservations.len() implies path.is_prefix_of(
                                (#[trigger] ro.reservations[j]).path,
                            ) by {
                                lemma_prefix_trans(path, path.push(1), ro.reservations[j].path);
                            }
                        },
                    }
                },
            }
        },
        Rule::CountOf { count, children } => {
            lemma_eval_list_scoped(children@, student, reqs, inbound, path, memo, fuel, 0);
            match spec_eval_list(children@, student, reqs, inbound, path, memo, fuel, 0) {
                Err(_) => {},
                Ok(outs) => {
                    lemma_count_commit_membership(
                        inbound,
                        outs,
                        inbound.len() as int,
                        count as int,
                    );
                    assert(forall|k: int|
                        0 <= k < outs.len() ==> inbound.len() <= (
                        #[trigger] outs[k]).reservations.len());
                    let res = count_commit(inbound, outs, inbound.len() as int, count as int);
                    assert forall|j: int|
                        inbound.len() <= j < res.len() implies path.is_prefix_of(
                        (#[trigger] res[j]).path,
                    ) by {
                        assert(exists|k: int|
                            0 <= k < outs.len() && (#[trigger] outs[k]).reservations.skip(
                                inbound.len() as int,
                            ).contains(res[j]));
                        let k = choose|k: int|
                            0 <= k < outs.len() && (#[trigger] outs[k]).reservations.skip(
                                inbound.len() as int,
                            ).contains(res[j]);
                        let added = outs[k].reservations.skip(inbound.len() as int);
                        let j2 = choose|j2: int| 0 <= j2 < added.len() && added[j2] == res[j];
                        assert(added[j2] == outs[k].reservations[j2 + inbound.len()]);
                        assert(path.is_prefix_of(outs[k].reservations[j2 + inbound.len()].path));
                    }
                },
            }
        },
    }
}

/// The per-child form of the scoping law for count-of children.
pub proof fn lemma_eval_list_scoped(
    children: Seq<Rule>,
    student: Student,
    reqs: Seq<NamedRule>,
    inbound: Seq<ClaimView>,
    path: Seq<u64>,
    memo: Seq<MemoEntryView>,
    fuel: nat,
    idx: u64,
)
    requires
        no_references_list(children),
    ensures
        (spec_eval_list(children, student, reqs, inbound, path, memo, fuel, idx) matches Ok(outs)
            ==> forall|k: int, j: int|
            0 <= k < outs.len() && inbound.len() <= j < (#[trigger] outs[k]).reservations.len()
                ==> path.is_prefix_of(#[trigger] outs[k].reservations[j].path)),
        (spec_eval_list(children, student, reqs, inbound, path, memo, fuel, idx) matches Ok(outs)
            ==> forall|k: int|
            0 <= k < outs.len() ==> inbound.len() <= (#[trigger] outs[k]).reservations.len()),
    decreases fuel, children,
{
    if children.len() > 0 {
        lemma_prefix_push(path, idx);
        lemma_eval_scoped(children[0], student, reqs, inbound, path.push(idx), memo, fuel);
        lemma_eval_extends(children[0], student, reqs, inbound, path.push(idx), memo, fuel);
        match spec_eval(children[0], student, reqs, inbound, path.push(idx), memo, fuel) {
            Err(_) => {},
            Ok(o) => {
                lemma_eval_list_scoped(
                    children.drop_first(),
                    student,
                    reqs,
                    inbound,
                    path,
                    memo.add(Seq::empty()),
                    fuel,
                    (idx + 1) as u64,
                );
                lemma_eval_list_scoped(
                    children.drop_first(),
                    student,
                    reqs,
                    inbound,
                    path,
                    o.memo,
                    fuel,
                    (idx + 1) as u64,
                );
                match spec_eval_list(
                    children.drop_first(),
                    student,
                    reqs,
                    inbound,
                    path,
                    o.memo,
                    fuel,
                    (idx + 1) as u64,
                ) {
                    Err(_) => {},
                    Ok(rest) => {
                        let outs = seq![o] + rest;
                        assert forall|k: int|
                            0 <= k < outs.len() implies inbound.len() <= (
                        #[trigger] outs[k]).reservations.len() by {
                            if k == 0 {
                                assert(outs[0] == o);
                            } else {
                                assert(outs[k] == rest[k - 1]);
                            }
                        }
                        assert forall|k: int, j: int|
                            0 <= k < outs.len() && inbound.len() <= j < (
                            #[trigger] outs[k]).reservations.len() implies path.is_prefix_of(
                            #[trigger] outs[k].reservations[j].path,
                        ) by {
                            if k == 0 {
                                assert(outs[0] == o);
                                lemma_prefix_trans(
                                    path,
                                    path.push(idx),
                                    o.reservations[j].path,
                                );
                            } else {
                                assert(outs[k] == rest[k - 1]);
                            }
                        }
                    },
                }
            },
        }
    }
}


proof fn lemma_take_limited_subset(pool: Seq<CourseView>, l: Limit, k: int)
    ensures
        forall|x: CourseView| take_limited(pool, l, k).contains(x) ==> pool.contains(x),
    decreases pool.len(),
{
    if pool.len() > 0 {
        let rest = pool.drop_first();
        lemma_take_limited_subset(rest, l, k);
        lemma_take_limited_subset(rest, l, k - 1);
        lemma_take_limited_subset(rest, l, 0);
        assert forall|x: CourseView| take_limited(pool, l, k).contains(x) implies pool.contains(
            x,
        ) by {
            let res = take_limited(pool, l, k);
            let j = choose|j: int| 0 <= j < res.len() && res[j] == x;
            if crate::filter::spec_filter_matches(l.filter, pool[0]) {
                if k > 0 {
                    if j == 0 {
                        assert(pool[0int] == x);
                    } else {
                        assert(take_limited(rest, l, k - 1).contains(x)) by {
                            assert(take_limited(rest, l, k - 1)[j - 1] == x);
                        }
                        assert(rest.contains(x));
                        let j2 = choose|j2: int|
                            0 <= j2 < rest.len() && rest[j2] == x;
                        assert(rest[j2] == x);
                        assert(pool[j2 + 1] == rest[j2]);
                    }
                } else {
                    assert(take_limited(rest, l, 0).contains(x)) by {
                        assert(take_limited(rest, l, 0)[j] == x);
                    }
                    assert(rest.contains(x));
                    let j2 = choose|j2: int| 0 <= j2 < rest.len() && rest[j2] == x;
                    assert(rest[j2] == x);
                    assert(pool[j2 + 1] == rest[j2]);
                }
            } else {
                if j == 0 {
                    assert(pool[0int] == x);
                } else {
                    assert(take_limited(rest, l, k).contains(x)) by {
                        assert(take_limited(rest, l, k)[j - 1] == x);
                    }
                    assert(rest.contains(x));
                    let j2 = choose|j2: int| 0 <= j2 < rest.len() && rest[j2] == x;
                    assert(rest[j2] == x);
                    assert(pool[j2 + 1] == rest[j2]);
                }
            }
        }
    }
}

proof fn lemma_apply_limits_subset(limits: Seq<Limit>, pool: Seq<CourseView>)
    ensures
        forall|x: CourseView| apply_limits(limits, pool).contains(x) ==> pool.contains(x),
    decreases limits.len(),
{
    if limits.len() > 0 {
        let capped = take_limited(pool, limits[0], limits[0].at_most as int);
        lemma_take_limited_subset(pool, limits[0], limits[0].at_most as int);
        lemma_apply_limits_subset(limits.drop_first(), capped);
    }
}

proof fn lemma_drop_reserved_fresh(pool: Seq<CourseView>, inbound: Seq<ClaimView>)
    ensures
        forall|x: CourseView|
            drop_reserved(pool, inbound).contains(x) ==> !spec_has_course(inbound, x.clbid),
    decreases pool.len(),
{
    if pool.len() > 0 {
        let rest = pool.drop_first();
        lemma_drop_reserved_fresh(rest, inbound);
        assert forall|x: CourseView|
            drop_reserved(pool, inbound).contains(x) implies !spec_has_course(
            inbound,
            x.clbid,
        ) by {
            let res = drop_reserved(pool, inbound);
            let j = choose|j: int| 0 <= j < res.len() && res[j] == x;
            if spec_has_course(inbound, pool[0].clbid) {
                assert(drop_reserved(rest, inbound)[j] == x);
                assert(drop_reserved(rest, inbound).contains(x));
            } else {
                if j == 0 {
                    assert(x == pool[0int]);
                } else {
                    assert(drop_reserved(rest, inbound)[j - 1] == x);
                    assert(drop_reserved(rest, inbound).contains(x));
                }
            }
        }
    }
}

/// The exclusivity law for queries: a query that does not allow shared
/// claims never claims a record that the inbound reservation set, and
/// so any sibling evaluated before it, already holds.
pub proof fn lemma_query_claims_exclusive(
    q: GivenRule,
    student: Student,
    inbound: Seq<ClaimView>,
    path: Seq<u64>,
    memo: Seq<MemoEntryView>,
)
    requires
        !q.allow_claimed,
        q.source == QuerySource::Courses,
    ensures
        forall|j: int|
            inbound.len() <= j < given_out(q, student, inbound, path, memo).reservations.len()
                ==> !spec_has_course(
                inbound,
                (#[trigger] given_out(q, student, inbound, path, memo).reservations[j]).clbid,
            ),
{
    let all = student.courses@.map_values(|c: crate::student::Course| c@);
    let matched = filter_pool(all, q.filter);
    let candidates = drop_reserved(matched, inbound);
    let pool = apply_limits(q.limit@, candidates);
    lemma_apply_limits_subset(q.limit@, candidates);
    lemma_drop_reserved_fresh(matched, inbound);
    let o = given_out(q, student, inbound, path, memo);
    assert forall|j: int|
        inbound.len() <= j < o.reservations.len() implies !spec_has_course(
        inbound,
        (#[trigger] o.reservations[j]).clbid,
    ) by {
        let claims = claims_of_pool(pool, path);
        assert(o.reservations == inbound + claims);
        assert(o.reservations[j] == claims[j - inbound.len()]);
        let c = pool[j - inbound.len()];
        assert(claims[j - inbound.len()] == crate::eval::claim_of(c, path));
        assert(pool.contains(c)) by {
            assert(pool[j - inbound.len()] == c);
        }
        assert(candidates.contains(c));
        assert(!spec_has_course(inbound, c.clbid));
    }
}

/// The sibling form of the exclusivity law: under a Both node whose
/// right child is such a query, no record the left child claimed is
/// claimed again by the right child.
pub proof fn lemma_no_double_claim(
    r: Rule,
    q: GivenRule,
    student: Student,
    reqs: Seq<NamedRule>,
    inbound: Seq<ClaimView>,
    path: Seq<u64>,
    memo: Seq<MemoEntryView>,
    fuel: nat,
    lo: EvalOut,
)
    requires
        (r matches Rule::Both { left, right } && spec_eval(
            *left,
            student,
            reqs,
            inbound,
            path.push(0),
            memo,
            fuel,
        ) == Ok::<EvalOut, EvalErrView>(lo) && *right == Rule::Given(q)),
        !q.allow_claimed,
        q.source == QuerySource::Courses,
    ensures
        (spec_eval(r, student, reqs, inbound, path, memo, fuel) matches Ok(o) ==> forall|j: int|
            lo.reservations.len() <= j < o.reservations.len() ==> !spec_has_course(
                lo.reservations,
                (#[trigger] o.reservations[j]).clbid,
            )),
{
    let right = r->Both_right;
    lemma_query_claims_exclusive(q, student, lo.reservations, path.push(1), lo.memo);
    let ro = given_out(q, student, lo.reservations, path.push(1), lo.memo);
    assert(spec_eval(*right, student, reqs, lo.reservations, path.push(1), lo.memo, fuel) == Ok::<
        EvalOut,
        EvalErrView,
    >(ro));
}

/// The Both law: the pair passes exactly when both children pass, and
/// its rank is exactly the sum of the children's ranks.
pub proof fn lemma_both_status_and_rank(
    r: Rule,
    student: Student,
    reqs: Seq<NamedRule>,
    inbound: Seq<ClaimView>,
    path: Seq<u64>,
    memo: Seq<MemoEntryView>,
    fuel: nat,
    lo: EvalOut,
    ro: EvalOut,
)
    requires
        (r matches Rule::Both { left, right } && spec_eval(
            *left,
            student,
            reqs,
            inbound,
            path.push(0),
            memo,
            fuel,
        ) == Ok::<EvalOut, EvalErrView>(lo) && spec_eval(
            *right,
            student,
            reqs,
            lo.reservations,
            path.push(1),
            lo.memo,
            fuel,
        ) == Ok::<EvalOut, EvalErrView>(ro)),
    ensures
        (spec_eval(r, student, reqs, inbound, path, memo, fuel) matches Ok(o) && o.status
            == both_status(lo.status, ro.status) && o.rank == sat_add(lo.rank, ro.rank)
            && o.reservations == ro.reservations),
        (spec_eval(r, student, reqs, inbound, path, memo, fuel)->Ok_0.status == RuleStatus::Pass
            <==> lo.status == RuleStatus::Pass && ro.status == RuleStatus::Pass),
        lo.rank + ro.rank <= u64::MAX ==> spec_eval(
            r,
            student,
            reqs,
            inbound,
            path,
            memo,
            fuel,
        )->Ok_0.rank == lo.rank + ro.rank,
{
}

/// The Either law: exactly one child's reservations are committed, and
/// when both children are self-contained trees, no claim the discarded
/// child added ever appears in the committed set.
pub proof fn lemma_either_commits_one(
    r: Rule,
    student: Student,
    reqs: Seq<NamedRule>,
    inbound: Seq<ClaimView>,
    path: Seq<u64>,
    memo: Seq<MemoEntryView>,
    fuel: nat,
    lo: EvalOut,
    ro: EvalOut,
)
    requires
        (r matches Rule::Either { left, right } && no_references(*left) && no_references(*right)
            && spec_eval(*left, student, reqs, inbound, path.push(0), memo, fuel) == Ok::<
            EvalOut,
            EvalErrView,
        >(lo) && spec_eval(*right, student, reqs, inbound, path.push(1), lo.memo, fuel) == Ok::<
            EvalOut,
            EvalErrView,
        >(ro)),
        forall|j: int|
            0 <= j < inbound.len() ==> !path.is_prefix_of((#[trigger] inbound[j]).path),
    ensures
        (spec_eval(r, student, reqs, inbound, path, memo, fuel) matches Ok(o) && (o.reservations
            == lo.reservations || o.reservations == ro.reservations)),
        spec_prefers_left(lo.status, lo.rank, lo.max_rank, ro.status, ro.rank, ro.max_rank)
            ==> spec_eval(r, student, reqs, inbound, path, memo, fuel)->Ok_0.reservations
            == lo.reservations,
        spec_prefers_left(lo.status, lo.rank, lo.max_rank, ro.status, ro.rank, ro.max_rank)
            ==> forall|j: int|
            inbound.len() <= j < ro.reservations.len() ==> !spec_eval(
                r,
                student,
                reqs,
                inbound,
                path,
                memo,
                fuel,
            )->Ok_0.reservations.contains(#[trigger] ro.reservations[j]),
        !spec_prefers_left(lo.status, lo.rank, lo.max_rank, ro.status, ro.rank, ro.max_rank)
            ==> forall|j: int|
            inbound.len() <= j < lo.reservations.len() ==> !spec_eval(
                r,
                student,
                reqs,
                inbound,
                path,
                memo,
                fuel,
            )->Ok_0.reservations.contains(#[trigger] lo.reservations[j]),
{
    let left = r->Either_left;
    let right = r->Either_right;
    lemma_eval_scoped(*left, student, reqs, inbound, path.push(0), memo, fuel);
    lemma_eval_scoped(*right, student, reqs, inbound, path.push(1), lo.memo, fuel);
    lemma_eval_extends(*left, student, reqs, inbound, path.push(0), memo, fuel);
    lemma_eval_extends(*right, student, reqs, inbound, path.push(1), lo.memo, fuel);
    lemma_prefix_push(path, 0);
    lemma_prefix_push(path, 1);
    let keep_left = spec_prefers_left(lo.status, lo.rank, lo.max_rank, ro.status, ro.rank, ro.max_rank);
    if keep_left {
        assert forall|j: int|
            inbound.len() <= j < ro.reservations.len() implies !lo.reservations.contains(
            #[trigger] ro.reservations[j],
        ) by {
            let c = ro.reservations[j];
            assert(path.push(1).is_prefix_of(c.path));
            lemma_prefix_index(path.push(1), c.path, path.len() as int);
            assert(c.path[path.len() as int] == 1);
            if lo.reservations.contains(c) {
                let k = choose|k: int|
                    0 <= k < lo.reservations.len() && lo.reservations[k] == c;
                if k < inbound.len() {
                    assert(inbound.is_prefix_of(lo.reservations));
                    assert(inbound[k] == c);
                    lemma_prefix_trans(path, path.push(1), c.path);
                    assert(false);
                } else {
                    assert(path.push(0).is_prefix_of(c.path));
                    lemma_prefix_index(path.push(0), c.path, path.len() as int);
                    assert(c.path[path.len() as int] == 0);
                    assert(false);
                }
            }
        }
    } else {
        assert forall|j: int|
            inbound.len() <= j < lo.reservations.len() implies !ro.reservations.contains(
            #[trigger] lo.reservations[j],
        ) by {
            let c = lo.reservations[j];
            assert(path.push(0).is_prefix_of(c.path));
            lemma_prefix_index(path.push(0), c.path, path.len() as int);
            assert(c.path[path.len() as int] == 0);
            if ro.reservations.contains(c) {
                let k = choose|k: int|
                    0 <= k < ro.reservations.len() && ro.reservations[k] == c;
                if k < inbound.len() {
                    assert(inbound.is_prefix_of(ro.reservations));
                    assert(inbound[k] == c);
                    lemma_prefix_trans(path, path.push(0), c.path);
                    assert(false);
                } else {
                    assert(path.push(1).is_prefix_of(c.path));
                    lemma_prefix_index(path.push(1), c.path, path.len() as int);
                    assert(c.path[path.len() as int] == 1);
                    assert(false);
                }
            }
        }
    }
}


proof fn lemma_prefix_index(p: Seq<u64>, q: Seq<u64>, i: int)
    requires
        p.is_prefix_of(q),
        0 <= i < p.len(),
    ensures
        q[i] == p[i],
{
    assert(q.subrange(0, p.len() as int)[i] == q[i]);
}

/// The vacuous count-of law: requiring zero of the children passes
/// trivially, with a zero rank pair and no claims committed.
pub proof fn lemma_count_of_zero_vacuous(
    r: Rule,
    student: Student,
    reqs: Seq<NamedRule>,
    inbound: Seq<ClaimView>,
    path: Seq<u64>,
    memo: Seq<MemoEntryView>,
    fuel: nat,
)
    requires
        (r matches Rule::CountOf { count, children } && count == 0),
        spec_eval(r, student, reqs, inbound, path, memo, fuel) is Ok,
    ensures
        (spec_eval(r, student, reqs, inbound, path, memo, fuel) matches Ok(o) && o.status
            == RuleStatus::Pass && o.rank == 0 && o.max_rank == 0 && o.reservations == inbound),
{
    let children = r->CountOf_children;
    match spec_eval_list(children@, student, reqs, inbound, path, memo, fuel, 0) {
        Err(_) => {},
        Ok(outs) => {
            crate::eval::lemma_count_with_status_bound_pub(outs, RuleStatus::Pass);
        },
    }
}

/// The do-nothing conditional law: a false guard with no false-branch
/// passes trivially, with a zero rank pair and no claims.
pub proof fn lemma_conditional_default_pass(
    r: Rule,
    student: Student,
    reqs: Seq<NamedRule>,
    inbound: Seq<ClaimView>,
    path: Seq<u64>,
    memo: Seq<MemoEntryView>,
    fuel: nat,
)
    requires
        (r matches Rule::Conditional(c) && spec_guard_result(c.condition, student)
            == TriState::False && c.when_false is None),
    ensures
        (spec_eval(r, student, reqs, inbound, path, memo, fuel) matches Ok(o) && o.status
            == RuleStatus::Pass && o.rank == 0 && o.max_rank == 0 && o.reservations == inbound
            && o.memo == memo),
{
}

/// Totality: a rule tree without requirement references never aborts.
pub proof fn lemma_eval_total(
    r: Rule,
    student: Student,
    reqs: Seq<NamedRule>,
    inbound: Seq<ClaimView>,
    path: Seq<u64>,
    memo: Seq<MemoEntryView>,
    fuel: nat,
)
    requires
        no_references(r),
    ensures
        spec_eval(r, student, reqs, inbound, path, memo, fuel) is Ok,
    decreases fuel, r,
{
    match r {
        Rule::Course(_) => {},
        Rule::Given(_) => {},
        Rule::Requirement(_) => {},
        Rule::Conditional(c) => {
            match spec_guard_result(c.condition, student) {
                TriState::True => {
                    lemma_eval_total(c.when_true, student, reqs, inbound, path.push(0), memo, fuel);
                },
                TriState::False => {
                    match c.when_false {
                        Some(f) => {
                            lemma_eval_total(f, student, reqs, inbound, path.push(1), memo, fuel);
                        },
                        None => {},
                    }
                },
                TriState::Unknown => {},
            }
        },
        Rule::Both { left, right } => {
            lemma_eval_total(*left, student, reqs, inbound, path.push(0), memo, fuel);
            let lo = spec_eval(*left, student, reqs, inbound, path.push(0), memo, fuel)->Ok_0;
            lemma_eval_total(*right, student, reqs, lo.reservations, path.push(1), lo.memo, fuel);
        },
        Rule::Either { left, right } => {
            lemma_eval_total(*left, student, reqs, inbound, path.push(0), memo, fuel);
            let lo = spec_eval(*left, student, reqs, inbound, path.push(0), memo, fuel)->Ok_0;
            lemma_eval_total(*right, student, reqs, inbound, path.push(1), lo.memo, fuel);
        },
        Rule::CountOf { children, .. } => {
            lemma_eval_list_total(children@, student, reqs, inbound, path, memo, fuel, 0);
        },
    }
}

pub proof fn lemma_eval_list_total(
    children: Seq<Rule>,
    student: Student,
    reqs: Seq<NamedRule>,
    inbound: Seq<ClaimView>,
    path: Seq<u64>,
    memo: Seq<MemoEntryView>,
    fuel: nat,
    idx: u64,
)
    requires
        no_references_list(children),
    ensures
        spec_eval_list(children, student, reqs, inbound, path, memo, fuel, idx) is Ok,
    decreases fuel, children,
{
    if children.len() > 0 {
        lemma_eval_total(children[0], student, reqs, inbound, path.push(idx), memo, fuel);
        let o = spec_eval(children[0], student, reqs, inbound, path.push(idx), memo, fuel)->Ok_0;
        lemma_eval_list_total(
            children.drop_first(),
            student,
            reqs,
            inbound,
            path,
            o.memo,
            fuel,
            (idx + 1) as u64,
        );
    }
}

} // verus!
