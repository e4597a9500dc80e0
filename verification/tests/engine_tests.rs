use degreepath::action::{Action, Command, Decimal, Operator, Value};
use degreepath::eval::{AreaOfStudy, NamedRule};
use degreepath::filter::{
    CompoundPredicate, CourseAttribute, FilterClause, ProfileKey, StaticPredicateExpression,
};
use degreepath::rule_result::RuleStatus;
use degreepath::rules::{course, requirement, Conditional, GivenRule, QuerySource, Rule};
use degreepath::student::{Course, Student};

fn course_record(clbid: &str, code: &str, credits_hundredths: u64, semester: &str) -> Course {
    Course {
        clbid: clbid.to_string(),
        course: code.to_string(),
        name: format!("{} name", code),
        credits: Decimal { hundredths: credits_hundredths },
        semester: semester.to_string(),
        year: 2015,
        term: "2015-1".to_string(),
        section: String::new(),
        lab: false,
        course_type: String::new(),
        institution: String::new(),
        grade: String::new(),
    }
}

fn student_with(courses: Vec<Course>) -> Student {
    Student {
        stnum: "100001".to_string(),
        name: "A Student".to_string(),
        catalog: "2015-16".to_string(),
        courses,
        areas: Vec::new(),
    }
}

fn area_with(result: Rule) -> AreaOfStudy {
    AreaOfStudy {
        name: "Example Major".to_string(),
        catalog: "2015-16".to_string(),
        requirements: Vec::new(),
        result,
    }
}

fn course_rule(code: &str) -> Rule {
    Rule::Course(course::Rule { course: code.to_string(), ..Default::default() })
}

fn count_assertion(n: u64) -> Action {
    Action {
        lhs: Value::Command(Command::Count),
        op: Some(Operator::GreaterThanEqualTo),
        rhs: Some(Value::Integer(n)),
    }
}

fn sum_assertion(n: u64) -> Action {
    Action {
        lhs: Value::Command(Command::Sum),
        op: Some(Operator::GreaterThanEqualTo),
        rhs: Some(Value::Integer(n)),
    }
}

#[test]
fn interim_query_passes() {
    // filter "semester = Interim", assertions [sum(credits) >= 3,
    // count >= 3], three Interim courses totaling 3.5 credits
    let student = student_with(vec![
        course_record("c1", "DEPT 101", 100, "Interim"),
        course_record("c2", "DEPT 102", 100, "Interim"),
        course_record("c3", "DEPT 103", 150, "Interim"),
        course_record("c4", "DEPT 104", 400, "Fall"),
    ]);
    let query = Rule::Given(GivenRule {
        source: QuerySource::Courses,
        filter: Some(CompoundPredicate {
            clauses: vec![FilterClause {
                key: CourseAttribute::Semester,
                op: Operator::EqualTo,
                value: Value::String("Interim".to_string()),
            }],
        }),
        limit: Vec::new(),
        assertions: vec![sum_assertion(3), count_assertion(3)],
        allow_claimed: false,
    });
    let res = area_with(query).evaluate(&student).unwrap();
    assert_eq!(res.status, RuleStatus::Pass);
    assert!(res.is_pass());
    assert_eq!(res.reservations.len(), 3);
}

#[test]
fn either_prefers_higher_ratio() {
    // left child fails with rank 2 of 4, right child fails with rank 3
    // of 4; the right child's claims are the ones committed
    let student = student_with(vec![
        course_record("a", "DEPT A", 100, "Fall"),
        course_record("b", "DEPT B", 100, "Fall"),
        course_record("c", "DEPT C", 100, "Fall"),
    ]);
    let left = Rule::CountOf {
        count: 4,
        children: vec![
            course_rule("DEPT A"),
            course_rule("DEPT B"),
            course_rule("DEPT X"),
            course_rule("DEPT Y"),
        ],
    };
    let right = Rule::CountOf {
        count: 4,
        children: vec![
            course_rule("DEPT A"),
            course_rule("DEPT B"),
            course_rule("DEPT C"),
            course_rule("DEPT Y"),
        ],
    };
    let either = Rule::Either { left: Box::new(left), right: Box::new(right) };
    let res = area_with(either).evaluate(&student).unwrap();
    assert_eq!(res.status, RuleStatus::Fail);
    assert!(res.is_fail());
    assert_eq!(res.rank_string(), "3 of 4");
    assert_eq!(res.reservations.len(), 3);
}

#[test]
fn conditional_without_else_passes() {
    // a false guard with no when_false branch does nothing and passes
    let student = student_with(vec![course_record("a", "DEPT A", 100, "Fall")]);
    let cond = Rule::Conditional(Box::new(Conditional {
        condition: StaticPredicateExpression {
            key: ProfileKey::Catalog,
            expected: "1999-00".to_string(),
        },
        when_true: course_rule("DEPT MISSING"),
        when_false: None,
    }));
    let res = area_with(cond).evaluate(&student).unwrap();
    assert_eq!(res.status, RuleStatus::Pass);
    assert_eq!(res.rank_string(), "0 of 0");
    assert_eq!(res.reservations.len(), 0);
}

#[test]
fn unresolved_guard_is_pending() {
    let student = student_with(vec![]);
    let cond = Rule::Conditional(Box::new(Conditional {
        condition: StaticPredicateExpression {
            key: ProfileKey::MusicPerformances,
            expected: String::new(),
        },
        when_true: course_rule("DEPT A"),
        when_false: None,
    }));
    let res = area_with(cond).evaluate(&student).unwrap();
    assert_eq!(res.status, RuleStatus::Pending);
    assert_eq!(res.reservations.len(), 0);
}

#[test]
fn count_of_zero_is_vacuous() {
    let student = student_with(vec![]);
    let rule = Rule::CountOf { count: 0, children: vec![course_rule("DEPT A")] };
    let res = area_with(rule).evaluate(&student).unwrap();
    assert_eq!(res.status, RuleStatus::Pass);
    assert_eq!(res.rank, 0);
    assert_eq!(res.max_rank, 0);
    assert_eq!(res.reservations.len(), 0);
}

#[test]
fn both_sums_ranks() {
    let student = student_with(vec![
        course_record("a", "DEPT A", 100, "Fall"),
        course_record("b", "DEPT B", 100, "Fall"),
    ]);
    let both = Rule::Both {
        left: Box::new(course_rule("DEPT A")),
        right: Box::new(course_rule("DEPT B")),
    };
    let res = area_with(both).evaluate(&student).unwrap();
    assert_eq!(res.status, RuleStatus::Pass);
    assert_eq!(res.rank_string(), "2 of 2");
    assert_eq!(res.reservations.len(), 2);
}

#[test]
fn claimed_course_is_not_reclaimed() {
    // the same single course cannot satisfy both sides of a Both
    let student = student_with(vec![course_record("a", "DEPT A", 100, "Fall")]);
    let both = Rule::Both {
        left: Box::new(course_rule("DEPT A")),
        right: Box::new(course_rule("DEPT A")),
    };
    let res = area_with(both).evaluate(&student).unwrap();
    assert_eq!(res.status, RuleStatus::Fail);
    assert_eq!(res.reservations.len(), 1);
}

#[test]
fn query_skips_reserved_courses() {
    let student = student_with(vec![course_record("a", "DEPT A", 100, "Fall")]);
    let query = |_n: u64| {
        Rule::Given(GivenRule {
            source: QuerySource::Courses,
            filter: None,
            limit: Vec::new(),
            assertions: vec![count_assertion(1)],
            allow_claimed: false,
        })
    };
    let both = Rule::Both { left: Box::new(query(1)), right: Box::new(query(1)) };
    let res = area_with(both).evaluate(&student).unwrap();
    assert_eq!(res.status, RuleStatus::Fail);
    assert_eq!(res.reservations.len(), 1);
}

#[test]
fn named_requirement_is_memoized() {
    // both references to the same named requirement share one
    // evaluation and one set of claims
    let student = student_with(vec![course_record("a", "DEPT A", 100, "Fall")]);
    let named = NamedRule {
        name: "Core".to_string(),
        rule: course_rule("DEPT A"),
    };
    let reference = || {
        Rule::Requirement(requirement::RequirementRule {
            requirement: "Core".to_string(),
            optional: false,
        })
    };
    let area = AreaOfStudy {
        name: "Example Major".to_string(),
        catalog: "2015-16".to_string(),
        requirements: vec![named],
        result: Rule::Both { left: Box::new(reference()), right: Box::new(reference()) },
    };
    let res = area.evaluate(&student).unwrap();
    assert_eq!(res.status, RuleStatus::Pass);
    assert_eq!(res.reservations.len(), 1);
}

#[test]
fn unknown_requirement_is_an_error() {
    let student = student_with(vec![]);
    let area = AreaOfStudy {
        name: "Example Major".to_string(),
        catalog: "2015-16".to_string(),
        requirements: Vec::new(),
        result: Rule::Requirement(requirement::RequirementRule {
            requirement: "Missing".to_string(),
            optional: false,
        }),
    };
    let err = area.evaluate(&student).unwrap_err();
    match err {
        degreepath::eval::EvalError::UnknownRequirement(name) => assert_eq!(name, "Missing"),
        other => panic!("unexpected error: {:?}", other),
    }
}

#[test]
fn optional_unknown_requirement_is_skipped() {
    let student = student_with(vec![]);
    let area = AreaOfStudy {
        name: "Example Major".to_string(),
        catalog: "2015-16".to_string(),
        requirements: Vec::new(),
        result: Rule::Requirement(requirement::RequirementRule {
            requirement: "Missing".to_string(),
            optional: true,
        }),
    };
    let res = area.evaluate(&student).unwrap();
    assert_eq!(res.status, RuleStatus::Skipped);
}

#[test]
fn limits_cap_the_pool() {
    // a limit of one Fall course keeps the count below the quota
    let student = student_with(vec![
        course_record("a", "DEPT A", 100, "Fall"),
        course_record("b", "DEPT B", 100, "Fall"),
    ]);
    let query = Rule::Given(GivenRule {
        source: QuerySource::Courses,
        filter: None,
        limit: vec![degreepath::rules::Limit {
            filter: CompoundPredicate {
                clauses: vec![FilterClause {
                    key: CourseAttribute::Semester,
                    op: Operator::EqualTo,
                    value: Value::String("Fall".to_string()),
                }],
            },
            at_most: 1,
        }],
        assertions: vec![count_assertion(2)],
        allow_claimed: false,
    });
    let res = area_with(query).evaluate(&student).unwrap();
    assert_eq!(res.status, RuleStatus::Fail);
    assert_eq!(res.reservations.len(), 1);
}

#[test]
fn requirement_cycle_exhausts_depth() {
    // a requirement that references itself can only be a cycle
    let student = student_with(vec![]);
    let named = NamedRule {
        name: "Loop".to_string(),
        rule: Rule::Requirement(requirement::RequirementRule {
            requirement: "Loop".to_string(),
            optional: false,
        }),
    };
    let area = AreaOfStudy {
        name: "Example Major".to_string(),
        catalog: "2015-16".to_string(),
        requirements: vec![named],
        result: Rule::Requirement(requirement::RequirementRule {
            requirement: "Loop".to_string(),
            optional: false,
        }),
    };
    let err = area.evaluate(&student).unwrap_err();
    assert!(matches!(err, degreepath::eval::EvalError::DepthExceeded));
}

#[test]
fn average_of_empty_pool_fails() {
    let student = student_with(vec![]);
    let query = Rule::Given(GivenRule {
        source: QuerySource::Courses,
        filter: None,
        limit: Vec::new(),
        assertions: vec![Action {
            lhs: Value::Command(Command::Average),
            op: Some(Operator::GreaterThanEqualTo),
            rhs: Some(Value::Decimal(Decimal { hundredths: 200 })),
        }],
        allow_claimed: false,
    });
    let res = area_with(query).evaluate(&student).unwrap();
    assert_eq!(res.status, RuleStatus::Fail);
}

#[test]
fn minimum_and_maximum_compare_credits() {
    let student = student_with(vec![
        course_record("a", "DEPT A", 100, "Fall"),
        course_record("b", "DEPT B", 350, "Fall"),
    ]);
    let query = |cmd: Command, op: Operator, h: u64| {
        Rule::Given(GivenRule {
            source: QuerySource::Courses,
            filter: None,
            limit: Vec::new(),
            assertions: vec![Action {
                lhs: Value::Command(cmd),
                op: Some(op),
                rhs: Some(Value::Decimal(Decimal { hundredths: h })),
            }],
            allow_claimed: false,
        })
    };
    // minimum credit is 1.00, maximum is 3.50
    let res = area_with(query(Command::Minimum, Operator::EqualTo, 100))
        .evaluate(&student)
        .unwrap();
    assert_eq!(res.status, RuleStatus::Pass);
    let res = area_with(query(Command::Maximum, Operator::GreaterThan, 350))
        .evaluate(&student)
        .unwrap();
    assert_eq!(res.status, RuleStatus::Fail);
}

#[test]
fn average_promotes_against_integer_target() {
    // two courses of 1.00 and 3.50 credits average 2.25
    let student = student_with(vec![
        course_record("a", "DEPT A", 100, "Fall"),
        course_record("b", "DEPT B", 350, "Fall"),
    ]);
    let query = |op: Operator, v: Value| {
        Rule::Given(GivenRule {
            source: QuerySource::Courses,
            filter: None,
            limit: Vec::new(),
            assertions: vec![Action {
                lhs: Value::Command(Command::Average),
                op: Some(op),
                rhs: Some(v),
            }],
            allow_claimed: false,
        })
    };
    let res = area_with(query(Operator::GreaterThan, Value::Integer(2)))
        .evaluate(&student)
        .unwrap();
    assert_eq!(res.status, RuleStatus::Pass);
    let res =
        area_with(query(Operator::GreaterThanEqualTo, Value::Decimal(Decimal { hundredths: 226 })))
            .evaluate(&student)
            .unwrap();
    assert_eq!(res.status, RuleStatus::Fail);
}
