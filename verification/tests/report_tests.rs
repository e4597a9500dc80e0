use degreepath::action::{Action, Command, Decimal, Operator, Value};
use degreepath::claim::Claim;
use degreepath::filter::{ProfileKey, StaticPredicateExpression};
use degreepath::report::course::CourseRule;
use degreepath::report::conditional::ConditionalRule;
use degreepath::report::query::{Assertion, QueryRule};
use degreepath::report::{CsvOptions, ProseOptions, Rule};
use degreepath::rule_result::{
    RequirementResult, RuleResult, RuleResultDetails, RuleStatus,
};
use degreepath::rules::{DataType, QuerySource};
use degreepath::student::{Course, Student};

fn course_record(clbid: &str, code: &str) -> Course {
    Course {
        clbid: clbid.to_string(),
        course: code.to_string(),
        name: format!("{} name", code),
        credits: Decimal { hundredths: 100 },
        semester: "Fall".to_string(),
        year: 2015,
        term: "2015-1".to_string(),
        section: String::new(),
        lab: false,
        course_type: String::new(),
        institution: String::new(),
        grade: String::new(),
    }
}

fn student_with(courses: Vec<Course>) -> Student {
    Student {
        stnum: "100001".to_string(),
        name: "A Student".to_string(),
        catalog: "2015-16".to_string(),
        courses,
        areas: Vec::new(),
    }
}

fn claim(clbid: &str) -> Claim {
    Claim {
        clbid: clbid.to_string(),
        path: vec![0],
        credits: Decimal { hundredths: 100 },
    }
}

fn course_rule_report(code: &str, claims: Vec<Claim>, status: RuleStatus) -> CourseRule {
    CourseRule {
        claims,
        status,
        path: vec![0],
        rank: "1".to_string(),
        max_rank: "1".to_string(),
        course: code.to_string(),
        ap: None,
        institution: None,
        clbid: None,
        grade: None,
        name: None,
    }
}

#[test]
fn course_record_shows_taken_course() {
    let student = student_with(vec![course_record("a", "DEPT 111")]);
    let rule = course_rule_report("DEPT 111", vec![claim("a")], RuleStatus::Pass);
    let rec = rule.get_record(&student, false);
    assert_eq!(rec, vec![("DEPT 111".to_string(), "DEPT 111 (2015-1)".to_string())]);
}

#[test]
fn course_record_marks_waived_and_empty_slots() {
    let student = student_with(vec![]);
    let waived = course_rule_report("DEPT 111", vec![], RuleStatus::Waived);
    assert_eq!(
        waived.get_record(&student, false),
        vec![("DEPT 111".to_string(), "<waived>".to_string())]
    );
    let empty = course_rule_report("DEPT 112", vec![], RuleStatus::Empty);
    assert_eq!(
        empty.get_record(&student, false),
        vec![("DEPT 112".to_string(), " ".to_string())]
    );
    let failed = course_rule_report("DEPT 113", vec![], RuleStatus::Fail);
    assert_eq!(
        failed.get_record(&student, false),
        vec![("DEPT 113".to_string(), "Fail".to_string())]
    );
}

fn query_rule_report(assertions: Vec<Assertion>, claims: Vec<Claim>) -> QueryRule {
    QueryRule {
        allow_claimed: false,
        assertions,
        claims,
        data_type: DataType::Course,
        failures: Vec::new(),
        inserted: Vec::new(),
        limit: Vec::new(),
        max_rank: "1".to_string(),
        path: vec![0],
        rank: "1".to_string(),
        source: QuerySource::Courses,
        status: RuleStatus::Pass,
        filter: None,
    }
}

fn count_assertion_resolved(n: u64, clbids: Vec<String>) -> Assertion {
    Assertion {
        assertion: Action {
            lhs: Value::Command(Command::Count),
            op: Some(Operator::GreaterThanEqualTo),
            rhs: Some(Value::Integer(n)),
        },
        resolved_clbids: clbids,
    }
}

#[test]
fn query_claimed_courses_resolve_in_order() {
    let student = student_with(vec![course_record("a", "DEPT A"), course_record("b", "DEPT B")]);
    let q = query_rule_report(vec![], vec![claim("a"), claim("b")]);
    let courses = q.get_claimed_courses(&student);
    assert_eq!(courses.len(), 2);
    assert_eq!(courses[0].course, "DEPT A");
    assert_eq!(courses[1].course, "DEPT B");
}

#[test]
fn query_largest_count() {
    let q = query_rule_report(
        vec![
            count_assertion_resolved(6, vec!["a".to_string()]),
            count_assertion_resolved(
                2,
                vec!["a".to_string(), "b".to_string(), "c".to_string()],
            ),
        ],
        vec![],
    );
    assert_eq!(q.get_largest_count(), 3);
}

#[test]
fn query_row_uses_first_progress_assertion() {
    let q = query_rule_report(
        vec![count_assertion_resolved(6, vec!["a".to_string(), "b".to_string()])],
        vec![],
    );
    assert_eq!(q.get_row(), vec![("count".to_string(), "2".to_string())]);
}

#[test]
fn conditional_record_flattens_branches() {
    let student = student_with(vec![course_record("a", "DEPT 111")]);
    let inner = Rule::Course(course_rule_report("DEPT 111", vec![claim("a")], RuleStatus::Pass));
    let cond = ConditionalRule {
        condition: StaticPredicateExpression {
            key: ProfileKey::Catalog,
            expected: "2015-16".to_string(),
        },
        max_rank: "1".to_string(),
        path: vec![0],
        rank: "1".to_string(),
        status: RuleStatus::Pass,
        when_false: None,
        when_true: Box::new(inner),
    };
    let rec = cond.get_record(&student, &CsvOptions {}, false);
    assert_eq!(
        rec,
        vec![
            ("cond".to_string(), "?".to_string()),
            ("DEPT 111".to_string(), "DEPT 111 (2015-1)".to_string()),
        ]
    );
    assert_eq!(cond.get_requirements(), Vec::<String>::new());
}

#[test]
fn rule_result_constructors() {
    let failed = RuleResult::fail(RuleResultDetails::Requirement(RequirementResult {}));
    assert!(failed.is_fail());
    assert!(!failed.is_pass());
    assert_eq!(failed.status, RuleStatus::Fail);
    assert_eq!(failed.reservations.len(), 0);
    assert_eq!(failed.rank_string(), "0 of 0");
}

#[test]
fn rank_strings_render_fractions() {
    let mut r = RuleResult::fail(RuleResultDetails::Given);
    r.rank = 350;
    r.max_rank = 400;
    assert_eq!(r.rank_string(), "3.50 of 4");
}

#[test]
fn statuses_report_passing_and_waived() {
    assert!(RuleStatus::Pass.is_passing());
    assert!(RuleStatus::Waived.is_passing());
    assert!(RuleStatus::Waived.is_waived());
    assert!(!RuleStatus::Fail.is_passing());
    assert_eq!(RuleStatus::Pending.text(), "Pending");
}

#[test]
fn course_prose_shows_symbol_and_course() {
    let student = student_with(vec![course_record("a", "DEPT 111")]);
    let rule = course_rule_report("DEPT 111", vec![claim("a")], RuleStatus::Pass);
    let prose = rule.to_prose(&student, &ProseOptions { show_paths: true, show_ranks: true }, 0);
    assert_eq!(prose, "path: 0\nrank(t): 1 of 1\n\u{2713} DEPT 111\n");
    let missing = course_rule_report("DEPT 112", vec![], RuleStatus::Fail);
    let prose =
        missing.to_prose(&student, &ProseOptions { show_paths: false, show_ranks: false }, 1);
    assert_eq!(prose, "     DEPT 112\n");
}

#[test]
fn conditional_prose_marks_taken_branch() {
    let student = student_with(vec![course_record("a", "DEPT 111")]);
    let inner = Rule::Course(course_rule_report("DEPT 111", vec![claim("a")], RuleStatus::Pass));
    let cond = ConditionalRule {
        condition: StaticPredicateExpression {
            key: ProfileKey::Catalog,
            expected: "2015-16".to_string(),
        },
        max_rank: "1".to_string(),
        path: vec![0],
        rank: "1".to_string(),
        status: RuleStatus::Pass,
        when_false: None,
        when_true: Box::new(inner),
    };
    let prose = cond.to_prose(&student, &ProseOptions { show_paths: false, show_ranks: false }, 0);
    assert_eq!(
        prose,
        "If: [catalog = 2015-16]\nThen (t.)\n    \u{2713} DEPT 111\n\nElse ()\ndo nothing"
    );
}

#[test]
fn query_prose_lists_claims_and_assertions() {
    let student = student_with(vec![course_record("a", "DEPT A")]);
    let q = query_rule_report(
        vec![count_assertion_resolved(1, vec!["a".to_string()])],
        vec![claim("a")],
    );
    let prose = q.to_prose(&student, &ProseOptions { show_paths: false, show_ranks: false }, 0);
    assert_eq!(
        prose,
        "status: Pass\nMatching courses:\n    - \u{2713} DEPT A DEPT A name (2015-1)\nThere must be:\n    1. at least one\n"
    );
}
