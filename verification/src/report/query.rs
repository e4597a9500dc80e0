//! The evaluated form of a query rule as reports consume it: the
//! records it claimed, the records it could not re-claim, and the
//! assertions with the records that satisfied them.

use vstd::prelude::*;

use crate::action::{
    action_canonical, action_prose, action_prose_defined, command_chars, spec_print_action, Action,
    Command, Value,
};
use crate::filter::clauses_chars;
use crate::report::course::{path_line, rank_line};
use crate::report::{spaces, ProseOptions};
use crate::rule_result::status_chars;
use crate::student::{symbol_chars, verbose_chars};
use crate::claim::Claim;
use crate::filter::CompoundPredicate;
use crate::rule_result::RuleStatus;
use crate::rules::{DataType, Limit, QuerySource};
use crate::student::{spec_find_course, Course, Student};
use crate::text::dec_digits;

verus! {

/// One quota check of a query, with the records that resolved it.
#[derive(Debug)]
pub struct Assertion {
    pub assertion: Action,
    /// The identifiers of the records counted toward this assertion.
    pub resolved_clbids: Vec<String>,
}

/// The label a report gives an assertion: its aggregate keyword, or
/// "value" when the left side is not a command.
pub open spec fn assertion_label(a: Action) -> Seq<char> {
    match a.lhs {
        Value::Command(c) => command_chars(c),
        _ => "value"@,
    }
}

impl Assertion {
    /// The identifiers of the records counted toward this assertion.
    pub fn get_clbids(&self) -> (r: Vec<String>)
        ensures
            r@.map_values(|s: String| s@) == self.resolved_clbids@.map_values(|s: String| s@),
    {
        let mut r: Vec<String> = Vec::new();
        let mut i: usize = 0;
        while i < self.resolved_clbids.len()
            invariant
                0 <= i <= self.resolved_clbids@.len(),
                r@.len() == i,
                forall|j: int| 0 <= j < i ==> r@[j]@ == self.resolved_clbids@[j]@,
            decreases self.resolved_clbids@.len() - i,
        {
            r.push(self.resolved_clbids[i].clone());
            i = i + 1;
        }
        proof {
            assert(r@.map_values(|s: String| s@) =~= self.resolved_clbids@.map_values(
                |s: String| s@,
            ));
        }
        r
    }

    /// How many records resolved this assertion.
    pub fn get_size(&self) -> (n: usize)
        ensures
            n == self.resolved_clbids@.len(),
    {
        self.resolved_clbids.len()
    }

    /// Whether this assertion counts courses or credits, the quantities
    /// degree progress is charted by.
    pub fn is_course_or_credit(&self) -> (b: bool)
        ensures
            b == (self.assertion.lhs@ matches crate::action::ValueView::Command(c) && (c
                == Command::Count || c == Command::Sum)),
    {
        match &self.assertion.lhs {
            Value::Command(Command::Count) => true,
            Value::Command(Command::Sum) => true,
            _ => false,
        }
    }

    /// Whether this assertion demands at least its target.
    pub fn is_at_least(&self) -> (b: bool)
        ensures
            b == (self.assertion.op == Some(Operator::GreaterThanEqualTo)),
    {
        matches!(self.assertion.op, Some(Operator::GreaterThanEqualTo))
    }

    /// The (label, value) cell for this assertion: its aggregate
    /// keyword, and how many records resolved it.
    pub fn get_row(&self) -> (r: Vec<(String, String)>)
        ensures
            r@.len() == 1,
            r@[0].0@ == assertion_label(self.assertion),
            r@[0].1@ == dec_digits(self.resolved_clbids@.len() as nat),
    {
        let label = match &self.assertion.lhs {
            Value::Command(c) => crate::action::Command::text(c),
            _ => String::from_str("value"),
        };
        let value = crate::action::u64_to_string(self.resolved_clbids.len() as u64);
        let mut r: Vec<(String, String)> = Vec::new();
        r.push((label, value));
        r
    }
}

/// The evaluated query rule, as stored in an audit result.
#[derive(Debug)]
pub struct QueryRule {
    pub allow_claimed: bool,
    pub assertions: Vec<Assertion>,
    pub claims: Vec<Claim>,
    pub data_type: DataType,
    /// Records that matched but were already reserved elsewhere.
    pub failures: Vec<Claim>,
    /// Records administratively inserted rather than taken from the
    /// transcript.
    pub inserted: Vec<String>,
    pub limit: Vec<Limit>,
    pub max_rank: String,
    pub path: Vec<u64>,
    pub rank: String,
    pub source: QuerySource,
    pub status: RuleStatus,
    pub filter: Option<CompoundPredicate>,
}

use crate::action::Operator;

impl QueryRule {
    /// The transcript records this rule's claims consumed, in claim
    /// order; claims naming records absent from the transcript are
    /// data-integrity failures and are skipped.
    pub fn get_claimed_courses<'a>(&self, student: &'a Student) -> (r: Vec<&'a Course>)
        ensures
            forall|j: int|
                0 <= j < r@.len() ==> spec_find_course(student.courses@, (#[trigger] r@[j])@.clbid)
                    == Some(*r@[j]),
            (forall|i: int|
                0 <= i < self.claims@.len() ==> spec_find_course(
                    student.courses@,
                    (#[trigger] self.claims@[i])@.clbid,
                ) is Some) ==> r@.len() == self.claims@.len(),
    {
        let mut r: Vec<&'a Course> = Vec::new();
        let mut i: usize = 0;
        let mut missed = false;
        while i < self.claims.len()
            invariant
                0 <= i <= self.claims@.len(),
                forall|j: int|
                    0 <= j < r@.len() ==> spec_find_course(
                        student.courses@,
                        (#[trigger] r@[j])@.clbid,
                    ) == Some(*r@[j]),
                !missed ==> r@.len() == i,
                missed ==> exists|k: int|
                    0 <= k < i && spec_find_course(
                        student.courses@,
                        (#[trigger] self.claims@[k])@.clbid,
                    ) is None,
            decreases self.claims@.len() - i,
        {
            match student.get_class_by_clbid(self.claims[i].clbid.as_str()) {
                Some(c) => {
                    proof {
                        crate::student::lemma_find_course_clbid(
                            student.courses@,
                            self.claims@[i as int].clbid@,
                        );
                        assert(c@.clbid == self.claims@[i as int].clbid@);
                    }
                    r.push(c);
                },
                None => {
                    proof {
                        assert(spec_find_course(
                            student.courses@,
                            self.claims@[i as int]@.clbid,
                        ) is None);
                    }
                    missed = true;
                },
            }
            i = i + 1;
        }
        r
    }

    /// The largest record count any assertion resolved.
    pub fn get_largest_count(&self) -> (n: usize)
        ensures
            forall|i: int| 0 <= i < self.assertions@.len() ==> (#[trigger] self.assertions@[i]).resolved_clbids@.len() <= n,
            self.assertions@.len() == 0 ==> n == 0,
            self.assertions@.len() > 0 ==> exists|i: int|
                0 <= i < self.assertions@.len() && (#[trigger] self.assertions@[i]).resolved_clbids@.len() == n,
    {
        let mut n: usize = 0;
        let mut i: usize = 0;
        while i < self.assertions.len()
            invariant
                0 <= i <= self.assertions@.len(),
                forall|j: int| 0 <= j < i ==> (#[trigger] self.assertions@[j]).resolved_clbids@.len() <= n,
                i == 0 ==> n == 0,
                i > 0 ==> exists|j: int|
                    0 <= j < i && (#[trigger] self.assertions@[j]).resolved_clbids@.len() == n,
            decreases self.assertions@.len() - i,
        {
            let sz = self.assertions[i].get_size();
            if i == 0 || sz > n {
                n = sz;
            }
            i = i + 1;
        }
        n
    }

    /// The tabular cells for this rule: the first at-least course or
    /// credit assertion, which is what degree progress is charted by.
    pub fn get_row(&self) -> (r: Vec<(String, String)>)
        ensures
            r@.map_values(|p: (String, String)| (p.0@, p.1@)) == spec_query_row(
                self.assertions@,
            ),
    {
        proof {
            assert(self.assertions@.skip(0) =~= self.assertions@);
        }
        query_row_from(&self.assertions, 0)
    }

    /// Queries name no requirements of their own.
    pub fn get_requirements(&self) -> (r: Vec<String>)
        ensures
            r@.len() == 0,
    {
        Vec::new()
    }
}


/// Whether an assertion charts progress: an at-least check on courses
/// or credits.
pub open spec fn charts_progress(a: Assertion) -> bool {
    (a.assertion.lhs@ matches crate::action::ValueView::Command(c) && (c == Command::Count || c
        == Command::Sum)) && a.assertion.op == Some(Operator::GreaterThanEqualTo)
}

/// The row of the first progress-charting assertion, if any.
pub open spec fn spec_query_row(asserts: Seq<Assertion>) -> Seq<(Seq<char>, Seq<char>)>
    decreases asserts.len(),
{
    if asserts.len() == 0 {
        Seq::empty()
    } else if charts_progress(asserts[0]) {
        seq![
            (assertion_label(asserts[0].assertion), dec_digits(
                asserts[0].resolved_clbids@.len() as nat,
            )),
        ]
    } else {
        spec_query_row(asserts.drop_first())
    }
}

fn query_row_from(asserts: &Vec<Assertion>, i: usize) -> (r: Vec<(String, String)>)
    requires
        i <= asserts@.len(),
    ensures
        r@.map_values(|p: (String, String)| (p.0@, p.1@)) == spec_query_row(
            asserts@.skip(i as int),
        ),
    decreases asserts@.len() - i,
{
    if i == asserts.len() {
        let r: Vec<(String, String)> = Vec::new();
        proof {
            assert(asserts@.skip(i as int) =~= Seq::<Assertion>::empty());
            assert(r@.map_values(|p: (String, String)| (p.0@, p.1@)) =~= Seq::<
                (Seq<char>, Seq<char>),
            >::empty());
        }
        r
    } else {
        proof {
            assert(asserts@.skip(i as int)[0] == asserts@[i as int]);
            assert(asserts@.skip(i as int).drop_first() =~= asserts@.skip(i + 1 as int));
        }
        let a = &asserts[i];
        if a.is_course_or_credit() && a.is_at_least() {
            let row = a.get_row();
            proof {
                assert(row@.map_values(|p: (String, String)| (p.0@, p.1@)) =~= spec_query_row(
                    asserts@.skip(i as int),
                ));
            }
            row
        } else {
            query_row_from(asserts, i + 1)
        }
    }
}


/// Whether a string list holds the given characters.
pub open spec fn str_in(ss: Seq<Seq<char>>, x: Seq<char>) -> bool {
    exists|i: int| 0 <= i < ss.len() && ss[i] == x
}

fn contains_str(v: &Vec<String>, s: &str) -> (b: bool)
    ensures
        b == str_in(v@.map_values(|t: String| t@), s@),
{
    let ghost ss = v@.map_values(|t: String| t@);
    proof {
        assert(ss.len() == v@.len());
    }
    let mut i: usize = 0;
    while i < v.len()
        invariant
            0 <= i <= v@.len(),
            ss == v@.map_values(|t: String| t@),
            ss.len() == v@.len(),
            forall|j: int| 0 <= j < i ==> (#[trigger] ss[j]) != s@,
        decreases v@.len() - i,
    {
        proof {
            assert(ss[i as int] == v@[i as int]@);
        }
        if crate::student::str_eq(v[i].as_str(), s) {
            return true;
        }
        i = i + 1;
    }
    false
}

/// One assertion as prose: its report wording, its canonical form when
/// it has no wording, or a marker for an ill-formed assertion.
pub open spec fn assertion_line(a: Action) -> Seq<char> {
    if action_prose_defined(a@) {
        action_prose(a@)
    } else if action_canonical(a@) {
        spec_print_action(a@)
    } else {
        "unprintable"@
    }
}

fn assertion_line_string(a: &Action) -> (r: String)
    ensures
        r@ == assertion_line(*a),
{
    match a.print() {
        Ok(s) => s,
        Err(_) => {
            match a.canonical_string() {
                Ok(s) => s,
                Err(_) => String::from_str("unprintable"),
            }
        },
    }
}

/// The limit lines of a query's prose.
pub open spec fn limits_chars(ls: Seq<crate::rules::Limit>, ind: Seq<char>) -> Seq<char>
    decreases ls.len(),
{
    if ls.len() == 0 {
        Seq::empty()
    } else {
        ind + "- at most "@ + dec_digits(ls[0].at_most as nat) + " matching "@ + clauses_chars(
            ls[0].filter.clauses@,
        ) + "\n"@ + limits_chars(ls.drop_first(), ind)
    }
}

fn limits_string_from(ls: &Vec<crate::rules::Limit>, i: usize, ind: &String) -> (r: String)
    requires
        i <= ls@.len(),
    ensures
        r@ == limits_chars(ls@.skip(i as int), ind@),
    decreases ls@.len() - i,
{
    if i == ls.len() {
        proof {
            assert(ls@.skip(i as int) =~= Seq::<crate::rules::Limit>::empty());
        }
        String::new()
    } else {
        proof {
            assert(ls@.skip(i as int)[0] == ls@[i as int]);
            assert(ls@.skip(i as int).drop_first() =~= ls@.skip(i + 1 as int));
        }
        let mut out = ind.clone();
        out.append("- at most ");
        let n = crate::action::u64_to_string(ls[i].at_most);
        out.append(n.as_str());
        out.append(" matching ");
        let f = ls[i].filter.text();
        out.append(f.as_str());
        out.append("\n");
        let rest = limits_string_from(ls, i + 1, ind);
        out.append(rest.as_str());
        out
    }
}

/// The claim lines of a query's prose: one record per line, inserted
/// records marked, missing records named by identifier.
pub open spec fn claims_chars(
    cs: Seq<Claim>,
    student: Student,
    inserted: Seq<Seq<char>>,
    passing: bool,
    ind2: Seq<char>,
) -> Seq<char>
    decreases cs.len(),
{
    if cs.len() == 0 {
        Seq::empty()
    } else {
        let mark = if str_in(inserted, cs[0].clbid@) {
            "[ins] "@
        } else {
            Seq::<char>::empty()
        };
        let body = match spec_find_course(student.courses@, cs[0].clbid@) {
            Some(c) => symbol_chars(passing) + " "@ + verbose_chars(c@),
            None => "missing record "@ + cs[0].clbid@,
        };
        ind2 + "- "@ + mark + body + "\n"@ + claims_chars(
            cs.drop_first(),
            student,
            inserted,
            passing,
            ind2,
        )
    }
}

#[verifier::rlimit(100)]
fn claims_string_from(
    cs: &Vec<Claim>,
    i: usize,
    student: &Student,
    inserted: &Vec<String>,
    status: &RuleStatus,
    ind2: &String,
) -> (r: String)
    requires
        i <= cs@.len(),
    ensures
        r@ == claims_chars(
            cs@.skip(i as int),
            *student,
            inserted@.map_values(|t: String| t@),
            *status == RuleStatus::Pass || *status == RuleStatus::Waived,
            ind2@,
        ),
    decreases cs@.len() - i,
{
    if i == cs.len() {
        proof {
            assert(cs@.skip(i as int) =~= Seq::<Claim>::empty());
        }
        String::new()
    } else {
        proof {
            assert(cs@.skip(i as int)[0] == cs@[i as int]);
            assert(cs@.skip(i as int).drop_first() =~= cs@.skip(i + 1 as int));
        }
        let mut out = ind2.clone();
        out.append("- ");
        if contains_str(inserted, cs[i].clbid.as_str()) {
            out.append("[ins] ");
        }
        match student.get_class_by_clbid(cs[i].clbid.as_str()) {
            Some(c) => {
                out.append(c.calculate_symbol(status));
                out.append(" ");
                let v = c.verbose();
                out.append(v.as_str());
            },
            None => {
                out.append("missing record ");
                out.append(cs[i].clbid.as_str());
            },
        }
        out.append("\n");
        let rest = claims_string_from(cs, i + 1, student, inserted, status, ind2);
        out.append(rest.as_str());
        out
    }
}

/// The pre-claimed lines of a query's prose.
pub open spec fn failures_chars(cs: Seq<Claim>, student: Student, ind2: Seq<char>) -> Seq<char>
    decreases cs.len(),
{
    if cs.len() == 0 {
        Seq::empty()
    } else {
        let body = match spec_find_course(student.courses@, cs[0].clbid@) {
            Some(c) => verbose_chars(c@),
            None => cs[0].clbid@,
        };
        ind2 + "- "@ + body + "\n"@ + failures_chars(cs.drop_first(), student, ind2)
    }
}

fn failures_string_from(cs: &Vec<Claim>, i: usize, student: &Student, ind2: &String) -> (r:
    String)
    requires
        i <= cs@.len(),
    ensures
        r@ == failures_chars(cs@.skip(i as int), *student, ind2@),
    decreases cs@.len() - i,
{
    if i == cs.len() {
        proof {
            assert(cs@.skip(i as int) =~= Seq::<Claim>::empty());
        }
        String::new()
    } else {
        proof {
            assert(cs@.skip(i as int)[0] == cs@[i as int]);
            assert(cs@.skip(i as int).drop_first() =~= cs@.skip(i + 1 as int));
        }
        let mut out = ind2.clone();
        out.append("- ");
        match student.get_class_by_clbid(cs[i].clbid.as_str()) {
            Some(c) => {
                let v = c.verbose();
                out.append(v.as_str());
            },
            None => {
                out.append(cs[i].clbid.as_str());
            },
        }
        out.append("\n");
        let rest = failures_string_from(cs, i + 1, student, ind2);
        out.append(rest.as_str());
        out
    }
}

/// The numbered assertion lines of a query's prose.
pub open spec fn asserts_chars(asserts: Seq<Assertion>, ind2: Seq<char>, k: nat) -> Seq<char>
    decreases asserts.len(),
{
    if asserts.len() == 0 {
        Seq::empty()
    } else {
        ind2 + dec_digits(k) + ". "@ + assertion_line(asserts[0].assertion) + "\n"@
            + asserts_chars(asserts.drop_first(), ind2, k + 1)
    }
}

fn asserts_string_from(asserts: &Vec<Assertion>, i: usize, ind2: &String) -> (r: String)
    requires
        i <= asserts@.len(),
    ensures
        r@ == asserts_chars(asserts@.skip(i as int), ind2@, (i + 1) as nat),
    decreases asserts@.len() - i,
{
    if i == asserts.len() {
        proof {
            assert(asserts@.skip(i as int) =~= Seq::<Assertion>::empty());
        }
        String::new()
    } else {
        proof {
            assert(asserts@.skip(i as int)[0] == asserts@[i as int]);
            assert(asserts@.skip(i as int).drop_first() =~= asserts@.skip(i + 1 as int));
        }
        let mut out = ind2.clone();
        let n = crate::action::u64_to_string((i as u64) + 1);
        out.append(n.as_str());
        out.append(". ");
        let line = assertion_line_string(&asserts[i].assertion);
        out.append(line.as_str());
        out.append("\n");
        let rest = asserts_string_from(asserts, i + 1, ind2);
        out.append(rest.as_str());
        out
    }
}

/// The heading of a query's prose block: path, rank, status, filter
/// and limits.
pub open spec fn query_prose_head(q: QueryRule, options: ProseOptions, indent: nat) -> Seq<char> {
    let ind = spaces(indent * 4);
    let passing = q.status == RuleStatus::Pass || q.status == RuleStatus::Waived;
    path_line(options.show_paths, ind, q.path@) + rank_line(
        options.show_ranks,
        ind,
        passing,
        q.rank@,
        q.max_rank@,
    ) + ind + "status: "@ + status_chars(q.status) + "\n"@ + (match q.filter {
        Some(f) => ind + "Given courses matching "@ + clauses_chars(f.clauses@) + "\n"@,
        None => Seq::<char>::empty(),
    }) + (if q.limit@.len() > 0 {
        ind + "Subject to these limits:\n"@ + limits_chars(q.limit@, ind)
    } else {
        Seq::<char>::empty()
    })
}

/// The body of a query's prose block: the claimed and pre-claimed
/// records and the numbered assertions.
pub open spec fn query_prose_tail(q: QueryRule, student: Student, indent: nat) -> Seq<char> {
    let ind = spaces(indent * 4);
    let ind2 = spaces((indent + 1) * 4);
    let passing = q.status == RuleStatus::Pass || q.status == RuleStatus::Waived;
    (if q.claims@.len() > 0 {
        ind + "Matching courses:\n"@ + claims_chars(
            q.claims@,
            student,
            q.inserted@.map_values(|t: String| t@),
            passing,
            ind2,
        )
    } else {
        Seq::<char>::empty()
    }) + (if q.failures@.len() > 0 {
        ind + "Pre-claimed courses which cannot be re-claimed:\n"@ + failures_chars(
            q.failures@,
            student,
            ind2,
        )
    } else {
        Seq::<char>::empty()
    }) + ind + "There must be:\n"@ + asserts_chars(q.assertions@, ind2, 1)
}

/// The whole prose block of a query rule: status, filter, limits, the
/// claimed and pre-claimed records, and the numbered assertions.
pub open spec fn query_prose(
    q: QueryRule,
    student: Student,
    options: ProseOptions,
    indent: nat,
) -> Seq<char> {
    query_prose_head(q, options, indent) + query_prose_tail(q, student, indent)
}

#[verifier::rlimit(100)]
fn query_head_string(q: &QueryRule, options: &ProseOptions, indent: usize) -> (r: String)
    requires
        indent < 100000,
    ensures
        r@ == query_prose_head(*q, *options, indent as nat),
{
    let ind = crate::report::indent_str(indent);
    let ghost ind_s = spaces((indent * 4) as nat);
    let mut out = String::new();
    if options.show_paths {
        out.append(ind.as_str());
        out.append("path: ");
        let p = crate::report::path_string(&q.path);
        out.append(p.as_str());
        out.append("\n");
    }
    let ghost pre1 = path_line(options.show_paths, ind_s, q.path@);
    proof {
        assert(out@ =~= pre1);
    }
    if options.show_ranks {
        out.append(ind.as_str());
        out.append("rank(");
        out.append(if q.status.is_passing() { "t" } else { "f" });
        out.append("): ");
        out.append(q.rank.as_str());
        out.append(" of ");
        out.append(q.max_rank.as_str());
        out.append("\n");
    }
    let ghost passing = q.status == RuleStatus::Pass || q.status == RuleStatus::Waived;
    let ghost pre2 = pre1 + rank_line(options.show_ranks, ind_s, passing, q.rank@, q.max_rank@);
    proof {
        assert(out@ =~= pre2);
    }
    out.append(ind.as_str());
    out.append("status: ");
    out.append(q.status.text());
    out.append("\n");
    let ghost pre3 = pre2 + ind_s + "status: "@ + status_chars(q.status) + "\n"@;
    proof {
        assert(out@ =~= pre3);
    }
    if let Some(f) = &q.filter {
        out.append(ind.as_str());
        out.append("Given courses matching ");
        let t = f.text();
        out.append(t.as_str());
        out.append("\n");
    }
    let ghost pre4 = pre3 + (match &q.filter {
        Some(f) => ind_s + "Given courses matching "@ + clauses_chars(f.clauses@) + "\n"@,
        None => Seq::<char>::empty(),
    });
    proof {
        assert(out@ =~= pre4);
    }
    if q.limit.len() > 0 {
        out.append(ind.as_str());
        out.append("Subject to these limits:\n");
        let t = limits_string_from(&q.limit, 0, &ind);
        proof {
            assert(q.limit@.skip(0) =~= q.limit@);
        }
        out.append(t.as_str());
    }
    proof {
        assert(out@ =~= query_prose_head(*q, *options, indent as nat));
    }
    out
}

#[verifier::rlimit(100)]
fn query_tail_string(q: &QueryRule, student: &Student, indent: usize) -> (r: String)
    requires
        indent < 100000,
    ensures
        r@ == query_prose_tail(*q, *student, indent as nat),
{
    let ind = crate::report::indent_str(indent);
    let ind2 = crate::report::indent_str(indent + 1);
    let ghost ind_s = spaces((indent * 4) as nat);
    let ghost ind2_s = spaces(((indent + 1) * 4) as nat);
    let ghost passing = q.status == RuleStatus::Pass || q.status == RuleStatus::Waived;
    let mut out = String::new();
    if q.claims.len() > 0 {
        out.append(ind.as_str());
        out.append("Matching courses:\n");
        let t = claims_string_from(&q.claims, 0, student, &q.inserted, &q.status, &ind2);
        proof {
            assert(q.claims@.skip(0) =~= q.claims@);
        }
        out.append(t.as_str());
    }
    let ghost pre6 = (if q.claims@.len() > 0 {
        ind_s + "Matching courses:\n"@ + claims_chars(
            q.claims@,
            *student,
            q.inserted@.map_values(|t: String| t@),
            passing,
            ind2_s,
        )
    } else {
        Seq::<char>::empty()
    });
    proof {
        assert(out@ =~= pre6);
    }
    if q.failures.len() > 0 {
        out.append(ind.as_str());
        out.append("Pre-claimed courses which cannot be re-claimed:\n");
        let t = failures_string_from(&q.failures, 0, student, &ind2);
        proof {
            assert(q.failures@.skip(0) =~= q.failures@);
        }
        out.append(t.as_str());
    }
    let ghost pre7 = pre6 + (if q.failures@.len() > 0 {
        ind_s + "Pre-claimed courses which cannot be re-claimed:\n"@ + failures_chars(
            q.failures@,
            *student,
            ind2_s,
        )
    } else {
        Seq::<char>::empty()
    });
    proof {
        assert(out@ =~= pre7);
    }
    out.append(ind.as_str());
    out.append("There must be:\n");
    let t = asserts_string_from(&q.assertions, 0, &ind2);
    proof {
        assert(q.assertions@.skip(0) =~= q.assertions@);
    }
    out.append(t.as_str());
    proof {
        assert(out@ =~= query_prose_tail(*q, *student, indent as nat));
    }
    out
}

impl QueryRule {
    /// Renders this rule as indented prose for a plain-text report.
    pub fn to_prose(&self, student: &Student, options: &ProseOptions, indent: usize) -> (r:
        String)
        requires
            indent < 100000,
        ensures
            r@ == query_prose(*self, *student, *options, indent as nat),
    {
        let mut out = query_head_string(self, options, indent);
        let t = query_tail_string(self, student, indent);
        out.append(t.as_str());
        out
    }
}

} // verus!
