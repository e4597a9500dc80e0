//! Read-only projections of an evaluated rule tree for reporting: the
//! flattened (label, value) records of a node and its descendants, and
//! the requirement path labels used to group reports. Neither affects
//! evaluation.

use vstd::prelude::*;

pub mod conditional;
pub mod course;
pub mod query;

use conditional::{conditional_record, ConditionalRule};
use course::{course_prose, course_rule_cell, path_line, CourseRule};
use query::{query_prose, spec_query_row, QueryRule};

use crate::filter::{predicate_chars, spec_guard_result, TriState};
use crate::student::Student;

verus! {

/// Options for the tabular projection.
#[derive(Debug, Clone, Copy)]
pub struct CsvOptions {}

/// Options for the prose projection.
#[derive(Debug, Clone, Copy)]
pub struct ProseOptions {
    pub show_paths: bool,
    pub show_ranks: bool,
}

/// An evaluated rule node as reports consume it.
#[derive(Debug)]
pub enum Rule {
    Course(CourseRule),
    Query(QueryRule),
    Conditional(Box<ConditionalRule>),
}

/// The flattened (label, value) records of a node and its descendants.
pub open spec fn spec_record(r: Rule, student: Student, is_waived: bool) -> Seq<
    (Seq<char>, Seq<char>),
>
    decreases r,
{
    match r {
        Rule::Course(c) => seq![(c.course@, course_rule_cell(c, student, is_waived))],
        Rule::Query(q) => spec_query_row(q.assertions@),
        Rule::Conditional(c) => {
            let w = is_waived || c.status == crate::rule_result::RuleStatus::Waived;
            seq![("cond"@, "?"@)] + spec_record(*c.when_true, student, w) + (match c.when_false {
                Some(f) => spec_record(*f, student, w),
                None => Seq::empty(),
            })
        },
    }
}

/// The requirement path labels of a node's descendants.
pub open spec fn spec_requirements(r: Rule) -> Seq<Seq<char>>
    decreases r,
{
    match r {
        Rule::Course(_) => Seq::empty(),
        Rule::Query(_) => Seq::empty(),
        Rule::Conditional(c) => spec_requirements(*c.when_true) + (match c.when_false {
            Some(f) => spec_requirements(*f),
            None => Seq::empty(),
        }),
    }
}

impl Rule {
    /// The flattened (label, value) records of this node and its
    /// descendants, with the waived flag inherited from ancestors.
    pub fn get_record(&self, student: &Student, options: &CsvOptions, is_waived: bool) -> (r: Vec<
        (String, String),
    >)
        ensures
            r@.map_values(|p: (String, String)| (p.0@, p.1@)) == spec_record(
                *self,
                *student,
                is_waived,
            ),
        decreases *self,
    {
        match self {
            Rule::Course(c) => {
                let r = c.get_record(student, is_waived);
                proof {
                    assert(r@.map_values(|p: (String, String)| (p.0@, p.1@)) =~= spec_record(
                        *self,
                        *student,
                        is_waived,
                    ));
                }
                r
            },
            Rule::Query(q) => q.get_row(),
            Rule::Conditional(c) => {
                let r = c.get_record(student, options, is_waived);
                proof {
                    assert(conditional_record(**c, *student, is_waived) =~= spec_record(
                        *self,
                        *student,
                        is_waived,
                    ));
                }
                r
            },
        }
    }

    /// The requirement path labels of this node's descendants.
    pub fn get_requirements(&self) -> (r: Vec<String>)
        ensures
            r@.map_values(|s: String| s@) == spec_requirements(*self),
        decreases *self,
    {
        match self {
            Rule::Course(_) => {
                let r: Vec<String> = Vec::new();
                proof {
                    assert(r@.map_values(|s: String| s@) =~= spec_requirements(*self));
                }
                r
            },
            Rule::Query(_) => {
                let r: Vec<String> = Vec::new();
                proof {
                    assert(r@.map_values(|s: String| s@) =~= spec_requirements(*self));
                }
                r
            },
            Rule::Conditional(c) => c.get_requirements(),
        }
    }
}


/// A run of spaces for indenting prose, four per level.
pub open spec fn spaces(k: nat) -> Seq<char>
    decreases k,
{
    if k == 0 {
        Seq::empty()
    } else {
        spaces((k - 1) as nat).push(' ')
    }
}

/// Builds the indent for a nesting level.
pub fn indent_str(level: usize) -> (r: String)
    requires
        level <= 100000,
    ensures
        r@ == spaces((level * 4) as nat),
{
    let n = level * 4;
    let mut v: Vec<char> = Vec::new();
    let mut i: usize = 0;
    while i < n
        invariant
            0 <= i <= n,
            v@ == spaces(i as nat),
        decreases n - i,
    {
        v.push(' ');
        i = i + 1;
    }
    crate::text::string_of(&v)
}

/// A node path in prose: its indices joined by dots.
pub open spec fn path_chars(p: Seq<u64>) -> Seq<char>
    decreases p.len(),
{
    if p.len() == 0 {
        Seq::empty()
    } else if p.len() == 1 {
        crate::text::dec_digits(p[0] as nat)
    } else {
        path_chars(p.drop_last()) + seq!['.'] + crate::text::dec_digits(p.last() as nat)
    }
}

/// Renders a node path.
pub fn path_string(p: &Vec<u64>) -> (r: String)
    ensures
        r@ == path_chars(p@),
{
    proof {
        assert(p@.take(p@.len() as int) =~= p@);
    }
    path_string_upto(p, p.len())
}

fn path_string_upto(p: &Vec<u64>, n: usize) -> (r: String)
    requires
        n <= p@.len(),
    ensures
        r@ == path_chars(p@.take(n as int)),
    decreases n,
{
    if n == 0 {
        proof {
            assert(p@.take(0) =~= Seq::<u64>::empty());
        }
        String::new()
    } else if n == 1 {
        proof {
            assert(p@.take(1).len() == 1);
            assert(p@.take(1)[0] == p@[0]);
        }
        crate::action::u64_to_string(p[0])
    } else {
        let mut out = path_string_upto(p, n - 1);
        proof {
            assert(p@.take(n as int).drop_last() =~= p@.take(n - 1 as int));
            assert(p@.take(n as int).last() == p@[n - 1]);
        }
        crate::text::push_char(&mut out, '.');
        let d = crate::action::u64_to_string(p[n - 1]);
        out.append(d.as_str());
        out
    }
}


/// The child indent for nested prose, capped so that indentation can
/// never overflow.
pub open spec fn child_indent(indent: nat) -> nat {
    if indent + 1 < 100000 {
        indent + 1
    } else {
        indent
    }
}

/// The whole prose block of a conditional rule: the guard, which way it
/// resolved, and both branches.
pub open spec fn conditional_prose(
    c: ConditionalRule,
    student: Student,
    options: ProseOptions,
    indent: nat,
) -> Seq<char>
    decreases c, 0int,
{
    let ind = spaces(indent * 4);
    let g = spec_guard_result(c.condition, student);
    path_line(options.show_paths, ind, c.path@) + ind + "If: ["@ + predicate_chars(c.condition)
        + "]\n"@ + "Then ("@ + (if g == TriState::True {
        "t."@
    } else {
        Seq::<char>::empty()
    }) + ")\n"@ + rule_prose(*c.when_true, student, options, child_indent(indent)) + "\n"@
        + "Else ("@ + (if g == TriState::False {
        "f!"@
    } else {
        Seq::<char>::empty()
    }) + ")\n"@ + (match c.when_false {
        Some(f) => rule_prose(*f, student, options, child_indent(indent)) + "\n"@,
        None => "do nothing"@,
    })
}

/// The prose block of any evaluated rule node.
pub open spec fn rule_prose(r: Rule, student: Student, options: ProseOptions, indent: nat) -> Seq<
    char,
>
    decreases r, 1int,
{
    match r {
        Rule::Course(c) => course_prose(c, student, options, indent),
        Rule::Query(q) => query_prose(q, student, options, indent),
        Rule::Conditional(c) => conditional_prose(*c, student, options, indent),
    }
}

impl ConditionalRule {
    /// Renders this rule as indented prose for a plain-text report.
    #[verifier::rlimit(100)]
    pub fn to_prose(&self, student: &Student, options: &ProseOptions, indent: usize) -> (r:
        String)
        requires
            indent < 100000,
        ensures
            r@ == conditional_prose(*self, *student, *options, indent as nat),
        decreases *self, 0int,
    {
        let ind = indent_str(indent);
        let ghost ind_s = spaces((indent * 4) as nat);
        let branch = self.condition.result(student);
        let ci = if indent + 1 < 100000 {
            indent + 1
        } else {
            indent
        };
        let mut out = String::new();
        if options.show_paths {
            out.append(ind.as_str());
            out.append("path: ");
            let p = path_string(&self.path);
            out.append(p.as_str());
            out.append("\n");
        }
        let ghost pre1 = path_line(options.show_paths, ind_s, self.path@);
        proof {
            assert(out@ =~= pre1);
        }
        out.append(ind.as_str());
        out.append("If: [");
        let ct = self.condition.text();
        out.append(ct.as_str());
        out.append("]\n");
        out.append("Then (");
        if matches!(branch, crate::filter::TriState::True) {
            out.append("t.");
        }
        out.append(")\n");
        let tp = self.when_true.to_prose(student, options, ci);
        out.append(tp.as_str());
        out.append("\n");
        out.append("Else (");
        if matches!(branch, crate::filter::TriState::False) {
            out.append("f!");
        }
        out.append(")\n");
        match &self.when_false {
            Some(f) => {
                let fp = f.to_prose(student, options, ci);
                out.append(fp.as_str());
                out.append("\n");
            },
            None => {
                out.append("do nothing");
            },
        }
        proof {
            assert(out@ =~= conditional_prose(*self, *student, *options, indent as nat));
        }
        out
    }
}

impl Rule {
    /// Renders this node as indented prose for a plain-text report.
    pub fn to_prose(&self, student: &Student, options: &ProseOptions, indent: usize) -> (r:
        String)
        requires
            indent < 100000,
        ensures
            r@ == rule_prose(*self, *student, *options, indent as nat),
        decreases *self, 1int,
    {
        match self {
            Rule::Course(c) => c.to_prose(student, options, indent),
            Rule::Query(q) => q.to_prose(student, options, indent),
            Rule::Conditional(c) => c.to_prose(student, options, indent),
        }
    }
}

} // verus!
