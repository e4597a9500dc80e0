//! The evaluated form of a conditional rule as reports consume it.

use vstd::prelude::*;

use crate::filter::StaticPredicateExpression;
use crate::report::{spec_record, spec_requirements, CsvOptions, Rule};
use crate::rule_result::RuleStatus;
use crate::student::Student;

verus! {

/// The evaluated conditional rule, as stored in an audit result.
#[derive(Debug)]
pub struct ConditionalRule {
    pub condition: StaticPredicateExpression,
    pub max_rank: String,
    pub path: Vec<u64>,
    pub rank: String,
    pub status: RuleStatus,
    pub when_false: Option<Box<Rule>>,
    pub when_true: Box<Rule>,
}

/// The records a conditional projects: a marker cell, then both
/// branches' records in order.
pub open spec fn conditional_record(
    c: ConditionalRule,
    student: Student,
    is_waived: bool,
) -> Seq<(Seq<char>, Seq<char>)> {
    let w = is_waived || c.status == RuleStatus::Waived;
    seq![("cond"@, "?"@)] + spec_record(*c.when_true, student, w) + (match c.when_false {
        Some(f) => spec_record(*f, student, w),
        None => Seq::empty(),
    })
}

impl ConditionalRule {
    /// The flattened (label, value) records of this node and its
    /// descendants.
    pub fn get_record(&self, student: &Student, options: &CsvOptions, is_waived: bool) -> (r: Vec<
        (String, String),
    >)
        ensures
            r@.map_values(|p: (String, String)| (p.0@, p.1@)) == conditional_record(
                *self,
                *student,
                is_waived,
            ),
        decreases *self,
    {
        let w = is_waived || self.status.is_waived();
        let mut r: Vec<(String, String)> = Vec::new();
        proof {
            reveal_strlit("cond");
            reveal_strlit("?");
        }
        r.push((String::from_str("cond"), String::from_str("?")));
        let mut t = self.when_true.get_record(student, options, w);
        r.append(&mut t);
        if let Some(f) = &self.when_false {
            let mut fr = f.get_record(student, options, w);
            r.append(&mut fr);
        }
        proof {
            assert(r@.map_values(|p: (String, String)| (p.0@, p.1@)) =~= conditional_record(
                *self,
                *student,
                is_waived,
            ));
        }
        r
    }

    /// The requirement labels of both branches, in order.
    pub fn get_requirements(&self) -> (r: Vec<String>)
        ensures
            r@.map_values(|s: String| s@) == spec_requirements(*self.when_true) + (match self
                .when_false {
                Some(f) => spec_requirements(*f),
                None => Seq::<Seq<char>>::empty(),
            }),
        decreases *self,
    {
        let mut r = self.when_true.get_requirements();
        if let Some(f) = &self.when_false {
            let mut fr = f.get_requirements();
            r.append(&mut fr);
        }
        proof {
            assert(r@.map_values(|s: String| s@) =~= spec_requirements(*self.when_true) + (
            match self.when_false {
                Some(f) => spec_requirements(*f),
                None => Seq::<Seq<char>>::empty(),
            }));
        }
        r
    }
}

} // verus!
