//! The requirement-rule language: a closed set of node kinds over which
//! the audit engine walks. Each node owns its children; the tree is
//! acyclic and built once from the parsed area document.

use vstd::prelude::*;

use crate::action::Action;
use crate::filter::{CompoundPredicate, StaticPredicateExpression};

pub mod course;
pub mod requirement;

verus! {

/// Where a query rule draws its records from.
#[derive(Debug, Clone, Copy, PartialEq, Eq, Structural, Hash)]
pub enum QuerySource {
    Courses,
    ClaimedCourses,
    Areas,
    MusicPerformances,
    MusicRecitals,
}

/// What kind of record a query's results are.
#[derive(Debug, Clone, Copy, PartialEq, Eq, Structural, Hash)]
pub enum DataType {
    Course,
    Area,
    MusicPerformance,
    Recital,
}

/// A cap on how many records matching a clause may be drawn from a
/// query's candidate pool; limits apply in declaration order, each
/// consuming from the pool before the next.
#[derive(Debug, Clone)]
pub struct Limit {
    pub filter: CompoundPredicate,
    pub at_most: u64,
}

/// A query over the transcript: select records by a filter, cap them by
/// limits, then check one or more assertions over the remaining pool.
#[derive(Debug, Clone)]
pub struct GivenRule {
    pub source: QuerySource,
    pub filter: Option<CompoundPredicate>,
    pub limit: Vec<Limit>,
    pub assertions: Vec<Action>,
    /// Whether records already reserved elsewhere may be claimed again.
    pub allow_claimed: bool,
}

/// A conditional branch: a static guard over the student's profile
/// chooses between two child rules; a missing false-branch means "do
/// nothing".
#[derive(Debug)]
pub struct Conditional {
    pub condition: StaticPredicateExpression,
    pub when_true: Rule,
    pub when_false: Option<Rule>,
}

/// A requirement node, the closed variant set of the rule language.
#[derive(Debug)]
pub enum Rule {
    /// Match one specific course.
    Course(course::Rule),
    /// A filtered, limited, asserted query over transcript records.
    Given(GivenRule),
    /// Delegate to the identically-named top-level requirement.
    Requirement(requirement::RequirementRule),
    /// Choose a branch by a static profile predicate.
    Conditional(Box<Conditional>),
    /// Both children must pass.
    Both { left: Box<Rule>, right: Box<Rule> },
    /// The better of two children determines status and rank.
    Either { left: Box<Rule>, right: Box<Rule> },
    /// At least `count` of the children must pass.
    CountOf { count: u64, children: Vec<Rule> },
}

/// Structural well-formedness: a count-of node never demands more
/// children than it has.
pub open spec fn rule_wf(r: Rule) -> bool
    decreases r,
{
    match r {
        Rule::Course(_) => true,
        Rule::Given(_) => true,
        Rule::Requirement(_) => true,
        Rule::Conditional(c) => rule_wf(c.when_true) && match c.when_false {
            Some(f) => rule_wf(f),
            None => true,
        },
        Rule::Both { left, right } => rule_wf(*left) && rule_wf(*right),
        Rule::Either { left, right } => rule_wf(*left) && rule_wf(*right),
        Rule::CountOf { count, children } => count <= children@.len() && rules_wf(children@),
    }
}

pub open spec fn rules_wf(s: Seq<Rule>) -> bool
    decreases s,
{
    if s.len() == 0 {
        true
    } else {
        rule_wf(s[0]) && rules_wf(s.drop_first())
    }
}

/// Whether the tree contains no requirement-reference node; such trees
/// are self-contained and their claims stay within their own paths.
pub open spec fn no_references(r: Rule) -> bool
    decreases r,
{
    match r {
        Rule::Course(_) => true,
        Rule::Given(_) => true,
        Rule::Requirement(_) => false,
        Rule::Conditional(c) => no_references(c.when_true) && match c.when_false {
            Some(f) => no_references(f),
            None => true,
        },
        Rule::Both { left, right } => no_references(*left) && no_references(*right),
        Rule::Either { left, right } => no_references(*left) && no_references(*right),
        Rule::CountOf { children, .. } => no_references_list(children@),
    }
}

pub open spec fn no_references_list(s: Seq<Rule>) -> bool
    decreases s,
{
    if s.len() == 0 {
        true
    } else {
        no_references(s[0]) && no_references_list(s.drop_first())
    }
}

} // verus!
