//! The result of evaluating one rule node: a status, a detail payload
//! matching the node kind, the reservation set accumulated while
//! evaluating the node, and the rank pair used to report "how close".

use vstd::prelude::*;

use crate::action::decimal_chars;
use crate::claim::{ClaimView, ReservedPairings};
use crate::text::dec_digits;

verus! {

/// The outcome of one rule node. `Waived` is a human override applied at
/// the source level; the engine itself never produces it.
#[derive(Debug, Clone, Copy, PartialEq, Eq, Structural, Hash)]
pub enum RuleStatus {
    Pass,
    Fail,
    Skipped,
    Pending,
    Waived,
    Empty,
}

impl RuleStatus {
    /// Whether this status counts as satisfied for reporting: a pass or
    /// a human waiver.
    pub fn is_passing(&self) -> (r: bool)
        ensures
            r == (*self == RuleStatus::Pass || *self == RuleStatus::Waived),
    {
        matches!(self, RuleStatus::Pass | RuleStatus::Waived)
    }

    pub fn is_waived(&self) -> (r: bool)
        ensures
            r == (*self == RuleStatus::Waived),
    {
        matches!(self, RuleStatus::Waived)
    }

    /// The status name as report text.
    pub fn text(&self) -> (r: &'static str)
        ensures
            r@ == status_chars(*self),
    {
        match self {
            RuleStatus::Pass => "Pass",
            RuleStatus::Fail => "Fail",
            RuleStatus::Skipped => "Skipped",
            RuleStatus::Pending => "Pending",
            RuleStatus::Waived => "Waived",
            RuleStatus::Empty => "Empty",
        }
    }
}

/// The report name of each status.
pub open spec fn status_chars(s: RuleStatus) -> Seq<char> {
    match s {
        RuleStatus::Pass => "Pass"@,
        RuleStatus::Fail => "Fail"@,
        RuleStatus::Skipped => "Skipped"@,
        RuleStatus::Pending => "Pending"@,
        RuleStatus::Waived => "Waived"@,
        RuleStatus::Empty => "Empty"@,
    }
}

/// The payload of a requirement-reference result; the referenced
/// requirement's own tree is not repeated here.
#[derive(Debug, Clone, PartialEq, Eq, Structural)]
pub struct RequirementResult {}

/// The per-kind payload of a rule result, recursively holding child
/// results where the node has children.
#[derive(Debug)]
pub enum RuleResultDetails {
    Course,
    Requirement(RequirementResult),
    CountOf(Vec<Option<RuleResult>>),
    Both((Box<RuleResult>, Box<RuleResult>)),
    Either((Option<Box<RuleResult>>, Option<Box<RuleResult>>)),
    Given,
    /// A conditional node: the result of the branch that ran, if one did.
    Do(Option<Box<RuleResult>>),
}

/// What evaluating one rule node produced.
#[derive(Debug)]
pub struct RuleResult {
    pub detail: RuleResultDetails,
    pub reservations: ReservedPairings,
    pub status: RuleStatus,
    /// How much of the requirement is satisfied, in hundredths.
    pub rank: u64,
    /// How much could be satisfied at most, in hundredths.
    pub max_rank: u64,
}

impl RuleResult {
    /// A failed result with no reservations and no rank.
    pub fn fail(detail: RuleResultDetails) -> (r: RuleResult)
        ensures
            r.detail == detail,
            r.status == RuleStatus::Fail,
            r.reservations@ == Seq::<ClaimView>::empty(),
            r.rank == 0,
            r.max_rank == 0,
    {
        RuleResult {
            detail,
            reservations: ReservedPairings::new(),
            status: RuleStatus::Fail,
            rank: 0,
            max_rank: 0,
        }
    }

    pub fn is_pass(&self) -> (r: bool)
        ensures
            r == (self.status == RuleStatus::Pass),
    {
        matches!(self.status, RuleStatus::Pass)
    }

    pub fn is_fail(&self) -> (r: bool)
        ensures
            r == (self.status == RuleStatus::Fail),
    {
        matches!(self.status, RuleStatus::Fail)
    }

    /// The rank pair in its report form, "rank of max_rank".
    pub fn rank_string(&self) -> (r: String)
        ensures
            r@ == rank_pair_chars(self.rank, self.max_rank),
    {
        let mut out = rank_value_string(self.rank);
        out.append(" of ");
        let m = rank_value_string(self.max_rank);
        out.append(m.as_str());
        out
    }
}

/// A rank quantity in report form: whole ranks print as integers,
/// fractional ones with two decimal digits.
pub open spec fn rank_chars(h: u64) -> Seq<char> {
    if h % 100 == 0 {
        dec_digits((h / 100) as nat)
    } else {
        decimal_chars(h)
    }
}

/// The report form of a rank pair.
pub open spec fn rank_pair_chars(rank: u64, max_rank: u64) -> Seq<char> {
    rank_chars(rank) + " of "@ + rank_chars(max_rank)
}

/// Renders one rank quantity.
pub fn rank_value_string(h: u64) -> (r: String)
    ensures
        r@ == rank_chars(h),
{
    if h % 100 == 0 {
        crate::action::u64_to_string(h / 100)
    } else {
        crate::action::decimal_string(h)
    }
}

} // verus!
