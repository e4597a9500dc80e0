//! Claims and reservation sets: the bookkeeping that commits one
//! transcript record to one rule node and keeps a course from satisfying
//! mutually exclusive requirements.

use vstd::prelude::*;

use crate::action::Decimal;
use crate::student::str_eq;

verus! {

/// A commitment of one transcript record to one rule node, with the
/// credit amount attributed.
#[derive(Debug)]
pub struct Claim {
    /// The claimed record's identifier.
    pub clbid: String,
    /// The position, in the rule tree, of the node that consumed it.
    pub path: Vec<u64>,
    /// The credits attributed to the consuming node.
    pub credits: Decimal,
}

/// The mathematical model of a `Claim`.
pub struct ClaimView {
    pub clbid: Seq<char>,
    pub path: Seq<u64>,
    pub credits: u64,
}

impl View for Claim {
    type V = ClaimView;

    open spec fn view(&self) -> ClaimView {
        ClaimView { clbid: self.clbid@, path: self.path@, credits: self.credits.hundredths }
    }
}

/// Whether some claim in the set consumes the given record, under any
/// rule node.
pub open spec fn spec_has_course(claims: Seq<ClaimView>, clbid: Seq<char>) -> bool {
    exists|i: int| 0 <= i < claims.len() && claims[i].clbid == clbid
}

/// Copies a rule-node path.
pub fn clone_path(p: &Vec<u64>) -> (r: Vec<u64>)
    ensures
        r@ == p@,
{
    let mut r: Vec<u64> = Vec::new();
    let mut i: usize = 0;
    while i < p.len()
        invariant
            0 <= i <= p.len(),
            r@ == p@.take(i as int),
        decreases p.len() - i,
    {
        r.push(p[i]);
        proof {
            assert(r@ =~= p@.take(i + 1 as int));
        }
        i = i + 1;
    }
    proof {
        assert(p@.take(p.len() as int) =~= p@);
    }
    r
}

impl Clone for Claim {
    /// A copy naming the same record, node and amount.
    fn clone(&self) -> (r: Claim)
        ensures
            r@ == self@,
    {
        Claim {
            clbid: self.clbid.clone(),
            path: clone_path(&self.path),
            credits: self.credits,
        }
    }
}

/// The (course, rule-node) pairs committed within one evaluation pass,
/// in commitment order.
#[derive(Debug)]
pub struct ReservedPairings {
    pub pairs: Vec<Claim>,
}

impl View for ReservedPairings {
    type V = Seq<ClaimView>;

    open spec fn view(&self) -> Seq<ClaimView> {
        self.pairs@.map_values(|c: Claim| c@)
    }
}

impl Clone for ReservedPairings {
    /// A copy holding the same pairs in the same order.
    fn clone(&self) -> (r: ReservedPairings)
        ensures
            r@ == self@,
    {
        let mut pairs: Vec<Claim> = Vec::new();
        let mut i: usize = 0;
        while i < self.pairs.len()
            invariant
                0 <= i <= self.pairs@.len(),
                pairs@.map_values(|c: Claim| c@) == self@.take(i as int),
            decreases self.pairs@.len() - i,
        {
            let c = self.pairs[i].clone();
            proof {
                assert(c@ == self.pairs@[i as int]@);
                assert(pairs@.map_values(|cl: Claim| cl@).len() == pairs@.len());
                assert(self@.len() == self.pairs@.len());
                assert(pairs@.len() == i as int);
            }
            pairs.push(c);
            proof {
                assert(pairs@[i as int]@ == self.pairs@[i as int]@);
                assert(self@[i as int] == self.pairs@[i as int]@);
                assert(forall|j: int|
                    0 <= j < i ==> #[trigger] pairs@[j]@ == self@.take(i as int)[j]);
                assert(pairs@.map_values(|c: Claim| c@) =~= self@.take(i + 1 as int));
            }
            i = i + 1;
        }
        proof {
            assert(self@.take(self.pairs@.len() as int) =~= self@);
        }
        ReservedPairings { pairs }
    }
}

impl ReservedPairings {
    /// An empty reservation set.
    pub fn new() -> (r: ReservedPairings)
        ensures
            r@ == Seq::<ClaimView>::empty(),
    {
        let r = ReservedPairings { pairs: Vec::new() };
        proof {
            assert(r@ =~= Seq::<ClaimView>::empty());
        }
        r
    }

    pub fn len(&self) -> (n: usize)
        ensures
            n == self@.len(),
    {
        self.pairs.len()
    }

    /// Commits one more claim.
    pub fn push(&mut self, c: Claim)
        ensures
            final(self)@ == old(self)@.push(c@),
    {
        self.pairs.push(c);
        proof {
            assert(self@ =~= old(self)@.push(self.pairs@.last()@));
        }
    }

    /// Whether the given record is already reserved by any rule node.
    pub fn contains_course(&self, clbid: &str) -> (r: bool)
        ensures
            r == spec_has_course(self@, clbid@),
    {
        let mut i: usize = 0;
        while i < self.pairs.len()
            invariant
                0 <= i <= self.pairs@.len(),
                forall|j: int| 0 <= j < i ==> self.pairs@[j]@.clbid != clbid@,
            decreases self.pairs@.len() - i,
        {
            if str_eq(self.pairs[i].clbid.as_str(), clbid) {
                proof {
                    assert(self@[i as int] == self.pairs@[i as int]@);
                    assert(self@[i as int].clbid == clbid@);
                }
                return true;
            }
            i = i + 1;
        }
        false
    }
}

} // verus!
