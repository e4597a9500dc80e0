//! Filter predicates: a compound boolean expression over course
//! attributes used to select candidate transcript records, and the
//! static predicate over a student's profile that guards a conditional
//! rule.

use vstd::prelude::*;

use crate::action::{spec_eval_cmp, eval_cmp, Operator, Value, ValueView};
use crate::student::{Course, CourseView, Student};

verus! {

/// Which course attribute a filter clause reads.
#[derive(Debug, Clone, Copy, PartialEq, Eq, Structural, Hash)]
pub enum CourseAttribute {
    Semester,
    Year,
    Institution,
    CourseType,
    Credits,
}

/// One comparison of a course attribute against a fixed value.
#[derive(Debug, Clone)]
pub struct FilterClause {
    pub key: CourseAttribute,
    pub op: Operator,
    pub value: Value,
}

/// A conjunction of filter clauses.
#[derive(Debug, Clone)]
pub struct CompoundPredicate {
    pub clauses: Vec<FilterClause>,
}

/// The observed value of a course attribute.
pub open spec fn spec_attribute_of(key: CourseAttribute, c: CourseView) -> ValueView {
    match key {
        CourseAttribute::Semester => ValueView::Str(c.semester),
        CourseAttribute::Year => ValueView::Integer(c.year),
        CourseAttribute::Institution => ValueView::Str(c.institution),
        CourseAttribute::CourseType => ValueView::Str(c.course_type),
        CourseAttribute::Credits => ValueView::Decimal(c.credits),
    }
}

/// Whether a single clause holds of a course; an incomparable pair does
/// not hold.
pub open spec fn spec_clause_matches(cl: FilterClause, c: CourseView) -> bool {
    spec_eval_cmp(cl.op, spec_attribute_of(cl.key, c), cl.value@) == Some(true)
}

/// Whether every clause of the predicate holds of a course.
pub open spec fn spec_filter_matches(f: CompoundPredicate, c: CourseView) -> bool {
    forall|i: int| 0 <= i < f.clauses@.len() ==> spec_clause_matches(#[trigger] f.clauses@[i], c)
}

fn attribute_of(key: &CourseAttribute, c: &Course) -> (r: Value)
    ensures
        r@ == spec_attribute_of(*key, c@),
{
    match key {
        CourseAttribute::Semester => Value::String(c.semester.clone()),
        CourseAttribute::Year => Value::Integer(c.year),
        CourseAttribute::Institution => Value::String(c.institution.clone()),
        CourseAttribute::CourseType => Value::String(c.course_type.clone()),
        CourseAttribute::Credits => Value::Decimal(c.credits),
    }
}

impl CompoundPredicate {
    /// Whether this predicate selects the given course.
    pub fn matches(&self, c: &Course) -> (r: bool)
        ensures
            r == spec_filter_matches(*self, c@),
    {
        let mut i: usize = 0;
        while i < self.clauses.len()
            invariant
                0 <= i <= self.clauses@.len(),
                forall|j: int|
                    0 <= j < i ==> spec_clause_matches(#[trigger] self.clauses@[j], c@),
            decreases self.clauses@.len() - i,
        {
            let cl = &self.clauses[i];
            let obs = attribute_of(&cl.key, c);
            match eval_cmp(&cl.op, &obs, &cl.value) {
                Some(true) => {},
                _ => {
                    return false;
                },
            }
            i = i + 1;
        }
        true
    }
}

/// The three-valued outcome of a conditional rule's guard.
#[derive(Debug, Clone, Copy, PartialEq, Eq, Structural, Hash)]
pub enum TriState {
    True,
    False,
    Unknown,
}

/// Which profile fact a conditional guard reads.
#[derive(Debug, Clone, Copy, PartialEq, Eq, Structural, Hash)]
pub enum ProfileKey {
    /// Whether the student's catalog year equals the expected value.
    Catalog,
    /// Whether an area of study with the expected name is declared.
    HasDeclaredArea,
    /// Facts about music performances live outside the audited
    /// transcript, so this guard cannot be resolved at audit time.
    MusicPerformances,
}

/// A static predicate over a student's profile; resolves to a definite
/// boolean or stays unresolved when the data is not at hand.
#[derive(Debug, Clone)]
pub struct StaticPredicateExpression {
    pub key: ProfileKey,
    pub expected: String,
}

/// What the guard resolves to for a given student.
pub open spec fn spec_guard_result(p: StaticPredicateExpression, s: Student) -> TriState {
    match p.key {
        ProfileKey::Catalog => if s.catalog@ == p.expected@ {
            TriState::True
        } else {
            TriState::False
        },
        ProfileKey::HasDeclaredArea => if exists|i: int|
            0 <= i < s.areas@.len() && s.areas@[i].name@ == p.expected@ {
            TriState::True
        } else {
            TriState::False
        },
        ProfileKey::MusicPerformances => TriState::Unknown,
    }
}

impl StaticPredicateExpression {
    /// Resolves the guard against the student's profile.
    pub fn result(&self, s: &Student) -> (r: TriState)
        ensures
            r == spec_guard_result(*self, *s),
    {
        match self.key {
            ProfileKey::Catalog => {
                if crate::student::str_eq(s.catalog.as_str(), self.expected.as_str()) {
                    TriState::True
                } else {
                    TriState::False
                }
            },
            ProfileKey::HasDeclaredArea => {
                if s.has_declared_area(self.expected.as_str()) {
                    TriState::True
                } else {
                    TriState::False
                }
            },
            ProfileKey::MusicPerformances => TriState::Unknown,
        }
    }
}


/// The guard in prose: its profile key and expected value.
pub open spec fn predicate_chars(p: StaticPredicateExpression) -> Seq<char> {
    (match p.key {
        ProfileKey::Catalog => "catalog"@,
        ProfileKey::HasDeclaredArea => "has-declared-area"@,
        ProfileKey::MusicPerformances => "music-performances"@,
    }) + " = "@ + p.expected@
}

impl StaticPredicateExpression {
    /// Renders the guard for prose reports.
    pub fn text(&self) -> (r: String)
        ensures
            r@ == predicate_chars(*self),
    {
        let mut out = match self.key {
            ProfileKey::Catalog => String::from_str("catalog"),
            ProfileKey::HasDeclaredArea => String::from_str("has-declared-area"),
            ProfileKey::MusicPerformances => String::from_str("music-performances"),
        };
        out.append(" = ");
        out.append(self.expected.as_str());
        out
    }
}

/// A course attribute's name in prose.
pub open spec fn attribute_chars(k: CourseAttribute) -> Seq<char> {
    match k {
        CourseAttribute::Semester => "semester"@,
        CourseAttribute::Year => "year"@,
        CourseAttribute::Institution => "institution"@,
        CourseAttribute::CourseType => "course-type"@,
        CourseAttribute::Credits => "credits"@,
    }
}

/// One filter clause in prose: attribute, operator symbol, value.
pub open spec fn clause_chars(cl: FilterClause) -> Seq<char> {
    attribute_chars(cl.key) + " "@ + crate::action::operator_chars(cl.op) + " "@
        + crate::action::spec_print_value(cl.value@)
}

/// A whole predicate in prose: its clauses joined by commas.
pub open spec fn clauses_chars(s: Seq<FilterClause>) -> Seq<char>
    decreases s.len(),
{
    if s.len() == 0 {
        Seq::empty()
    } else if s.len() == 1 {
        clause_chars(s[0])
    } else {
        clause_chars(s[0]) + ", "@ + clauses_chars(s.drop_first())
    }
}

fn clause_string(cl: &FilterClause) -> (r: String)
    ensures
        r@ == clause_chars(*cl),
{
    let mut out = match cl.key {
        CourseAttribute::Semester => String::from_str("semester"),
        CourseAttribute::Year => String::from_str("year"),
        CourseAttribute::Institution => String::from_str("institution"),
        CourseAttribute::CourseType => String::from_str("course-type"),
        CourseAttribute::Credits => String::from_str("credits"),
    };
    out.append(" ");
    let sym = cl.op.symbol();
    out.append(sym.as_str());
    out.append(" ");
    let v = crate::action::print_value_canonical(&cl.value);
    out.append(v.as_str());
    out
}

fn clauses_string_from(v: &Vec<FilterClause>, i: usize) -> (r: String)
    requires
        i <= v@.len(),
    ensures
        r@ == clauses_chars(v@.skip(i as int)),
    decreases v@.len() - i,
{
    if i == v.len() {
        proof {
            assert(v@.skip(i as int) =~= Seq::<FilterClause>::empty());
        }
        String::new()
    } else {
        proof {
            assert(v@.skip(i as int)[0] == v@[i as int]);
            assert(v@.skip(i as int).drop_first() =~= v@.skip(i + 1 as int));
        }
        let mut out = clause_string(&v[i]);
        if i + 1 < v.len() {
            out.append(", ");
            let rest = clauses_string_from(v, i + 1);
            out.append(rest.as_str());
        }
        out
    }
}

impl CompoundPredicate {
    /// Renders the predicate for prose reports.
    pub fn text(&self) -> (r: String)
        ensures
            r@ == clauses_chars(self.clauses@),
    {
        proof {
            assert(self.clauses@.skip(0) =~= self.clauses@);
        }
        clauses_string_from(&self.clauses, 0)
    }
}

} // verus!
