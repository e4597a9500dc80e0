//! The course-match rule: requires one specific course, optionally
//! pinned to a term, section, year, semester or lab flag.

use vstd::prelude::*;

use crate::action::PrintError;
use crate::text::{dec_digits, digit_char, digit_to_char, string_of, u64_to_chars};

verus! {

/// A rule satisfied by one specific course.
#[derive(Debug)]
pub struct Rule {
    /// The course code, e.g. "DEPT 111".
    pub course: String,
    pub term: Option<String>,
    pub section: Option<String>,
    pub year: Option<u64>,
    pub semester: Option<String>,
    pub lab: Option<bool>,
    /// Whether a record already claimed elsewhere may satisfy this rule.
    pub can_match_used: Option<bool>,
}

impl Default for Rule {
    /// A rule with an empty course code and no constraints.
    fn default() -> (r: Rule)
        ensures
            r.course@ == Seq::<char>::empty(),
            r.term is None,
            r.section is None,
            r.year is None,
            r.semester is None,
            r.lab is None,
            r.can_match_used is None,
    {
        proof {
            reveal_strlit("");
            assert(""@ =~= Seq::<char>::empty());
        }
        Rule {
            course: String::from_str(""),
            term: None,
            section: None,
            year: None,
            semester: None,
            lab: None,
            can_match_used: None,
        }
    }
}

/// A number's last two digits, zero padded.
pub open spec fn two_digit(d: nat) -> Seq<char> {
    seq![digit_char((d / 10 % 10) as int), digit_char((d % 10) as int)]
}

/// The time qualifier of a course rule: "Fall 2015" when semester and
/// year are both given, else the raw term, else the semester alone, else
/// an academic-year range such as "2015-16".
pub open spec fn spec_time_part(r: Rule) -> Seq<char> {
    match (r.semester, r.year) {
        (Some(sem), Some(y)) => sem@ + seq![' '] + dec_digits(y as nat),
        _ => match r.term {
            Some(t) => t@,
            None => match (r.semester, r.year) {
                (Some(sem), None) => sem@,
                (None, Some(y)) => dec_digits(y as nat) + seq!['-'] + two_digit(
                    ((y % 100 + 1) % 100) as nat,
                ),
                _ => Seq::empty(),
            },
        },
    }
}

/// The parenthetical qualifier: the lab marker, the time qualifier, or
/// both joined by "; ".
pub open spec fn spec_qualifier(r: Rule) -> Seq<char> {
    let time = spec_time_part(r);
    if r.lab == Some(true) {
        if time.len() > 0 {
            "Lab; "@ + time
        } else {
            "Lab"@
        }
    } else {
        time
    }
}

/// The printed form of a course rule: code, optional section letter, and
/// an optional parenthetical qualifier.
pub open spec fn spec_course_rule_prose(r: Rule) -> Seq<char> {
    let base = r.course@ + match r.section {
        Some(s) => s@,
        None => Seq::<char>::empty(),
    };
    let q = spec_qualifier(r);
    if q.len() > 0 {
        base + " ("@ + q + ")"@
    } else {
        base
    }
}

impl Rule {
    /// Renders the rule for prose reports, e.g. "DEPT 111A (Lab; Fall
    /// 2015)".
    pub fn print(&self) -> (r: Result<String, PrintError>)
        ensures
            r is Ok,
            r matches Ok(out) ==> out@ == spec_course_rule_prose(*self),
    {
        let mut out = self.course.clone();
        if let Some(sec) = &self.section {
            out.append(sec.as_str());
        }
        let time: String = match (&self.semester, &self.year) {
            (Some(sem), Some(y)) => {
                let mut t = sem.clone();
                crate::text::push_char(&mut t, ' ');
                let ys = string_of(&u64_to_chars(*y));
                t.append(ys.as_str());
                proof {
                    assert(t@ =~= spec_time_part(*self));
                }
                t
            },
            _ => {
                match (&self.term, &self.semester, &self.year) {
                    (Some(t), _, _) => t.clone(),
                    (None, Some(sem), None) => sem.clone(),
                    (None, None, Some(y)) => {
                        let y = *y;
                        let mut t = string_of(&u64_to_chars(y));
                        crate::text::push_char(&mut t, '-');
                        let next = (y % 100 + 1) % 100;
                        crate::text::push_char(&mut t, digit_to_char(next / 10 % 10));
                        crate::text::push_char(&mut t, digit_to_char(next % 10));
                        proof {
                            assert(t@ =~= spec_time_part(*self));
                        }
                        t
                    },
                    _ => String::new(),
                }
            },
        };
        let is_lab = match &self.lab {
            Some(true) => true,
            _ => false,
        };
        let qual: String = if is_lab {
            if time.unicode_len() > 0 {
                let mut q = String::from_str("Lab; ");
                q.append(time.as_str());
                q
            } else {
                String::from_str("Lab")
            }
        } else {
            time
        };
        if qual.unicode_len() > 0 {
            out.append(" (");
            out.append(qual.as_str());
            out.append(")");
            proof {
                assert(out@ =~= spec_course_rule_prose(*self));
            }
        } else {
            proof {
                assert(out@ =~= spec_course_rule_prose(*self));
            }
        }
        Ok(out)
    }
}

} // verus!
