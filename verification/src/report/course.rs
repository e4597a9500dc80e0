//! The evaluated form of a course-match rule as reports consume it.

use vstd::prelude::*;

use crate::claim::Claim;
use crate::report::{path_chars, spaces, ProseOptions};
use crate::rule_result::{status_chars, RuleStatus};
use crate::student::{semi_verbose_chars, spec_find_course, symbol_chars, Student};

verus! {

/// The evaluated course-match rule, as stored in an audit result.
#[derive(Debug)]
pub struct CourseRule {
    pub claims: Vec<Claim>,
    pub status: RuleStatus,
    pub path: Vec<u64>,
    pub rank: String,
    pub max_rank: String,
    pub course: String,
    /// The examination name accepted in place of the course, if any.
    pub ap: Option<String>,
    pub institution: Option<String>,
    pub clbid: Option<String>,
    pub grade: Option<String>,
    pub name: Option<String>,
}

/// The cell a report shows for a course rule: the taken course when one
/// was claimed, a waiver marker, a blank for an empty slot, or the bare
/// status.
pub open spec fn course_rule_cell(r: CourseRule, student: Student, is_waived: bool) -> Seq<char> {
    let found = if r.claims@.len() > 0 {
        spec_find_course(student.courses@, r.claims@[0].clbid@)
    } else {
        None
    };
    match found {
        Some(c) => semi_verbose_chars(c@),
        None => if is_waived || r.status == RuleStatus::Waived {
            "<waived>"@
        } else if r.status == RuleStatus::Empty {
            " "@
        } else {
            status_chars(r.status)
        },
    }
}

impl CourseRule {
    /// The (label, value) record for this rule: the required course
    /// code, and what stands in the slot.
    pub fn get_record(&self, student: &Student, is_waived: bool) -> (r: Vec<(String, String)>)
        ensures
            r@.len() == 1,
            r@[0].0@ == self.course@,
            r@[0].1@ == course_rule_cell(*self, *student, is_waived),
    {
        let header = self.course.clone();
        let found = if self.claims.len() > 0 {
            student.get_class_by_clbid(self.claims[0].clbid.as_str())
        } else {
            None
        };
        let body: String = match found {
            Some(c) => c.semi_verbose(),
            None => {
                if is_waived || self.status.is_waived() {
                    String::from_str("<waived>")
                } else if matches!(self.status, RuleStatus::Empty) {
                    String::from_str(" ")
                } else {
                    String::from_str(self.status.text())
                }
            },
        };
        let mut r: Vec<(String, String)> = Vec::new();
        r.push((header, body));
        r
    }

    /// A course rule names no requirements of its own.
    pub fn get_requirements(&self) -> (r: Vec<String>)
        ensures
            r@.len() == 0,
    {
        Vec::new()
    }
}


/// The path line of a prose report, when paths are shown.
pub open spec fn path_line(show: bool, ind: Seq<char>, p: Seq<u64>) -> Seq<char> {
    if show {
        ind + "path: "@ + path_chars(p) + "\n"@
    } else {
        Seq::empty()
    }
}

/// The rank line of a prose report, when ranks are shown.
pub open spec fn rank_line(
    show: bool,
    ind: Seq<char>,
    passing: bool,
    rank: Seq<char>,
    max_rank: Seq<char>,
) -> Seq<char> {
    if show {
        ind + "rank("@ + (if passing {
            "t"@
        } else {
            "f"@
        }) + "): "@ + rank + " of "@ + max_rank + "\n"@
    } else {
        Seq::empty()
    }
}

/// What a course rule reads as in prose: the claimed course when one
/// is on record, the accepted examination, or the required code.
pub open spec fn course_prose_body(r: CourseRule, student: Student) -> Seq<char> {
    let found = if r.claims@.len() > 0 {
        spec_find_course(student.courses@, r.claims@[0].clbid@)
    } else {
        None
    };
    let sym = match found {
        Some(_) => symbol_chars(r.status == RuleStatus::Pass || r.status == RuleStatus::Waived),
        None => Seq::empty(),
    };
    let body = match found {
        Some(c) => if r.status == RuleStatus::Waived {
            c.course@ + " "@ + c.name@
        } else if c.course_type@ == "ap"@ {
            c.name@
        } else {
            r.course@
        },
        None => match r.ap {
            Some(a) => if r.course@ == ""@ && a@ != ""@ {
                a@
            } else {
                r.course@
            },
            None => r.course@,
        },
    };
    let inst = match r.institution {
        Some(i) => " ["@ + i@ + "]"@,
        None => Seq::empty(),
    };
    sym + " "@ + body + inst
}

/// The whole prose block of a course rule.
pub open spec fn course_prose(
    r: CourseRule,
    student: Student,
    options: ProseOptions,
    indent: nat,
) -> Seq<char> {
    let ind = spaces(indent * 4);
    path_line(options.show_paths, ind, r.path@) + rank_line(
        options.show_ranks,
        ind,
        r.status == RuleStatus::Pass || r.status == RuleStatus::Waived,
        r.rank@,
        r.max_rank@,
    ) + ind + course_prose_body(r, student) + "\n"@
}

impl CourseRule {
    /// Renders this rule as indented prose for a plain-text report.
    #[verifier::rlimit(100)]
    pub fn to_prose(&self, student: &Student, options: &ProseOptions, indent: usize) -> (r:
        String)
        requires
            indent <= 100000,
        ensures
            r@ == course_prose(*self, *student, *options, indent as nat),
    {
        let ind = crate::report::indent_str(indent);
        let ghost ind_s = spaces((indent * 4) as nat);
        let mut out = String::new();
        if options.show_paths {
            out.append(ind.as_str());
            out.append("path: ");
            let p = crate::report::path_string(&self.path);
            out.append(p.as_str());
            out.append("\n");
        }
        let ghost pre1 = path_line(options.show_paths, ind_s, self.path@);
        proof {
            assert(out@ =~= pre1);
        }
        if options.show_ranks {
            out.append(ind.as_str());
            out.append("rank(");
            out.append(if self.status.is_passing() { "t" } else { "f" });
            out.append("): ");
            out.append(self.rank.as_str());
            out.append(" of ");
            out.append(self.max_rank.as_str());
            out.append("\n");
        }
        let ghost pre2 = pre1 + rank_line(
            options.show_ranks,
            ind_s,
            self.status == RuleStatus::Pass || self.status == RuleStatus::Waived,
            self.rank@,
            self.max_rank@,
        );
        proof {
            assert(out@ =~= pre2);
        }
        out.append(ind.as_str());
        let found = if self.claims.len() > 0 {
            student.get_class_by_clbid(self.claims[0].clbid.as_str())
        } else {
            None
        };
        match found {
            Some(c) => {
                out.append(c.calculate_symbol(&self.status));
                out.append(" ");
                if self.status.is_waived() {
                    out.append(c.course.as_str());
                    out.append(" ");
                    out.append(c.name.as_str());
                } else if crate::student::str_eq(c.course_type.as_str(), "ap") {
                    proof {
                        reveal_strlit("ap");
                    }
                    out.append(c.name.as_str());
                } else {
                    proof {
                        reveal_strlit("ap");
                    }
                    out.append(self.course.as_str());
                }
            },
            None => {
                out.append(" ");
                let mut used_ap = false;
                if let Some(a) = &self.ap {
                    if self.course.unicode_len() == 0 && a.unicode_len() > 0 {
                        out.append(a.as_str());
                        used_ap = true;
                    }
                    proof {
                        reveal_strlit("");
                        if self.course@ =~= Seq::<char>::empty() {
                            assert(self.course@ == ""@);
                        }
                        if a@.len() > 0 {
                            assert(a@ != ""@);
                        }
                    }
                }
                if !used_ap {
                    proof {
                        reveal_strlit("");
                    }
                    out.append(self.course.as_str());
                }
            },
        }
        if let Some(i) = &self.institution {
            out.append(" [");
            out.append(i.as_str());
            out.append("]");
        }
        proof {
            assert(out@ =~= pre2 + ind_s + course_prose_body(*self, *student));
        }
        out.append("\n");
        proof {
            assert(out@ =~= course_prose(*self, *student, *options, indent as nat));
        }
        out
    }
}

} // verus!
