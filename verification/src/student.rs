//! The student input to an audit: an ordered transcript of course
//! records, identity fields, and the declared areas of study. The engine
//! only reads this data.

use vstd::prelude::*;

use crate::action::Decimal;

verus! {

/// One completed course on a transcript. Immutable once loaded.
#[derive(Debug)]
pub struct Course {
    /// The institution-scoped identifier of this record.
    pub clbid: String,
    /// The course code, e.g. "DEPT 111".
    pub course: String,
    pub name: String,
    pub credits: Decimal,
    pub semester: String,
    pub year: u64,
    pub term: String,
    pub section: String,
    pub lab: bool,
    /// A tag such as "ap" for courses granted by examination.
    pub course_type: String,
    pub institution: String,
    pub grade: String,
}

/// The mathematical model of a course record.
pub struct CourseView {
    pub clbid: Seq<char>,
    pub course: Seq<char>,
    pub name: Seq<char>,
    pub credits: u64,
    pub semester: Seq<char>,
    pub year: u64,
    pub term: Seq<char>,
    pub section: Seq<char>,
    pub lab: bool,
    pub course_type: Seq<char>,
    pub institution: Seq<char>,
    pub grade: Seq<char>,
}

impl View for Course {
    type V = CourseView;

    open spec fn view(&self) -> CourseView {
        CourseView {
            clbid: self.clbid@,
            course: self.course@,
            name: self.name@,
            credits: self.credits.hundredths,
            semester: self.semester@,
            year: self.year,
            term: self.term@,
            section: self.section@,
            lab: self.lab,
            course_type: self.course_type@,
            institution: self.institution@,
            grade: self.grade@,
        }
    }
}

impl Clone for Course {
    /// A copy holding the same record, field for field.
    fn clone(&self) -> (r: Course)
        ensures
            r@ == self@,
    {
        Course {
            clbid: self.clbid.clone(),
            course: self.course.clone(),
            name: self.name.clone(),
            credits: self.credits,
            semester: self.semester.clone(),
            year: self.year,
            term: self.term.clone(),
            section: self.section.clone(),
            lab: self.lab,
            course_type: self.course_type.clone(),
            institution: self.institution.clone(),
            grade: self.grade.clone(),
        }
    }
}

/// What kind of area of study a declaration names.
#[derive(Debug, Clone, Copy, PartialEq, Eq, Structural, Hash)]
pub enum AreaKind {
    Degree,
    Major,
    Minor,
    Concentration,
    Emphasis,
}

/// One declared area of study.
#[derive(Debug, Clone)]
pub struct DeclaredArea {
    pub kind: AreaKind,
    pub name: String,
}

/// A student: identity, transcript in completion order, and declared
/// areas.
#[derive(Debug, Clone)]
pub struct Student {
    pub stnum: String,
    pub name: String,
    pub catalog: String,
    pub courses: Vec<Course>,
    pub areas: Vec<DeclaredArea>,
}

/// The first transcript record with the given identifier, if any.
pub open spec fn spec_find_course(courses: Seq<Course>, clbid: Seq<char>) -> Option<Course>
    decreases courses.len(),
{
    if courses.len() == 0 {
        None
    } else if courses[0].clbid@ == clbid {
        Some(courses[0])
    } else {
        spec_find_course(courses.drop_first(), clbid)
    }
}

proof fn lemma_find_course_at(courses: Seq<Course>, clbid: Seq<char>, k: int)
    requires
        0 <= k < courses.len(),
        courses[k].clbid@ == clbid,
        forall|j: int| 0 <= j < k ==> courses[j].clbid@ != clbid,
    ensures
        spec_find_course(courses, clbid) == Some(courses[k]),
    decreases k,
{
    if k > 0 {
        let t = courses.drop_first();
        assert(forall|j: int| 0 <= j < k - 1 ==> #[trigger] t[j].clbid@ != clbid);
        lemma_find_course_at(t, clbid, k - 1);
    }
}

proof fn lemma_find_course_none(courses: Seq<Course>, clbid: Seq<char>)
    requires
        forall|j: int| 0 <= j < courses.len() ==> courses[j].clbid@ != clbid,
    ensures
        spec_find_course(courses, clbid) == None::<Course>,
    decreases courses.len(),
{
    if courses.len() > 0 {
        let t = courses.drop_first();
        assert(forall|j: int| 0 <= j < t.len() ==> #[trigger] t[j].clbid@ != clbid);
        lemma_find_course_none(t, clbid);
    }
}

/// A found record carries the identifier it was found by.
pub proof fn lemma_find_course_clbid(courses: Seq<Course>, clbid: Seq<char>)
    ensures
        (spec_find_course(courses, clbid) matches Some(c) ==> c.clbid@ == clbid),
    decreases courses.len(),
{
    if courses.len() > 0 && courses[0].clbid@ != clbid {
        lemma_find_course_clbid(courses.drop_first(), clbid);
    }
}

/// Whether two strings hold the same characters.
pub fn str_eq(a: &str, b: &str) -> (r: bool)
    ensures
        r == (a@ == b@),
{
    let na = a.unicode_len();
    let nb = b.unicode_len();
    if na != nb {
        return false;
    }
    let mut i: usize = 0;
    while i < na
        invariant
            0 <= i <= na,
            na == a@.len(),
            nb == b@.len(),
            na == nb,
            forall|j: int| 0 <= j < i ==> a@[j] == b@[j],
        decreases na - i,
    {
        if a.get_char(i) != b.get_char(i) {
            return false;
        }
        i = i + 1;
    }
    proof {
        assert(a@ =~= b@);
    }
    true
}

impl Student {
    /// Looks a transcript record up by its identifier; the first match
    /// in transcript order wins.
    pub fn get_class_by_clbid(&self, clbid: &str) -> (r: Option<&Course>)
        ensures
            match r {
                Some(c) => spec_find_course(self.courses@, clbid@) == Some(*c),
                None => spec_find_course(self.courses@, clbid@) is None,
            },
    {
        let mut i: usize = 0;
        while i < self.courses.len()
            invariant
                0 <= i <= self.courses@.len(),
                forall|j: int| 0 <= j < i ==> self.courses@[j].clbid@ != clbid@,
            decreases self.courses@.len() - i,
        {
            if str_eq(self.courses[i].clbid.as_str(), clbid) {
                proof {
                    lemma_find_course_at(self.courses@, clbid@, i as int);
                }
                return Some(&self.courses[i]);
            }
            i = i + 1;
        }
        proof {
            lemma_find_course_none(self.courses@, clbid@);
        }
        None
    }

    /// Whether the student has declared an area with the given name.
    pub fn has_declared_area(&self, name: &str) -> (r: bool)
        ensures
            r == exists|i: int|
                0 <= i < self.areas@.len() && self.areas@[i].name@ == name@,
    {
        let mut i: usize = 0;
        while i < self.areas.len()
            invariant
                0 <= i <= self.areas@.len(),
                forall|j: int| 0 <= j < i ==> self.areas@[j].name@ != name@,
            decreases self.areas@.len() - i,
        {
            if str_eq(self.areas[i].name.as_str(), name) {
                return true;
            }
            i = i + 1;
        }
        false
    }
}


/// The symbol a report marks a course with: satisfied or not.
pub open spec fn symbol_chars(passing: bool) -> Seq<char> {
    if passing {
        "\u{2713}"@
    } else {
        "\u{2717}"@
    }
}

/// The short report form of a course: its code and term.
pub open spec fn semi_verbose_chars(c: CourseView) -> Seq<char> {
    c.course + " ("@ + c.term + ")"@
}

/// The long report form of a course: code, name and term.
pub open spec fn verbose_chars(c: CourseView) -> Seq<char> {
    c.course + " "@ + c.name + " ("@ + c.term + ")"@
}

impl Course {
    /// The mark a report prefixes this course with under the given
    /// status.
    pub fn calculate_symbol(&self, status: &crate::rule_result::RuleStatus) -> (r: &'static str)
        ensures
            r@ == symbol_chars(
                *status == crate::rule_result::RuleStatus::Pass || *status
                    == crate::rule_result::RuleStatus::Waived,
            ),
    {
        if status.is_passing() {
            "\u{2713}"
        } else {
            "\u{2717}"
        }
    }

    /// The short report form: "DEPT 111 (2015-1)".
    pub fn semi_verbose(&self) -> (r: String)
        ensures
            r@ == semi_verbose_chars(self@),
    {
        let mut out = self.course.clone();
        out.append(" (");
        out.append(self.term.as_str());
        out.append(")");
        out
    }

    /// The long report form: "DEPT 111 Intro (2015-1)".
    pub fn verbose(&self) -> (r: String)
        ensures
            r@ == verbose_chars(self@),
    {
        let mut out = self.course.clone();
        out.append(" ");
        out.append(self.name.as_str());
        out.append(" (");
        out.append(self.term.as_str());
        out.append(")");
        out
    }
}

} // verus!
