//! The persisted data model: settings, subjects, students and grade
//! records, with the documented default value of every field.
//!
//! Scores and thresholds are fixed-point decimals held in thousandths
//! (`Decimal`), so `28.5` points are stored as `28500`. Mappings are
//! ordered lists of key/value pairs with unique keys, which keeps the
//! serialized form stable.

use vstd::prelude::*;

verus! {

/// Largest magnitude, in thousandths, that a stored number may have.
pub const MAX_MILLI: i64 = 999_999_999_999_999_999;

/// A decimal number with three fractional digits, held in thousandths.
#[derive(Debug, Clone, Copy, PartialEq, Eq, Structural)]
pub struct Decimal {
    pub milli: i64,
}

/// A number in thousandths that the codec can print and re-read.
pub open spec fn num_wf(m: int) -> bool {
    -MAX_MILLI <= m <= MAX_MILLI
}

impl View for Decimal {
    type V = int;

    open spec fn view(&self) -> int {
        self.milli as int
    }
}

impl Decimal {
    /// The number `milli / 1000`.
    pub fn from_milli(milli: i64) -> (r: Decimal)
        ensures
            r@ == milli as int,
    {
        Decimal { milli }
    }

    /// The whole number `n`.
    pub fn from_int(n: i32) -> (r: Decimal)
        ensures
            r@ == n as int * 1000,
    {
        Decimal { milli: (n as i64) * 1000 }
    }
}

/// Ghost form of a `User`.
pub struct UserV {
    pub username: Seq<char>,
    pub role: Seq<char>,
    pub salt: Seq<char>,
    pub password_hash: Seq<char>,
}

/// An additional account that may sign in to the application.
#[derive(Debug, Clone, PartialEq, Eq)]
pub struct User {
    pub username: String,
    pub role: String,
    pub salt: String,
    pub password_hash: String,
}

impl View for User {
    type V = UserV;

    open spec fn view(&self) -> UserV {
        UserV {
            username: self.username@,
            role: self.role@,
            salt: self.salt@,
            password_hash: self.password_hash@,
        }
    }
}

/// Ghost form of `AppSettings`.
pub struct AppSettingsV {
    pub default_language: Seq<char>,
    pub pass_threshold_pct: int,
    pub absence_threshold: i32,
    pub date_format: Seq<char>,
    pub auth_enabled: bool,
    pub auth_username: Seq<char>,
    pub auth_salt: Seq<char>,
    pub auth_password_hash: Seq<char>,
    pub users: Seq<UserV>,
}

/// Global configuration of the application.
#[derive(Debug, Clone, PartialEq, Eq)]
pub struct AppSettings {
    pub default_language: String,
    pub pass_threshold_pct: Decimal,
    pub absence_threshold: i32,
    pub date_format: String,
    pub auth_enabled: bool,
    pub auth_username: String,
    pub auth_salt: String,
    pub auth_password_hash: String,
    pub users: Vec<User>,
}

impl View for AppSettings {
    type V = AppSettingsV;

    open spec fn view(&self) -> AppSettingsV {
        AppSettingsV {
            default_language: self.default_language@,
            pass_threshold_pct: self.pass_threshold_pct@,
            absence_threshold: self.absence_threshold,
            date_format: self.date_format@,
            auth_enabled: self.auth_enabled,
            auth_username: self.auth_username@,
            auth_salt: self.auth_salt@,
            auth_password_hash: self.auth_password_hash@,
            users: self.users@.map(|i: int, u: User| u@),
        }
    }
}

/// Ghost form of a `CourseworkCategory`.
pub struct CourseworkCategoryV {
    pub id: Seq<char>,
    pub name: Seq<char>,
    pub max_points: int,
}

/// A named, weighted sub-component of the coursework score.
#[derive(Debug, Clone, PartialEq, Eq)]
pub struct CourseworkCategory {
    pub id: String,
    pub name: String,
    pub max_points: Decimal,
}

impl View for CourseworkCategory {
    type V = CourseworkCategoryV;

    open spec fn view(&self) -> CourseworkCategoryV {
        CourseworkCategoryV { id: self.id@, name: self.name@, max_points: self.max_points@ }
    }
}

/// Ghost form of a `Subject`.
pub struct SubjectV {
    pub id: Seq<char>,
    pub code: Seq<char>,
    pub name_en: Seq<char>,
    pub name_ar: Seq<char>,
    pub max_exam1: int,
    pub max_exam2: int,
    pub max_coursework: int,
    pub max_final_exam: int,
    pub coursework_categories: Seq<CourseworkCategoryV>,
}

/// An academic course with the maximum points of each graded part.
#[derive(Debug, Clone, PartialEq, Eq)]
pub struct Subject {
    pub id: String,
    pub code: String,
    pub name_en: String,
    pub name_ar: String,
    pub max_exam1: Decimal,
    pub max_exam2: Decimal,
    pub max_coursework: Decimal,
    pub max_final_exam: Decimal,
    pub coursework_categories: Vec<CourseworkCategory>,
}

impl View for Subject {
    type V = SubjectV;

    open spec fn view(&self) -> SubjectV {
        SubjectV {
            id: self.id@,
            code: self.code@,
            name_en: self.name_en@,
            name_ar: self.name_ar@,
            max_exam1: self.max_exam1@,
            max_exam2: self.max_exam2@,
            max_coursework: self.max_coursework@,
            max_final_exam: self.max_final_exam@,
            coursework_categories: self.coursework_categories@.map(
                |i: int, c: CourseworkCategory| c@,
            ),
        }
    }
}

/// Ghost form of a `Student`.
pub struct StudentV {
    pub id: Seq<char>,
    pub username: Seq<char>,
    pub full_name: Seq<char>,
    pub email: Seq<char>,
}

/// One enrolled student.
#[derive(Debug, Clone, PartialEq, Eq)]
pub struct Student {
    pub id: String,
    pub username: String,
    pub full_name: String,
    pub email: String,
}

impl View for Student {
    type V = StudentV;

    open spec fn view(&self) -> StudentV {
        StudentV {
            id: self.id@,
            username: self.username@,
            full_name: self.full_name@,
            email: self.email@,
        }
    }
}

/// Ghost form of a `GradeRecord`.
pub struct GradeRecordV {
    pub subject_id: Seq<char>,
    pub student_id: Seq<char>,
    pub exam1: Option<int>,
    pub exam2: Option<int>,
    pub coursework: Option<int>,
    pub final_exam: Option<int>,
    pub total: Option<int>,
    pub coursework_scores: Seq<(Seq<char>, int)>,
    pub absences: Seq<Seq<char>>,
    pub absence_types: Seq<(Seq<char>, Seq<char>)>,
}

/// One student's scores for one subject. An unset optional score means
/// "not yet entered" and is distinct from zero.
#[derive(Debug, Clone, PartialEq, Eq)]
pub struct GradeRecord {
    pub subject_id: String,
    pub student_id: String,
    pub exam1: Option<Decimal>,
    pub exam2: Option<Decimal>,
    pub coursework: Option<Decimal>,
    pub final_exam: Option<Decimal>,
    pub total: Option<Decimal>,
    pub coursework_scores: Vec<(String, Decimal)>,
    pub absences: Vec<String>,
    pub absence_types: Vec<(String, String)>,
}

pub open spec fn opt_dec_view(o: Option<Decimal>) -> Option<int> {
    match o {
        Option::None => Option::None,
        Option::Some(d) => Option::Some(d@),
    }
}

impl View for GradeRecord {
    type V = GradeRecordV;

    open spec fn view(&self) -> GradeRecordV {
        GradeRecordV {
            subject_id: self.subject_id@,
            student_id: self.student_id@,
            exam1: opt_dec_view(self.exam1),
            exam2: opt_dec_view(self.exam2),
            coursework: opt_dec_view(self.coursework),
            final_exam: opt_dec_view(self.final_exam),
            total: opt_dec_view(self.total),
            coursework_scores: self.coursework_scores@.map(
                |i: int, p: (String, Decimal)| (p.0@, p.1@),
            ),
            absences: self.absences@.map(|i: int, s: String| s@),
            absence_types: self.absence_types@.map(
                |i: int, p: (String, String)| (p.0@, p.1@),
            ),
        }
    }
}

/// Ghost form of the `Database` aggregate.
pub struct DatabaseV {
    pub settings: AppSettingsV,
    pub subjects: Seq<SubjectV>,
    pub students: Seq<StudentV>,
    pub grades: Seq<GradeRecordV>,
}

/// The root aggregate: the whole persisted document.
#[derive(Debug, Clone, PartialEq, Eq)]
pub struct Database {
    pub settings: AppSettings,
    pub subjects: Vec<Subject>,
    pub students: Vec<Student>,
    pub grades: Vec<GradeRecord>,
}

impl View for Database {
    type V = DatabaseV;

    open spec fn view(&self) -> DatabaseV {
        DatabaseV {
            settings: self.settings@,
            subjects: self.subjects@.map(|i: int, s: Subject| s@),
            students: self.students@.map(|i: int, s: Student| s@),
            grades: self.grades@.map(|i: int, g: GradeRecord| g@),
        }
    }
}

// ---------------------------------------------------------------------
// Defaults
// ---------------------------------------------------------------------

/// The default interface language code.
pub fn default_lang() -> (r: String)
    ensures
        r@ == "ar"@,
{
    String::from_str("ar")
}

/// The default pass-mark threshold, 60 percent.
pub fn default_pass() -> (r: Decimal)
    ensures
        r@ == 60000int,
{
    Decimal { milli: 60000 }
}

/// The default absence-count threshold.
pub fn default_abs() -> (r: i32)
    ensures
        r == 3,
{
    3
}

/// The default date display format code.
pub fn default_date_fmt() -> (r: String)
    ensures
        r@ == "iso"@,
{
    String::from_str("iso")
}

/// Ghost form of the default settings.
pub open spec fn default_settings_v() -> AppSettingsV {
    AppSettingsV {
        default_language: "ar"@,
        pass_threshold_pct: 60000int,
        absence_threshold: 3,
        date_format: "iso"@,
        auth_enabled: false,
        auth_username: ""@,
        auth_salt: ""@,
        auth_password_hash: ""@,
        users: Seq::empty(),
    }
}

/// Ghost form of the default (empty, first-run) database.
pub open spec fn default_database_v() -> DatabaseV {
    DatabaseV {
        settings: default_settings_v(),
        subjects: Seq::empty(),
        students: Seq::empty(),
        grades: Seq::empty(),
    }
}

impl Default for User {
    /// A user with every field empty.
    fn default() -> (r: User)
        ensures
            r@.username == ""@,
            r@.role == ""@,
            r@.salt == ""@,
            r@.password_hash == ""@,
    {
        proof {
            reveal_strlit("");
        }
        User {
            username: String::new(),
            role: String::new(),
            salt: String::new(),
            password_hash: String::new(),
        }
    }
}

impl Default for AppSettings {
    /// Settings with every field at its documented default.
    fn default() -> (r: AppSettings)
        ensures
            r@ == default_settings_v(),
    {
        let r = AppSettings {
            default_language: default_lang(),
            pass_threshold_pct: default_pass(),
            absence_threshold: default_abs(),
            date_format: default_date_fmt(),
            auth_enabled: false,
            auth_username: String::new(),
            auth_salt: String::new(),
            auth_password_hash: String::new(),
            users: Vec::new(),
        };
        proof {
            reveal_strlit("");
            assert(r@.users =~= default_settings_v().users);
            assert(r@.auth_username =~= default_settings_v().auth_username);
            assert(r@.auth_salt =~= default_settings_v().auth_salt);
            assert(r@.auth_password_hash =~= default_settings_v().auth_password_hash);
            assert(r@ =~= default_settings_v());
        }
        r
    }
}

impl Default for Database {
    /// The empty, fully-defaulted database of a first run.
    fn default() -> (r: Database)
        ensures
            r@ == default_database_v(),
    {
        let r = Database {
            settings: AppSettings::default(),
            subjects: Vec::new(),
            students: Vec::new(),
            grades: Vec::new(),
        };
        proof {
            assert(r@.subjects =~= default_database_v().subjects);
            assert(r@.students =~= default_database_v().students);
            assert(r@.grades =~= default_database_v().grades);
            assert(r@ =~= default_database_v());
        }
        r
    }
}

// ---------------------------------------------------------------------
// Well-formedness
// ---------------------------------------------------------------------

pub open spec fn opt_num_wf(o: Option<int>) -> bool {
    match o {
        Option::None => true,
        Option::Some(m) => num_wf(m),
    }
}

/// Keys of a key/value list are pairwise distinct.
pub open spec fn keys_unique<T>(ps: Seq<(Seq<char>, T)>) -> bool {
    forall|i: int, j: int| 0 <= i < j < ps.len() ==> ps[i].0 != ps[j].0
}

pub open spec fn settings_wf(s: AppSettingsV) -> bool {
    num_wf(s.pass_threshold_pct)
}

pub open spec fn category_wf(c: CourseworkCategoryV) -> bool {
    num_wf(c.max_points)
}

pub open spec fn subject_wf(s: SubjectV) -> bool {
    &&& num_wf(s.max_exam1)
    &&& num_wf(s.max_exam2)
    &&& num_wf(s.max_coursework)
    &&& num_wf(s.max_final_exam)
    &&& forall|i: int|
        0 <= i < s.coursework_categories.len() ==> category_wf(#[trigger] s.coursework_categories[i])
}

pub open spec fn grade_wf(g: GradeRecordV) -> bool {
    &&& opt_num_wf(g.exam1)
    &&& opt_num_wf(g.exam2)
    &&& opt_num_wf(g.coursework)
    &&& opt_num_wf(g.final_exam)
    &&& opt_num_wf(g.total)
    &&& forall|i: int|
        0 <= i < g.coursework_scores.len() ==> num_wf(#[trigger] g.coursework_scores[i].1)
    &&& keys_unique(g.coursework_scores)
    &&& keys_unique(g.absence_types)
}

/// Every number is in the codec's range and every mapping has unique
/// keys: what a database must satisfy to be serialized and re-read.
pub open spec fn database_wf(d: DatabaseV) -> bool {
    &&& settings_wf(d.settings)
    &&& forall|i: int| 0 <= i < d.subjects.len() ==> subject_wf(#[trigger] d.subjects[i])
    &&& forall|i: int| 0 <= i < d.grades.len() ==> grade_wf(#[trigger] d.grades[i])
}

} // verus!
