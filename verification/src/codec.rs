//! Ghost encoding of the data model as JSON values, and ghost decoding
//! with per-field defaulting: a field that is absent from a document
//! takes its documented default; a field that is present with the
//! wrong shape rejects the document.
//!
//! Decoding inverts encoding: `lemma_dec_enc_db` proves that a
//! well-formed database survives the value layer unchanged.

use vstd::prelude::*;

use crate::json::JsonV;
use crate::model::{
    keys_unique, num_wf, AppSettingsV, CourseworkCategoryV, DatabaseV, GradeRecordV, StudentV,
    SubjectV, UserV, default_settings_v, settings_wf, subject_wf, grade_wf, category_wf,
    database_wf,
};

verus! {

pub open spec fn jv_num(j: JsonV) -> int {
    match j {
        JsonV::Num(m) => m,
        _ => 0,
    }
}

pub open spec fn jv_str(j: JsonV) -> Seq<char> {
    match j {
        JsonV::JStr(s) => s,
        _ => Seq::empty(),
    }
}

pub open spec fn jv_bool(j: JsonV) -> bool {
    match j {
        JsonV::Bool(b) => b,
        _ => false,
    }
}

pub open spec fn jv_arr(j: JsonV) -> Seq<JsonV> {
    match j {
        JsonV::Arr(a) => a,
        _ => Seq::empty(),
    }
}

pub open spec fn jv_obj(j: JsonV) -> Seq<(Seq<char>, JsonV)> {
    match j {
        JsonV::Obj(ms) => ms,
        _ => Seq::empty(),
    }
}

/// The value of the first member with key `k`, from position `i` on.
pub open spec fn find_at(ms: Seq<(Seq<char>, JsonV)>, k: Seq<char>, i: int) -> Option<JsonV>
    decreases ms.len() - i,
{
    if !(0 <= i < ms.len()) {
        Option::None
    } else if ms[i].0 == k {
        Option::Some(ms[i].1)
    } else {
        find_at(ms, k, i + 1)
    }
}

/// The value of the first member with key `k`, if any.
pub open spec fn find_f(ms: Seq<(Seq<char>, JsonV)>, k: Seq<char>) -> Option<JsonV> {
    find_at(ms, k, 0)
}

// ---------------------------------------------------------------------
// Encoding
// ---------------------------------------------------------------------

pub open spec fn enc_opt(o: Option<int>) -> JsonV {
    match o {
        Option::None => JsonV::Null,
        Option::Some(m) => JsonV::Num(m),
    }
}

pub open spec fn enc_user(u: UserV) -> JsonV {
    JsonV::Obj(
        seq![
            ("username"@, JsonV::JStr(u.username)),
            ("role"@, JsonV::JStr(u.role)),
            ("salt"@, JsonV::JStr(u.salt)),
            ("password_hash"@, JsonV::JStr(u.password_hash)),
        ],
    )
}

pub open spec fn enc_settings(st: AppSettingsV) -> JsonV {
    JsonV::Obj(
        seq![
            ("default_language"@, JsonV::JStr(st.default_language)),
            ("pass_threshold_pct"@, JsonV::Num(st.pass_threshold_pct)),
            ("absence_threshold"@, JsonV::Num(st.absence_threshold as int * 1000)),
            ("date_format"@, JsonV::JStr(st.date_format)),
            ("auth_enabled"@, JsonV::Bool(st.auth_enabled)),
            ("auth_username"@, JsonV::JStr(st.auth_username)),
            ("auth_salt"@, JsonV::JStr(st.auth_salt)),
            ("auth_password_hash"@, JsonV::JStr(st.auth_password_hash)),
            ("users"@, JsonV::Arr(st.users.map(|i: int, u: UserV| enc_user(u)))),
        ],
    )
}

pub open spec fn enc_category(c: CourseworkCategoryV) -> JsonV {
    JsonV::Obj(
        seq![
            ("id"@, JsonV::JStr(c.id)),
            ("name"@, JsonV::JStr(c.name)),
            ("max_points"@, JsonV::Num(c.max_points)),
        ],
    )
}

pub open spec fn enc_subject(s: SubjectV) -> JsonV {
    JsonV::Obj(
        seq![
            ("id"@, JsonV::JStr(s.id)),
            ("code"@, JsonV::JStr(s.code)),
            ("name_en"@, JsonV::JStr(s.name_en)),
            ("name_ar"@, JsonV::JStr(s.name_ar)),
            ("max_exam1"@, JsonV::Num(s.max_exam1)),
            ("max_exam2"@, JsonV::Num(s.max_exam2)),
            ("max_coursework"@, JsonV::Num(s.max_coursework)),
            ("max_final_exam"@, JsonV::Num(s.max_final_exam)),
            (
                "coursework_categories"@,
                JsonV::Arr(s.coursework_categories.map(|i: int, c: CourseworkCategoryV| enc_category(c))),
            ),
        ],
    )
}

pub open spec fn enc_student(s: StudentV) -> JsonV {
    JsonV::Obj(
        seq![
            ("id"@, JsonV::JStr(s.id)),
            ("username"@, JsonV::JStr(s.username)),
            ("full_name"@, JsonV::JStr(s.full_name)),
            ("email"@, JsonV::JStr(s.email)),
        ],
    )
}

pub open spec fn enc_grade(g: GradeRecordV) -> JsonV {
    JsonV::Obj(
        seq![
            ("subject_id"@, JsonV::JStr(g.subject_id)),
            ("student_id"@, JsonV::JStr(g.student_id)),
            ("exam1"@, enc_opt(g.exam1)),
            ("exam2"@, enc_opt(g.exam2)),
            ("coursework"@, enc_opt(g.coursework)),
            ("final_exam"@, enc_opt(g.final_exam)),
            ("total"@, enc_opt(g.total)),
            (
                "coursework_scores"@,
                JsonV::Obj(g.coursework_scores.map(|i: int, p: (Seq<char>, int)| (p.0, JsonV::Num(p.1)))),
            ),
            ("absences"@, JsonV::Arr(g.absences.map(|i: int, s: Seq<char>| JsonV::JStr(s)))),
            (
                "absence_types"@,
                JsonV::Obj(g.absence_types.map(|i: int, p: (Seq<char>, Seq<char>)| (p.0, JsonV::JStr(p.1)))),
            ),
        ],
    )
}

pub open spec fn enc_db(d: DatabaseV) -> JsonV {
    JsonV::Obj(
        seq![
            ("settings"@, enc_settings(d.settings)),
            ("subjects"@, JsonV::Arr(d.subjects.map(|i: int, s: SubjectV| enc_subject(s)))),
            ("students"@, JsonV::Arr(d.students.map(|i: int, s: StudentV| enc_student(s)))),
            ("grades"@, JsonV::Arr(d.grades.map(|i: int, g: GradeRecordV| enc_grade(g)))),
        ],
    )
}

// ---------------------------------------------------------------------
// Decoding
// ---------------------------------------------------------------------

/// A string field: absent takes the default, wrong shape rejects.
pub open spec fn dec_str_field(
    ms: Seq<(Seq<char>, JsonV)>,
    k: Seq<char>,
    dflt: Seq<char>,
) -> Option<Seq<char>> {
    match find_f(ms, k) {
        Option::None => Option::Some(dflt),
        Option::Some(j) => if j is JStr {
            Option::Some(jv_str(j))
        } else {
            Option::None
        },
    }
}

/// A number field, in thousandths.
pub open spec fn dec_num_field(ms: Seq<(Seq<char>, JsonV)>, k: Seq<char>, dflt: int) -> Option<
    int,
> {
    match find_f(ms, k) {
        Option::None => Option::Some(dflt),
        Option::Some(j) => if j is Num {
            Option::Some(jv_num(j))
        } else {
            Option::None
        },
    }
}

/// A whole-number field: the stored thousandths must name a whole
/// number that fits an `i32`.
pub open spec fn dec_i32_field(ms: Seq<(Seq<char>, JsonV)>, k: Seq<char>, dflt: i32) -> Option<
    i32,
> {
    match find_f(ms, k) {
        Option::None => Option::Some(dflt),
        Option::Some(j) => if j is Num && jv_num(j) % 1000 == 0 && i32::MIN <= jv_num(j) / 1000
            <= i32::MAX {
            Option::Some((jv_num(j) / 1000) as i32)
        } else {
            Option::None
        },
    }
}

pub open spec fn dec_bool_field(ms: Seq<(Seq<char>, JsonV)>, k: Seq<char>, dflt: bool) -> Option<
    bool,
> {
    match find_f(ms, k) {
        Option::None => Option::Some(dflt),
        Option::Some(j) => if j is Bool {
            Option::Some(jv_bool(j))
        } else {
            Option::None
        },
    }
}

/// An optional score: absent or `null` is "not entered".
pub open spec fn dec_opt_field(ms: Seq<(Seq<char>, JsonV)>, k: Seq<char>) -> Option<Option<int>> {
    match find_f(ms, k) {
        Option::None => Option::Some(Option::None),
        Option::Some(j) => match j {
            JsonV::Null => Option::Some(Option::None),
            JsonV::Num(m) => Option::Some(Option::Some(m)),
            _ => Option::None,
        },
    }
}

pub open spec fn dec_user(j: JsonV) -> Option<UserV> {
    if !(j is Obj) {
        Option::None
    } else {
        let ms = jv_obj(j);
        let username = dec_str_field(ms, "username"@, Seq::empty());
        let role = dec_str_field(ms, "role"@, Seq::empty());
        let salt = dec_str_field(ms, "salt"@, Seq::empty());
        let password_hash = dec_str_field(ms, "password_hash"@, Seq::empty());
        if username is Some && role is Some && salt is Some && password_hash is Some {
            Option::Some(
                UserV {
                    username: username->0,
                    role: role->0,
                    salt: salt->0,
                    password_hash: password_hash->0,
                },
            )
        } else {
            Option::None
        }
    }
}

pub open spec fn dec_users(a: Seq<JsonV>) -> Option<Seq<UserV>> {
    if forall|i: int| 0 <= i < a.len() ==> dec_user(#[trigger] a[i]) is Some {
        Option::Some(Seq::new(a.len(), |i: int| dec_user(a[i])->0))
    } else {
        Option::None
    }
}

/// An array-of-values field: absent means empty.
pub open spec fn dec_arr_field(ms: Seq<(Seq<char>, JsonV)>, k: Seq<char>) -> Option<Seq<JsonV>> {
    match find_f(ms, k) {
        Option::None => Option::Some(Seq::empty()),
        Option::Some(j) => if j is Arr {
            Option::Some(jv_arr(j))
        } else {
            Option::None
        },
    }
}

/// An object-of-members field: absent means empty.
pub open spec fn dec_obj_field(ms: Seq<(Seq<char>, JsonV)>, k: Seq<char>) -> Option<
    Seq<(Seq<char>, JsonV)>,
> {
    match find_f(ms, k) {
        Option::None => Option::Some(Seq::empty()),
        Option::Some(j) => if j is Obj {
            Option::Some(jv_obj(j))
        } else {
            Option::None
        },
    }
}

pub open spec fn dec_settings(j: JsonV) -> Option<AppSettingsV> {
    if !(j is Obj) {
        Option::None
    } else {
        let ms = jv_obj(j);
        let default_language = dec_str_field(ms, "default_language"@, "ar"@);
        let pass_threshold_pct = dec_num_field(ms, "pass_threshold_pct"@, 60000);
        let absence_threshold = dec_i32_field(ms, "absence_threshold"@, 3);
        let date_format = dec_str_field(ms, "date_format"@, "iso"@);
        let auth_enabled = dec_bool_field(ms, "auth_enabled"@, false);
        let auth_username = dec_str_field(ms, "auth_username"@, Seq::empty());
        let auth_salt = dec_str_field(ms, "auth_salt"@, Seq::empty());
        let auth_password_hash = dec_str_field(ms, "auth_password_hash"@, Seq::empty());
        let users_arr = dec_arr_field(ms, "users"@);
        if default_language is Some && pass_threshold_pct is Some && absence_threshold is Some
            && date_format is Some && auth_enabled is Some && auth_username is Some
            && auth_salt is Some && auth_password_hash is Some && users_arr is Some && dec_users(
            users_arr->0,
        ) is Some {
            Option::Some(
                AppSettingsV {
                    default_language: default_language->0,
                    pass_threshold_pct: pass_threshold_pct->0,
                    absence_threshold: absence_threshold->0,
                    date_format: date_format->0,
                    auth_enabled: auth_enabled->0,
                    auth_username: auth_username->0,
                    auth_salt: auth_salt->0,
                    auth_password_hash: auth_password_hash->0,
                    users: dec_users(users_arr->0)->0,
                },
            )
        } else {
            Option::None
        }
    }
}

pub open spec fn dec_category(j: JsonV) -> Option<CourseworkCategoryV> {
    if !(j is Obj) {
        Option::None
    } else {
        let ms = jv_obj(j);
        let id = dec_str_field(ms, "id"@, Seq::empty());
        let name = dec_str_field(ms, "name"@, Seq::empty());
        let max_points = dec_num_field(ms, "max_points"@, 0);
        if id is Some && name is Some && max_points is Some {
            Option::Some(CourseworkCategoryV { id: id->0, name: name->0, max_points: max_points->0 })
        } else {
            Option::None
        }
    }
}

pub open spec fn dec_categories(a: Seq<JsonV>) -> Option<Seq<CourseworkCategoryV>> {
    if forall|i: int| 0 <= i < a.len() ==> dec_category(#[trigger] a[i]) is Some {
        Option::Some(Seq::new(a.len(), |i: int| dec_category(a[i])->0))
    } else {
        Option::None
    }
}

pub open spec fn dec_subject(j: JsonV) -> Option<SubjectV> {
    if !(j is Obj) {
        Option::None
    } else {
        let ms = jv_obj(j);
        let id = dec_str_field(ms, "id"@, Seq::empty());
        let code = dec_str_field(ms, "code"@, Seq::empty());
        let name_en = dec_str_field(ms, "name_en"@, Seq::empty());
        let name_ar = dec_str_field(ms, "name_ar"@, Seq::empty());
        let max_exam1 = dec_num_field(ms, "max_exam1"@, 0);
        let max_exam2 = dec_num_field(ms, "max_exam2"@, 0);
        let max_coursework = dec_num_field(ms, "max_coursework"@, 0);
        let max_final_exam = dec_num_field(ms, "max_final_exam"@, 0);
        let cats = dec_arr_field(ms, "coursework_categories"@);
        if id is Some && code is Some && name_en is Some && name_ar is Some && max_exam1 is Some
            && max_exam2 is Some && max_coursework is Some && max_final_exam is Some
            && cats is Some && dec_categories(cats->0) is Some {
            Option::Some(
                SubjectV {
                    id: id->0,
                    code: code->0,
                    name_en: name_en->0,
                    name_ar: name_ar->0,
                    max_exam1: max_exam1->0,
                    max_exam2: max_exam2->0,
                    max_coursework: max_coursework->0,
                    max_final_exam: max_final_exam->0,
                    coursework_categories: dec_categories(cats->0)->0,
                },
            )
        } else {
            Option::None
        }
    }
}

pub open spec fn dec_subjects(a: Seq<JsonV>) -> Option<Seq<SubjectV>> {
    if forall|i: int| 0 <= i < a.len() ==> dec_subject(#[trigger] a[i]) is Some {
        Option::Some(Seq::new(a.len(), |i: int| dec_subject(a[i])->0))
    } else {
        Option::None
    }
}

pub open spec fn dec_student(j: JsonV) -> Option<StudentV> {
    if !(j is Obj) {
        Option::None
    } else {
        let ms = jv_obj(j);
        let id = dec_str_field(ms, "id"@, Seq::empty());
        let username = dec_str_field(ms, "username"@, Seq::empty());
        let full_name = dec_str_field(ms, "full_name"@, Seq::empty());
        let email = dec_str_field(ms, "email"@, Seq::empty());
        if id is Some && username is Some && full_name is Some && email is Some {
            Option::Some(
                StudentV { id: id->0, username: username->0, full_name: full_name->0, email: email->0 },
            )
        } else {
            Option::None
        }
    }
}

pub open spec fn dec_students(a: Seq<JsonV>) -> Option<Seq<StudentV>> {
    if forall|i: int| 0 <= i < a.len() ==> dec_student(#[trigger] a[i]) is Some {
        Option::Some(Seq::new(a.len(), |i: int| dec_student(a[i])->0))
    } else {
        Option::None
    }
}

/// A mapping from keys to numbers: every value a number, keys unique.
pub open spec fn dec_num_map(ms: Seq<(Seq<char>, JsonV)>) -> Option<Seq<(Seq<char>, int)>> {
    if (forall|i: int| 0 <= i < ms.len() ==> (#[trigger] ms[i]).1 is Num) && keys_unique(ms) {
        Option::Some(Seq::new(ms.len(), |i: int| (ms[i].0, jv_num(ms[i].1))))
    } else {
        Option::None
    }
}

/// A mapping from keys to strings: every value a string, keys unique.
pub open spec fn dec_str_map(ms: Seq<(Seq<char>, JsonV)>) -> Option<Seq<(Seq<char>, Seq<char>)>> {
    if (forall|i: int| 0 <= i < ms.len() ==> (#[trigger] ms[i]).1 is JStr) && keys_unique(ms) {
        Option::Some(Seq::new(ms.len(), |i: int| (ms[i].0, jv_str(ms[i].1))))
    } else {
        Option::None
    }
}

/// A list of strings.
pub open spec fn dec_str_list(a: Seq<JsonV>) -> Option<Seq<Seq<char>>> {
    if forall|i: int| 0 <= i < a.len() ==> #[trigger] a[i] is JStr {
        Option::Some(Seq::new(a.len(), |i: int| jv_str(a[i])))
    } else {
        Option::None
    }
}

pub open spec fn dec_grade(j: JsonV) -> Option<GradeRecordV> {
    if !(j is Obj) {
        Option::None
    } else {
        let ms = jv_obj(j);
        let subject_id = dec_str_field(ms, "subject_id"@, Seq::empty());
        let student_id = dec_str_field(ms, "student_id"@, Seq::empty());
        let exam1 = dec_opt_field(ms, "exam1"@);
        let exam2 = dec_opt_field(ms, "exam2"@);
        let coursework = dec_opt_field(ms, "coursework"@);
        let final_exam = dec_opt_field(ms, "final_exam"@);
        let total = dec_opt_field(ms, "total"@);
        let scores = dec_obj_field(ms, "coursework_scores"@);
        let absences = dec_arr_field(ms, "absences"@);
        let abs_types = dec_obj_field(ms, "absence_types"@);
        if subject_id is Some && student_id is Some && exam1 is Some && exam2 is Some
            && coursework is Some && final_exam is Some && total is Some && scores is Some
            && dec_num_map(scores->0) is Some && absences is Some && dec_str_list(absences->0)
            is Some && abs_types is Some && dec_str_map(abs_types->0) is Some {
            Option::Some(
                GradeRecordV {
                    subject_id: subject_id->0,
                    student_id: student_id->0,
                    exam1: exam1->0,
                    exam2: exam2->0,
                    coursework: coursework->0,
                    final_exam: final_exam->0,
                    total: total->0,
                    coursework_scores: dec_num_map(scores->0)->0,
                    absences: dec_str_list(absences->0)->0,
                    absence_types: dec_str_map(abs_types->0)->0,
                },
            )
        } else {
            Option::None
        }
    }
}

pub open spec fn dec_grades(a: Seq<JsonV>) -> Option<Seq<GradeRecordV>> {
    if forall|i: int| 0 <= i < a.len() ==> dec_grade(#[trigger] a[i]) is Some {
        Option::Some(Seq::new(a.len(), |i: int| dec_grade(a[i])->0))
    } else {
        Option::None
    }
}

pub open spec fn dec_db(j: JsonV) -> Option<DatabaseV> {
    if !(j is Obj) {
        Option::None
    } else {
        let ms = jv_obj(j);
        let st = match find_f(ms, "settings"@) {
            Option::None => Option::Some(default_settings_v()),
            Option::Some(x) => dec_settings(x),
        };
        let subjects = dec_arr_field(ms, "subjects"@);
        let students = dec_arr_field(ms, "students"@);
        let grades = dec_arr_field(ms, "grades"@);
        if st is Some && subjects is Some && dec_subjects(subjects->0) is Some && students is Some
            && dec_students(students->0) is Some && grades is Some && dec_grades(grades->0)
            is Some {
            Option::Some(
                DatabaseV {
                    settings: st->0,
                    subjects: dec_subjects(subjects->0)->0,
                    students: dec_students(students->0)->0,
                    grades: dec_grades(grades->0)->0,
                },
            )
        } else {
            Option::None
        }
    }
}

// ---------------------------------------------------------------------
// Decoding inverts encoding
// ---------------------------------------------------------------------

proof fn lemma_find_hit_from(ms: Seq<(Seq<char>, JsonV)>, k: Seq<char>, i: int, idx: int)
    requires
        0 <= i <= idx < ms.len(),
        ms[idx].0 == k,
        forall|t: int| i <= t < idx ==> (#[trigger] ms[t]).0 != k,
    ensures
        find_at(ms, k, i) == Option::Some(ms[idx].1),
    decreases idx - i,
{
    if i < idx {
        lemma_find_hit_from(ms, k, i + 1, idx);
    }
}

/// The first member whose earlier keys all differ is the one found.
pub proof fn lemma_find_hit(ms: Seq<(Seq<char>, JsonV)>, k: Seq<char>, idx: int)
    requires
        0 <= idx < ms.len(),
        ms[idx].0 == k,
        forall|t: int| 0 <= t < idx ==> (#[trigger] ms[t]).0 != k,
    ensures
        find_f(ms, k) == Option::Some(ms[idx].1),
{
    lemma_find_hit_from(ms, k, 0, idx);
}

pub proof fn lemma_dec_enc_user(u: UserV)
    ensures
        crate::inverse::jv_wf(enc_user(u)),
        dec_user(enc_user(u)) == Option::Some(u),
{
    reveal_strlit("username");
    reveal_strlit("role");
    reveal_strlit("salt");
    reveal_strlit("password_hash");
    assert("username"@.len() == 8);
    assert("role"@.len() == 4);
    assert("salt"@.len() == 4);
    assert("password_hash"@.len() == 13);
    assert("role"@[0] == 'r');
    assert("salt"@[0] == 's');
    let ms = jv_obj(enc_user(u));
    assert(ms[0].0 == "username"@ && ms[1].0 == "role"@ && ms[2].0 == "salt"@ && ms[3].0
        == "password_hash"@);
    lemma_find_hit(ms, "username"@, 0);
    assert(ms[0].0 != "role"@);
    lemma_find_hit(ms, "role"@, 1);
    assert(ms[0].0 != "salt"@ && ms[1].0 != "salt"@);
    lemma_find_hit(ms, "salt"@, 2);
    assert(ms[0].0 != "password_hash"@ && ms[1].0 != "password_hash"@ && ms[2].0
        != "password_hash"@);
    lemma_find_hit(ms, "password_hash"@, 3);
    assert(crate::inverse::jv_wf(enc_user(u))) by {
        assert(crate::inverse::jv_wf(ms[0].1));
        assert(crate::inverse::jv_wf(ms[1].1));
        assert(crate::inverse::jv_wf(ms[2].1));
        assert(crate::inverse::jv_wf(ms[3].1));
        assert forall|i: int| 0 <= i < ms.len() implies crate::inverse::jv_wf(
            #[trigger] ms[i].1,
        ) by {
            assert(i == 0 || i == 1 || i == 2 || i == 3);
        }
    }
}

pub proof fn lemma_dec_enc_settings(st: AppSettingsV)
    requires
        settings_wf(st),
    ensures
        crate::inverse::jv_wf(enc_settings(st)),
        dec_settings(enc_settings(st)) == Option::Some(st),
{
    reveal_strlit("default_language");
    reveal_strlit("pass_threshold_pct");
    reveal_strlit("absence_threshold");
    reveal_strlit("date_format");
    reveal_strlit("auth_enabled");
    reveal_strlit("auth_username");
    reveal_strlit("auth_salt");
    reveal_strlit("auth_password_hash");
    reveal_strlit("users");
    assert("default_language"@.len() == 16);
    assert("pass_threshold_pct"@.len() == 18);
    assert("absence_threshold"@.len() == 17);
    assert("date_format"@.len() == 11);
    assert("auth_enabled"@.len() == 12);
    assert("auth_username"@.len() == 13);
    assert("auth_salt"@.len() == 9);
    assert("auth_password_hash"@.len() == 18);
    assert("users"@.len() == 5);
    assert("auth_password_hash"@[0] == 'a');
    assert("pass_threshold_pct"@[0] == 'p');
    let ms = jv_obj(enc_settings(st));
    let users_enc = st.users.map(|i: int, u: UserV| enc_user(u));
    assert(ms[0].0 == "default_language"@ && ms[1].0 == "pass_threshold_pct"@ && ms[2].0
        == "absence_threshold"@ && ms[3].0 == "date_format"@ && ms[4].0 == "auth_enabled"@
        && ms[5].0 == "auth_username"@ && ms[6].0 == "auth_salt"@ && ms[7].0
        == "auth_password_hash"@ && ms[8].0 == "users"@);
    lemma_find_hit(ms, "default_language"@, 0);
    assert(forall|t: int| 0 <= t < 1 ==> (#[trigger] ms[t]).0 != "pass_threshold_pct"@);
    lemma_find_hit(ms, "pass_threshold_pct"@, 1);
    assert(forall|t: int| 0 <= t < 2 ==> (#[trigger] ms[t]).0 != "absence_threshold"@);
    lemma_find_hit(ms, "absence_threshold"@, 2);
    assert(forall|t: int| 0 <= t < 3 ==> (#[trigger] ms[t]).0 != "date_format"@);
    lemma_find_hit(ms, "date_format"@, 3);
    assert(forall|t: int| 0 <= t < 4 ==> (#[trigger] ms[t]).0 != "auth_enabled"@);
    lemma_find_hit(ms, "auth_enabled"@, 4);
    assert(forall|t: int| 0 <= t < 5 ==> (#[trigger] ms[t]).0 != "auth_username"@);
    lemma_find_hit(ms, "auth_username"@, 5);
    assert(forall|t: int| 0 <= t < 6 ==> (#[trigger] ms[t]).0 != "auth_salt"@);
    lemma_find_hit(ms, "auth_salt"@, 6);
    assert(forall|t: int| 0 <= t < 7 ==> (#[trigger] ms[t]).0 != "auth_password_hash"@);
    lemma_find_hit(ms, "auth_password_hash"@, 7);
    assert(forall|t: int| 0 <= t < 8 ==> (#[trigger] ms[t]).0 != "users"@);
    lemma_find_hit(ms, "users"@, 8);

    let thr = st.absence_threshold as int;
    assert(thr * 1000 % 1000 == 0 && thr * 1000 / 1000 == thr) by (nonlinear_arith);
    assert(num_wf(thr * 1000)) by (nonlinear_arith)
        requires
            -2147483648 <= thr <= 2147483647,
    ;

    assert forall|i: int| 0 <= i < users_enc.len() implies dec_user(#[trigger] users_enc[i])
        is Some && crate::inverse::jv_wf(users_enc[i]) by {
        lemma_dec_enc_user(st.users[i]);
    }
    assert(dec_users(users_enc) is Some);
    assert(dec_users(users_enc)->0 =~= st.users) by {
        assert forall|i: int| 0 <= i < users_enc.len() implies dec_users(users_enc)->0[i]
            == st.users[i] by {
            lemma_dec_enc_user(st.users[i]);
        }
    }
    assert(dec_settings(enc_settings(st))->0 == st);
    assert(ms[8].1 == JsonV::Arr(users_enc));
    assert(crate::inverse::jv_wf(enc_settings(st))) by {
        assert(crate::inverse::jv_wf(ms[0].1));
        assert(crate::inverse::jv_wf(ms[1].1));
        assert(crate::inverse::jv_wf(ms[2].1));
        assert(crate::inverse::jv_wf(ms[3].1));
        assert(crate::inverse::jv_wf(ms[4].1));
        assert(crate::inverse::jv_wf(ms[5].1));
        assert(crate::inverse::jv_wf(ms[6].1));
        assert(crate::inverse::jv_wf(ms[7].1));
        assert(crate::inverse::jv_wf(ms[8].1));
        assert forall|i: int| 0 <= i < ms.len() implies crate::inverse::jv_wf(
            #[trigger] ms[i].1,
        ) by {
            assert(i == 0 || i == 1 || i == 2 || i == 3 || i == 4 || i == 5 || i == 6 || i == 7
                || i == 8);
        }
    }
}

pub proof fn lemma_dec_enc_category(c: CourseworkCategoryV)
    requires
        category_wf(c),
    ensures
        crate::inverse::jv_wf(enc_category(c)),
        dec_category(enc_category(c)) == Option::Some(c),
{
    reveal_strlit("id");
    reveal_strlit("name");
    reveal_strlit("max_points");
    assert("id"@.len() == 2);
    assert("name"@.len() == 4);
    assert("max_points"@.len() == 10);
    let ms = jv_obj(enc_category(c));
    assert(ms[0].0 == "id"@ && ms[1].0 == "name"@ && ms[2].0 == "max_points"@);
    lemma_find_hit(ms, "id"@, 0);
    assert(forall|t: int| 0 <= t < 1 ==> (#[trigger] ms[t]).0 != "name"@);
    lemma_find_hit(ms, "name"@, 1);
    assert(forall|t: int| 0 <= t < 2 ==> (#[trigger] ms[t]).0 != "max_points"@);
    lemma_find_hit(ms, "max_points"@, 2);
    assert(crate::inverse::jv_wf(enc_category(c))) by {
        assert(crate::inverse::jv_wf(ms[0].1));
        assert(crate::inverse::jv_wf(ms[1].1));
        assert(crate::inverse::jv_wf(ms[2].1));
        assert forall|i: int| 0 <= i < ms.len() implies crate::inverse::jv_wf(
            #[trigger] ms[i].1,
        ) by {
            assert(i == 0 || i == 1 || i == 2);
        }
    }
}

pub proof fn lemma_dec_enc_subject(s: SubjectV)
    requires
        subject_wf(s),
    ensures
        crate::inverse::jv_wf(enc_subject(s)),
        dec_subject(enc_subject(s)) == Option::Some(s),
{
    reveal_strlit("id");
    reveal_strlit("code");
    reveal_strlit("name_en");
    reveal_strlit("name_ar");
    reveal_strlit("max_exam1");
    reveal_strlit("max_exam2");
    reveal_strlit("max_coursework");
    reveal_strlit("max_final_exam");
    reveal_strlit("coursework_categories");
    assert("id"@.len() == 2);
    assert("code"@.len() == 4);
    assert("name_en"@.len() == 7);
    assert("name_ar"@.len() == 7);
    assert("max_exam1"@.len() == 9);
    assert("max_exam2"@.len() == 9);
    assert("max_coursework"@.len() == 14);
    assert("max_final_exam"@.len() == 14);
    assert("coursework_categories"@.len() == 21);
    assert("name_ar"@[5] == 'a');
    assert("name_en"@[5] == 'e');
    assert("max_exam1"@[8] == '1');
    assert("max_exam2"@[8] == '2');
    assert("max_coursework"@[4] == 'c');
    assert("max_final_exam"@[4] == 'f');
    let ms = jv_obj(enc_subject(s));
    let cats_enc = s.coursework_categories.map(|i: int, c: CourseworkCategoryV| enc_category(c));
    assert(ms[0].0 == "id"@ && ms[1].0 == "code"@ && ms[2].0 == "name_en"@ && ms[3].0
        == "name_ar"@ && ms[4].0 == "max_exam1"@ && ms[5].0 == "max_exam2"@ && ms[6].0
        == "max_coursework"@ && ms[7].0 == "max_final_exam"@ && ms[8].0
        == "coursework_categories"@);
    lemma_find_hit(ms, "id"@, 0);
    assert(forall|t: int| 0 <= t < 1 ==> (#[trigger] ms[t]).0 != "code"@);
    lemma_find_hit(ms, "code"@, 1);
    assert(forall|t: int| 0 <= t < 2 ==> (#[trigger] ms[t]).0 != "name_en"@);
    lemma_find_hit(ms, "name_en"@, 2);
    assert(forall|t: int| 0 <= t < 3 ==> (#[trigger] ms[t]).0 != "name_ar"@);
    lemma_find_hit(ms, "name_ar"@, 3);
    assert(forall|t: int| 0 <= t < 4 ==> (#[trigger] ms[t]).0 != "max_exam1"@);
    lemma_find_hit(ms, "max_exam1"@, 4);
    assert(forall|t: int| 0 <= t < 5 ==> (#[trigger] ms[t]).0 != "max_exam2"@);
    lemma_find_hit(ms, "max_exam2"@, 5);
    assert(forall|t: int| 0 <= t < 6 ==> (#[trigger] ms[t]).0 != "max_coursework"@);
    lemma_find_hit(ms, "max_coursework"@, 6);
    assert(forall|t: int| 0 <= t < 7 ==> (#[trigger] ms[t]).0 != "max_final_exam"@);
    lemma_find_hit(ms, "max_final_exam"@, 7);
    assert(forall|t: int| 0 <= t < 8 ==> (#[trigger] ms[t]).0 != "coursework_categories"@);
    lemma_find_hit(ms, "coursework_categories"@, 8);

    assert forall|i: int| 0 <= i < cats_enc.len() implies dec_category(#[trigger] cats_enc[i])
        is Some && crate::inverse::jv_wf(cats_enc[i]) by {
        assert(category_wf(s.coursework_categories[i]));
        lemma_dec_enc_category(s.coursework_categories[i]);
    }
    assert(dec_categories(cats_enc) is Some);
    assert(dec_categories(cats_enc)->0 =~= s.coursework_categories) by {
        assert forall|i: int| 0 <= i < cats_enc.len() implies dec_categories(cats_enc)->0[i]
            == s.coursework_categories[i] by {
            assert(category_wf(s.coursework_categories[i]));
            lemma_dec_enc_category(s.coursework_categories[i]);
        }
    }
    assert(dec_subject(enc_subject(s))->0 == s);
    assert(ms[8].1 == JsonV::Arr(cats_enc));
    assert(crate::inverse::jv_wf(enc_subject(s))) by {
        assert(crate::inverse::jv_wf(ms[0].1));
        assert(crate::inverse::jv_wf(ms[1].1));
        assert(crate::inverse::jv_wf(ms[2].1));
        assert(crate::inverse::jv_wf(ms[3].1));
        assert(crate::inverse::jv_wf(ms[4].1));
        assert(crate::inverse::jv_wf(ms[5].1));
        assert(crate::inverse::jv_wf(ms[6].1));
        assert(crate::inverse::jv_wf(ms[7].1));
        assert(crate::inverse::jv_wf(ms[8].1));
        assert forall|i: int| 0 <= i < ms.len() implies crate::inverse::jv_wf(
            #[trigger] ms[i].1,
        ) by {
            assert(i == 0 || i == 1 || i == 2 || i == 3 || i == 4 || i == 5 || i == 6 || i == 7
                || i == 8);
        }
    }
}

pub proof fn lemma_dec_enc_student(s: StudentV)
    ensures
        crate::inverse::jv_wf(enc_student(s)),
        dec_student(enc_student(s)) == Option::Some(s),
{
    reveal_strlit("id");
    reveal_strlit("username");
    reveal_strlit("full_name");
    reveal_strlit("email");
    assert("id"@.len() == 2);
    assert("username"@.len() == 8);
    assert("full_name"@.len() == 9);
    assert("email"@.len() == 5);
    let ms = jv_obj(enc_student(s));
    assert(ms[0].0 == "id"@ && ms[1].0 == "username"@ && ms[2].0 == "full_name"@ && ms[3].0
        == "email"@);
    lemma_find_hit(ms, "id"@, 0);
    assert(forall|t: int| 0 <= t < 1 ==> (#[trigger] ms[t]).0 != "username"@);
    lemma_find_hit(ms, "username"@, 1);
    assert(forall|t: int| 0 <= t < 2 ==> (#[trigger] ms[t]).0 != "full_name"@);
    lemma_find_hit(ms, "full_name"@, 2);
    assert(forall|t: int| 0 <= t < 3 ==> (#[trigger] ms[t]).0 != "email"@);
    lemma_find_hit(ms, "email"@, 3);
    assert(crate::inverse::jv_wf(enc_student(s))) by {
        assert(crate::inverse::jv_wf(ms[0].1));
        assert(crate::inverse::jv_wf(ms[1].1));
        assert(crate::inverse::jv_wf(ms[2].1));
        assert(crate::inverse::jv_wf(ms[3].1));
        assert forall|i: int| 0 <= i < ms.len() implies crate::inverse::jv_wf(
            #[trigger] ms[i].1,
        ) by {
            assert(i == 0 || i == 1 || i == 2 || i == 3);
        }
    }
}

pub proof fn lemma_dec_enc_grade(g: GradeRecordV)
    requires
        grade_wf(g),
    ensures
        crate::inverse::jv_wf(enc_grade(g)),
        dec_grade(enc_grade(g)) == Option::Some(g),
{
    reveal_strlit("subject_id");
    reveal_strlit("student_id");
    reveal_strlit("exam1");
    reveal_strlit("exam2");
    reveal_strlit("coursework");
    reveal_strlit("final_exam");
    reveal_strlit("total");
    reveal_strlit("coursework_scores");
    reveal_strlit("absences");
    reveal_strlit("absence_types");
    assert("subject_id"@.len() == 10);
    assert("student_id"@.len() == 10);
    assert("exam1"@.len() == 5);
    assert("exam2"@.len() == 5);
    assert("coursework"@.len() == 10);
    assert("final_exam"@.len() == 10);
    assert("total"@.len() == 5);
    assert("coursework_scores"@.len() == 17);
    assert("absences"@.len() == 8);
    assert("absence_types"@.len() == 13);
    assert("student_id"@[1] == 't');
    assert("subject_id"@[1] == 'u');
    assert("exam1"@[4] == '1');
    assert("exam2"@[4] == '2');
    assert("exam1"@[0] == 'e');
    assert("total"@[0] == 't');
    assert("exam2"@[0] == 'e');
    assert("coursework"@[0] == 'c');
    assert("subject_id"@[0] == 's');
    assert("student_id"@[0] == 's');
    assert("final_exam"@[0] == 'f');
    let ms = jv_obj(enc_grade(g));
    let scores_enc = g.coursework_scores.map(|i: int, p: (Seq<char>, int)| (p.0, JsonV::Num(p.1)));
    let abs_enc = g.absences.map(|i: int, s: Seq<char>| JsonV::JStr(s));
    let types_enc = g.absence_types.map(|i: int, p: (Seq<char>, Seq<char>)| (p.0, JsonV::JStr(p.1)));
    assert(ms[0].0 == "subject_id"@ && ms[1].0 == "student_id"@ && ms[2].0 == "exam1"@
        && ms[3].0 == "exam2"@ && ms[4].0 == "coursework"@ && ms[5].0 == "final_exam"@
        && ms[6].0 == "total"@ && ms[7].0 == "coursework_scores"@ && ms[8].0 == "absences"@
        && ms[9].0 == "absence_types"@);
    lemma_find_hit(ms, "subject_id"@, 0);
    assert(forall|t: int| 0 <= t < 1 ==> (#[trigger] ms[t]).0 != "student_id"@);
    lemma_find_hit(ms, "student_id"@, 1);
    assert(forall|t: int| 0 <= t < 2 ==> (#[trigger] ms[t]).0 != "exam1"@);
    lemma_find_hit(ms, "exam1"@, 2);
    assert(forall|t: int| 0 <= t < 3 ==> (#[trigger] ms[t]).0 != "exam2"@);
    lemma_find_hit(ms, "exam2"@, 3);
    assert(forall|t: int| 0 <= t < 4 ==> (#[trigger] ms[t]).0 != "coursework"@);
    lemma_find_hit(ms, "coursework"@, 4);
    assert(forall|t: int| 0 <= t < 5 ==> (#[trigger] ms[t]).0 != "final_exam"@);
    lemma_find_hit(ms, "final_exam"@, 5);
    assert(forall|t: int| 0 <= t < 6 ==> (#[trigger] ms[t]).0 != "total"@);
    lemma_find_hit(ms, "total"@, 6);
    assert(forall|t: int| 0 <= t < 7 ==> (#[trigger] ms[t]).0 != "coursework_scores"@);
    lemma_find_hit(ms, "coursework_scores"@, 7);
    assert(forall|t: int| 0 <= t < 8 ==> (#[trigger] ms[t]).0 != "absences"@);
    lemma_find_hit(ms, "absences"@, 8);
    assert(forall|t: int| 0 <= t < 9 ==> (#[trigger] ms[t]).0 != "absence_types"@);
    lemma_find_hit(ms, "absence_types"@, 9);

    assert(keys_unique(scores_enc));
    assert(dec_num_map(scores_enc) is Some);
    assert(dec_num_map(scores_enc)->0 =~= g.coursework_scores);
    assert(dec_str_list(abs_enc) is Some);
    assert(dec_str_list(abs_enc)->0 =~= g.absences);
    assert(keys_unique(types_enc));
    assert(dec_str_map(types_enc) is Some);
    assert(dec_str_map(types_enc)->0 =~= g.absence_types);
    assert(dec_grade(enc_grade(g))->0 == g);
    assert(ms[7].1 == JsonV::Obj(scores_enc));
    assert(ms[8].1 == JsonV::Arr(abs_enc));
    assert(ms[9].1 == JsonV::Obj(types_enc));
    assert(crate::inverse::jv_wf(enc_grade(g))) by {
        assert(crate::inverse::jv_wf(ms[0].1));
        assert(crate::inverse::jv_wf(ms[1].1));
        assert(crate::inverse::jv_wf(ms[2].1));
        assert(crate::inverse::jv_wf(ms[3].1));
        assert(crate::inverse::jv_wf(ms[4].1));
        assert(crate::inverse::jv_wf(ms[5].1));
        assert(crate::inverse::jv_wf(ms[6].1));
        assert forall|i: int| 0 <= i < scores_enc.len() implies crate::inverse::jv_wf(
            (#[trigger] scores_enc[i]).1,
        ) by {
            assert(num_wf(g.coursework_scores[i].1));
        }
        assert(crate::inverse::jv_wf(ms[7].1));
        assert forall|i: int| 0 <= i < abs_enc.len() implies crate::inverse::jv_wf(
            #[trigger] abs_enc[i],
        ) by {
            assert(abs_enc[i] == JsonV::JStr(g.absences[i]));
        }
        assert(crate::inverse::jv_wf(ms[8].1));
        assert forall|i: int| 0 <= i < types_enc.len() implies crate::inverse::jv_wf(
            (#[trigger] types_enc[i]).1,
        ) by {
            assert(types_enc[i].1 == JsonV::JStr(g.absence_types[i].1));
        }
        assert(crate::inverse::jv_wf(ms[9].1));
        assert forall|i: int| 0 <= i < ms.len() implies crate::inverse::jv_wf(
            #[trigger] ms[i].1,
        ) by {
            assert(i == 0 || i == 1 || i == 2 || i == 3 || i == 4 || i == 5 || i == 6 || i == 7
                || i == 8 || i == 9);
        }
    }
}

/// Decoding inverts encoding on every well-formed database, and the
/// encoded value is well-formed JSON.
pub proof fn lemma_dec_enc_db(d: DatabaseV)
    requires
        database_wf(d),
    ensures
        crate::inverse::jv_wf(enc_db(d)),
        dec_db(enc_db(d)) == Option::Some(d),
{
    reveal_strlit("settings");
    reveal_strlit("subjects");
    reveal_strlit("students");
    reveal_strlit("grades");
    assert("settings"@.len() == 8);
    assert("subjects"@.len() == 8);
    assert("students"@.len() == 8);
    assert("grades"@.len() == 6);
    assert("settings"@[1] == 'e');
    assert("subjects"@[1] == 'u');
    assert("students"@[1] == 't');
    let ms = jv_obj(enc_db(d));
    let subj_enc = d.subjects.map(|i: int, s: SubjectV| enc_subject(s));
    let stud_enc = d.students.map(|i: int, s: StudentV| enc_student(s));
    let grad_enc = d.grades.map(|i: int, g: GradeRecordV| enc_grade(g));
    assert(ms[0].0 == "settings"@ && ms[1].0 == "subjects"@ && ms[2].0 == "students"@
        && ms[3].0 == "grades"@);
    lemma_find_hit(ms, "settings"@, 0);
    assert(forall|t: int| 0 <= t < 1 ==> (#[trigger] ms[t]).0 != "subjects"@);
    lemma_find_hit(ms, "subjects"@, 1);
    assert(forall|t: int| 0 <= t < 2 ==> (#[trigger] ms[t]).0 != "students"@);
    lemma_find_hit(ms, "students"@, 2);
    assert(forall|t: int| 0 <= t < 3 ==> (#[trigger] ms[t]).0 != "grades"@);
    lemma_find_hit(ms, "grades"@, 3);

    lemma_dec_enc_settings(d.settings);
    assert forall|i: int| 0 <= i < subj_enc.len() implies dec_subject(#[trigger] subj_enc[i])
        is Some && crate::inverse::jv_wf(subj_enc[i]) by {
        assert(subject_wf(d.subjects[i]));
        lemma_dec_enc_subject(d.subjects[i]);
    }
    assert(dec_subjects(subj_enc) is Some);
    assert(dec_subjects(subj_enc)->0 =~= d.subjects) by {
        assert forall|i: int| 0 <= i < subj_enc.len() implies dec_subjects(subj_enc)->0[i]
            == d.subjects[i] by {
            assert(subject_wf(d.subjects[i]));
            lemma_dec_enc_subject(d.subjects[i]);
        }
    }
    assert forall|i: int| 0 <= i < stud_enc.len() implies dec_student(#[trigger] stud_enc[i])
        is Some && crate::inverse::jv_wf(stud_enc[i]) by {
        lemma_dec_enc_student(d.students[i]);
    }
    assert(dec_students(stud_enc) is Some);
    assert(dec_students(stud_enc)->0 =~= d.students) by {
        assert forall|i: int| 0 <= i < stud_enc.len() implies dec_students(stud_enc)->0[i]
            == d.students[i] by {
            lemma_dec_enc_student(d.students[i]);
        }
    }
    assert forall|i: int| 0 <= i < grad_enc.len() implies dec_grade(#[trigger] grad_enc[i])
        is Some && crate::inverse::jv_wf(grad_enc[i]) by {
        assert(grade_wf(d.grades[i]));
        lemma_dec_enc_grade(d.grades[i]);
    }
    assert(dec_grades(grad_enc) is Some);
    assert(dec_grades(grad_enc)->0 =~= d.grades) by {
        assert forall|i: int| 0 <= i < grad_enc.len() implies dec_grades(grad_enc)->0[i]
            == d.grades[i] by {
            assert(grade_wf(d.grades[i]));
            lemma_dec_enc_grade(d.grades[i]);
        }
    }
    assert(dec_db(enc_db(d))->0 == d);
    assert(ms[0].1 == enc_settings(d.settings));
    assert(ms[1].1 == JsonV::Arr(subj_enc));
    assert(ms[2].1 == JsonV::Arr(stud_enc));
    assert(ms[3].1 == JsonV::Arr(grad_enc));
    assert(crate::inverse::jv_wf(enc_db(d))) by {
        assert(crate::inverse::jv_wf(ms[0].1));
        assert(crate::inverse::jv_wf(ms[1].1));
        assert(crate::inverse::jv_wf(ms[2].1));
        assert(crate::inverse::jv_wf(ms[3].1));
        assert forall|i: int| 0 <= i < ms.len() implies crate::inverse::jv_wf(
            #[trigger] ms[i].1,
        ) by {
            assert(i == 0 || i == 1 || i == 2 || i == 3);
        }
    }
}

// ---------------------------------------------------------------------
// Encoded values nest only a few levels deep
// ---------------------------------------------------------------------

proof fn lemma_enc_user_depth(u: UserV, b: int)
    requires
        b >= 1,
    ensures
        crate::ser::jv_depth_le(enc_user(u), b),
{
    let ms = jv_obj(enc_user(u));
    assert forall|i: int| 0 <= i < ms.len() implies crate::ser::jv_depth_le(
        (#[trigger] ms[i]).1,
        b - 1,
    ) by {
        assert(i == 0 || i == 1 || i == 2 || i == 3);
        assert(crate::ser::jv_depth_le(ms[0].1, b - 1));
        assert(crate::ser::jv_depth_le(ms[1].1, b - 1));
        assert(crate::ser::jv_depth_le(ms[2].1, b - 1));
        assert(crate::ser::jv_depth_le(ms[3].1, b - 1));
    }
}

proof fn lemma_enc_settings_depth(st: AppSettingsV, b: int)
    requires
        b >= 3,
    ensures
        crate::ser::jv_depth_le(enc_settings(st), b),
{
    let ms = jv_obj(enc_settings(st));
    let users_enc = st.users.map(|i: int, u: UserV| enc_user(u));
    assert forall|i: int| 0 <= i < users_enc.len() implies crate::ser::jv_depth_le(
        #[trigger] users_enc[i],
        b - 2,
    ) by {
        lemma_enc_user_depth(st.users[i], b - 2);
    }
    assert(crate::ser::jv_depth_le(JsonV::Arr(users_enc), b - 1));
    assert forall|i: int| 0 <= i < ms.len() implies crate::ser::jv_depth_le(
        (#[trigger] ms[i]).1,
        b - 1,
    ) by {
        assert(i == 0 || i == 1 || i == 2 || i == 3 || i == 4 || i == 5 || i == 6 || i == 7 || i
            == 8);
        assert(ms[8].1 == JsonV::Arr(users_enc));
        assert(crate::ser::jv_depth_le(ms[0].1, b - 1));
        assert(crate::ser::jv_depth_le(ms[1].1, b - 1));
        assert(crate::ser::jv_depth_le(ms[2].1, b - 1));
        assert(crate::ser::jv_depth_le(ms[3].1, b - 1));
        assert(crate::ser::jv_depth_le(ms[4].1, b - 1));
        assert(crate::ser::jv_depth_le(ms[5].1, b - 1));
        assert(crate::ser::jv_depth_le(ms[6].1, b - 1));
        assert(crate::ser::jv_depth_le(ms[7].1, b - 1));
        assert(crate::ser::jv_depth_le(ms[8].1, b - 1));
    }
}

proof fn lemma_enc_subject_depth(s: SubjectV, b: int)
    requires
        b >= 3,
    ensures
        crate::ser::jv_depth_le(enc_subject(s), b),
{
    let ms = jv_obj(enc_subject(s));
    let cats_enc = s.coursework_categories.map(|i: int, c: CourseworkCategoryV| enc_category(c));
    assert forall|i: int| 0 <= i < cats_enc.len() implies crate::ser::jv_depth_le(
        #[trigger] cats_enc[i],
        b - 2,
    ) by {
        let cs = jv_obj(enc_category(s.coursework_categories[i]));
        assert forall|t: int| 0 <= t < cs.len() implies crate::ser::jv_depth_le(
            (#[trigger] cs[t]).1,
            b - 3,
        ) by {
            assert(t == 0 || t == 1 || t == 2);
            assert(crate::ser::jv_depth_le(cs[0].1, b - 3));
            assert(crate::ser::jv_depth_le(cs[1].1, b - 3));
            assert(crate::ser::jv_depth_le(cs[2].1, b - 3));
        }
    }
    assert(crate::ser::jv_depth_le(JsonV::Arr(cats_enc), b - 1));
    assert forall|i: int| 0 <= i < ms.len() implies crate::ser::jv_depth_le(
        (#[trigger] ms[i]).1,
        b - 1,
    ) by {
        assert(i == 0 || i == 1 || i == 2 || i == 3 || i == 4 || i == 5 || i == 6 || i == 7 || i
            == 8);
        assert(ms[8].1 == JsonV::Arr(cats_enc));
        assert(crate::ser::jv_depth_le(ms[0].1, b - 1));
        assert(crate::ser::jv_depth_le(ms[1].1, b - 1));
        assert(crate::ser::jv_depth_le(ms[2].1, b - 1));
        assert(crate::ser::jv_depth_le(ms[3].1, b - 1));
        assert(crate::ser::jv_depth_le(ms[4].1, b - 1));
        assert(crate::ser::jv_depth_le(ms[5].1, b - 1));
        assert(crate::ser::jv_depth_le(ms[6].1, b - 1));
        assert(crate::ser::jv_depth_le(ms[7].1, b - 1));
        assert(crate::ser::jv_depth_le(ms[8].1, b - 1));
    }
}

proof fn lemma_enc_student_depth(s: StudentV, b: int)
    requires
        b >= 1,
    ensures
        crate::ser::jv_depth_le(enc_student(s), b),
{
    let ms = jv_obj(enc_student(s));
    assert forall|i: int| 0 <= i < ms.len() implies crate::ser::jv_depth_le(
        (#[trigger] ms[i]).1,
        b - 1,
    ) by {
        assert(i == 0 || i == 1 || i == 2 || i == 3);
        assert(crate::ser::jv_depth_le(ms[0].1, b - 1));
        assert(crate::ser::jv_depth_le(ms[1].1, b - 1));
        assert(crate::ser::jv_depth_le(ms[2].1, b - 1));
        assert(crate::ser::jv_depth_le(ms[3].1, b - 1));
    }
}

proof fn lemma_enc_grade_depth(g: GradeRecordV, b: int)
    requires
        b >= 2,
    ensures
        crate::ser::jv_depth_le(enc_grade(g), b),
{
    let ms = jv_obj(enc_grade(g));
    let scores_enc = g.coursework_scores.map(|i: int, p: (Seq<char>, int)| (p.0, JsonV::Num(p.1)));
    let abs_enc = g.absences.map(|i: int, s: Seq<char>| JsonV::JStr(s));
    let types_enc = g.absence_types.map(|i: int, p: (Seq<char>, Seq<char>)| (p.0, JsonV::JStr(p.1)));
    assert forall|i: int| 0 <= i < scores_enc.len() implies crate::ser::jv_depth_le(
        (#[trigger] scores_enc[i]).1,
        b - 2,
    ) by {
        assert(scores_enc[i].1 == JsonV::Num(g.coursework_scores[i].1));
    }
    assert forall|i: int| 0 <= i < abs_enc.len() implies crate::ser::jv_depth_le(
        #[trigger] abs_enc[i],
        b - 2,
    ) by {
        assert(abs_enc[i] == JsonV::JStr(g.absences[i]));
    }
    assert forall|i: int| 0 <= i < types_enc.len() implies crate::ser::jv_depth_le(
        (#[trigger] types_enc[i]).1,
        b - 2,
    ) by {
        assert(types_enc[i].1 == JsonV::JStr(g.absence_types[i].1));
    }
    assert(crate::ser::jv_depth_le(JsonV::Obj(scores_enc), b - 1));
    assert(crate::ser::jv_depth_le(JsonV::Arr(abs_enc), b - 1));
    assert(crate::ser::jv_depth_le(JsonV::Obj(types_enc), b - 1));
    assert forall|i: int| 0 <= i < ms.len() implies crate::ser::jv_depth_le(
        (#[trigger] ms[i]).1,
        b - 1,
    ) by {
        assert(i == 0 || i == 1 || i == 2 || i == 3 || i == 4 || i == 5 || i == 6 || i == 7 || i
            == 8 || i == 9);
        assert(ms[7].1 == JsonV::Obj(scores_enc));
        assert(ms[8].1 == JsonV::Arr(abs_enc));
        assert(ms[9].1 == JsonV::Obj(types_enc));
        assert(crate::ser::jv_depth_le(ms[0].1, b - 1));
        assert(crate::ser::jv_depth_le(ms[1].1, b - 1));
        assert(crate::ser::jv_depth_le(ms[2].1, b - 1)) by {
            assert(ms[2].1 == enc_opt(g.exam1));
            match g.exam1 {
                Option::None => {},
                Option::Some(_) => {},
            }
        }
        assert(crate::ser::jv_depth_le(ms[3].1, b - 1)) by {
            assert(ms[3].1 == enc_opt(g.exam2));
            match g.exam2 {
                Option::None => {},
                Option::Some(_) => {},
            }
        }
        assert(crate::ser::jv_depth_le(ms[4].1, b - 1)) by {
            assert(ms[4].1 == enc_opt(g.coursework));
            match g.coursework {
                Option::None => {},
                Option::Some(_) => {},
            }
        }
        assert(crate::ser::jv_depth_le(ms[5].1, b - 1)) by {
            assert(ms[5].1 == enc_opt(g.final_exam));
            match g.final_exam {
                Option::None => {},
                Option::Some(_) => {},
            }
        }
        assert(crate::ser::jv_depth_le(ms[6].1, b - 1)) by {
            assert(ms[6].1 == enc_opt(g.total));
            match g.total {
                Option::None => {},
                Option::Some(_) => {},
            }
        }
        assert(crate::ser::jv_depth_le(ms[7].1, b - 1));
        assert(crate::ser::jv_depth_le(ms[8].1, b - 1));
        assert(crate::ser::jv_depth_le(ms[9].1, b - 1));
    }
}

/// An encoded database nests at most a fixed handful of levels.
pub proof fn lemma_enc_db_depth(d: DatabaseV, b: int)
    requires
        b >= 5,
    ensures
        crate::ser::jv_depth_le(enc_db(d), b),
{
    let ms = jv_obj(enc_db(d));
    let subj_enc = d.subjects.map(|i: int, s: SubjectV| enc_subject(s));
    let stud_enc = d.students.map(|i: int, s: StudentV| enc_student(s));
    let grad_enc = d.grades.map(|i: int, g: GradeRecordV| enc_grade(g));
    assert forall|i: int| 0 <= i < subj_enc.len() implies crate::ser::jv_depth_le(
        #[trigger] subj_enc[i],
        b - 2,
    ) by {
        lemma_enc_subject_depth(d.subjects[i], b - 2);
    }
    assert forall|i: int| 0 <= i < stud_enc.len() implies crate::ser::jv_depth_le(
        #[trigger] stud_enc[i],
        b - 2,
    ) by {
        lemma_enc_student_depth(d.students[i], b - 2);
    }
    assert forall|i: int| 0 <= i < grad_enc.len() implies crate::ser::jv_depth_le(
        #[trigger] grad_enc[i],
        b - 2,
    ) by {
        lemma_enc_grade_depth(d.grades[i], b - 2);
    }
    lemma_enc_settings_depth(d.settings, b - 1);
    assert(crate::ser::jv_depth_le(JsonV::Arr(subj_enc), b - 1));
    assert(crate::ser::jv_depth_le(JsonV::Arr(stud_enc), b - 1));
    assert(crate::ser::jv_depth_le(JsonV::Arr(grad_enc), b - 1));
    assert forall|i: int| 0 <= i < ms.len() implies crate::ser::jv_depth_le(
        (#[trigger] ms[i]).1,
        b - 1,
    ) by {
        assert(i == 0 || i == 1 || i == 2 || i == 3);
        assert(ms[0].1 == enc_settings(d.settings));
        assert(ms[1].1 == JsonV::Arr(subj_enc));
        assert(ms[2].1 == JsonV::Arr(stud_enc));
        assert(ms[3].1 == JsonV::Arr(grad_enc));
    }
}

} // verus!
