//! The executable encoder: builds the JSON value of a database, equal
//! in view to the ghost `enc_db`.

use vstd::prelude::*;

use crate::codec::{
    enc_category, enc_db, enc_grade, enc_opt, enc_settings, enc_student, enc_subject, enc_user,
    jv_obj,
};
use crate::json::{
    Json, JsonV, jview_arr, jview_obj, lemma_jview_arr_props, lemma_jview_arr_snoc,
    lemma_jview_obj_props, lemma_jview_obj_snoc,
};
use crate::model::{
    AppSettings, CourseworkCategory, Database, Decimal, GradeRecord, Student, Subject, User,
    opt_dec_view,
};

verus! {

fn enc_opt_x(o: &Option<Decimal>) -> (r: Json)
    ensures
        r@ == enc_opt(opt_dec_view(*o)),
{
    match o {
        Option::None => Json::Null,
        Option::Some(d) => Json::Num(d.milli),
    }
}

fn key(s: &str) -> (r: String)
    ensures
        r@ == s@,
{
    String::from_str(s)
}

/// Build the JSON object of one user.
pub fn encode_user(u: &User) -> (r: Json)
    ensures
        r@ == enc_user(u@),
{
    let ms: Vec<(String, Json)> = vec![
        (key("username"), Json::JStr(u.username.clone())),
        (key("role"), Json::JStr(u.role.clone())),
        (key("salt"), Json::JStr(u.salt.clone())),
        (key("password_hash"), Json::JStr(u.password_hash.clone())),
    ];
    let r = Json::Obj(ms);
    proof {
        lemma_jview_obj_props(r->Obj_0@, 0);
        assert(jview_obj(r->Obj_0@, 0) =~= jv_obj(enc_user(u@)));
    }
    r
}

/// Build the JSON array of a list of users.
fn encode_users(us: &Vec<User>) -> (r: Json)
    ensures
        r@ == JsonV::Arr(u_views(us@).map(|i: int, uv: crate::model::UserV| enc_user(uv))),
{
    let ghost target = u_views(us@).map(|i: int, uv: crate::model::UserV| enc_user(uv));
    let mut a: Vec<Json> = Vec::new();
    let mut k: usize = 0;
    proof {
        assert(jview_arr(a@, 0) =~= target.take(0));
    }
    while k < us.len()
        invariant
            0 <= k <= us.len(),
            target == u_views(us@).map(|i: int, uv: crate::model::UserV| enc_user(uv)),
            target.len() == us.len(),
            jview_arr(a@, 0) == target.take(k as int),
        decreases us.len() - k,
    {
        let ghost olda = a@;
        let e = encode_user(&us[k]);
        a.push(e);
        proof {
            lemma_jview_arr_snoc(olda, e, 0);
            assert(target.take(k + 1 as int) =~= target.take(k as int).push(target[k as int]));
        }
        k = k + 1;
    }
    proof {
        assert(target.take(us@.len() as int) =~= target);
        lemma_jview_arr_props(a@, 0);
    }
    Json::Arr(a)
}

pub open spec fn u_views(us: Seq<User>) -> Seq<crate::model::UserV> {
    us.map(|i: int, u: User| u@)
}

/// Build the JSON object of the settings.
pub fn encode_settings(st: &AppSettings) -> (r: Json)
    ensures
        r@ == enc_settings(st@),
{
    let thr: i64 = (st.absence_threshold as i64) * 1000;
    let ms: Vec<(String, Json)> = vec![
        (key("default_language"), Json::JStr(st.default_language.clone())),
        (key("pass_threshold_pct"), Json::Num(st.pass_threshold_pct.milli)),
        (key("absence_threshold"), Json::Num(thr)),
        (key("date_format"), Json::JStr(st.date_format.clone())),
        (key("auth_enabled"), Json::Bool(st.auth_enabled)),
        (key("auth_username"), Json::JStr(st.auth_username.clone())),
        (key("auth_salt"), Json::JStr(st.auth_salt.clone())),
        (key("auth_password_hash"), Json::JStr(st.auth_password_hash.clone())),
        (key("users"), encode_users(&st.users)),
    ];
    let r = Json::Obj(ms);
    proof {
        lemma_jview_obj_props(r->Obj_0@, 0);
        assert(jview_obj(r->Obj_0@, 0) =~= jv_obj(enc_settings(st@)));
    }
    r
}

/// Build the JSON object of one coursework category.
pub fn encode_category(c: &CourseworkCategory) -> (r: Json)
    ensures
        r@ == enc_category(c@),
{
    let ms: Vec<(String, Json)> = vec![
        (key("id"), Json::JStr(c.id.clone())),
        (key("name"), Json::JStr(c.name.clone())),
        (key("max_points"), Json::Num(c.max_points.milli)),
    ];
    let r = Json::Obj(ms);
    proof {
        lemma_jview_obj_props(r->Obj_0@, 0);
        assert(jview_obj(r->Obj_0@, 0) =~= jv_obj(enc_category(c@)));
    }
    r
}

pub open spec fn c_views(cs: Seq<CourseworkCategory>) -> Seq<crate::model::CourseworkCategoryV> {
    cs.map(|i: int, c: CourseworkCategory| c@)
}

fn encode_categories(cs: &Vec<CourseworkCategory>) -> (r: Json)
    ensures
        r@ == JsonV::Arr(
            c_views(cs@).map(|i: int, cv: crate::model::CourseworkCategoryV| enc_category(cv)),
        ),
{
    let ghost target = c_views(cs@).map(
        |i: int, cv: crate::model::CourseworkCategoryV| enc_category(cv),
    );
    let mut a: Vec<Json> = Vec::new();
    let mut k: usize = 0;
    proof {
        assert(jview_arr(a@, 0) =~= target.take(0));
    }
    while k < cs.len()
        invariant
            0 <= k <= cs.len(),
            target == c_views(cs@).map(
                |i: int, cv: crate::model::CourseworkCategoryV| enc_category(cv),
            ),
            target.len() == cs.len(),
            jview_arr(a@, 0) == target.take(k as int),
        decreases cs.len() - k,
    {
        let ghost olda = a@;
        let e = encode_category(&cs[k]);
        a.push(e);
        proof {
            lemma_jview_arr_snoc(olda, e, 0);
            assert(target.take(k + 1 as int) =~= target.take(k as int).push(target[k as int]));
        }
        k = k + 1;
    }
    proof {
        assert(target.take(cs@.len() as int) =~= target);
        lemma_jview_arr_props(a@, 0);
    }
    Json::Arr(a)
}

/// Build the JSON object of one subject.
pub fn encode_subject(s: &Subject) -> (r: Json)
    ensures
        r@ == enc_subject(s@),
{
    let ms: Vec<(String, Json)> = vec![
        (key("id"), Json::JStr(s.id.clone())),
        (key("code"), Json::JStr(s.code.clone())),
        (key("name_en"), Json::JStr(s.name_en.clone())),
        (key("name_ar"), Json::JStr(s.name_ar.clone())),
        (key("max_exam1"), Json::Num(s.max_exam1.milli)),
        (key("max_exam2"), Json::Num(s.max_exam2.milli)),
        (key("max_coursework"), Json::Num(s.max_coursework.milli)),
        (key("max_final_exam"), Json::Num(s.max_final_exam.milli)),
        (key("coursework_categories"), encode_categories(&s.coursework_categories)),
    ];
    let r = Json::Obj(ms);
    proof {
        lemma_jview_obj_props(r->Obj_0@, 0);
        assert(jview_obj(r->Obj_0@, 0) =~= jv_obj(enc_subject(s@)));
    }
    r
}

/// Build the JSON object of one student.
pub fn encode_student(s: &Student) -> (r: Json)
    ensures
        r@ == enc_student(s@),
{
    let ms: Vec<(String, Json)> = vec![
        (key("id"), Json::JStr(s.id.clone())),
        (key("username"), Json::JStr(s.username.clone())),
        (key("full_name"), Json::JStr(s.full_name.clone())),
        (key("email"), Json::JStr(s.email.clone())),
    ];
    let r = Json::Obj(ms);
    proof {
        lemma_jview_obj_props(r->Obj_0@, 0);
        assert(jview_obj(r->Obj_0@, 0) =~= jv_obj(enc_student(s@)));
    }
    r
}

/// Build the JSON object of a mapping from keys to numbers.
fn encode_num_map(ps: &Vec<(String, Decimal)>) -> (r: Json)
    ensures
        r@ == JsonV::Obj(
            ps@.map(|i: int, p: (String, Decimal)| (p.0@, p.1@)).map(
                |i: int, p: (Seq<char>, int)| (p.0, JsonV::Num(p.1)),
            ),
        ),
{
    let ghost target = ps@.map(|i: int, p: (String, Decimal)| (p.0@, p.1@)).map(
        |i: int, p: (Seq<char>, int)| (p.0, JsonV::Num(p.1)),
    );
    let mut ms: Vec<(String, Json)> = Vec::new();
    let mut k: usize = 0;
    proof {
        assert(jview_obj(ms@, 0) =~= target.take(0));
    }
    while k < ps.len()
        invariant
            0 <= k <= ps.len(),
            target == ps@.map(|i: int, p: (String, Decimal)| (p.0@, p.1@)).map(
                |i: int, p: (Seq<char>, int)| (p.0, JsonV::Num(p.1)),
            ),
            target.len() == ps.len(),
            jview_obj(ms@, 0) == target.take(k as int),
        decreases ps.len() - k,
    {
        let ghost oldm = ms@;
        let pair = (ps[k].0.clone(), Json::Num(ps[k].1.milli));
        ms.push(pair);
        proof {
            lemma_jview_obj_snoc(oldm, pair, 0);
            assert(target.take(k + 1 as int) =~= target.take(k as int).push(target[k as int]));
        }
        k = k + 1;
    }
    proof {
        assert(target.take(ps@.len() as int) =~= target);
    }
    Json::Obj(ms)
}

/// Build the JSON object of a mapping from keys to strings.
fn encode_str_map(ps: &Vec<(String, String)>) -> (r: Json)
    ensures
        r@ == JsonV::Obj(
            ps@.map(|i: int, p: (String, String)| (p.0@, p.1@)).map(
                |i: int, p: (Seq<char>, Seq<char>)| (p.0, JsonV::JStr(p.1)),
            ),
        ),
{
    let ghost target = ps@.map(|i: int, p: (String, String)| (p.0@, p.1@)).map(
        |i: int, p: (Seq<char>, Seq<char>)| (p.0, JsonV::JStr(p.1)),
    );
    let mut ms: Vec<(String, Json)> = Vec::new();
    let mut k: usize = 0;
    proof {
        assert(jview_obj(ms@, 0) =~= target.take(0));
    }
    while k < ps.len()
        invariant
            0 <= k <= ps.len(),
            target == ps@.map(|i: int, p: (String, String)| (p.0@, p.1@)).map(
                |i: int, p: (Seq<char>, Seq<char>)| (p.0, JsonV::JStr(p.1)),
            ),
            target.len() == ps.len(),
            jview_obj(ms@, 0) == target.take(k as int),
        decreases ps.len() - k,
    {
        let ghost oldm = ms@;
        let pair = (ps[k].0.clone(), Json::JStr(ps[k].1.clone()));
        ms.push(pair);
        proof {
            lemma_jview_obj_snoc(oldm, pair, 0);
            assert(target.take(k + 1 as int) =~= target.take(k as int).push(target[k as int]));
        }
        k = k + 1;
    }
    proof {
        assert(target.take(ps@.len() as int) =~= target);
    }
    Json::Obj(ms)
}

/// Build the JSON array of a list of strings.
fn encode_str_list(ss: &Vec<String>) -> (r: Json)
    ensures
        r@ == JsonV::Arr(
            ss@.map(|i: int, s: String| s@).map(|i: int, s: Seq<char>| JsonV::JStr(s)),
        ),
{
    let ghost target = ss@.map(|i: int, s: String| s@).map(|i: int, s: Seq<char>| JsonV::JStr(s));
    let mut a: Vec<Json> = Vec::new();
    let mut k: usize = 0;
    proof {
        assert(jview_arr(a@, 0) =~= target.take(0));
    }
    while k < ss.len()
        invariant
            0 <= k <= ss.len(),
            target == ss@.map(|i: int, s: String| s@).map(|i: int, s: Seq<char>| JsonV::JStr(s)),
            target.len() == ss.len(),
            jview_arr(a@, 0) == target.take(k as int),
        decreases ss.len() - k,
    {
        let ghost olda = a@;
        let e = Json::JStr(ss[k].clone());
        a.push(e);
        proof {
            lemma_jview_arr_snoc(olda, e, 0);
            assert(target.take(k + 1 as int) =~= target.take(k as int).push(target[k as int]));
        }
        k = k + 1;
    }
    proof {
        assert(target.take(ss@.len() as int) =~= target);
    }
    Json::Arr(a)
}

/// Build the JSON object of one grade record.
pub fn encode_grade(g: &GradeRecord) -> (r: Json)
    ensures
        r@ == enc_grade(g@),
{
    let ms: Vec<(String, Json)> = vec![
        (key("subject_id"), Json::JStr(g.subject_id.clone())),
        (key("student_id"), Json::JStr(g.student_id.clone())),
        (key("exam1"), enc_opt_x(&g.exam1)),
        (key("exam2"), enc_opt_x(&g.exam2)),
        (key("coursework"), enc_opt_x(&g.coursework)),
        (key("final_exam"), enc_opt_x(&g.final_exam)),
        (key("total"), enc_opt_x(&g.total)),
        (key("coursework_scores"), encode_num_map(&g.coursework_scores)),
        (key("absences"), encode_str_list(&g.absences)),
        (key("absence_types"), encode_str_map(&g.absence_types)),
    ];
    let r = Json::Obj(ms);
    proof {
        lemma_jview_obj_props(r->Obj_0@, 0);
        assert(jv_obj(enc_grade(g@))[7].1 == JsonV::Obj(
            g@.coursework_scores.map(|i: int, p: (Seq<char>, int)| (p.0, JsonV::Num(p.1))),
        ));
        assert(g@.coursework_scores.map(|i: int, p: (Seq<char>, int)| (p.0, JsonV::Num(p.1)))
            =~= g.coursework_scores@.map(|i: int, p: (String, Decimal)| (p.0@, p.1@)).map(
            |i: int, p: (Seq<char>, int)| (p.0, JsonV::Num(p.1)),
        ));
        assert(g@.absences.map(|i: int, s: Seq<char>| JsonV::JStr(s)) =~= g.absences@.map(
            |i: int, s: String| s@,
        ).map(|i: int, s: Seq<char>| JsonV::JStr(s)));
        assert(g@.absence_types.map(|i: int, p: (Seq<char>, Seq<char>)| (p.0, JsonV::JStr(p.1)))
            =~= g.absence_types@.map(|i: int, p: (String, String)| (p.0@, p.1@)).map(
            |i: int, p: (Seq<char>, Seq<char>)| (p.0, JsonV::JStr(p.1)),
        ));
        assert(jview_obj(r->Obj_0@, 0) =~= jv_obj(enc_grade(g@)));
    }
    r
}

/// Build the JSON document value of the whole database.
pub fn encode_db(db: &Database) -> (r: Json)
    ensures
        r@ == enc_db(db@),
{
    let mut subjects: Vec<Json> = Vec::new();
    let ghost tsub = db@.subjects.map(|i: int, s: crate::model::SubjectV| enc_subject(s));
    let mut k: usize = 0;
    proof {
        assert(jview_arr(subjects@, 0) =~= tsub.take(0));
    }
    while k < db.subjects.len()
        invariant
            0 <= k <= db.subjects.len(),
            tsub == db@.subjects.map(|i: int, s: crate::model::SubjectV| enc_subject(s)),
            tsub.len() == db.subjects.len(),
            jview_arr(subjects@, 0) == tsub.take(k as int),
        decreases db.subjects.len() - k,
    {
        let ghost olda = subjects@;
        let e = encode_subject(&db.subjects[k]);
        subjects.push(e);
        proof {
            lemma_jview_arr_snoc(olda, e, 0);
            assert(tsub.take(k + 1 as int) =~= tsub.take(k as int).push(tsub[k as int]));
        }
        k = k + 1;
    }
    let mut students: Vec<Json> = Vec::new();
    let ghost tstu = db@.students.map(|i: int, s: crate::model::StudentV| enc_student(s));
    let mut k2: usize = 0;
    proof {
        assert(tsub.take(db.subjects@.len() as int) =~= tsub);
        assert(jview_arr(students@, 0) =~= tstu.take(0));
    }
    while k2 < db.students.len()
        invariant
            0 <= k2 <= db.students.len(),
            tstu == db@.students.map(|i: int, s: crate::model::StudentV| enc_student(s)),
            tstu.len() == db.students.len(),
            jview_arr(students@, 0) == tstu.take(k2 as int),
        decreases db.students.len() - k2,
    {
        let ghost olda = students@;
        let e = encode_student(&db.students[k2]);
        students.push(e);
        proof {
            lemma_jview_arr_snoc(olda, e, 0);
            assert(tstu.take(k2 + 1 as int) =~= tstu.take(k2 as int).push(tstu[k2 as int]));
        }
        k2 = k2 + 1;
    }
    let mut grades: Vec<Json> = Vec::new();
    let ghost tgra = db@.grades.map(|i: int, g: crate::model::GradeRecordV| enc_grade(g));
    let mut k3: usize = 0;
    proof {
        assert(tstu.take(db.students@.len() as int) =~= tstu);
        assert(jview_arr(grades@, 0) =~= tgra.take(0));
    }
    while k3 < db.grades.len()
        invariant
            0 <= k3 <= db.grades.len(),
            tgra == db@.grades.map(|i: int, g: crate::model::GradeRecordV| enc_grade(g)),
            tgra.len() == db.grades.len(),
            jview_arr(grades@, 0) == tgra.take(k3 as int),
        decreases db.grades.len() - k3,
    {
        let ghost olda = grades@;
        let e = encode_grade(&db.grades[k3]);
        grades.push(e);
        proof {
            lemma_jview_arr_snoc(olda, e, 0);
            assert(tgra.take(k3 + 1 as int) =~= tgra.take(k3 as int).push(tgra[k3 as int]));
        }
        k3 = k3 + 1;
    }
    proof {
        assert(tgra.take(db.grades@.len() as int) =~= tgra);
    }
    let ms: Vec<(String, Json)> = vec![
        (key("settings"), encode_settings(&db.settings)),
        (key("subjects"), Json::Arr(subjects)),
        (key("students"), Json::Arr(students)),
        (key("grades"), Json::Arr(grades)),
    ];
    let r = Json::Obj(ms);
    proof {
        lemma_jview_obj_props(r->Obj_0@, 0);
        assert(jview_obj(r->Obj_0@, 0) =~= jv_obj(enc_db(db@)));
    }
    r
}

} // verus!
