//! The executable decoder: reads a JSON value into the data model with
//! per-field defaulting, agreeing with the ghost `dec_db`.

use vstd::prelude::*;

use crate::codec::{
    dec_arr_field, dec_bool_field, dec_categories, dec_category, dec_db, dec_grade, dec_grades,
    dec_i32_field, dec_num_field, dec_num_map, dec_obj_field, dec_opt_field, dec_settings,
    dec_str_field, dec_str_list, dec_str_map, dec_student, dec_students, dec_subject,
    dec_subjects, dec_user, dec_users, find_at, find_f, jv_num,
};
use crate::json::{
    Json, JsonV, jview, jview_arr, jview_obj, lemma_jview_arr_props, lemma_jview_obj_props,
};
use crate::model::{
    AppSettings, CourseworkCategory, Database, Decimal, GradeRecord, Student, Subject, User,
    keys_unique,
};
use crate::parse::ParseError;

verus! {

/// The first member with the given key, if any.
fn find_field<'a>(ms: &'a Vec<(String, Json)>, key: &String) -> (r: Option<&'a Json>)
    ensures
        match find_f(jview_obj(ms@, 0), key@) {
            Option::Some(jv) => r is Some && r->0@ == jv,
            Option::None => r is None,
        },
{
    proof {
        lemma_jview_obj_props(ms@, 0);
    }
    let ghost mv = jview_obj(ms@, 0);
    let mut i: usize = 0;
    while i < ms.len()
        invariant
            0 <= i <= ms.len(),
            mv == jview_obj(ms@, 0),
            mv.len() == ms.len(),
            forall|t: int| 0 <= t < ms.len() ==> #[trigger] mv[t] == (ms@[t].0@, jview(ms@[t].1)),
            find_at(mv, key@, 0) == find_at(mv, key@, i as int),
        decreases ms.len() - i,
    {
        if ms[i].0.eq(key) {
            return Option::Some(&ms[i].1);
        }
        i = i + 1;
    }
    Option::None
}

/// A string field of an object, with its default.
fn get_str(ms: &Vec<(String, Json)>, key: &String, dflt: String) -> (r: Result<String, ParseError>)
    ensures
        match dec_str_field(jview_obj(ms@, 0), key@, dflt@) {
            Option::Some(t) => r is Ok && r->Ok_0@ == t,
            Option::None => r is Err,
        },
{
    match find_field(ms, key) {
        Option::None => Result::Ok(dflt),
        Option::Some(j) => match j {
            Json::JStr(s) => Result::Ok(s.clone()),
            _ => Result::Err(ParseError),
        },
    }
}

/// A number field of an object, in thousandths, with its default.
fn get_num(ms: &Vec<(String, Json)>, key: &String, dflt: i64) -> (r: Result<Decimal, ParseError>)
    ensures
        match dec_num_field(jview_obj(ms@, 0), key@, dflt as int) {
            Option::Some(m) => r is Ok && r->Ok_0@ == m,
            Option::None => r is Err,
        },
{
    match find_field(ms, key) {
        Option::None => Result::Ok(Decimal { milli: dflt }),
        Option::Some(j) => match j {
            Json::Num(m) => Result::Ok(Decimal { milli: *m }),
            _ => Result::Err(ParseError),
        },
    }
}

/// A whole-number field of an object, with its default.
fn get_i32(ms: &Vec<(String, Json)>, key: &String, dflt: i32) -> (r: Result<i32, ParseError>)
    ensures
        match dec_i32_field(jview_obj(ms@, 0), key@, dflt) {
            Option::Some(t) => r is Ok && r->Ok_0 == t,
            Option::None => r is Err,
        },
{
    match find_field(ms, key) {
        Option::None => Result::Ok(dflt),
        Option::Some(j) => match j {
            Json::Num(m) => {
                let m = *m;
                if m < -2147483648000i64 || m > 2147483647000i64 {
                    proof {
                        lemma_div_range(m as int);
                    }
                    return Result::Err(ParseError);
                }
                let neg = m < 0;
                let a: u64 = if neg {
                    (-m) as u64
                } else {
                    m as u64
                };
                let q0 = a / 1000;
                let r0 = a % 1000;
                if r0 != 0 {
                    proof {
                        lemma_mod_neg(m as int, a as int);
                    }
                    return Result::Err(ParseError);
                }
                let q: i64 = if neg {
                    -(q0 as i64)
                } else {
                    q0 as i64
                };
                proof {
                    lemma_mod_neg(m as int, a as int);
                    lemma_div_neg(m as int, a as int, q as int);
                }
                Result::Ok(q as i32)
            },
            _ => Result::Err(ParseError),
        },
    }
}

/// A negative number and its magnitude are divisible alike.
proof fn lemma_mod_neg(m: int, a: int)
    requires
        a == if m < 0 {
            -m
        } else {
            m
        },
    ensures
        m % 1000 == 0 <==> a % 1000 == 0,
{
}

proof fn lemma_div_neg(m: int, a: int, q: int)
    requires
        a == if m < 0 {
            -m
        } else {
            m
        },
        a % 1000 == 0,
        q == if m < 0 {
            -(a / 1000)
        } else {
            a / 1000
        },
    ensures
        m % 1000 == 0,
        m / 1000 == q,
{
}

/// Out of the thousandfold `i32` range, no whole number fits.
proof fn lemma_div_range(m: int)
    requires
        m < -2147483648000 || m > 2147483647000,
    ensures
        m % 1000 == 0 ==> !(-2147483648 <= m / 1000 <= 2147483647),
{
}

/// A boolean field of an object, with its default.
fn get_bool(ms: &Vec<(String, Json)>, key: &String, dflt: bool) -> (r: Result<bool, ParseError>)
    ensures
        match dec_bool_field(jview_obj(ms@, 0), key@, dflt) {
            Option::Some(t) => r is Ok && r->Ok_0 == t,
            Option::None => r is Err,
        },
{
    match find_field(ms, key) {
        Option::None => Result::Ok(dflt),
        Option::Some(j) => match j {
            Json::Bool(b) => Result::Ok(*b),
            _ => Result::Err(ParseError),
        },
    }
}

/// An optional score field: absent or `null` is "not entered".
fn get_opt(ms: &Vec<(String, Json)>, key: &String) -> (r: Result<Option<Decimal>, ParseError>)
    ensures
        match dec_opt_field(jview_obj(ms@, 0), key@) {
            Option::Some(o) => r is Ok && crate::model::opt_dec_view(r->Ok_0) == o,
            Option::None => r is Err,
        },
{
    match find_field(ms, key) {
        Option::None => Result::Ok(Option::None),
        Option::Some(j) => match j {
            Json::Null => Result::Ok(Option::None),
            Json::Num(m) => Result::Ok(Option::Some(Decimal { milli: *m })),
            _ => Result::Err(ParseError),
        },
    }
}

/// An array field: absent means empty.
fn get_arr<'a>(ms: &'a Vec<(String, Json)>, key: &String, empty: &'a Vec<Json>) -> (r: Result<
    &'a Vec<Json>,
    ParseError,
>)
    requires
        empty@.len() == 0,
    ensures
        match dec_arr_field(jview_obj(ms@, 0), key@) {
            Option::Some(a) => r is Ok && jview_arr(r->Ok_0@, 0) == a,
            Option::None => r is Err,
        },
{
    proof {
        lemma_jview_arr_props(empty@, 0);
        assert(jview_arr(empty@, 0) =~= Seq::<JsonV>::empty());
    }
    match find_field(ms, key) {
        Option::None => Result::Ok(empty),
        Option::Some(j) => match j {
            Json::Arr(a) => {
                proof {
                    lemma_jview_arr_props(a@, 0);
                }
                Result::Ok(a)
            },
            _ => Result::Err(ParseError),
        },
    }
}

/// An object field: absent means empty.
fn get_obj<'a>(ms: &'a Vec<(String, Json)>, key: &String, empty: &'a Vec<(String, Json)>) -> (r:
    Result<&'a Vec<(String, Json)>, ParseError>)
    requires
        empty@.len() == 0,
    ensures
        match dec_obj_field(jview_obj(ms@, 0), key@) {
            Option::Some(a) => r is Ok && jview_obj(r->Ok_0@, 0) == a,
            Option::None => r is Err,
        },
{
    proof {
        lemma_jview_obj_props(empty@, 0);
        assert(jview_obj(empty@, 0) =~= Seq::<(Seq<char>, JsonV)>::empty());
    }
    match find_field(ms, key) {
        Option::None => Result::Ok(empty),
        Option::Some(j) => match j {
            Json::Obj(a) => Result::Ok(a),
            _ => Result::Err(ParseError),
        },
    }
}

/// Decode one user object.
fn decode_user(j: &Json) -> (r: Result<User, ParseError>)
    ensures
        match dec_user(j@) {
            Option::Some(uv) => r is Ok && r->Ok_0@ == uv,
            Option::None => r is Err,
        },
{
    match j {
        Json::Obj(ms) => {
            let username = get_str(ms, &String::from_str("username"), String::new())?;
            let role = get_str(ms, &String::from_str("role"), String::new())?;
            let salt = get_str(ms, &String::from_str("salt"), String::new())?;
            let password_hash = get_str(ms, &String::from_str("password_hash"), String::new())?;
            Result::Ok(User { username, role, salt, password_hash })
        },
        _ => Result::Err(ParseError),
    }
}

/// Decode an array of user objects.
fn decode_users(a: &Vec<Json>) -> (r: Result<Vec<User>, ParseError>)
    ensures
        match dec_users(jview_arr(a@, 0)) {
            Option::Some(us) => r is Ok && r->Ok_0@.map(|i: int, u: User| u@) == us,
            Option::None => r is Err,
        },
{
    proof {
        lemma_jview_arr_props(a@, 0);
    }
    let ghost av = jview_arr(a@, 0);
    let mut out: Vec<User> = Vec::new();
    let mut k: usize = 0;
    while k < a.len()
        invariant
            0 <= k <= a.len(),
            av == jview_arr(a@, 0),
            av.len() == a.len(),
            forall|t: int| 0 <= t < a.len() ==> #[trigger] av[t] == jview(a@[t]),
            out@.len() == k,
            forall|t: int|
                0 <= t < k ==> dec_user(#[trigger] av[t]) is Some && out@.map(
                    |i: int, u: User| u@,
                )[t] == dec_user(av[t])->0,
        decreases a.len() - k,
    {
        match decode_user(&a[k]) {
            Result::Ok(u) => {
                out.push(u);
            },
            Result::Err(e) => {
                proof {
                    assert(dec_user(av[k as int]) is None);
                }
                return Result::Err(e);
            },
        }
        k = k + 1;
    }
    proof {
        assert(dec_users(av) is Some);
        assert(out@.map(|i: int, u: User| u@) =~= dec_users(av)->0);
    }
    Result::Ok(out)
}

/// Decode the settings object, defaulting each absent field.
pub fn decode_settings(j: &Json) -> (r: Result<AppSettings, ParseError>)
    ensures
        match dec_settings(j@) {
            Option::Some(sv) => r is Ok && r->Ok_0@ == sv,
            Option::None => r is Err,
        },
{
    match j {
        Json::Obj(ms) => {
            let default_language = get_str(
                ms,
                &String::from_str("default_language"),
                crate::model::default_lang(),
            )?;
            let pass_threshold_pct = get_num(ms, &String::from_str("pass_threshold_pct"), 60000)?;
            let absence_threshold = get_i32(ms, &String::from_str("absence_threshold"), 3)?;
            let date_format = get_str(
                ms,
                &String::from_str("date_format"),
                crate::model::default_date_fmt(),
            )?;
            let auth_enabled = get_bool(ms, &String::from_str("auth_enabled"), false)?;
            let auth_username = get_str(ms, &String::from_str("auth_username"), String::new())?;
            let auth_salt = get_str(ms, &String::from_str("auth_salt"), String::new())?;
            let auth_password_hash = get_str(
                ms,
                &String::from_str("auth_password_hash"),
                String::new(),
            )?;
            let none_arr: Vec<Json> = Vec::new();
            let users_arr = get_arr(ms, &String::from_str("users"), &none_arr)?;
            let users = decode_users(users_arr)?;
            let r = AppSettings {
                default_language,
                pass_threshold_pct,
                absence_threshold,
                date_format,
                auth_enabled,
                auth_username,
                auth_salt,
                auth_password_hash,
                users,
            };
            proof {
                assert(r@ == dec_settings(j@)->0);
            }
            Result::Ok(r)
        },
        _ => Result::Err(ParseError),
    }
}

/// Decode one coursework category.
fn decode_category(j: &Json) -> (r: Result<CourseworkCategory, ParseError>)
    ensures
        match dec_category(j@) {
            Option::Some(cv) => r is Ok && r->Ok_0@ == cv,
            Option::None => r is Err,
        },
{
    match j {
        Json::Obj(ms) => {
            let id = get_str(ms, &String::from_str("id"), String::new())?;
            let name = get_str(ms, &String::from_str("name"), String::new())?;
            let max_points = get_num(ms, &String::from_str("max_points"), 0)?;
            Result::Ok(CourseworkCategory { id, name, max_points })
        },
        _ => Result::Err(ParseError),
    }
}

/// Decode an array of coursework categories.
fn decode_categories(a: &Vec<Json>) -> (r: Result<Vec<CourseworkCategory>, ParseError>)
    ensures
        match dec_categories(jview_arr(a@, 0)) {
            Option::Some(cs) => r is Ok && r->Ok_0@.map(|i: int, c: CourseworkCategory| c@) == cs,
            Option::None => r is Err,
        },
{
    proof {
        lemma_jview_arr_props(a@, 0);
    }
    let ghost av = jview_arr(a@, 0);
    let mut out: Vec<CourseworkCategory> = Vec::new();
    let mut k: usize = 0;
    while k < a.len()
        invariant
            0 <= k <= a.len(),
            av == jview_arr(a@, 0),
            av.len() == a.len(),
            forall|t: int| 0 <= t < a.len() ==> #[trigger] av[t] == jview(a@[t]),
            out@.len() == k,
            forall|t: int|
                0 <= t < k ==> dec_category(#[trigger] av[t]) is Some && out@.map(
                    |i: int, c: CourseworkCategory| c@,
                )[t] == dec_category(av[t])->0,
        decreases a.len() - k,
    {
        match decode_category(&a[k]) {
            Result::Ok(u) => {
                out.push(u);
            },
            Result::Err(e) => {
                proof {
                    assert(dec_category(av[k as int]) is None);
                }
                return Result::Err(e);
            },
        }
        k = k + 1;
    }
    proof {
        assert(dec_categories(av) is Some);
        assert(out@.map(|i: int, c: CourseworkCategory| c@) =~= dec_categories(av)->0);
    }
    Result::Ok(out)
}

/// Decode one subject.
pub fn decode_subject(j: &Json) -> (r: Result<Subject, ParseError>)
    ensures
        match dec_subject(j@) {
            Option::Some(sv) => r is Ok && r->Ok_0@ == sv,
            Option::None => r is Err,
        },
{
    match j {
        Json::Obj(ms) => {
            let id = get_str(ms, &String::from_str("id"), String::new())?;
            let code = get_str(ms, &String::from_str("code"), String::new())?;
            let name_en = get_str(ms, &String::from_str("name_en"), String::new())?;
            let name_ar = get_str(ms, &String::from_str("name_ar"), String::new())?;
            let max_exam1 = get_num(ms, &String::from_str("max_exam1"), 0)?;
            let max_exam2 = get_num(ms, &String::from_str("max_exam2"), 0)?;
            let max_coursework = get_num(ms, &String::from_str("max_coursework"), 0)?;
            let max_final_exam = get_num(ms, &String::from_str("max_final_exam"), 0)?;
            let none_arr: Vec<Json> = Vec::new();
            let cats_arr = get_arr(ms, &String::from_str("coursework_categories"), &none_arr)?;
            let coursework_categories = decode_categories(cats_arr)?;
            let r = Subject {
                id,
                code,
                name_en,
                name_ar,
                max_exam1,
                max_exam2,
                max_coursework,
                max_final_exam,
                coursework_categories,
            };
            proof {
                assert(r@ == dec_subject(j@)->0);
            }
            Result::Ok(r)
        },
        _ => Result::Err(ParseError),
    }
}

/// Decode one student.
pub fn decode_student(j: &Json) -> (r: Result<Student, ParseError>)
    ensures
        match dec_student(j@) {
            Option::Some(sv) => r is Ok && r->Ok_0@ == sv,
            Option::None => r is Err,
        },
{
    match j {
        Json::Obj(ms) => {
            let id = get_str(ms, &String::from_str("id"), String::new())?;
            let username = get_str(ms, &String::from_str("username"), String::new())?;
            let full_name = get_str(ms, &String::from_str("full_name"), String::new())?;
            let email = get_str(ms, &String::from_str("email"), String::new())?;
            Result::Ok(Student { id, username, full_name, email })
        },
        _ => Result::Err(ParseError),
    }
}

/// Decode a mapping from keys to numbers, requiring unique keys.
fn decode_num_map(ms: &Vec<(String, Json)>) -> (r: Result<Vec<(String, Decimal)>, ParseError>)
    ensures
        match dec_num_map(jview_obj(ms@, 0)) {
            Option::Some(ps) => r is Ok && r->Ok_0@.map(
                |i: int, p: (String, Decimal)| (p.0@, p.1@),
            ) == ps,
            Option::None => r is Err,
        },
{
    proof {
        lemma_jview_obj_props(ms@, 0);
    }
    let ghost mv = jview_obj(ms@, 0);
    // keys must be unique
    let mut i: usize = 0;
    while i < ms.len()
        invariant
            0 <= i <= ms.len(),
            mv == jview_obj(ms@, 0),
            mv.len() == ms.len(),
            forall|t: int| 0 <= t < ms.len() ==> #[trigger] mv[t] == (ms@[t].0@, jview(ms@[t].1)),
            forall|t: int, u: int| 0 <= t < u < ms.len() && t < i ==> mv[t].0 != mv[u].0,
        decreases ms.len() - i,
    {
        let mut u: usize = i + 1;
        while u < ms.len()
            invariant
                0 <= i < u <= ms.len() || (u == i + 1 && i < ms.len()),
                i < ms.len(),
                mv == jview_obj(ms@, 0),
                mv.len() == ms.len(),
                forall|t: int|
                    0 <= t < ms.len() ==> #[trigger] mv[t] == (ms@[t].0@, jview(ms@[t].1)),
                i + 1 <= u,
                forall|t: int| i < t < u ==> mv[i as int].0 != #[trigger] mv[t].0,
            decreases ms.len() - u,
        {
            if ms[i].0.eq(&ms[u].0) {
                proof {
                    assert(mv[i as int].0 == mv[u as int].0);
                    assert((i as int) < (u as int) && (u as int) < mv.len());
                    assert(!keys_unique(mv));
                }
                return Result::Err(ParseError);
            }
            u = u + 1;
        }
        i = i + 1;
    }
    let mut out: Vec<(String, Decimal)> = Vec::new();
    let mut k: usize = 0;
    while k < ms.len()
        invariant
            0 <= k <= ms.len(),
            mv == jview_obj(ms@, 0),
            mv.len() == ms.len(),
            forall|t: int| 0 <= t < ms.len() ==> #[trigger] mv[t] == (ms@[t].0@, jview(ms@[t].1)),
            out@.len() == k,
            forall|t: int|
                0 <= t < k ==> (#[trigger] mv[t]).1 is Num && out@.map(
                    |i2: int, p: (String, Decimal)| (p.0@, p.1@),
                )[t] == (mv[t].0, jv_num(mv[t].1)),
        decreases ms.len() - k,
    {
        match &ms[k].1 {
            Json::Num(m) => {
                out.push((ms[k].0.clone(), Decimal { milli: *m }));
            },
            _ => {
                proof {
                    assert(!((mv[k as int]).1 is Num));
                }
                return Result::Err(ParseError);
            },
        }
        k = k + 1;
    }
    proof {
        assert(dec_num_map(mv) is Some);
        assert(out@.map(|i2: int, p: (String, Decimal)| (p.0@, p.1@)) =~= dec_num_map(mv)->0);
    }
    Result::Ok(out)
}

/// Decode a mapping from keys to strings, requiring unique keys.
fn decode_str_map(ms: &Vec<(String, Json)>) -> (r: Result<Vec<(String, String)>, ParseError>)
    ensures
        match dec_str_map(jview_obj(ms@, 0)) {
            Option::Some(ps) => r is Ok && r->Ok_0@.map(
                |i: int, p: (String, String)| (p.0@, p.1@),
            ) == ps,
            Option::None => r is Err,
        },
{
    proof {
        lemma_jview_obj_props(ms@, 0);
    }
    let ghost mv = jview_obj(ms@, 0);
    let mut i: usize = 0;
    while i < ms.len()
        invariant
            0 <= i <= ms.len(),
            mv == jview_obj(ms@, 0),
            mv.len() == ms.len(),
            forall|t: int| 0 <= t < ms.len() ==> #[trigger] mv[t] == (ms@[t].0@, jview(ms@[t].1)),
            forall|t: int, u: int| 0 <= t < u < ms.len() && t < i ==> mv[t].0 != mv[u].0,
        decreases ms.len() - i,
    {
        let mut u: usize = i + 1;
        while u < ms.len()
            invariant
                i < ms.len(),
                mv == jview_obj(ms@, 0),
                mv.len() == ms.len(),
                forall|t: int|
                    0 <= t < ms.len() ==> #[trigger] mv[t] == (ms@[t].0@, jview(ms@[t].1)),
                i + 1 <= u,
                forall|t: int| i < t < u ==> mv[i as int].0 != #[trigger] mv[t].0,
            decreases ms.len() - u,
        {
            if ms[i].0.eq(&ms[u].0) {
                proof {
                    assert(mv[i as int].0 == mv[u as int].0);
                    assert((i as int) < (u as int) && (u as int) < mv.len());
                    assert(!keys_unique(mv));
                }
                return Result::Err(ParseError);
            }
            u = u + 1;
        }
        i = i + 1;
    }
    let mut out: Vec<(String, String)> = Vec::new();
    let mut k: usize = 0;
    while k < ms.len()
        invariant
            0 <= k <= ms.len(),
            mv == jview_obj(ms@, 0),
            mv.len() == ms.len(),
            forall|t: int| 0 <= t < ms.len() ==> #[trigger] mv[t] == (ms@[t].0@, jview(ms@[t].1)),
            out@.len() == k,
            forall|t: int|
                0 <= t < k ==> (#[trigger] mv[t]).1 is JStr && out@.map(
                    |i2: int, p: (String, String)| (p.0@, p.1@),
                )[t] == (mv[t].0, crate::codec::jv_str(mv[t].1)),
        decreases ms.len() - k,
    {
        match &ms[k].1 {
            Json::JStr(s) => {
                out.push((ms[k].0.clone(), s.clone()));
            },
            _ => {
                proof {
                    assert(!((mv[k as int]).1 is JStr));
                }
                return Result::Err(ParseError);
            },
        }
        k = k + 1;
    }
    proof {
        assert(dec_str_map(mv) is Some);
        assert(out@.map(|i2: int, p: (String, String)| (p.0@, p.1@)) =~= dec_str_map(mv)->0);
    }
    Result::Ok(out)
}

/// Decode a list of strings.
fn decode_str_list(a: &Vec<Json>) -> (r: Result<Vec<String>, ParseError>)
    ensures
        match dec_str_list(jview_arr(a@, 0)) {
            Option::Some(ss) => r is Ok && r->Ok_0@.map(|i: int, s: String| s@) == ss,
            Option::None => r is Err,
        },
{
    proof {
        lemma_jview_arr_props(a@, 0);
    }
    let ghost av = jview_arr(a@, 0);
    let mut out: Vec<String> = Vec::new();
    let mut k: usize = 0;
    while k < a.len()
        invariant
            0 <= k <= a.len(),
            av == jview_arr(a@, 0),
            av.len() == a.len(),
            forall|t: int| 0 <= t < a.len() ==> #[trigger] av[t] == jview(a@[t]),
            out@.len() == k,
            forall|t: int|
                0 <= t < k ==> #[trigger] av[t] is JStr && out@.map(|i: int, s: String| s@)[t]
                    == crate::codec::jv_str(av[t]),
        decreases a.len() - k,
    {
        match &a[k] {
            Json::JStr(s) => {
                out.push(s.clone());
            },
            _ => {
                proof {
                    assert(!(av[k as int] is JStr));
                }
                return Result::Err(ParseError);
            },
        }
        k = k + 1;
    }
    proof {
        assert(dec_str_list(av) is Some);
        assert(out@.map(|i: int, s: String| s@) =~= dec_str_list(av)->0);
    }
    Result::Ok(out)
}

/// Decode one grade record.
pub fn decode_grade(j: &Json) -> (r: Result<GradeRecord, ParseError>)
    ensures
        match dec_grade(j@) {
            Option::Some(gv) => r is Ok && r->Ok_0@ == gv,
            Option::None => r is Err,
        },
{
    match j {
        Json::Obj(ms) => {
            let subject_id = get_str(ms, &String::from_str("subject_id"), String::new())?;
            let student_id = get_str(ms, &String::from_str("student_id"), String::new())?;
            let exam1 = get_opt(ms, &String::from_str("exam1"))?;
            let exam2 = get_opt(ms, &String::from_str("exam2"))?;
            let coursework = get_opt(ms, &String::from_str("coursework"))?;
            let final_exam = get_opt(ms, &String::from_str("final_exam"))?;
            let total = get_opt(ms, &String::from_str("total"))?;
            let none_obj: Vec<(String, Json)> = Vec::new();
            let none_arr: Vec<Json> = Vec::new();
            let scores_obj = get_obj(ms, &String::from_str("coursework_scores"), &none_obj)?;
            let coursework_scores = decode_num_map(scores_obj)?;
            let abs_arr = get_arr(ms, &String::from_str("absences"), &none_arr)?;
            let absences = decode_str_list(abs_arr)?;
            let types_obj = get_obj(ms, &String::from_str("absence_types"), &none_obj)?;
            let absence_types = decode_str_map(types_obj)?;
            let r = GradeRecord {
                subject_id,
                student_id,
                exam1,
                exam2,
                coursework,
                final_exam,
                total,
                coursework_scores,
                absences,
                absence_types,
            };
            proof {
                assert(r@ == dec_grade(j@)->0);
            }
            Result::Ok(r)
        },
        _ => Result::Err(ParseError),
    }
}

/// Decode a whole database value, defaulting absent sections.
#[verifier::loop_isolation(false)]
pub fn decode_db(j: &Json) -> (r: Result<Database, ParseError>)
    ensures
        match dec_db(j@) {
            Option::Some(dv) => r is Ok && r->Ok_0@ == dv,
            Option::None => r is Err,
        },
{
    match j {
        Json::Obj(ms) => {
            let settings = match find_field(ms, &String::from_str("settings")) {
                Option::None => AppSettings::default(),
                Option::Some(sj) => decode_settings(sj)?,
            };
            let none_arr: Vec<Json> = Vec::new();
            let subj_arr = get_arr(ms, &String::from_str("subjects"), &none_arr)?;
            let mut subjects: Vec<Subject> = Vec::new();
            let ghost sav = jview_arr(subj_arr@, 0);
            proof {
                lemma_jview_arr_props(subj_arr@, 0);
            }
            let mut k: usize = 0;
            while k < subj_arr.len()
                invariant
                    0 <= k <= subj_arr.len(),
                    sav == jview_arr(subj_arr@, 0),
                    sav.len() == subj_arr.len(),
                    forall|t: int|
                        0 <= t < subj_arr.len() ==> #[trigger] sav[t] == jview(subj_arr@[t]),
                    subjects@.len() == k,
                    forall|t: int|
                        0 <= t < k ==> dec_subject(#[trigger] sav[t]) is Some && subjects@.map(
                            |i: int, s: Subject| s@,
                        )[t] == dec_subject(sav[t])->0,
                decreases subj_arr.len() - k,
            {
                match decode_subject(&subj_arr[k]) {
                    Result::Ok(u) => {
                        subjects.push(u);
                    },
                    Result::Err(e) => {
                        proof {
                            assert(dec_subject(sav[k as int]) is None);
                        }
                        return Result::Err(e);
                    },
                }
                k = k + 1;
            }
            let stud_arr = get_arr(ms, &String::from_str("students"), &none_arr)?;
            let mut students: Vec<Student> = Vec::new();
            let ghost tav = jview_arr(stud_arr@, 0);
            proof {
                assert(dec_subjects(sav) is Some);
                assert(subjects@.map(|i: int, s: Subject| s@) =~= dec_subjects(sav)->0);
                lemma_jview_arr_props(stud_arr@, 0);
            }
            let mut k2: usize = 0;
            while k2 < stud_arr.len()
                invariant
                    0 <= k2 <= stud_arr.len(),
                    tav == jview_arr(stud_arr@, 0),
                    tav.len() == stud_arr.len(),
                    forall|t: int|
                        0 <= t < stud_arr.len() ==> #[trigger] tav[t] == jview(stud_arr@[t]),
                    students@.len() == k2,
                    forall|t: int|
                        0 <= t < k2 ==> dec_student(#[trigger] tav[t]) is Some && students@.map(
                            |i: int, s: Student| s@,
                        )[t] == dec_student(tav[t])->0,
                decreases stud_arr.len() - k2,
            {
                match decode_student(&stud_arr[k2]) {
                    Result::Ok(u) => {
                        students.push(u);
                    },
                    Result::Err(e) => {
                        proof {
                            assert(dec_student(tav[k2 as int]) is None);
                        }
                        return Result::Err(e);
                    },
                }
                k2 = k2 + 1;
            }
            let grad_arr = get_arr(ms, &String::from_str("grades"), &none_arr)?;
            let mut grades: Vec<GradeRecord> = Vec::new();
            let ghost gav = jview_arr(grad_arr@, 0);
            proof {
                assert(dec_students(tav) is Some);
                assert(students@.map(|i: int, s: Student| s@) =~= dec_students(tav)->0);
                lemma_jview_arr_props(grad_arr@, 0);
            }
            let mut k3: usize = 0;
            while k3 < grad_arr.len()
                invariant
                    0 <= k3 <= grad_arr.len(),
                    gav == jview_arr(grad_arr@, 0),
                    gav.len() == grad_arr.len(),
                    forall|t: int|
                        0 <= t < grad_arr.len() ==> #[trigger] gav[t] == jview(grad_arr@[t]),
                    grades@.len() == k3,
                    forall|t: int|
                        0 <= t < k3 ==> dec_grade(#[trigger] gav[t]) is Some && grades@.map(
                            |i: int, g: GradeRecord| g@,
                        )[t] == dec_grade(gav[t])->0,
                decreases grad_arr.len() - k3,
            {
                match decode_grade(&grad_arr[k3]) {
                    Result::Ok(u) => {
                        grades.push(u);
                    },
                    Result::Err(e) => {
                        proof {
                            assert(dec_grade(gav[k3 as int]) is None);
                        }
                        return Result::Err(e);
                    },
                }
                k3 = k3 + 1;
            }
            let r = Database { settings, subjects, students, grades };
            proof {
                assert(dec_grades(gav) is Some);
                assert(grades@.map(|i: int, g: GradeRecord| g@) =~= dec_grades(gav)->0);
                assert(r@ == dec_db(j@)->0);
            }
            Result::Ok(r)
        },
        _ => Result::Err(ParseError),
    }
}

} // verus!
