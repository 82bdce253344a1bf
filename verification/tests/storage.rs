use gradebook_store::api::{deserialize_db, greet, load_db, serialize_db};
use gradebook_store::model::{
    AppSettings, CourseworkCategory, Database, Decimal, GradeRecord, Student, Subject, User,
    default_abs, default_date_fmt, default_lang, default_pass,
};
use gradebook_store::store::{choose_db_location, db_file_name, DbLocation};

fn chars(s: &str) -> Vec<char> {
    s.chars().collect()
}

fn text(v: &[char]) -> String {
    v.iter().collect()
}

fn sample_db() -> Database {
    Database {
        settings: AppSettings {
            default_language: "en".to_string(),
            pass_threshold_pct: Decimal::from_milli(72_500),
            absence_threshold: 5,
            date_format: "dmy".to_string(),
            auth_enabled: true,
            auth_username: "admin".to_string(),
            auth_salt: "s\"alt".to_string(),
            auth_password_hash: "h4sh".to_string(),
            users: vec![User {
                username: "t1".to_string(),
                role: "teacher".to_string(),
                salt: "x".to_string(),
                password_hash: "y".to_string(),
            }],
        },
        subjects: vec![Subject {
            id: "s1".to_string(),
            code: "MATH".to_string(),
            name_en: "Math".to_string(),
            name_ar: "رياضيات".to_string(),
            max_exam1: Decimal::from_int(30),
            max_exam2: Decimal::from_int(30),
            max_coursework: Decimal::from_int(20),
            max_final_exam: Decimal::from_int(20),
            coursework_categories: vec![CourseworkCategory {
                id: "c1".to_string(),
                name: "Homework 1".to_string(),
                max_points: Decimal::from_milli(10_000),
            }],
        }],
        students: vec![Student {
            id: "st1".to_string(),
            username: "alex".to_string(),
            full_name: "Alex\nLine".to_string(),
            email: "a@example.com".to_string(),
        }],
        grades: vec![GradeRecord {
            subject_id: "s1".to_string(),
            student_id: "st1".to_string(),
            exam1: Some(Decimal::from_milli(28_500)),
            exam2: None,
            coursework: Some(Decimal::from_milli(-1_250)),
            final_exam: None,
            total: None,
            coursework_scores: vec![
                ("c1".to_string(), Decimal::from_milli(9_500)),
                ("c2".to_string(), Decimal::from_int(7)),
            ],
            absences: vec!["2024-01-10".to_string(), "2024-02-01".to_string()],
            absence_types: vec![
                ("2024-01-10".to_string(), "excused".to_string()),
                ("2024-02-01".to_string(), "unexcused".to_string()),
            ],
        }],
    }
}

#[test]
fn round_trip_full_database() {
    let db = sample_db();
    let doc = serialize_db(&db);
    let back = deserialize_db(&doc).expect("round trip must parse");
    assert_eq!(back, db);
}

#[test]
fn round_trip_default_database() {
    let db = Database::default();
    let doc = serialize_db(&db);
    let back = deserialize_db(&doc).expect("round trip must parse");
    assert_eq!(back, db);
}

#[test]
fn empty_document_yields_defaults() {
    let back = deserialize_db(&chars("{}")).expect("empty object must parse");
    assert_eq!(back, Database::default());
}

#[test]
fn partial_settings_keep_other_defaults() {
    let doc = chars("{\"settings\": {\"pass_threshold_pct\": 75.0}}");
    let back = deserialize_db(&doc).expect("partial document must parse");
    assert_eq!(back.settings.pass_threshold_pct, Decimal::from_milli(75_000));
    assert_eq!(back.settings.default_language, "ar".to_string());
    assert_eq!(back.settings.absence_threshold, 3);
    assert_eq!(back.settings.date_format, "iso".to_string());
    assert!(!back.settings.auth_enabled);
    assert_eq!(back.settings.auth_username, String::new());
    assert_eq!(back.settings.users, Vec::new());
    assert_eq!(back.subjects, Vec::new());
    assert_eq!(back.students, Vec::new());
    assert_eq!(back.grades, Vec::new());
}

#[test]
fn independent_field_defaulting() {
    let doc = chars("{\"settings\": {\"auth_enabled\": true}}");
    let back = deserialize_db(&doc).expect("must parse");
    assert!(back.settings.auth_enabled);
    assert_eq!(back.settings.users, Vec::new());
    let doc2 = chars("{\"settings\": {\"users\": [{}]}}");
    let back2 = deserialize_db(&doc2).expect("must parse");
    assert!(!back2.settings.auth_enabled);
    assert_eq!(back2.settings.users.len(), 1);
    assert_eq!(back2.settings.users[0].username, String::new());
}

#[test]
fn missing_file_loads_default() {
    let got = load_db(None).expect("missing file is a first run");
    assert_eq!(got, Database::default());
}

#[test]
fn corrupt_file_is_an_error() {
    let doc = chars("not valid json{");
    assert!(load_db(Some(&doc)).is_err());
    assert!(deserialize_db(&doc).is_err());
}

#[test]
fn wrong_shape_is_an_error_not_a_default() {
    assert!(deserialize_db(&chars("{\"settings\": {\"pass_threshold_pct\": \"high\"}}")).is_err());
    assert!(deserialize_db(&chars("{\"subjects\": {}}")).is_err());
    assert!(deserialize_db(&chars("{\"settings\": 3}")).is_err());
    assert!(deserialize_db(&chars("[1, 2]")).is_err());
}

#[test]
fn absence_threshold_must_be_whole() {
    assert!(deserialize_db(&chars("{\"settings\": {\"absence_threshold\": 3.5}}")).is_err());
    let ok = deserialize_db(&chars("{\"settings\": {\"absence_threshold\": 7}}")).unwrap();
    assert_eq!(ok.settings.absence_threshold, 7);
}

#[test]
fn duplicate_mapping_keys_are_rejected() {
    let doc = chars(
        "{\"grades\": [{\"coursework_scores\": {\"a\": 1, \"a\": 2}}]}",
    );
    assert!(deserialize_db(&doc).is_err());
}

#[test]
fn numbers_out_of_precision_are_rejected() {
    assert!(deserialize_db(&chars("{\"settings\": {\"pass_threshold_pct\": 1.2345}}")).is_err());
    assert!(
        deserialize_db(&chars("{\"settings\": {\"pass_threshold_pct\": 1234567890123456}}"))
            .is_err()
    );
}

#[test]
fn unset_scores_stay_unset_and_distinct_from_zero() {
    let doc = chars(
        "{\"grades\": [{\"subject_id\": \"s1\", \"student_id\": \"st1\", \"exam1\": 0, \"exam2\": null}]}",
    );
    let back = deserialize_db(&doc).expect("must parse");
    assert_eq!(back.grades[0].exam1, Some(Decimal::from_int(0)));
    assert_eq!(back.grades[0].exam2, None);
    assert_eq!(back.grades[0].coursework, None);
}

#[test]
fn save_then_load_scenario() {
    let mut db = Database::default();
    db.subjects.push(Subject {
        id: "s1".to_string(),
        code: String::new(),
        name_en: String::new(),
        name_ar: String::new(),
        max_exam1: Decimal::from_int(30),
        max_exam2: Decimal::from_int(0),
        max_coursework: Decimal::from_int(0),
        max_final_exam: Decimal::from_int(0),
        coursework_categories: Vec::new(),
    });
    db.grades.push(GradeRecord {
        subject_id: "s1".to_string(),
        student_id: "st1".to_string(),
        exam1: Some(Decimal::from_milli(28_500)),
        exam2: None,
        coursework: None,
        final_exam: None,
        total: None,
        coursework_scores: Vec::new(),
        absences: Vec::new(),
        absence_types: Vec::new(),
    });
    let doc = serialize_db(&db);
    let back = deserialize_db(&doc).expect("must load what was saved");
    assert_eq!(back.grades.len(), 1);
    assert_eq!(back.grades[0].exam1, Some(Decimal::from_milli(28_500)));
    assert_eq!(back.grades[0].coursework, None);
    assert_eq!(back.subjects[0].max_exam1, Decimal::from_int(30));
}

#[test]
fn portable_file_wins_path_resolution() {
    assert_eq!(choose_db_location(true, true), Ok(DbLocation::Portable));
    assert_eq!(choose_db_location(true, false), Ok(DbLocation::Portable));
    assert_eq!(choose_db_location(false, true), Ok(DbLocation::AppData));
    assert!(choose_db_location(false, false).is_err());
    assert_eq!(db_file_name(), "db.json".to_string());
}

#[test]
fn serialized_form_is_readable_text() {
    let db = Database::default();
    let doc = text(&serialize_db(&db));
    assert!(doc.starts_with('{'));
    assert!(doc.contains("\"settings\""));
    assert!(doc.contains("\"pass_threshold_pct\": 60"));
    assert!(doc.contains('\n'));
}

#[test]
fn string_escapes_survive_the_round_trip() {
    let mut db = Database::default();
    db.settings.auth_username = "a\"b\\c\nd\te\r f/g".to_string();
    let doc = serialize_db(&db);
    let back = deserialize_db(&doc).expect("escaped text must parse");
    assert_eq!(back.settings.auth_username, db.settings.auth_username);
}

#[test]
fn documented_defaults() {
    assert_eq!(default_lang(), "ar".to_string());
    assert_eq!(default_pass(), Decimal::from_milli(60_000));
    assert_eq!(default_abs(), 3);
    assert_eq!(default_date_fmt(), "iso".to_string());
    let s = AppSettings::default();
    assert_eq!(s.default_language, "ar".to_string());
    assert_eq!(s.pass_threshold_pct, Decimal::from_milli(60_000));
}

#[test]
fn string_fields_come_from_the_document() {
    let doc = chars("{\"settings\": {\"default_language\": \"fr\"}}");
    let back = deserialize_db(&doc).expect("must parse");
    assert_eq!(back.settings.default_language, "fr".to_string());
    let doc2 = chars("{\"students\": [{\"full_name\": \"\\u{645} zz\"}]}");
    assert!(deserialize_db(&doc2).is_err(), "unicode escapes are not part of the grammar");
    let doc3 = chars("{\"students\": [{\"full_name\": \"نور\"}]}");
    let back3 = deserialize_db(&doc3).expect("raw unicode text must parse");
    assert_eq!(back3.students[0].full_name, "نور".to_string());
}

#[test]
fn greet_formats_the_name() {
    assert_eq!(
        greet("World"),
        "Hello, World! You've been greeted from Rust!".to_string()
    );
}
