//! The public face of the persistence core: serialize a database to
//! its document text, read a document back with per-field defaulting,
//! and the load behaviour of the storage gateway.

use vstd::prelude::*;

use crate::codec::{dec_db, enc_db, lemma_dec_enc_db, lemma_enc_db_depth};
use crate::decode::decode_db;
use crate::encode::encode_db;
use crate::inverse::lemma_parse_print;
use crate::json::Json;
use crate::model::{Database, DatabaseV, database_wf, default_database_v};
use crate::parse::{parse_doc, parse_value, ws_end, ParseError};
use crate::ser::{doc_str, print_json, PRINT_DEPTH_MAX};

verus! {

/// The document text of a database.
pub open spec fn serialize_spec(d: DatabaseV) -> Seq<char> {
    doc_str(enc_db(d))
}

/// The database a document text names, if it is well-formed.
pub open spec fn deserialize_spec(t: Seq<char>) -> Option<DatabaseV> {
    match parse_doc(t) {
        Option::None => Option::None,
        Option::Some(j) => dec_db(j),
    }
}

/// Serialize the whole database as pretty-printed document text.
pub fn serialize_db(db: &Database) -> (r: Vec<char>)
    requires
        database_wf(db@),
    ensures
        r@ == serialize_spec(db@),
{
    let j: Json = encode_db(db);
    proof {
        lemma_dec_enc_db(db@);
        lemma_enc_db_depth(db@, PRINT_DEPTH_MAX as int);
    }
    let mut out: Vec<char> = Vec::new();
    print_json(&j, 0, &mut out);
    proof {
        assert(out@ =~= serialize_spec(db@));
    }
    out
}

/// Deserialize document text into a database, filling each absent
/// field with its documented default. The result is an error exactly
/// when the text is not a well-formed document of the expected shape.
pub fn deserialize_db(text: &Vec<char>) -> (r: Result<Database, ParseError>)
    ensures
        match deserialize_spec(text@) {
            Option::Some(dv) => r is Ok && r->Ok_0@ == dv,
            Option::None => r is Err,
        },
        r is Err <==> deserialize_spec(text@) is None,
{
    match parse_value(text, 0) {
        Result::Err(e) => Result::Err(e),
        Result::Ok((j, end)) => {
            let e1 = ws_end(text, end);
            if e1 != text.len() {
                Result::Err(ParseError)
            } else {
                decode_db(&j)
            }
        },
    }
}

/// Load behaviour of the storage gateway: a missing file is a first
/// run and yields the fully-defaulted database, never an error; a
/// present file is deserialized, and a malformed one is reported.
pub fn load_db(file: Option<&Vec<char>>) -> (r: Result<Database, ParseError>)
    ensures
        file is None ==> r is Ok && r->Ok_0@ == default_database_v(),
        file is Some ==> (match deserialize_spec(file->0@) {
            Option::Some(dv) => r is Ok && r->Ok_0@ == dv,
            Option::None => r is Err,
        }),
{
    match file {
        Option::None => Result::Ok(Database::default()),
        Option::Some(text) => deserialize_db(text),
    }
}

/// Round trip: any well-formed database, serialized and deserialized,
/// comes back equal in every field, empty collections and unset
/// optional scores included.
pub proof fn lemma_serialize_deserialize_round_trip(d: DatabaseV)
    requires
        database_wf(d),
    ensures
        deserialize_spec(serialize_spec(d)) == Option::Some(d),
{
    lemma_dec_enc_db(d);
    lemma_parse_print(enc_db(d));
}

/// The greeting utility of the application shell.
pub fn greet(name: &str) -> (r: String)
    ensures
        r@ == "Hello, "@ + name@ + "! You've been greeted from Rust!"@,
{
    let mut r = String::from_str("Hello, ");
    r.append(name);
    r.append("! You've been greeted from Rust!");
    r
}

} // verus!
