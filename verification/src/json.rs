//! JSON document values: a ghost form for specifications and an
//! executable form, related by a view.

use vstd::prelude::*;

verus! {

/// Ghost JSON value; numbers carry their value in thousandths.
pub enum JsonV {
    Null,
    Bool(bool),
    Num(int),
    JStr(Seq<char>),
    Arr(Seq<JsonV>),
    Obj(Seq<(Seq<char>, JsonV)>),
}

/// Executable JSON value; numbers carry thousandths in an `i64`.
pub enum Json {
    Null,
    Bool(bool),
    Num(i64),
    JStr(String),
    Arr(Vec<Json>),
    Obj(Vec<(String, Json)>),
}

pub open spec fn jview(j: Json) -> JsonV
    decreases j,
{
    match j {
        Json::Null => JsonV::Null,
        Json::Bool(b) => JsonV::Bool(b),
        Json::Num(m) => JsonV::Num(m as int),
        Json::JStr(s) => JsonV::JStr(s@),
        Json::Arr(a) => JsonV::Arr(jview_arr(a@, 0)),
        Json::Obj(ms) => JsonV::Obj(jview_obj(ms@, 0)),
    }
}

pub open spec fn jview_arr(a: Seq<Json>, k: int) -> Seq<JsonV>
    decreases a, a.len() - k,
{
    if k < 0 || k >= a.len() {
        Seq::empty()
    } else {
        seq![jview(a[k])] + jview_arr(a, k + 1)
    }
}

pub open spec fn jview_obj(ms: Seq<(String, Json)>, k: int) -> Seq<(Seq<char>, JsonV)>
    decreases ms, ms.len() - k,
{
    if k < 0 || k >= ms.len() {
        Seq::empty()
    } else {
        seq![(ms[k].0@, jview(ms[k].1))] + jview_obj(ms, k + 1)
    }
}

impl View for Json {
    type V = JsonV;

    open spec fn view(&self) -> JsonV {
        jview(*self)
    }
}

/// Length and contents of the viewed tail of an array.
pub proof fn lemma_jview_arr_props(a: Seq<Json>, k: int)
    requires
        0 <= k <= a.len(),
    ensures
        jview_arr(a, k).len() == a.len() - k,
        forall|t: int| 0 <= t < a.len() - k ==> #[trigger] jview_arr(a, k)[t] == jview(a[k + t]),
    decreases a.len() - k,
{
    if k < a.len() {
        lemma_jview_arr_props(a, k + 1);
    }
}

/// Appending an element extends the viewed array by its view.
pub proof fn lemma_jview_arr_snoc(a: Seq<Json>, x: Json, k: int)
    requires
        0 <= k <= a.len(),
    ensures
        jview_arr(a.push(x), k) == jview_arr(a, k) + seq![jview(x)],
    decreases a.len() - k,
{
    if k < a.len() {
        lemma_jview_arr_snoc(a, x, k + 1);
        assert(a.push(x)[k] == a[k]);
        assert(jview_arr(a.push(x), k) =~= jview_arr(a, k) + seq![jview(x)]);
    } else {
        assert(a.push(x)[k] == x);
        assert(jview_arr(a.push(x), k + 1) =~= Seq::<JsonV>::empty());
        assert(jview_arr(a.push(x), k) =~= jview_arr(a, k) + seq![jview(x)]);
    }
}

/// Length and contents of the viewed tail of an object.
pub proof fn lemma_jview_obj_props(ms: Seq<(String, Json)>, k: int)
    requires
        0 <= k <= ms.len(),
    ensures
        jview_obj(ms, k).len() == ms.len() - k,
        forall|t: int|
            0 <= t < ms.len() - k ==> #[trigger] jview_obj(ms, k)[t] == (
            ms[k + t].0@,
            jview(ms[k + t].1),
            ),
    decreases ms.len() - k,
{
    if k < ms.len() {
        lemma_jview_obj_props(ms, k + 1);
    }
}

/// Appending a member extends the viewed object by its viewed pair.
pub proof fn lemma_jview_obj_snoc(ms: Seq<(String, Json)>, x: (String, Json), k: int)
    requires
        0 <= k <= ms.len(),
    ensures
        jview_obj(ms.push(x), k) == jview_obj(ms, k) + seq![(x.0@, jview(x.1))],
    decreases ms.len() - k,
{
    if k < ms.len() {
        lemma_jview_obj_snoc(ms, x, k + 1);
        assert(ms.push(x)[k] == ms[k]);
        assert(jview_obj(ms.push(x), k) =~= jview_obj(ms, k) + seq![(x.0@, jview(x.1))]);
    } else {
        assert(ms.push(x)[k] == x);
        assert(jview_obj(ms.push(x), k + 1) =~= Seq::<(Seq<char>, JsonV)>::empty());
        assert(jview_obj(ms.push(x), k) =~= jview_obj(ms, k) + seq![(x.0@, jview(x.1))]);
    }
}

} // verus!
