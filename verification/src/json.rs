use vstd::prelude::*;

verus! {

/// A JSON value restricted to what the store files hold: null, booleans,
/// whole-second integers, strings, arrays and objects. Surrounding tooling
/// turns this into JSON text and back.
#[derive(Debug)]
pub enum JsonValue {
    Null,
    Bool(bool),
    Int(i64),
    Str(String),
    Arr(Vec<JsonValue>),
    Obj(Vec<(String, JsonValue)>),
}

/// The mathematical model of a JSON value.
#[verifier::ext_equal]
pub enum JsonRep {
    Null,
    Bool(bool),
    Int(int),
    Str(Seq<char>),
    Arr(Seq<JsonRep>),
    Obj(Seq<(Seq<char>, JsonRep)>),
}

/// The model of a JSON value.
pub open spec fn json_rep(v: JsonValue) -> JsonRep
    decreases v,
{
    match v {
        JsonValue::Null => JsonRep::Null,
        JsonValue::Bool(b) => JsonRep::Bool(b),
        JsonValue::Int(i) => JsonRep::Int(i as int),
        JsonValue::Str(s) => JsonRep::Str(s@),
        JsonValue::Arr(a) => JsonRep::Arr(
            Seq::new(
                a@.len(),
                |i: int|
                    if 0 <= i < a@.len() {
                        json_rep(a@[i])
                    } else {
                        JsonRep::Null
                    },
            ),
        ),
        JsonValue::Obj(o) => JsonRep::Obj(
            Seq::new(
                o@.len(),
                |i: int|
                    if 0 <= i < o@.len() {
                        (o@[i].0@, json_rep(o@[i].1))
                    } else {
                        (Seq::empty(), JsonRep::Null)
                    },
            ),
        ),
    }
}

impl View for JsonValue {
    type V = JsonRep;

    open spec fn view(&self) -> JsonRep {
        json_rep(*self)
    }
}

/// The integer under a JSON value, if it is one.
pub open spec fn rep_int(j: JsonRep) -> Option<int> {
    match j {
        JsonRep::Int(i) => Some(i),
        _ => None,
    }
}

/// The string under a JSON value, if it is one.
pub open spec fn rep_str(j: JsonRep) -> Option<Seq<char>> {
    match j {
        JsonRep::Str(s) => Some(s),
        _ => None,
    }
}

/// The elements under a JSON array, if it is one.
pub open spec fn rep_arr(j: JsonRep) -> Option<Seq<JsonRep>> {
    match j {
        JsonRep::Arr(a) => Some(a),
        _ => None,
    }
}

/// The members under a JSON object, if it is one.
pub open spec fn rep_obj(j: JsonRep) -> Option<Seq<(Seq<char>, JsonRep)>> {
    match j {
        JsonRep::Obj(o) => Some(o),
        _ => None,
    }
}

/// The value at the first member named `key`, if the object has one.
pub open spec fn rep_lookup(members: Seq<(Seq<char>, JsonRep)>, key: Seq<char>) -> Option<JsonRep>
    decreases members.len(),
{
    if members.len() == 0 {
        None
    } else if members.first().0 == key {
        Some(members.first().1)
    } else {
        rep_lookup(members.drop_first(), key)
    }
}

} // verus!
