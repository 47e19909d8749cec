//! The canonical in-memory representation of document values.
//!
//! A [`JsonValue`] mirrors the six shapes of a JSON tree: null, boolean,
//! number, string, array, object. Numbers are carried as the raw bit
//! pattern of an IEEE-754 binary64 value, so that fingerprints are
//! comparable across build and query regardless of the source parser.
//! Object field order is preserved as observed during construction.

use vstd::prelude::*;

verus! {

broadcast use {
    vstd::std_specs::vec::axiom_vec_index_decreases,
    vstd::std_specs::vec::axiom_vec_decreases_to_view,
    vstd::seq::axiom_seq_index_decreases,
};

/// A document value. `Number` holds the bit pattern of an IEEE-754
/// binary64 number (`f64::to_bits`); integral source values are lifted
/// into that domain by the ingest collaborator.
#[derive(Debug)]
pub enum JsonValue {
    Null,
    Bool(bool),
    Number(u64),
    String(String),
    Array(Vec<JsonValue>),
    Object(Vec<(String, JsonValue)>),
}

/// The mathematical model of a [`JsonValue`]: strings become character
/// sequences, vectors become sequences. Contracts throughout the crate
/// speak of this model.
pub enum ValModel {
    Null,
    Bool(bool),
    Number(u64),
    Text(Seq<char>),
    Arr(Seq<ValModel>),
    Obj(Seq<(Seq<char>, ValModel)>),
}

impl View for JsonValue {
    type V = ValModel;

    open spec fn view(&self) -> ValModel
        decreases self,
    {
        match self {
            JsonValue::Null => ValModel::Null,
            JsonValue::Bool(b) => ValModel::Bool(*b),
            JsonValue::Number(n) => ValModel::Number(*n),
            JsonValue::String(s) => ValModel::Text(s@),
            JsonValue::Array(elems) => ValModel::Arr(arr_model(elems@)),
            JsonValue::Object(fields) => ValModel::Obj(obj_model(fields@)),
        }
    }
}

/// The models of a sequence of array elements.
pub open spec fn arr_model(elems: Seq<JsonValue>) -> Seq<ValModel>
    decreases elems,
{
    Seq::new(
        elems.len(),
        |i: int|
            if 0 <= i < elems.len() {
                elems[i]@
            } else {
                ValModel::Null
            },
    )
}

/// The models of a sequence of object fields.
pub open spec fn obj_model(fields: Seq<(String, JsonValue)>) -> Seq<(Seq<char>, ValModel)>
    decreases fields,
{
    Seq::new(
        fields.len(),
        |i: int|
            if 0 <= i < fields.len() {
                (fields[i].0@, fields[i].1@)
            } else {
                (Seq::empty(), ValModel::Null)
            },
    )
}

/// True of the four value shapes that carry their own bytes into a
/// fingerprint; arrays and objects contribute only their path.
pub open spec fn is_primitive(m: ValModel) -> bool {
    match m {
        ValModel::Arr(_) => false,
        ValModel::Obj(_) => false,
        _ => true,
    }
}

impl Clone for JsonValue {
    /// A deep copy with the same model.
    fn clone(&self) -> (r: Self)
        ensures
            r@ == self@,
    {
        clone_value(self)
    }
}

/// A deep copy of a value, with the same model.
#[verifier::loop_isolation(false)]
fn clone_value(v: &JsonValue) -> (r: JsonValue)
    ensures
        r@ == v@,
    decreases v,
{
    match v {
        JsonValue::Null => JsonValue::Null,
        JsonValue::Bool(b) => JsonValue::Bool(*b),
        JsonValue::Number(n) => JsonValue::Number(*n),
        JsonValue::String(s) => JsonValue::String(s.clone()),
        JsonValue::Array(elems) => {
            let mut out: Vec<JsonValue> = Vec::new();
            let mut i: usize = 0;
            while i < elems.len()
                invariant
                    i <= elems.len(),
                    out@.len() == i,
                    forall|j: int| 0 <= j < i ==> #[trigger] out@[j]@ == elems@[j]@,
                decreases elems.len() - i,
            {
                proof {
                    assert(decreases_to!(*v => elems@[i as int])) by {
                        assert(decreases_to!(*v => (*v)->Array_0));
                        assert(decreases_to!((*v)->Array_0 => (*v)->Array_0@));
                        assert(decreases_to!((*v)->Array_0@ => (*v)->Array_0@[i as int]));
                    }
                }
                out.push(clone_value(&elems[i]));
                i += 1;
            }
            let ghost outs = out@;
            let r = JsonValue::Array(out);
            proof {
                assert(r@ is Arr && v@ is Arr);
                let a = r@->Arr_0;
                let b = v@->Arr_0;
                assert(v@ == ValModel::Arr(arr_model(elems@)));
                assert(b == arr_model(elems@));
                assert(a == arr_model(outs));
                assert(a.len() == outs.len() && b.len() == elems@.len());
                assert forall|j: int| 0 <= j < a.len() implies a[j] == b[j] by {
                    assert(a[j] == outs[j]@);
                    assert(b[j] == elems@[j]@);
                }
                assert(a =~= b);
            }
            r
        },
        JsonValue::Object(fields) => {
            let mut out: Vec<(String, JsonValue)> = Vec::new();
            let mut i: usize = 0;
            while i < fields.len()
                invariant
                    i <= fields.len(),
                    out@.len() == i,
                    forall|j: int| 0 <= j < i ==> #[trigger] out@[j].0@ == fields@[j].0@
                        && out@[j].1@ == fields@[j].1@,
                decreases fields.len() - i,
            {
                proof {
                    assert(decreases_to!(*v => fields@[i as int].1)) by {
                        assert(decreases_to!(*v => (*v)->Object_0));
                        assert(decreases_to!((*v)->Object_0 => (*v)->Object_0@));
                        assert(decreases_to!((*v)->Object_0@ => (*v)->Object_0@[i as int]));
                        assert(decreases_to!((*v)->Object_0@[i as int] => (*v)->Object_0@[i as int].1));
                    }
                }
                let entry = &fields[i];
                out.push((entry.0.clone(), clone_value(&entry.1)));
                i += 1;
            }
            let ghost outs = out@;
            let r = JsonValue::Object(out);
            proof {
                assert(r@ is Obj && v@ is Obj);
                let a = r@->Obj_0;
                let b = v@->Obj_0;
                assert(v@ == ValModel::Obj(obj_model(fields@)));
                assert(b == obj_model(fields@));
                assert(a == obj_model(outs));
                assert(a.len() == outs.len() && b.len() == fields@.len());
                assert forall|j: int| 0 <= j < a.len() implies a[j] == b[j] by {
                    assert(a[j] == (outs[j].0@, outs[j].1@));
                    assert(b[j] == (fields@[j].0@, fields@[j].1@));
                }
                assert(a =~= b);
            }
            r
        },
    }
}

impl JsonValue {
    /// True of the four value shapes that carry their own bytes into a
    /// fingerprint.
    pub fn is_primitive(&self) -> (r: bool)
        ensures
            r == is_primitive(self@),
    {
        match self {
            JsonValue::Array(_) => false,
            JsonValue::Object(_) => false,
            _ => true,
        }
    }
}

} // verus!
