//! The pair extractor.
//!
//! Walking a document from the root with an accumulating path, every
//! internal node is emitted as one observation `(path, value)`: each
//! object field is emitted under `parent.field`, and each array element
//! under `parent[*]` — the array index is collapsed at extraction time, so
//! document inserts meet normalized query probes. Primitive leaves carry
//! their value; arrays and objects are emitted too (their path serves
//! existence queries) and their contents contribute through recursion.

use crate::value::{obj_model, JsonValue, ValModel};
use vstd::prelude::*;
use vstd::string::StrSliceExecFns;
use vstd::string::StringExecFns;

verus! {

/// The path of an object field below `prefix`.
pub open spec fn child_path(prefix: Seq<char>, key: Seq<char>) -> Seq<char> {
    if prefix.len() == 0 {
        key
    } else {
        prefix + seq!['.'] + key
    }
}

/// The path of an array element below `prefix`: the index is already
/// collapsed to `[*]`.
pub open spec fn elem_path(prefix: Seq<char>) -> Seq<char> {
    prefix + seq!['[', '*', ']']
}

/// The observations of a value rooted at `prefix`, in emission order.
pub open spec fn observations(m: ValModel, prefix: Seq<char>) -> Seq<(Seq<char>, ValModel)>
    decreases m,
{
    match m {
        ValModel::Obj(fields) => obs_fields(fields, prefix),
        ValModel::Arr(elems) => obs_elems(elems, prefix),
        _ => Seq::empty(),
    }
}

/// The observations of an object's fields, in field order: each field is
/// emitted, then its value's own observations follow.
pub open spec fn obs_fields(
    fields: Seq<(Seq<char>, ValModel)>,
    prefix: Seq<char>,
) -> Seq<(Seq<char>, ValModel)>
    decreases fields,
{
    if fields.len() == 0 {
        Seq::empty()
    } else {
        let p = child_path(prefix, fields[0].0);
        seq![(p, fields[0].1)] + observations(fields[0].1, p) + obs_fields(
            fields.subrange(1, fields.len() as int),
            prefix,
        )
    }
}

/// The observations of an array's elements, in element order, all under
/// the same `[*]` path.
pub open spec fn obs_elems(elems: Seq<ValModel>, prefix: Seq<char>) -> Seq<(Seq<char>, ValModel)>
    decreases elems,
{
    if elems.len() == 0 {
        Seq::empty()
    } else {
        let p = elem_path(prefix);
        seq![(p, elems[0])] + observations(elems[0], p) + obs_elems(
            elems.subrange(1, elems.len() as int),
            prefix,
        )
    }
}

proof fn lemma_obs_fields_unfold(fields: Seq<(Seq<char>, ValModel)>, prefix: Seq<char>, i: int)
    requires
        0 <= i < fields.len(),
    ensures
        obs_fields(fields.subrange(i, fields.len() as int), prefix) == seq![
            (child_path(prefix, fields[i].0), fields[i].1),
        ] + observations(fields[i].1, child_path(prefix, fields[i].0)) + obs_fields(
            fields.subrange(i + 1, fields.len() as int),
            prefix,
        ),
{
    let sub = fields.subrange(i, fields.len() as int);
    assert(sub[0] == fields[i]);
    assert(sub.subrange(1, sub.len() as int) =~= fields.subrange(i + 1, fields.len() as int));
}

proof fn lemma_obs_elems_unfold(elems: Seq<ValModel>, prefix: Seq<char>, i: int)
    requires
        0 <= i < elems.len(),
    ensures
        obs_elems(elems.subrange(i, elems.len() as int), prefix) == seq![
            (elem_path(prefix), elems[i]),
        ] + observations(elems[i], elem_path(prefix)) + obs_elems(
            elems.subrange(i + 1, elems.len() as int),
            prefix,
        ),
{
    let sub = elems.subrange(i, elems.len() as int);
    assert(sub[0] == elems[i]);
    assert(sub.subrange(1, sub.len() as int) =~= elems.subrange(i + 1, elems.len() as int));
}

/// Walk `value`, appending its observations to `pairs`.
#[verifier::loop_isolation(false)]
fn extract_into(value: &JsonValue, prefix: &str, pairs: &mut Vec<(String, JsonValue)>)
    ensures
        obj_model(final(pairs)@) == obj_model(old(pairs)@) + observations(value@, prefix@),
    decreases value,
{
    match value {
        JsonValue::Object(fields) => {
            let ghost fseq = crate::value::obj_model(fields@);
            proof {
                assert(value@ == ValModel::Obj(fseq));
                assert(fseq.subrange(0, fseq.len() as int) =~= fseq);
            }
            let mut i: usize = 0;
            while i < fields.len()
                invariant
                    i <= fields.len(),
                    obj_model(pairs@) + obs_fields(
                        fseq.subrange(i as int, fseq.len() as int),
                        prefix@,
                    ) == obj_model(old(pairs)@) + obs_fields(fseq, prefix@),
                decreases fields.len() - i,
            {
                proof {
                    assert(decreases_to!(*value => fields@[i as int].1)) by {
                        assert(decreases_to!(*value => (*value)->Object_0));
                        assert(decreases_to!((*value)->Object_0 => (*value)->Object_0@));
                        assert(decreases_to!((*value)->Object_0@ => (*value)->Object_0@[i as int]));
                        assert(decreases_to!((*value)->Object_0@[i as int] => (*value)->Object_0@[i as int].1));
                    }
                    lemma_obs_fields_unfold(fseq, prefix@, i as int);
                }
                let entry = &fields[i];
                let np: String;
                if prefix.is_empty() {
                    np = String::from_str(entry.0.as_str());
                } else {
                    let mut built = String::from_str(prefix);
                    built.append(".");
                    built.append(entry.0.as_str());
                    np = built;
                }
                proof {
                    reveal_strlit(".");
                    assert(np@ == child_path(prefix@, fseq[i as int].0));
                }
                let ghost before = pairs@;
                pairs.push((np.clone(), entry.1.clone()));
                proof {
                    assert(obj_model(pairs@) =~= obj_model(before).push(
                        (np@, fseq[i as int].1),
                    ));
                }
                extract_into(&entry.1, np.as_str(), pairs);
                proof {
                    let e = (np@, fseq[i as int].1);
                    let obs_child = observations(fseq[i as int].1, np@);
                    let rest = obs_fields(fseq.subrange(i + 1, fseq.len() as int), prefix@);
                    assert(obj_model(pairs@) == obj_model(before).push(e) + obs_child);
                    assert(obj_model(before).push(e) =~= obj_model(before) + seq![e]);
                    assert(obj_model(pairs@) + rest =~= obj_model(before) + (seq![e] + obs_child
                        + rest));
                }
                i += 1;
            }
            proof {
                assert(fseq.subrange(fseq.len() as int, fseq.len() as int) =~= Seq::empty());
                assert(obj_model(pairs@) + Seq::empty() =~= obj_model(pairs@));
            }
        },
        JsonValue::Array(elems) => {
            let ghost eseq = crate::value::arr_model(elems@);
            proof {
                assert(value@ == ValModel::Arr(eseq));
                assert(eseq.subrange(0, eseq.len() as int) =~= eseq);
            }
            let mut i: usize = 0;
            while i < elems.len()
                invariant
                    i <= elems.len(),
                    obj_model(pairs@) + obs_elems(
                        eseq.subrange(i as int, eseq.len() as int),
                        prefix@,
                    ) == obj_model(old(pairs)@) + obs_elems(eseq, prefix@),
                decreases elems.len() - i,
            {
                proof {
                    assert(decreases_to!(*value => elems@[i as int])) by {
                        assert(decreases_to!(*value => (*value)->Array_0));
                        assert(decreases_to!((*value)->Array_0 => (*value)->Array_0@));
                        assert(decreases_to!((*value)->Array_0@ => (*value)->Array_0@[i as int]));
                    }
                    lemma_obs_elems_unfold(eseq, prefix@, i as int);
                }
                let element = &elems[i];
                let mut built = String::from_str(prefix);
                built.append("[*]");
                let np = built;
                proof {
                    reveal_strlit("[*]");
                    assert(np@ =~= elem_path(prefix@));
                }
                let ghost before = pairs@;
                pairs.push((np.clone(), element.clone()));
                proof {
                    assert(obj_model(pairs@) =~= obj_model(before).push((np@, eseq[i as int])));
                }
                extract_into(element, np.as_str(), pairs);
                proof {
                    let e = (np@, eseq[i as int]);
                    let obs_child = observations(eseq[i as int], np@);
                    let rest = obs_elems(eseq.subrange(i + 1, eseq.len() as int), prefix@);
                    assert(obj_model(pairs@) == obj_model(before).push(e) + obs_child);
                    assert(obj_model(before).push(e) =~= obj_model(before) + seq![e]);
                    assert(obj_model(pairs@) + rest =~= obj_model(before) + (seq![e] + obs_child
                        + rest));
                }
                i += 1;
            }
            proof {
                assert(eseq.subrange(eseq.len() as int, eseq.len() as int) =~= Seq::empty());
                assert(obj_model(pairs@) + Seq::empty() =~= obj_model(pairs@));
            }
        },
        _ => {
            proof {
                assert(observations(value@, prefix@) =~= Seq::empty());
                assert(obj_model(pairs@) + Seq::empty() =~= obj_model(pairs@));
            }
        },
    }
}

/// Extract every observation of a document, in emission order: the
/// returned pairs, viewed as `(path characters, value model)`, are exactly
/// the document's observations from the empty root path.
pub fn extract_pairs(doc: &JsonValue) -> (r: Vec<(String, JsonValue)>)
    ensures
        obj_model(r@) == observations(doc@, Seq::empty()),
{
    let mut pairs: Vec<(String, JsonValue)> = Vec::new();
    let root = String::new();
    extract_into(doc, root.as_str(), &mut pairs);
    proof {
        assert(obj_model(Seq::<(String, JsonValue)>::empty()) =~= Seq::<(
            Seq<char>,
            ValModel,
        )>::empty());
    }
    pairs
}

/// All field names in a value are plain (free of dots and brackets) and
/// non-empty: the shape of ordinary JSON documents, under which emitted
/// paths are their own normalized form.
pub open spec fn plain_keys(m: ValModel) -> bool
    decreases m,
{
    match m {
        ValModel::Obj(fields) => plain_keys_fields(fields),
        ValModel::Arr(elems) => plain_keys_elems(elems),
        _ => true,
    }
}

/// All field names under a sequence of object fields are plain.
pub open spec fn plain_keys_fields(fields: Seq<(Seq<char>, ValModel)>) -> bool
    decreases fields,
{
    if fields.len() == 0 {
        true
    } else {
        &&& crate::path::plain_seg(fields[0].0)
        &&& fields[0].0.len() > 0
        &&& plain_keys(fields[0].1)
        &&& plain_keys_fields(fields.subrange(1, fields.len() as int))
    }
}

/// All field names under a sequence of array elements are plain.
pub open spec fn plain_keys_elems(elems: Seq<ValModel>) -> bool
    decreases elems,
{
    if elems.len() == 0 {
        true
    } else {
        plain_keys(elems[0]) && plain_keys_elems(elems.subrange(1, elems.len() as int))
    }
}

/// Every path emitted for a value with plain field names, below an
/// emission-shaped prefix, is itself emission-shaped — and therefore its
/// own normalized form, so a normalized query path meets it exactly.
pub proof fn lemma_observation_paths_emitted(
    m: ValModel,
    prefix: Seq<char>,
    o: (Seq<char>, ValModel),
)
    requires
        plain_keys(m),
        crate::path::emitted_ok(prefix),
        observations(m, prefix).contains(o),
    ensures
        crate::path::emitted_ok(o.0),
        crate::path::norm(o.0) == o.0,
    decreases m,
{
    match m {
        ValModel::Obj(fields) => {
            lemma_obs_fields_paths(fields, prefix, o);
        },
        ValModel::Arr(elems) => {
            lemma_obs_elems_paths(elems, prefix, o);
        },
        _ => {},
    }
    crate::path::lemma_emitted_ok_norm(o.0);
}

proof fn lemma_obs_fields_paths(
    fields: Seq<(Seq<char>, ValModel)>,
    prefix: Seq<char>,
    o: (Seq<char>, ValModel),
)
    requires
        plain_keys_fields(fields),
        crate::path::emitted_ok(prefix),
        obs_fields(fields, prefix).contains(o),
    ensures
        crate::path::emitted_ok(o.0),
    decreases fields,
{
    let p = child_path(prefix, fields[0].0);
    assert(p == crate::path::join_dot(prefix, fields[0].0));
    crate::path::lemma_emitted_ok_join(prefix, fields[0].0);
    let head = seq![(p, fields[0].1)];
    let mid = observations(fields[0].1, p);
    let rest = obs_fields(fields.subrange(1, fields.len() as int), prefix);
    let whole = head + mid + rest;
    let j = choose|j: int| 0 <= j < whole.len() && whole[j] == o;
    if j < 1 {
        assert(o.0 == p);
    } else if j < 1 + mid.len() {
        assert(mid[j - 1] == o);
        lemma_observation_paths_emitted(fields[0].1, p, o);
    } else {
        assert(rest[j - 1 - mid.len()] == o);
        lemma_obs_fields_paths(fields.subrange(1, fields.len() as int), prefix, o);
    }
}

proof fn lemma_obs_elems_paths(elems: Seq<ValModel>, prefix: Seq<char>, o: (Seq<char>, ValModel))
    requires
        plain_keys_elems(elems),
        crate::path::emitted_ok(prefix),
        obs_elems(elems, prefix).contains(o),
    ensures
        crate::path::emitted_ok(o.0),
    decreases elems,
{
    let p = elem_path(prefix);
    crate::path::lemma_emitted_ok_star(prefix);
    assert(p == prefix + seq!['[', '*', ']']);
    let head = seq![(p, elems[0])];
    let mid = observations(elems[0], p);
    let rest = obs_elems(elems.subrange(1, elems.len() as int), prefix);
    let whole = head + mid + rest;
    let j = choose|j: int| 0 <= j < whole.len() && whole[j] == o;
    if j < 1 {
        assert(o.0 == p);
    } else if j < 1 + mid.len() {
        assert(mid[j - 1] == o);
        lemma_observation_paths_emitted(elems[0], p, o);
    } else {
        assert(rest[j - 1 - mid.len()] == o);
        lemma_obs_elems_paths(elems.subrange(1, elems.len() as int), prefix, o);
    }
}

} // verus!
