//! The JSON values carried in request parameters and results, modelled
//! as the library's own type so that the logic reading them can be
//! specified. The text codec that turns these values into bytes and back
//! is an outside capability; see the wire module.

use vstd::prelude::*;

verus! {

broadcast use vstd::std_specs::vec::group_vec_axioms;

/// A JSON value. Numbers are modelled as signed 64-bit integers: the
/// protocol reads only integer error codes, and non-integer numbers are
/// outside the wire contract.
#[derive(Debug, PartialEq)]
pub enum Value {
    Null,
    Bool(bool),
    Int(i64),
    Str(String),
    Arr(Vec<Value>),
    Obj(Vec<(String, Value)>),
}

/// The mathematical shape of a JSON value, used by every contract.
pub enum ValueSpec {
    Null,
    Bool(bool),
    Int(int),
    Str(Seq<char>),
    Arr(Seq<ValueSpec>),
    Obj(Seq<(Seq<char>, ValueSpec)>),
}

/// The abstraction of an executable value.
pub open spec fn view_value(v: Value) -> ValueSpec
    decreases v,
{
    match v {
        Value::Null => ValueSpec::Null,
        Value::Bool(b) => ValueSpec::Bool(b),
        Value::Int(i) => ValueSpec::Int(i as int),
        Value::Str(s) => ValueSpec::Str(s@),
        Value::Arr(a) => ValueSpec::Arr(view_values(a@)),
        Value::Obj(o) => ValueSpec::Obj(view_members(o@)),
    }
}

/// The abstraction of each element of an array.
pub open spec fn view_values(s: Seq<Value>) -> Seq<ValueSpec>
    decreases s,
{
    Seq::new(
        s.len(),
        |i: int|
            if 0 <= i < s.len() {
                view_value(s[i])
            } else {
                ValueSpec::Null
            },
    )
}

/// The abstraction of each field of an object.
pub open spec fn view_members(s: Seq<(String, Value)>) -> Seq<(Seq<char>, ValueSpec)>
    decreases s,
{
    Seq::new(
        s.len(),
        |i: int|
            if 0 <= i < s.len() {
                (s[i].0@, view_value(s[i].1))
            } else {
                (Seq::empty(), ValueSpec::Null)
            },
    )
}

impl DeepView for Value {
    type V = ValueSpec;

    open spec fn deep_view(&self) -> ValueSpec {
        view_value(*self)
    }
}

/// An array's elements abstract the same way through the vector as
/// through the sequence.
pub proof fn lemma_values_deep(a: Vec<Value>)
    ensures
        a.deep_view() == view_values(a@),
{
    assert(a.deep_view() =~= view_values(a@));
}

/// An object's fields abstract the same way through the vector as
/// through the sequence.
pub proof fn lemma_members_deep(o: Vec<(String, Value)>)
    ensures
        o.deep_view() == view_members(o@),
{
    assert(o.deep_view() =~= view_members(o@));
}

/// The first value bound to `key` among the fields of a JSON object, if
/// any.
pub open spec fn obj_get(fields: Seq<(Seq<char>, ValueSpec)>, key: Seq<char>) -> Option<ValueSpec>
    decreases fields.len(),
{
    if fields.len() == 0 {
        None
    } else if fields[0].0 == key {
        Some(fields[0].1)
    } else {
        obj_get(fields.skip(1), key)
    }
}

/// Look a key up among the fields of an object, returning the first
/// binding, as `obj_get` does.
pub fn obj_lookup<'a>(fields: &'a Vec<(String, Value)>, key: &str) -> (r: Option<&'a Value>)
    ensures
        (match r {
            Some(v) => obj_get(fields.deep_view(), key@) == Some(v.deep_view()),
            None => obj_get(fields.deep_view(), key@) is None,
        }),
{
    let ghost gfields = fields.deep_view();
    let ks: String = key.to_owned();
    proof {
        assert forall|j: int| 0 <= j < gfields.len() implies (#[trigger] gfields[j]) == (
            fields@[j].0@,
            view_value(fields@[j].1),
        ) by {
            assert(gfields[j] == fields@[j].deep_view());
        }
        assert(gfields.skip(0) =~= gfields);
    }
    let mut i: usize = 0;
    while i < fields.len()
        invariant
            i <= fields.len(),
            ks@ == key@,
            gfields == fields.deep_view(),
            gfields.len() == fields@.len(),
            forall|j: int| 0 <= j < gfields.len() ==> (#[trigger] gfields[j]) == (
                fields@[j].0@,
                view_value(fields@[j].1),
            ),
            obj_get(gfields, key@) == obj_get(gfields.skip(i as int), key@),
        decreases fields.len() - i,
    {
        let ghost pre = gfields.skip(i as int);
        if fields[i].0 == ks {
            proof {
                assert(pre[0] == gfields[i as int]);
                assert(pre[0].0 == key@);
            }
            return Some(&fields[i].1);
        }
        proof {
            assert(pre[0] == gfields[i as int]);
            assert(pre[0].0 != key@);
            assert(pre.skip(1) =~= gfields.skip(i + 1));
        }
        i += 1;
    }
    proof {
        assert(gfields.skip(fields.len() as int) =~= Seq::<(Seq<char>, ValueSpec)>::empty());
    }
    None
}

/// Take an object's fields apart, handing out the first values bound to
/// three distinct keys and dropping the rest.
pub fn take3(fields: Vec<(String, Value)>, k1: &str, k2: &str, k3: &str) -> (r: (
    Option<Value>,
    Option<Value>,
    Option<Value>,
))
    requires
        k1@ != k2@,
        k1@ != k3@,
        k2@ != k3@,
    ensures
        r.0.deep_view() == obj_get(fields.deep_view(), k1@),
        r.1.deep_view() == obj_get(fields.deep_view(), k2@),
        r.2.deep_view() == obj_get(fields.deep_view(), k3@),
{
    let ghost gf = fields.deep_view();
    let mut fields = fields;
    let ks1: String = k1.to_owned();
    let ks2: String = k2.to_owned();
    let ks3: String = k3.to_owned();
    let mut a1: Option<Value> = None;
    let mut a2: Option<Value> = None;
    let mut a3: Option<Value> = None;
    proof {
        lemma_fields_deep(fields);
    }
    while fields.len() > 0
        invariant
            ks1@ == k1@ && ks2@ == k2@ && ks3@ == k3@,
            k1@ != k2@ && k1@ != k3@ && k2@ != k3@,
            (match a1 {
                Some(v) => obj_get(gf, k1@) == Some(v.deep_view()),
                None => obj_get(gf, k1@) == obj_get(fields.deep_view(), k1@),
            }),
            (match a2 {
                Some(v) => obj_get(gf, k2@) == Some(v.deep_view()),
                None => obj_get(gf, k2@) == obj_get(fields.deep_view(), k2@),
            }),
            (match a3 {
                Some(v) => obj_get(gf, k3@) == Some(v.deep_view()),
                None => obj_get(gf, k3@) == obj_get(fields.deep_view(), k3@),
            }),
        decreases fields.len(),
    {
        let ghost pre = fields.deep_view();
        let (k, v) = fields.remove(0);
        proof {
            lemma_fields_deep(fields);
            assert(fields.deep_view() =~= pre.skip(1));
            assert(pre[0] == (k@, v.deep_view()));
        }
        if a1.is_none() && k == ks1 {
            a1 = Some(v);
        } else if a2.is_none() && k == ks2 {
            a2 = Some(v);
        } else if a3.is_none() && k == ks3 {
            a3 = Some(v);
        }
    }
    proof {
        assert(fields.deep_view() =~= Seq::<(Seq<char>, ValueSpec)>::empty());
    }
    (a1, a2, a3)
}

/// Take an object's fields apart, handing out the first values bound to
/// two distinct keys and dropping the rest.
pub fn take2(fields: Vec<(String, Value)>, k1: &str, k2: &str) -> (r: (
    Option<Value>,
    Option<Value>,
))
    requires
        k1@ != k2@,
    ensures
        r.0.deep_view() == obj_get(fields.deep_view(), k1@),
        r.1.deep_view() == obj_get(fields.deep_view(), k2@),
{
    let ghost gf = fields.deep_view();
    let mut fields = fields;
    let ks1: String = k1.to_owned();
    let ks2: String = k2.to_owned();
    let mut a1: Option<Value> = None;
    let mut a2: Option<Value> = None;
    proof {
        lemma_fields_deep(fields);
    }
    while fields.len() > 0
        invariant
            ks1@ == k1@ && ks2@ == k2@,
            k1@ != k2@,
            (match a1 {
                Some(v) => obj_get(gf, k1@) == Some(v.deep_view()),
                None => obj_get(gf, k1@) == obj_get(fields.deep_view(), k1@),
            }),
            (match a2 {
                Some(v) => obj_get(gf, k2@) == Some(v.deep_view()),
                None => obj_get(gf, k2@) == obj_get(fields.deep_view(), k2@),
            }),
        decreases fields.len(),
    {
        let ghost pre = fields.deep_view();
        let (k, v) = fields.remove(0);
        proof {
            lemma_fields_deep(fields);
            assert(fields.deep_view() =~= pre.skip(1));
            assert(pre[0] == (k@, v.deep_view()));
        }
        if a1.is_none() && k == ks1 {
            a1 = Some(v);
        } else if a2.is_none() && k == ks2 {
            a2 = Some(v);
        }
    }
    proof {
        assert(fields.deep_view() =~= Seq::<(Seq<char>, ValueSpec)>::empty());
    }
    (a1, a2)
}

/// Each field of an object abstracts to its key's characters and its
/// value's shape.
pub proof fn lemma_fields_deep(fields: Vec<(String, Value)>)
    ensures
        fields.deep_view().len() == fields@.len(),
        forall|j: int| 0 <= j < fields@.len() ==> (#[trigger] fields.deep_view()[j]) == (
            fields@[j].0@,
            view_value(fields@[j].1),
        ),
{
    assert forall|j: int| 0 <= j < fields@.len() implies (#[trigger] fields.deep_view()[j]) == (
        fields@[j].0@,
        view_value(fields@[j].1),
    ) by {
        assert(fields.deep_view()[j] == fields@[j].deep_view());
    }
}

} // verus!
