//! JSON values as the library reads and builds them.
//!
//! `JsonValue` holds a JSON document as plain values; its meaning is the
//! mathematical value `jv(v)` of type `Json`.  Numbers are told apart as the
//! library reads them: non-negative integers, negative integers, and other
//! numbers, kept as their decimal text.
use vstd::prelude::*;

verus! {

/// A JSON document.
#[derive(Debug)]
pub enum JsonValue {
    Null,
    Bool(bool),
    /// A non-negative integer.
    UInt(u64),
    /// A negative integer.
    NegInt(i64),
    /// A number that is not an integer, as its decimal text.
    Float(String),
    Str(String),
    Array(Vec<JsonValue>),
    /// The fields of an object, in order; a lookup by name finds the first
    /// field of that name.
    Object(Vec<(String, JsonValue)>),
}

/// The mathematical value of a JSON document.
pub enum Json {
    Null,
    Bool(bool),
    UInt(u64),
    NegInt(i64),
    Float(Seq<char>),
    Str(Seq<char>),
    Array(Seq<Json>),
    Object(Seq<(Seq<char>, Json)>),
}

/// The value of a document.
pub open spec fn jv(v: JsonValue) -> Json
    decreases v,
{
    match v {
        JsonValue::Null => Json::Null,
        JsonValue::Bool(b) => Json::Bool(b),
        JsonValue::UInt(n) => Json::UInt(n),
        JsonValue::NegInt(n) => Json::NegInt(n),
        JsonValue::Float(t) => Json::Float(t@),
        JsonValue::Str(s) => Json::Str(s@),
        JsonValue::Array(items) => Json::Array(jv_items(items@)),
        JsonValue::Object(fields) => Json::Object(jv_fields(fields@)),
    }
}

/// The values of a sequence of documents.
pub open spec fn jv_items(s: Seq<JsonValue>) -> Seq<Json>
    decreases s,
{
    if s.len() == 0 {
        seq![]
    } else {
        jv_items(s.subrange(0, s.len() - 1)).push(jv(s[s.len() - 1]))
    }
}

/// The values of a sequence of object fields.
pub open spec fn jv_fields(s: Seq<(String, JsonValue)>) -> Seq<(Seq<char>, Json)>
    decreases s,
{
    if s.len() == 0 {
        seq![]
    } else {
        jv_fields(s.subrange(0, s.len() - 1)).push((s[s.len() - 1].0@, jv(s[s.len() - 1].1)))
    }
}

/// `jv_items` maps each document to its value.
pub proof fn lemma_jv_items(s: Seq<JsonValue>)
    ensures
        jv_items(s).len() == s.len(),
        forall|i: int| 0 <= i < s.len() ==> #[trigger] jv_items(s)[i] == jv(s[i]),
    decreases s.len(),
{
    if s.len() > 0 {
        let t = s.subrange(0, s.len() - 1);
        lemma_jv_items(t);
        assert forall|i: int| 0 <= i < s.len() implies #[trigger] jv_items(s)[i] == jv(s[i]) by {
            if i < s.len() - 1 {
                assert(t[i] == s[i]);
            }
        }
    }
}

/// `jv_fields` maps each field to its name's view and its value's value.
pub proof fn lemma_jv_fields(s: Seq<(String, JsonValue)>)
    ensures
        jv_fields(s).len() == s.len(),
        forall|i: int|
            0 <= i < s.len() ==> #[trigger] jv_fields(s)[i] == (s[i].0@, jv(s[i].1)),
    decreases s.len(),
{
    if s.len() > 0 {
        let t = s.subrange(0, s.len() - 1);
        lemma_jv_fields(t);
        assert forall|i: int| 0 <= i < s.len() implies #[trigger] jv_fields(s)[i] == (
            s[i].0@,
            jv(s[i].1),
        ) by {
            if i < s.len() - 1 {
                assert(t[i] == s[i]);
            }
        }
    }
}

/// The first field at or after `i` named `key`.
pub open spec fn field_index(fs: Seq<(Seq<char>, Json)>, key: Seq<char>, i: int) -> Option<int>
    decreases fs.len() - i,
{
    if i < 0 || i >= fs.len() {
        None
    } else if fs[i].0 == key {
        Some(i)
    } else {
        field_index(fs, key, i + 1)
    }
}

/// The member named `key` of an object (`Value::get` with a string key);
/// nothing for a value that is not an object.
pub open spec fn js_get(v: Json, key: Seq<char>) -> Option<Json> {
    match v {
        Json::Object(fs) => match field_index(fs, key, 0) {
            Some(i) => Some(fs[i].1),
            None => None,
        },
        _ => None,
    }
}

/// `Value::as_u64`: a non-negative integer.
pub open spec fn js_u64(v: Option<Json>) -> Option<u64> {
    match v {
        Some(Json::UInt(n)) => Some(n),
        _ => None,
    }
}

/// `Value::as_str`: a string.
pub open spec fn js_str(v: Option<Json>) -> Option<Seq<char>> {
    match v {
        Some(Json::Str(s)) => Some(s),
        _ => None,
    }
}

/// `Value::as_bool`: a boolean.
pub open spec fn js_bool(v: Option<Json>) -> Option<bool> {
    match v {
        Some(Json::Bool(b)) => Some(b),
        _ => None,
    }
}

/// `Value::as_array`: the items of an array.
pub open spec fn js_array(v: Option<Json>) -> Option<Seq<Json>> {
    match v {
        Some(Json::Array(a)) => Some(a),
        _ => None,
    }
}

/// The value of an optional document.
pub open spec fn jv_opt(v: Option<&JsonValue>) -> Option<Json> {
    match v {
        Some(x) => Some(jv(*x)),
        None => None,
    }
}

/// A string as a document.
pub fn jstr(s: &str) -> (v: JsonValue)
    ensures
        jv(v) == Json::Str(s@),
{
    JsonValue::Str(s.to_owned())
}

impl JsonValue {
    /// The member named `key`, if this is an object that has one.
    pub fn get(&self, key: &str) -> (r: Option<&JsonValue>)
        ensures
            jv_opt(r) == js_get(jv(*self), key@),
    {
        match self {
            JsonValue::Object(fields) => {
                proof {
                    lemma_jv_fields(fields@);
                }
                let ghost fs = jv_fields(fields@);
                let mut i: usize = 0;
                while i < fields.len()
                    invariant
                        i <= fields@.len(),
                        fs == jv_fields(fields@),
                        jv(*self) == Json::Object(fs),
                        fs.len() == fields@.len(),
                        forall|k: int|
                            0 <= k < fields@.len() ==> #[trigger] fs[k] == (
                                fields@[k].0@,
                                jv(fields@[k].1),
                            ),
                        field_index(fs, key@, 0) == field_index(fs, key@, i as int),
                    decreases fields@.len() - i,
                {
                    if crate::text::str_eq(fields[i].0.as_str(), key) {
                        return Some(&fields[i].1);
                    }
                    i += 1;
                }
                None
            },
            _ => None,
        }
    }

    /// This value as a non-negative integer.
    pub fn as_u64(&self) -> (r: Option<u64>)
        ensures
            r == js_u64(Some(jv(*self))),
    {
        match self {
            JsonValue::UInt(n) => Some(*n),
            _ => None,
        }
    }

    /// This value as a string.
    pub fn as_str(&self) -> (r: Option<&str>)
        ensures
            match r {
                Some(s) => js_str(Some(jv(*self))) == Some(s@),
                None => js_str(Some(jv(*self))) is None,
            },
    {
        match self {
            JsonValue::Str(s) => Some(s.as_str()),
            _ => None,
        }
    }

    /// This value as a boolean.
    pub fn as_bool(&self) -> (r: Option<bool>)
        ensures
            r == js_bool(Some(jv(*self))),
    {
        match self {
            JsonValue::Bool(b) => Some(*b),
            _ => None,
        }
    }

    /// The fields of this value, if it is an object.
    pub fn as_object(&self) -> (r: Option<&Vec<(String, JsonValue)>>)
        ensures
            match r {
                Some(f) => jv(*self) == Json::Object(jv_fields(f@)),
                None => !(jv(*self) is Object),
            },
    {
        match self {
            JsonValue::Object(f) => Some(f),
            _ => None,
        }
    }

    /// The items of this value, if it is an array.
    pub fn as_array(&self) -> (r: Option<&Vec<JsonValue>>)
        ensures
            match r {
                Some(a) => js_array(Some(jv(*self))) == Some(jv_items(a@)),
                None => js_array(Some(jv(*self))) is None,
            },
    {
        match self {
            JsonValue::Array(a) => Some(a),
            _ => None,
        }
    }
}

/// The member `key` of `v` as a non-negative integer.
pub fn get_u64(v: &JsonValue, key: &str) -> (r: Option<u64>)
    ensures
        r == js_u64(js_get(jv(*v), key@)),
{
    match v.get(key) {
        Some(x) => x.as_u64(),
        None => None,
    }
}

/// The member `key` of `v` as a string.
pub fn get_str<'a>(v: &'a JsonValue, key: &str) -> (r: Option<&'a str>)
    ensures
        match r {
            Some(s) => js_str(js_get(jv(*v), key@)) == Some(s@),
            None => js_str(js_get(jv(*v), key@)) is None,
        },
{
    match v.get(key) {
        Some(x) => x.as_str(),
        None => None,
    }
}

/// The member `key` of `v` as a boolean.
pub fn get_bool(v: &JsonValue, key: &str) -> (r: Option<bool>)
    ensures
        r == js_bool(js_get(jv(*v), key@)),
{
    match v.get(key) {
        Some(x) => x.as_bool(),
        None => None,
    }
}

/// An object with the given fields, in order.
pub fn obj(fields: Vec<(String, JsonValue)>) -> (v: JsonValue)
    ensures
        jv(v) == Json::Object(jv_fields(fields@)),
{
    JsonValue::Object(fields)
}

/// An object with one field.
pub fn obj1(k1: &str, v1: JsonValue) -> (v: JsonValue)
    ensures
        jv(v) == Json::Object(seq![(k1@, jv(v1))]),
{
    let fields = vec![(k1.to_owned(), v1)];
    proof {
        lemma_jv_fields(fields@);
        assert(jv_fields(fields@) =~= seq![(k1@, jv(v1))]);
    }
    JsonValue::Object(fields)
}

/// An object with two fields.
pub fn obj2(k1: &str, v1: JsonValue, k2: &str, v2: JsonValue) -> (v: JsonValue)
    ensures
        jv(v) == Json::Object(seq![(k1@, jv(v1)), (k2@, jv(v2))]),
{
    let fields = vec![(k1.to_owned(), v1), (k2.to_owned(), v2)];
    proof {
        lemma_jv_fields(fields@);
        assert(jv_fields(fields@) =~= seq![(k1@, jv(v1)), (k2@, jv(v2))]);
    }
    JsonValue::Object(fields)
}

/// An object with three fields.
pub fn obj3(k1: &str, v1: JsonValue, k2: &str, v2: JsonValue, k3: &str, v3: JsonValue) -> (v:
    JsonValue)
    ensures
        jv(v) == Json::Object(seq![(k1@, jv(v1)), (k2@, jv(v2)), (k3@, jv(v3))]),
{
    let fields = vec![(k1.to_owned(), v1), (k2.to_owned(), v2), (k3.to_owned(), v3)];
    proof {
        lemma_jv_fields(fields@);
        assert(jv_fields(fields@) =~= seq![(k1@, jv(v1)), (k2@, jv(v2)), (k3@, jv(v3))]);
    }
    JsonValue::Object(fields)
}

/// An object with four fields.
pub fn obj4(
    k1: &str,
    v1: JsonValue,
    k2: &str,
    v2: JsonValue,
    k3: &str,
    v3: JsonValue,
    k4: &str,
    v4: JsonValue,
) -> (v: JsonValue)
    ensures
        jv(v) == Json::Object(seq![(k1@, jv(v1)), (k2@, jv(v2)), (k3@, jv(v3)), (k4@, jv(v4))]),
{
    let fields = vec![
        (k1.to_owned(), v1),
        (k2.to_owned(), v2),
        (k3.to_owned(), v3),
        (k4.to_owned(), v4),
    ];
    proof {
        lemma_jv_fields(fields@);
        assert(jv_fields(fields@) =~= seq![
            (k1@, jv(v1)),
            (k2@, jv(v2)),
            (k3@, jv(v3)),
            (k4@, jv(v4)),
        ]);
    }
    JsonValue::Object(fields)
}

/// An object with five fields.
pub fn obj5(
    k1: &str,
    v1: JsonValue,
    k2: &str,
    v2: JsonValue,
    k3: &str,
    v3: JsonValue,
    k4: &str,
    v4: JsonValue,
    k5: &str,
    v5: JsonValue,
) -> (v: JsonValue)
    ensures
        jv(v) == Json::Object(
            seq![(k1@, jv(v1)), (k2@, jv(v2)), (k3@, jv(v3)), (k4@, jv(v4)), (k5@, jv(v5))],
        ),
{
    let fields = vec![
        (k1.to_owned(), v1),
        (k2.to_owned(), v2),
        (k3.to_owned(), v3),
        (k4.to_owned(), v4),
        (k5.to_owned(), v5),
    ];
    proof {
        lemma_jv_fields(fields@);
        assert(jv_fields(fields@) =~= seq![
            (k1@, jv(v1)),
            (k2@, jv(v2)),
            (k3@, jv(v3)),
            (k4@, jv(v4)),
            (k5@, jv(v5)),
        ]);
    }
    JsonValue::Object(fields)
}

/// An array of the given items.
pub fn arr(items: Vec<JsonValue>) -> (v: JsonValue)
    ensures
        jv(v) == Json::Array(jv_items(items@)),
{
    JsonValue::Array(items)
}

/// An array with one item.
pub fn arr1(x: JsonValue) -> (v: JsonValue)
    ensures
        jv(v) == Json::Array(seq![jv(x)]),
{
    let items = vec![x];
    proof {
        lemma_jv_items(items@);
        assert(jv_items(items@) =~= seq![jv(x)]);
    }
    JsonValue::Array(items)
}

/// An empty array.
pub fn arr0() -> (v: JsonValue)
    ensures
        jv(v) == Json::Array(seq![]),
{
    let items: Vec<JsonValue> = Vec::new();
    proof {
        lemma_jv_items(items@);
        assert(jv_items(items@) =~= Seq::<Json>::empty());
    }
    JsonValue::Array(items)
}

/// An empty object.
pub fn obj0() -> (v: JsonValue)
    ensures
        jv(v) == Json::Object(seq![]),
{
    let fields: Vec<(String, JsonValue)> = Vec::new();
    proof {
        lemma_jv_fields(fields@);
        assert(jv_fields(fields@) =~= Seq::<(Seq<char>, Json)>::empty());
    }
    JsonValue::Object(fields)
}

/// The value of a JSON integer.
pub open spec fn int_json(n: int) -> Json {
    if n >= 0 {
        Json::UInt(n as u64)
    } else {
        Json::NegInt(n as i64)
    }
}

/// A signed integer as a document.
pub fn jint(n: i64) -> (v: JsonValue)
    ensures
        jv(v) == int_json(n as int),
{
    if n >= 0 {
        JsonValue::UInt(n as u64)
    } else {
        JsonValue::NegInt(n)
    }
}

impl JsonValue {
    /// A copy of this document.
    #[verifier::loop_isolation(false)]
    pub fn deep_copy(&self) -> (r: JsonValue)
        ensures
            jv(r) == jv(*self),
        decreases self,
    {
        match self {
            JsonValue::Null => JsonValue::Null,
            JsonValue::Bool(b) => JsonValue::Bool(*b),
            JsonValue::UInt(n) => JsonValue::UInt(*n),
            JsonValue::NegInt(n) => JsonValue::NegInt(*n),
            JsonValue::Float(t) => JsonValue::Float(t.clone()),
            JsonValue::Str(s) => JsonValue::Str(s.clone()),
            JsonValue::Array(items) => {
                let mut out: Vec<JsonValue> = Vec::new();
                let mut i: usize = 0;
                while i < items.len()
                    invariant
                        i <= items@.len(),
                        out@.len() == i,
                        forall|k: int| 0 <= k < i ==> #[trigger] jv(out@[k]) == jv(items@[k]),
                    decreases items@.len() - i,
                {
                    proof {
                        assert(decreases_to!(*self => *items));
                        assert(decreases_to!(*items => items@));
                        assert(decreases_to!(items@ => items@[i as int]));
                    }
                    out.push(items[i].deep_copy());
                    i += 1;
                }
                proof {
                    lemma_jv_items(out@);
                    lemma_jv_items(items@);
                    assert(jv_items(out@) =~= jv_items(items@));
                }
                JsonValue::Array(out)
            },
            JsonValue::Object(fields) => {
                let mut out: Vec<(String, JsonValue)> = Vec::new();
                let mut i: usize = 0;
                while i < fields.len()
                    invariant
                        i <= fields@.len(),
                        out@.len() == i,
                        forall|k: int|
                            0 <= k < i ==> #[trigger] out@[k].0@ == fields@[k].0@ && jv(out@[k].1)
                                == jv(fields@[k].1),
                    decreases fields@.len() - i,
                {
                    proof {
                        assert(decreases_to!(*self => *fields));
                        assert(decreases_to!(*fields => fields@));
                        assert(decreases_to!(fields@ => fields@[i as int]));
                        assert(decreases_to!(fields@[i as int] => fields@[i as int].1));
                    }
                    out.push((fields[i].0.clone(), fields[i].1.deep_copy()));
                    i += 1;
                }
                proof {
                    lemma_jv_fields(out@);
                    lemma_jv_fields(fields@);
                    assert(jv_fields(out@) =~= jv_fields(fields@));
                }
                JsonValue::Object(out)
            },
        }
    }
}

/// The fields named `keys` with the values `vals`, in order.
pub open spec fn zip_fields(keys: Seq<&str>, vals: Seq<JsonValue>) -> Seq<(Seq<char>, Json)> {
    Seq::new(keys.len(), |i: int| (keys[i]@, jv(vals[i])))
}

/// An object with the fields named `keys` and the values `vals`, in order.
pub fn objn(keys: &[&str], vals: Vec<JsonValue>) -> (v: JsonValue)
    requires
        keys@.len() == vals@.len(),
    ensures
        jv(v) == Json::Object(zip_fields(keys@, vals@)),
{
    let ghost vs = vals@;
    let mut fields: Vec<(String, JsonValue)> = Vec::new();
    let mut vals = vals;
    let mut rest: Vec<JsonValue> = Vec::new();
    // Take the values from the back, then put them in order.
    while vals.len() > 0
        invariant
            vals@.len() + rest@.len() == vs.len(),
            vals@ == vs.take(vals@.len() as int),
            forall|k: int| 0 <= k < rest@.len() ==> #[trigger] rest@[k] == vs[vs.len() - 1 - k],
        decreases vals@.len(),
    {
        let x = vals.pop().unwrap();
        proof {
            assert(vals@ =~= vs.take(vals@.len() as int));
        }
        rest.push(x);
    }
    let mut i: usize = 0;
    while i < keys.len()
        invariant
            i <= keys@.len(),
            keys@.len() == vs.len(),
            rest@.len() + i == vs.len(),
            forall|k: int| 0 <= k < rest@.len() ==> #[trigger] rest@[k] == vs[vs.len() - 1 - k],
            fields@.len() == i,
            forall|k: int|
                0 <= k < i ==> #[trigger] fields@[k].0@ == keys@[k]@ && fields@[k].1 == vs[k],
        decreases keys@.len() - i,
    {
        let ghost r0 = rest@;
        let x = rest.pop().unwrap();
        proof {
            assert(x == r0[r0.len() - 1]);
            assert(x == vs[i as int]);
        }
        fields.push((keys[i].to_owned(), x));
        i += 1;
    }
    proof {
        lemma_jv_fields(fields@);
        assert(jv_fields(fields@) =~= zip_fields(keys@, vs));
    }
    JsonValue::Object(fields)
}

} // verus!
