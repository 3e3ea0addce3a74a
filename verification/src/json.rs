//! A JSON value held as plain data, with object keys kept sorted and unique (the layout of
//! a `serde_json::Map` without `preserve_order`).

use vstd::prelude::*;
use crate::text::{lemma_seq_lt_asym, lemma_seq_lt_irrefl, lemma_seq_lt_total, lemma_seq_lt_trans, owned, seq_lt, str_eq, str_lt};
use std::hash::{Hash, Hasher};

verus! {

broadcast use vstd::std_specs::vec::group_vec_axioms;

#[verifier::external_type_specification]
#[verifier::external_body]
pub struct ExSerdeValue(serde_json::Value);

#[verifier::external_type_specification]
#[verifier::external_body]
pub struct ExSerdeError(serde_json::Error);

/// A JSON number as serde_json keeps it: a non-negative integer, a negative integer, or a
/// finite float, the float held by its decimal text. The float's text is not checked when a
/// value is built by hand: one that serde_json does not read as a number is written as
/// `null`. Values read by [`parse_text`] always hold a number's text.
#[derive(Debug, PartialEq, Clone)]
pub enum JsonNumber {
    PosInt(u64),
    NegInt(i64),
    Float(String),
}

#[derive(Debug, PartialEq)]
pub enum Json {
    Null,
    Bool(bool),
    Number(JsonNumber),
    Str(String),
    Array(Vec<Json>),
    Object(Vec<(String, Json)>),
}

pub enum NumV {
    PosInt(u64),
    NegInt(i64),
    Float(Seq<char>),
}

/// The mathematical value of a [`Json`].
pub enum JsonV {
    Null,
    Bool(bool),
    Number(NumV),
    Str(Seq<char>),
    Array(Seq<JsonV>),
    Object(Seq<(Seq<char>, JsonV)>),
}

impl JsonNumber {
    pub open spec fn view(&self) -> NumV {
        match self {
            JsonNumber::PosInt(u) => NumV::PosInt(*u),
            JsonNumber::NegInt(i) => NumV::NegInt(*i),
            JsonNumber::Float(s) => NumV::Float(s@),
        }
    }

    pub fn dup(&self) -> (r: JsonNumber)
        ensures
            r.view() == self.view(),
    {
        match self {
            JsonNumber::PosInt(u) => JsonNumber::PosInt(*u),
            JsonNumber::NegInt(i) => JsonNumber::NegInt(*i),
            JsonNumber::Float(s) => JsonNumber::Float(s.clone()),
        }
    }
}

impl Json {
    pub open spec fn view(&self) -> JsonV
        decreases self, 0nat,
    {
        match self {
            Json::Null => JsonV::Null,
            Json::Bool(b) => JsonV::Bool(*b),
            Json::Number(n) => JsonV::Number(n.view()),
            Json::Str(s) => JsonV::Str(s@),
            Json::Array(v) => JsonV::Array(array_view(v@)),
            Json::Object(v) => JsonV::Object(object_view(v@)),
        }
    }
}

pub open spec fn array_view(v: Seq<Json>) -> Seq<JsonV>
    decreases v, 1nat,
{
    Seq::new(v.len(), |i: int| if 0 <= i < v.len() { v[i].view() } else { JsonV::Null })
}

pub open spec fn object_view(v: Seq<(String, Json)>) -> Seq<(Seq<char>, JsonV)>
    decreases v, 1nat,
{
    Seq::new(
        v.len(),
        |i: int|
            if 0 <= i < v.len() {
                (v[i].0@, v[i].1.view())
            } else {
                (Seq::<char>::empty(), JsonV::Null)
            },
    )
}

pub proof fn lemma_view_parts(j: Json)
    ensures
        j matches Json::Array(v) ==> j.view() == JsonV::Array(array_view(v@)),
        j matches Json::Object(v) ==> j.view() == JsonV::Object(object_view(v@)),
{
}

/// Object keys strictly increasing.
pub open spec fn keys_sorted(fields: Seq<(Seq<char>, JsonV)>) -> bool {
    forall|i: int, j: int| 0 <= i < j < fields.len() ==> seq_lt(#[trigger] fields[i].0, #[trigger] fields[j].0)
}

/// The value stored under `key` among `fields` (the first match).
pub open spec fn fields_get(fields: Seq<(Seq<char>, JsonV)>, key: Seq<char>) -> Option<JsonV>
    decreases fields.len(),
{
    if fields.len() == 0 {
        None
    } else if fields[0].0 == key {
        Some(fields[0].1)
    } else {
        fields_get(fields.drop_first(), key)
    }
}

/// `fields` with `key` set to `value`: replaced in place when present, otherwise inserted
/// where the key order puts it.
pub open spec fn fields_insert(fields: Seq<(Seq<char>, JsonV)>, key: Seq<char>, value: JsonV) -> Seq<(Seq<char>, JsonV)>
    decreases fields.len(),
{
    if fields.len() == 0 {
        seq![(key, value)]
    } else if fields[0].0 == key {
        fields.update(0, (key, value))
    } else if seq_lt(key, fields[0].0) {
        seq![(key, value)] + fields
    } else {
        seq![fields[0]] + fields_insert(fields.drop_first(), key, value)
    }
}

impl JsonV {
    /// `Value::get(key)`: the field of an object, `None` for anything else.
    pub open spec fn get(self, key: Seq<char>) -> Option<JsonV> {
        match self {
            JsonV::Object(fields) => fields_get(fields, key),
            _ => None,
        }
    }

    pub open spec fn as_str(self) -> Option<Seq<char>> {
        match self {
            JsonV::Str(s) => Some(s),
            _ => None,
        }
    }

    pub open spec fn as_u64(self) -> Option<u64> {
        match self {
            JsonV::Number(NumV::PosInt(u)) => Some(u),
            _ => None,
        }
    }

    pub open spec fn as_bool(self) -> Option<bool> {
        match self {
            JsonV::Bool(b) => Some(b),
            _ => None,
        }
    }

    pub open spec fn as_array(self) -> Option<Seq<JsonV>> {
        match self {
            JsonV::Array(a) => Some(a),
            _ => None,
        }
    }

    pub open spec fn is_object(self) -> bool {
        self is Object
    }

    /// Sets a field of an object (other values are left as they are).
    pub open spec fn with(self, key: Seq<char>, value: JsonV) -> JsonV {
        match self {
            JsonV::Object(fields) => JsonV::Object(fields_insert(fields, key, value)),
            _ => self,
        }
    }

    /// Every object inside has sorted, unique keys.
    pub open spec fn wf(self) -> bool
        decreases self,
    {
        match self {
            JsonV::Array(a) => forall|i: int| 0 <= i < a.len() ==> (#[trigger] a[i]).wf(),
            JsonV::Object(f) => keys_sorted(f) && forall|i: int|
                0 <= i < f.len() ==> (#[trigger] f[i]).1.wf(),
            _ => true,
        }
    }
}

pub open spec fn empty_object() -> JsonV {
    JsonV::Object(Seq::empty())
}

/// An object built by setting `pairs` in order, starting from the empty object.
pub open spec fn object_of(pairs: Seq<(Seq<char>, JsonV)>) -> JsonV
    decreases pairs.len(),
{
    if pairs.len() == 0 {
        empty_object()
    } else {
        object_of(pairs.drop_last()).with(pairs.last().0, pairs.last().1)
    }
}

proof fn lemma_fields_get_insert(fields: Seq<(Seq<char>, JsonV)>, key: Seq<char>, value: JsonV, other: Seq<char>)
    ensures
        fields_get(fields_insert(fields, key, value), key) == Some(value),
        other != key ==> fields_get(fields_insert(fields, key, value), other) == fields_get(fields, other),
    decreases fields.len(),
{
    let ins = fields_insert(fields, key, value);
    if fields.len() == 0 {
        assert(ins.drop_first() =~= Seq::<(Seq<char>, JsonV)>::empty());
        assert(fields_get(ins.drop_first(), other) == None::<JsonV>);
    } else if fields[0].0 == key {
        assert(ins.drop_first() =~= fields.drop_first());
    } else if seq_lt(key, fields[0].0) {
        assert(ins.drop_first() =~= fields);
    } else {
        lemma_fields_get_insert(fields.drop_first(), key, value, other);
        assert(ins.drop_first() =~= fields_insert(fields.drop_first(), key, value));
    }
}

/// Reading a field of an object gives back what was last set under that key, and setting a
/// field leaves every other key as it was.
pub proof fn lemma_get_with(o: JsonV, key: Seq<char>, value: JsonV, other: Seq<char>)
    requires
        o is Object,
    ensures
        o.with(key, value).get(key) == Some(value),
        other != key ==> o.with(key, value).get(other) == o.get(other),
{
    lemma_fields_get_insert(o->Object_0, key, value, other);
}

proof fn lemma_fields_insert_at(
    fields: Seq<(Seq<char>, JsonV)>,
    key: Seq<char>,
    value: JsonV,
    p: int,
)
    requires
        keys_sorted(fields),
        0 <= p <= fields.len(),
        forall|i: int| 0 <= i < p ==> seq_lt(#[trigger] fields[i].0, key),
        p < fields.len() ==> !seq_lt(fields[p].0, key),
    ensures
        p < fields.len() && fields[p].0 == key ==> fields_insert(fields, key, value) == fields.update(p, (key, value)),
        !(p < fields.len() && fields[p].0 == key) ==> fields_insert(fields, key, value) == fields.insert(p, (key, value)),
        keys_sorted(fields_insert(fields, key, value)),
    decreases p,
{
    if p == 0 {
        if fields.len() > 0 && fields[0].0 != key {
            lemma_seq_lt_total(fields[0].0, key);
            assert(seq_lt(key, fields[0].0));
            assert(seq![(key, value)] + fields =~= fields.insert(0, (key, value)));
            let r = fields.insert(0, (key, value));
            assert forall|i: int, j: int| 0 <= i < j < r.len() implies seq_lt(#[trigger] r[i].0, #[trigger] r[j].0) by {
                if i == 0 && j > 1 {
                    lemma_seq_lt_trans(key, fields[0].0, fields[j - 1].0);
                }
            }
        } else if fields.len() == 0 {
            assert(seq![(key, value)] =~= fields.insert(0, (key, value)));
        } else {
            let r = fields.update(0, (key, value));
            assert(keys_sorted(r)) by {
                assert forall|i: int, j: int| 0 <= i < j < r.len() implies seq_lt(#[trigger] r[i].0, #[trigger] r[j].0) by {
                    assert(r[i].0 == fields[i].0);
                }
            }
        }
    } else {
        let rest = fields.drop_first();
        assert(keys_sorted(rest));
        assert forall|i: int| 0 <= i < p - 1 implies seq_lt(#[trigger] rest[i].0, key) by {
            assert(rest[i] == fields[i + 1]);
        }
        lemma_fields_insert_at(rest, key, value, p - 1);
        assert(fields[0].0 != key) by {
            lemma_seq_lt_irrefl(key);
        }
        assert(!seq_lt(key, fields[0].0)) by {
            lemma_seq_lt_asym(fields[0].0, key);
        }
        let ins = fields_insert(rest, key, value);
        assert(fields_insert(fields, key, value) == seq![fields[0]] + ins);
        if p < fields.len() && fields[p].0 == key {
            assert(seq![fields[0]] + rest.update(p - 1, (key, value)) =~= fields.update(p, (key, value)));
        } else {
            assert(seq![fields[0]] + rest.insert(p - 1, (key, value)) =~= fields.insert(p, (key, value)));
        }
        let r = seq![fields[0]] + ins;
        assert forall|i: int, j: int| 0 <= i < j < r.len() implies seq_lt(#[trigger] r[i].0, #[trigger] r[j].0) by {
            if i == 0 {
                assert(r[j] == ins[j - 1]);
                if p < fields.len() && fields[p].0 == key {
                    assert(ins == rest.update(p - 1, (key, value)));
                    if j - 1 == p - 1 {
                        assert(seq_lt(fields[0].0, key));
                    } else {
                        assert(ins[j - 1] == rest[j - 1]);
                        assert(rest[j - 1] == fields[j]);
                    }
                } else {
                    assert(ins == rest.insert(p - 1, (key, value)));
                    if j - 1 == p - 1 {
                        assert(seq_lt(fields[0].0, key));
                    } else if j - 1 < p - 1 {
                        assert(ins[j - 1] == rest[j - 1]);
                        assert(rest[j - 1] == fields[j]);
                    } else {
                        assert(ins[j - 1] == rest[j - 2]);
                        assert(rest[j - 2] == fields[j - 1]);
                    }
                }
            } else {
                assert(r[i] == ins[i - 1]);
                assert(r[j] == ins[j - 1]);
            }
        }
    }
}

impl Json {
    pub fn dup(&self) -> (r: Json)
        ensures
            r.view() == self.view(),
    {
        json_dup(self)
    }
}

impl Clone for Json {
    fn clone(&self) -> (r: Json)
        ensures
            r.view() == self.view(),
    {
        json_dup(self)
    }
}

pub fn json_dup(j: &Json) -> (r: Json)
    ensures
        r.view() == j.view(),
    decreases j, 1nat,
{
    proof {
        lemma_view_parts(*j);
    }
    match j {
        Json::Null => Json::Null,
        Json::Bool(b) => Json::Bool(*b),
        Json::Number(n) => Json::Number(n.dup()),
        Json::Str(s) => Json::Str(s.clone()),
        Json::Array(v) => {
            let out = dup_array(v);
            let r = Json::Array(out);
            proof {
                lemma_view_parts(r);
            }
            r
        },
        Json::Object(v) => {
            let out = dup_fields(v);
            let r = Json::Object(out);
            proof {
                lemma_view_parts(r);
            }
            r
        },
    }
}

pub fn dup_array(v: &Vec<Json>) -> (r: Vec<Json>)
    ensures
        array_view(r@) == array_view(v@),
    decreases v, 0nat,
{
    let mut out: Vec<Json> = Vec::new();
    let mut i: usize = 0;
    while i < v.len()
        invariant
            i <= v.len(),
            out.len() == i,
            forall|k: int| 0 <= k < i ==> (#[trigger] out@[k]).view() == v@[k].view(),
        decreases v.len() - i,
    {
        proof {
            assert(decreases_to!(*v => v[i as int]));
        }
        out.push(json_dup(&v[i]));
        i += 1;
    }
    assert(array_view(out@) =~= array_view(v@));
    out
}

pub fn dup_fields(v: &Vec<(String, Json)>) -> (r: Vec<(String, Json)>)
    ensures
        object_view(r@) == object_view(v@),
    decreases v, 0nat,
{
    let mut out: Vec<(String, Json)> = Vec::new();
    let mut i: usize = 0;
    while i < v.len()
        invariant
            i <= v.len(),
            out.len() == i,
            forall|k: int| 0 <= k < i ==> (#[trigger] out@[k]).0@ == v@[k].0@ && out@[k].1.view() == v@[k].1.view(),
        decreases v.len() - i,
    {
        proof {
            assert(decreases_to!(*v => v[i as int]));
        }
        out.push((v[i].0.clone(), json_dup(&v[i].1)));
        i += 1;
    }
    assert(object_view(out@) =~= object_view(v@));
    out
}

impl Json {
    pub fn str_of(s: &str) -> (r: Json)
        ensures
            r.view() == JsonV::Str(s@),
    {
        Json::Str(owned(s))
    }

    pub fn new_object() -> (r: Json)
        ensures
            r.view() == empty_object(),
    {
        let r = Json::Object(Vec::new());
        proof {
            lemma_view_parts(r);
            assert(object_view(Seq::empty()) =~= Seq::empty());
        }
        r
    }

    /// `Value::get(key)`.
    pub fn get(&self, key: &str) -> (r: Option<&Json>)
        ensures
            match r {
                Some(j) => self.view().get(key@) == Some(j.view()),
                None => self.view().get(key@) is None,
            },
    {
        proof {
            lemma_view_parts(*self);
        }
        match self {
            Json::Object(fields) => fields_lookup(fields, key),
            _ => None,
        }
    }

    pub fn as_str(&self) -> (r: Option<&str>)
        ensures
            match r {
                Some(s) => self.view().as_str() == Some(s@),
                None => self.view().as_str() is None,
            },
    {
        match self {
            Json::Str(s) => Some(s.as_str()),
            _ => None,
        }
    }

    pub fn as_u64(&self) -> (r: Option<u64>)
        ensures
            r == self.view().as_u64(),
    {
        match self {
            Json::Number(JsonNumber::PosInt(u)) => Some(*u),
            _ => None,
        }
    }

    pub fn as_bool(&self) -> (r: Option<bool>)
        ensures
            r == self.view().as_bool(),
    {
        match self {
            Json::Bool(b) => Some(*b),
            _ => None,
        }
    }

    pub fn as_array(&self) -> (r: Option<&Vec<Json>>)
        ensures
            match r {
                Some(a) => self.view().as_array() == Some(array_view(a@)),
                None => self.view().as_array() is None,
            },
    {
        proof {
            lemma_view_parts(*self);
        }
        match self {
            Json::Array(a) => Some(a),
            _ => None,
        }
    }

    pub fn is_object(&self) -> (r: bool)
        ensures
            r == self.view().is_object(),
    {
        match self {
            Json::Object(_) => true,
            _ => false,
        }
    }

    pub fn is_null(&self) -> (r: bool)
        ensures
            r == (self.view() is Null),
    {
        match self {
            Json::Null => true,
            _ => false,
        }
    }

    /// Sets `key` to `value` in an object (`map.insert`); other values stay as they are.
    pub fn set(&mut self, key: &str, value: Json)
        requires
            old(self).view() matches JsonV::Object(f) ==> keys_sorted(f),
        ensures
            final(self).view() == old(self).view().with(key@, value.view()),
            final(self).view() matches JsonV::Object(f) ==> keys_sorted(f),
    {
        proof {
            lemma_view_parts(*self);
        }
        match self {
            Json::Object(fields) => {
                fields_set(fields, key, value);
                proof {
                    lemma_view_parts(*self);
                }
            },
            _ => {},
        }
    }
}

/// Sets `key` to `value` among sorted fields (`BTreeMap::insert`).
pub fn fields_set(fields: &mut Vec<(String, Json)>, key: &str, value: Json)
    requires
        keys_sorted(object_view(old(fields)@)),
    ensures
        object_view(final(fields)@) == fields_insert(object_view(old(fields)@), key@, value.view()),
        keys_sorted(object_view(final(fields)@)),
{
    let ghost f0 = object_view(fields@);
    let mut p: usize = 0;
    while p < fields.len() && str_lt(fields[p].0.as_str(), key)
        invariant
            p <= fields.len(),
            f0 == object_view(fields@),
            forall|i: int| 0 <= i < p ==> seq_lt(#[trigger] f0[i].0, key@),
        decreases fields.len() - p,
    {
        p += 1;
    }
    proof {
        lemma_fields_insert_at(f0, key@, value.view(), p as int);
    }
    if p < fields.len() && str_eq(fields[p].0.as_str(), key) {
        fields.set(p, (owned(key), value));
        proof {
            assert(object_view(fields@) =~= f0.update(p as int, (key@, value.view())));
        }
    } else {
        fields.insert(p, (owned(key), value));
        proof {
            assert(object_view(fields@) =~= f0.insert(p as int, (key@, value.view())));
        }
    }
}

/// The value under `key` among fields (`BTreeMap::get`).
pub fn fields_lookup<'a>(fields: &'a Vec<(String, Json)>, key: &str) -> (r: Option<&'a Json>)
    ensures
        match r {
            Some(j) => fields_get(object_view(fields@), key@) == Some(j.view()),
            None => fields_get(object_view(fields@), key@) is None,
        },
{
    let ghost fv = object_view(fields@);
    assert(fv.subrange(0, fv.len() as int) =~= fv);
    let mut i: usize = 0;
    while i < fields.len()
        invariant
            i <= fields.len(),
            fv == object_view(fields@),
            fields_get(fv, key@) == fields_get(fv.subrange(i as int, fv.len() as int), key@),
        decreases fields.len() - i,
    {
        let ghost sub = fv.subrange(i as int, fv.len() as int);
        assert(sub[0] == fv[i as int]);
        if str_eq(fields[i].0.as_str(), key) {
            return Some(&fields[i].1);
        }
        assert(sub.drop_first() =~= fv.subrange(i + 1, fv.len() as int));
        i += 1;
    }
    None
}

/// Deep equality of two values (`==` on `serde_json::Value`).
pub fn json_eq(a: &Json, b: &Json) -> (r: bool)
    ensures
        r == (a.view() == b.view()),
    decreases a,
{
    proof {
        lemma_view_parts(*a);
        lemma_view_parts(*b);
    }
    match (a, b) {
        (Json::Null, Json::Null) => true,
        (Json::Bool(x), Json::Bool(y)) => *x == *y,
        (Json::Number(x), Json::Number(y)) => match (x, y) {
            (JsonNumber::PosInt(p), JsonNumber::PosInt(q)) => *p == *q,
            (JsonNumber::NegInt(p), JsonNumber::NegInt(q)) => *p == *q,
            (JsonNumber::Float(p), JsonNumber::Float(q)) => str_eq(p.as_str(), q.as_str()),
            _ => false,
        },
        (Json::Str(x), Json::Str(y)) => str_eq(x.as_str(), y.as_str()),
        (Json::Array(x), Json::Array(y)) => {
            if x.len() != y.len() {
                assert(array_view(x@).len() != array_view(y@).len());
                return false;
            }
            let mut i: usize = 0;
            while i < x.len()
                invariant
                    i <= x.len(),
                    x.len() == y.len(),
                    forall|k: int| 0 <= k < i ==> (#[trigger] x@[k]).view() == y@[k].view(),
                    *a == Json::Array(*x),
                    a.view() == JsonV::Array(array_view(x@)),
                    b.view() == JsonV::Array(array_view(y@)),
                decreases x.len() - i,
            {
                proof {
                    assert(decreases_to!(*a => x[i as int]));
                }
                if !json_eq(&x[i], &y[i]) {
                    assert(array_view(x@)[i as int] != array_view(y@)[i as int]);
                    return false;
                }
                i += 1;
            }
            assert(array_view(x@) =~= array_view(y@));
            true
        },
        (Json::Object(x), Json::Object(y)) => {
            if x.len() != y.len() {
                assert(object_view(x@).len() != object_view(y@).len());
                return false;
            }
            let mut i: usize = 0;
            while i < x.len()
                invariant
                    i <= x.len(),
                    x.len() == y.len(),
                    forall|k: int| 0 <= k < i ==> (#[trigger] x@[k]).0@ == y@[k].0@ && x@[k].1.view() == y@[k].1.view(),
                    *a == Json::Object(*x),
                    a.view() == JsonV::Object(object_view(x@)),
                    b.view() == JsonV::Object(object_view(y@)),
                decreases x.len() - i,
            {
                if !str_eq(x[i].0.as_str(), y[i].0.as_str()) {
                    assert(object_view(x@)[i as int] != object_view(y@)[i as int]);
                    return false;
                }
                proof {
                    assert(decreases_to!(*a => x[i as int].1));
                }
                if !json_eq(&x[i].1, &y[i].1) {
                    assert(object_view(x@)[i as int] != object_view(y@)[i as int]);
                    return false;
                }
                i += 1;
            }
            assert(object_view(x@) =~= object_view(y@));
            true
        },
        _ => false,
    }
}

/// The compact text that serde_json writes for a value (`Value::to_string`).
pub uninterp spec fn json_text(v: JsonV) -> Seq<char>;

/// The value that serde_json reads from a text (`serde_json::from_str::<Value>`), when the
/// text is valid JSON.
pub uninterp spec fn json_parse(text: Seq<char>) -> Option<JsonV>;

/// The 64-bit hash that std's `DefaultHasher::new()` gives a string.
pub uninterp spec fn text_hash(text: Seq<char>) -> u64;

/// Moves a number into serde_json's `Number` (`From<u64>`, `From<i64>`, and `str::parse` for
/// a float's text; a text that serde_json does not read as a number becomes `Null`).
/// Nothing is stated: it feeds [`to_text`], whose result is named.
#[verifier::external_body]
fn number_into_serde(n: &JsonNumber) -> serde_json::Value {
    match n {
        JsonNumber::PosInt(u) => serde_json::Value::from(*u),
        JsonNumber::NegInt(i) => serde_json::Value::from(*i),
        JsonNumber::Float(t) => t.parse::<serde_json::Number>().map(serde_json::Value::Number).unwrap_or(serde_json::Value::Null),
    }
}

/// Moves a value into a `serde_json::Value`, one variant for one. Nothing is stated: it
/// feeds [`to_text`], whose result is named.
#[verifier::external_body]
fn into_serde(v: &Json) -> serde_json::Value {
    match v {
        Json::Null => serde_json::Value::Null,
        Json::Bool(b) => serde_json::Value::Bool(*b),
        Json::Number(n) => number_into_serde(n),
        Json::Str(s) => serde_json::Value::String(s.clone()),
        Json::Array(a) => serde_json::Value::Array(a.iter().map(into_serde).collect()),
        Json::Object(f) => serde_json::Value::Object(f.iter().map(|(k, x)| (k.clone(), into_serde(x))).collect()),
    }
}

/// Moves a number held in a `serde_json::Value` into a [`JsonNumber`]: `as_u64`, else
/// `as_i64`, else the float's text. Nothing is stated: it feeds [`parse_text`], whose result
/// is named.
#[verifier::external_body]
fn number_from_serde(n: &serde_json::Value) -> JsonNumber {
    match (n.as_u64(), n.as_i64()) {
        (Some(u), _) => JsonNumber::PosInt(u),
        (None, Some(i)) => JsonNumber::NegInt(i),
        _ => JsonNumber::Float(n.to_string()),
    }
}

/// Moves a `serde_json::Value` into a [`Json`], one variant for one. Nothing is stated: it
/// feeds [`parse_text`], whose result is named.
#[verifier::external_body]
fn from_serde(v: serde_json::Value) -> Json {
    match v {
        serde_json::Value::Null => Json::Null,
        serde_json::Value::Bool(b) => Json::Bool(b),
        serde_json::Value::Number(_) => Json::Number(number_from_serde(&v)),
        serde_json::Value::String(s) => Json::Str(s),
        serde_json::Value::Array(a) => Json::Array(a.into_iter().map(from_serde).collect()),
        serde_json::Value::Object(m) => Json::Object(m.into_iter().map(|(k, x)| (k, from_serde(x))).collect()),
    }
}

/// serde_json's compact writer (`Value::to_string`), applied to the value after it is moved
/// into a `serde_json::Value` one variant for one. The contract names the text; it is a
/// function of the value alone.
#[verifier::external_body]
pub fn to_text(v: &Json) -> (r: String)
    ensures
        r@ == json_text(v.view()),
{
    into_serde(v).to_string()
}

/// `serde_json::from_str::<Value>`, the result moved into a [`Json`] one variant for one.
/// The contract names the parsed value; it succeeds exactly when the name is defined there.
#[verifier::external_body]
pub fn parse_text(s: &str) -> (r: Result<Json, serde_json::Error>)
    ensures
        r is Ok <==> json_parse(s@) is Some,
        r matches Ok(j) ==> json_parse(s@) == Some(j.view()),
{
    serde_json::from_str::<serde_json::Value>(s).map(from_serde)
}

/// std `DefaultHasher::new()` fed the string with `Hash::hash`, then `finish()`. The
/// hasher created by `new` is not seeded per process.
#[verifier::external_body]
pub fn hash_text(s: &str) -> (r: u64)
    ensures
        r == text_hash(s@),
{
    let mut hasher = std::collections::hash_map::DefaultHasher::new();
    s.hash(&mut hasher);
    hasher.finish()
}

/// The text under `key` of an object, when it is a string.
pub open spec fn str_at(v: JsonV, key: Seq<char>) -> Option<Seq<char>> {
    match v.get(key) {
        Some(JsonV::Str(s)) => Some(s),
        _ => None,
    }
}

/// The number under `key` of an object, when it is a non-negative integer.
pub open spec fn u64_at(v: JsonV, key: Seq<char>) -> Option<u64> {
    match v.get(key) {
        Some(x) => x.as_u64(),
        None => None,
    }
}

/// The value under `key`, `Null` when there is none.
pub open spec fn at_or_null(v: JsonV, key: Seq<char>) -> JsonV {
    match v.get(key) {
        Some(x) => x,
        None => JsonV::Null,
    }
}

impl Json {
    /// `value.get(key).and_then(Value::as_str)`.
    pub fn get_str(&self, key: &str) -> (r: Option<&str>)
        ensures
            match r {
                Some(s) => str_at(self.view(), key@) == Some(s@),
                None => str_at(self.view(), key@) is None,
            },
    {
        match self.get(key) {
            Some(v) => v.as_str(),
            None => None,
        }
    }

    /// `value.get(key).and_then(Value::as_u64)`.
    pub fn get_u64(&self, key: &str) -> (r: Option<u64>)
        ensures
            r == u64_at(self.view(), key@),
    {
        match self.get(key) {
            Some(v) => v.as_u64(),
            None => None,
        }
    }
}

/// Sets `key` to `value` among fields in any order: the first field holding the key is
/// replaced, or the pair goes before the first greater key (as `fields_insert` reads).
pub fn fields_put(fields: &mut Vec<(String, Json)>, key: &str, value: Json)
    ensures
        object_view(final(fields)@) == fields_insert(object_view(old(fields)@), key@, value.view()),
{
    let ghost f0 = object_view(fields@);
    let ghost v = value.view();
    let mut p: usize = 0;
    proof {
        assert(f0.subrange(0, 0) + f0.subrange(0, f0.len() as int) =~= f0);
    }
    while p < fields.len() && !str_eq(fields[p].0.as_str(), key) && !str_lt(key, fields[p].0.as_str())
        invariant
            p <= fields.len(),
            f0 == object_view(fields@),
            fields_insert(f0, key@, v) == f0.subrange(0, p as int) + fields_insert(f0.subrange(p as int, f0.len() as int), key@, v),
        decreases fields.len() - p,
    {
        proof {
            let rest = f0.subrange(p as int, f0.len() as int);
            assert(rest[0] == f0[p as int]);
            assert(rest.drop_first() =~= f0.subrange(p + 1, f0.len() as int));
            assert(fields_insert(rest, key@, v) == seq![rest[0]] + fields_insert(rest.drop_first(), key@, v));
            assert(f0.subrange(0, p as int) + (seq![f0[p as int]] + fields_insert(f0.subrange(p + 1, f0.len() as int), key@, v))
                =~= f0.subrange(0, p + 1) + fields_insert(f0.subrange(p + 1, f0.len() as int), key@, v));
        }
        p += 1;
    }
    let ghost rest = f0.subrange(p as int, f0.len() as int);
    if p < fields.len() && str_eq(fields[p].0.as_str(), key) {
        fields.set(p, (owned(key), value));
        proof {
            assert(rest[0] == f0[p as int]);
            assert(f0.subrange(0, p as int) + rest.update(0, (key@, v)) =~= f0.update(p as int, (key@, v)));
            assert(object_view(fields@) =~= f0.update(p as int, (key@, v)));
        }
    } else {
        fields.insert(p, (owned(key), value));
        proof {
            if p < f0.len() {
                assert(rest[0] == f0[p as int]);
                assert(f0.subrange(0, p as int) + (seq![(key@, v)] + rest) =~= f0.insert(p as int, (key@, v)));
            } else {
                assert(f0.subrange(0, p as int) + seq![(key@, v)] =~= f0.insert(p as int, (key@, v)));
            }
            assert(object_view(fields@) =~= f0.insert(p as int, (key@, v)));
        }
    }
}

impl Json {
    /// Sets a field of an object, whatever order its fields are in (other values are left
    /// as they are).
    pub fn put(&mut self, key: &str, value: Json)
        ensures
            final(self).view() == old(self).view().with(key@, value.view()),
    {
        proof {
            lemma_view_parts(*self);
        }
        match self {
            Json::Object(fields) => {
                fields_put(fields, key, value);
                proof {
                    lemma_view_parts(*self);
                }
            },
            _ => {},
        }
    }
}

} // verus!
