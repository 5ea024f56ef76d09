//! JSON values, and the replies to requests that carry them.

use crate::string_map::Duplicate;
use crate::text;
use crate::text::{str_eq, str_lt, Text};
use vstd::prelude::*;

verus! {

/// A JSON value.
#[derive(Debug, PartialEq, Eq)]
pub enum Json {
    Null,
    Bool(bool),
    Int(i64),
    /// A floating-point number, by a literal for it.
    Float(String),
    /// A number, by its JSON text.
    Number(String),
    Str(String),
    Array(Vec<Json>),
    /// The fields of an object, in the order of their keys.
    Object(Vec<(String, Json)>),
}

/// A [`Json`] as a mathematical value.
pub enum JsonView {
    Null,
    Bool(bool),
    Int(i64),
    Float(Text),
    Number(Text),
    Str(Text),
    Array(Seq<JsonView>),
    Object(Seq<(Text, JsonView)>),
}

/// The fields of an object.
pub type Fields = Seq<(Text, JsonView)>;

/// The mathematical value of a [`Json`].
pub open spec fn json_view(j: Json) -> JsonView
    decreases j,
{
    match j {
        Json::Null => JsonView::Null,
        Json::Bool(b) => JsonView::Bool(b),
        Json::Int(n) => JsonView::Int(n),
        Json::Float(s) => JsonView::Float(s@),
        Json::Number(s) => JsonView::Number(s@),
        Json::Str(s) => JsonView::Str(s@),
        Json::Array(v) => JsonView::Array(
            Seq::new(
                v@.len(),
                |i: int|
                    if 0 <= i < v@.len() {
                        json_view(v@[i])
                    } else {
                        JsonView::Null
                    },
            ),
        ),
        Json::Object(v) => JsonView::Object(
            Seq::new(
                v@.len(),
                |i: int|
                    if 0 <= i < v@.len() {
                        (v@[i].0@, json_view(v@[i].1))
                    } else {
                        (Seq::empty(), JsonView::Null)
                    },
            ),
        ),
    }
}

impl DeepView for Json {
    type V = JsonView;

    open spec fn deep_view(&self) -> JsonView {
        json_view(*self)
    }
}

/// An array holds the values of its elements.
pub proof fn lemma_array_view(v: Vec<Json>)
    ensures
        Json::Array(v).deep_view() == JsonView::Array(v.deep_view()),
{
    let s = json_view(Json::Array(v))->Array_0;
    assert(s =~= v.deep_view());
}

/// An object holds the values of its fields.
pub proof fn lemma_object_view(v: Vec<(String, Json)>)
    ensures
        Json::Object(v).deep_view() == JsonView::Object(v.deep_view()),
{
    let s = json_view(Json::Object(v))->Object_0;
    assert(s =~= v.deep_view());
}

impl Json {
    /// A value that is the same mathematical value.
    pub fn copy(&self) -> (r: Self)
        ensures
            r.deep_view() == self.deep_view(),
        decreases self,
    {
        match self {
            Json::Null => Json::Null,
            Json::Bool(b) => Json::Bool(*b),
            Json::Int(n) => Json::Int(*n),
            Json::Float(s) => Json::Float(s.clone()),
            Json::Number(s) => Json::Number(s.clone()),
            Json::Str(s) => Json::Str(s.clone()),
            Json::Array(v) => {
                let mut out: Vec<Json> = Vec::new();
                let mut i: usize = 0;
                while i < v.len()
                    invariant
                        i <= v@.len(),
                        decreases_to!(*self => v@),
                        out@.len() == i,
                        forall|k: int|
                            0 <= k < i ==> (#[trigger] out@[k]).deep_view() == v@[k].deep_view(),
                    decreases v@.len() - i,
                {
                    assert(decreases_to!(*self => v@[i as int]));
                    out.push(v[i].copy());
                    i = i + 1;
                }
                let ghost o = out@;
                let r = Json::Array(out);
                assert(r.deep_view()->Array_0 =~= self.deep_view()->Array_0);
                r
            },
            Json::Object(v) => {
                let mut out: Vec<(String, Json)> = Vec::new();
                let mut i: usize = 0;
                while i < v.len()
                    invariant
                        i <= v@.len(),
                        decreases_to!(*self => v@),
                        out@.len() == i,
                        forall|k: int|
                            0 <= k < i ==> (#[trigger] out@[k]).deep_view() == v@[k].deep_view(),
                    decreases v@.len() - i,
                {
                    assert(decreases_to!(*self => v@[i as int]));
                    assert(decreases_to!(*self => v@[i as int].1));
                    out.push((v[i].0.clone(), v[i].1.copy()));
                    i = i + 1;
                }
                let r = Json::Object(out);
                assert forall|k: int| 0 <= k < out@.len() implies #[trigger] r.deep_view()->Object_0[k]
                    == self.deep_view()->Object_0[k] by {
                    assert(out@[k].deep_view() == v@[k].deep_view());
                }
                assert(r.deep_view()->Object_0 =~= self.deep_view()->Object_0);
                r
            },
        }
    }
}

impl Duplicate for Json {
    fn duplicate(&self) -> (r: Self) {
        self.copy()
    }
}

// ---------------------------------------------------------------------------
// Comparing and reading
// ---------------------------------------------------------------------------

/// Whether two JSON values are the same.
pub fn json_eq(a: &Json, b: &Json) -> (r: bool)
    ensures
        r == (a.deep_view() == b.deep_view()),
    decreases a,
{
    match (a, b) {
        (Json::Null, Json::Null) => true,
        (Json::Bool(x), Json::Bool(y)) => *x == *y,
        (Json::Int(x), Json::Int(y)) => *x == *y,
        (Json::Float(x), Json::Float(y)) => str_eq(x.as_str(), y.as_str()),
        (Json::Number(x), Json::Number(y)) => str_eq(x.as_str(), y.as_str()),
        (Json::Str(x), Json::Str(y)) => str_eq(x.as_str(), y.as_str()),
        (Json::Array(x), Json::Array(y)) => {
            if x.len() != y.len() {
                assert(a.deep_view()->Array_0.len() != b.deep_view()->Array_0.len());
                return false;
            }
            let mut i: usize = 0;
            while i < x.len()
                invariant
                    i <= x@.len(),
                    x@.len() == y@.len(),
                    decreases_to!(*a => x@),
                    *a == Json::Array(*x),
                    *b == Json::Array(*y),
                    forall|k: int|
                        0 <= k < i ==> (#[trigger] x@[k]).deep_view() == y@[k].deep_view(),
                decreases x@.len() - i,
            {
                assert(decreases_to!(*a => x@[i as int]));
                if !json_eq(&x[i], &y[i]) {
                    assert(a.deep_view()->Array_0[i as int] != b.deep_view()->Array_0[i as int]);
                    return false;
                }
                i = i + 1;
            }
            assert(a.deep_view()->Array_0 =~= b.deep_view()->Array_0);
            true
        },
        (Json::Object(x), Json::Object(y)) => {
            if x.len() != y.len() {
                assert(a.deep_view()->Object_0.len() != b.deep_view()->Object_0.len());
                return false;
            }
            let mut i: usize = 0;
            while i < x.len()
                invariant
                    i <= x@.len(),
                    x@.len() == y@.len(),
                    decreases_to!(*a => x@),
                    *a == Json::Object(*x),
                    *b == Json::Object(*y),
                    forall|k: int|
                        0 <= k < i ==> a.deep_view()->Object_0[k] == b.deep_view()->Object_0[k],
                decreases x@.len() - i,
            {
                assert(decreases_to!(*a => x@[i as int]));
                assert(decreases_to!(*a => x@[i as int].1));
                assert(a.deep_view()->Object_0[i as int] == (
                    x@[i as int].0@,
                    x@[i as int].1.deep_view(),
                ));
                assert(b.deep_view()->Object_0[i as int] == (
                    y@[i as int].0@,
                    y@[i as int].1.deep_view(),
                ));
                if !str_eq(x[i].0.as_str(), y[i].0.as_str()) || !json_eq(&x[i].1, &y[i].1) {
                    return false;
                }
                i = i + 1;
            }
            assert(a.deep_view()->Object_0 =~= b.deep_view()->Object_0);
            true
        },
        _ => false,
    }
}

/// The value of the first field with the given key.
pub open spec fn field_of(fields: Fields, key: Text) -> Option<JsonView>
    decreases fields.len(),
{
    if fields.len() == 0 {
        None
    } else if fields[0].0 == key {
        Some(fields[0].1)
    } else {
        field_of(fields.skip(1), key)
    }
}

/// The value of a field, where `j` is an object that has it.
pub open spec fn get(j: JsonView, key: Text) -> Option<JsonView> {
    match j {
        JsonView::Object(fields) => field_of(fields, key),
        _ => None,
    }
}

/// The value of a field, and null where there is none.
pub open spec fn at(j: JsonView, key: Text) -> JsonView {
    match get(j, key) {
        Some(v) => v,
        None => JsonView::Null,
    }
}

/// The text of a string value.
pub open spec fn as_str(j: JsonView) -> Option<Text> {
    match j {
        JsonView::Str(s) => Some(s),
        _ => None,
    }
}

/// The elements of an array.
pub open spec fn as_array(j: JsonView) -> Option<Seq<JsonView>> {
    match j {
        JsonView::Array(v) => Some(v),
        _ => None,
    }
}

/// The text of a field, where it is a string.
pub open spec fn str_field(j: JsonView, key: Text) -> Option<Text> {
    match get(j, key) {
        Some(v) => as_str(v),
        None => None,
    }
}

/// The position of the first field with the given key.
pub fn find_field(fields: &Vec<(String, Json)>, key: &str) -> (r: Option<usize>)
    ensures
        match r {
            Some(i) => i < fields@.len() && field_of(fields.deep_view(), key@) == Some(
                fields@[i as int].1.deep_view(),
            ),
            None => field_of(fields.deep_view(), key@) is None,
        },
{
    let ghost fs = fields.deep_view();
    let mut i: usize = 0;
    assert(fs.skip(0) =~= fs);
    while i < fields.len()
        invariant
            i <= fields@.len(),
            fs == fields.deep_view(),
            field_of(fs, key@) == field_of(fs.skip(i as int), key@),
        decreases fields@.len() - i,
    {
        assert(fs[i as int] == fields@[i as int].deep_view());
        if str_eq(fields[i].0.as_str(), key) {
            return Some(i);
        }
        assert(fs.skip(i as int).skip(1) =~= fs.skip(i as int + 1));
        i = i + 1;
    }
    None
}

impl Json {
    /// The value of a field, where this is an object that has it.
    pub fn get(&self, key: &str) -> (r: Option<&Json>)
        ensures
            match r {
                Some(v) => get(self.deep_view(), key@) == Some(v.deep_view()),
                None => get(self.deep_view(), key@) is None,
            },
    {
        match self {
            Json::Object(fields) => {
                proof {
                    lemma_object_view(*fields);
                }
                match find_field(fields, key) {
                    Some(i) => Some(&fields[i].1),
                    None => None,
                }
            },
            _ => None,
        }
    }

    /// The text, where this is a string.
    pub fn as_str(&self) -> (r: Option<&String>)
        ensures
            match r {
                Some(s) => as_str(self.deep_view()) == Some(s@),
                None => as_str(self.deep_view()) is None,
            },
    {
        match self {
            Json::Str(s) => Some(s),
            _ => None,
        }
    }

    /// The elements, where this is an array.
    pub fn as_array(&self) -> (r: Option<&Vec<Json>>)
        ensures
            match r {
                Some(v) => as_array(self.deep_view()) == Some(v.deep_view()),
                None => as_array(self.deep_view()) is None,
            },
    {
        match self {
            Json::Array(v) => {
                proof {
                    lemma_array_view(*v);
                }
                Some(v)
            },
            _ => None,
        }
    }

    /// The text of a field, where this is an object with a string there.
    pub fn str_field(&self, key: &str) -> (r: Option<&String>)
        ensures
            match r {
                Some(s) => str_field(self.deep_view(), key@) == Some(s@),
                None => str_field(self.deep_view(), key@) is None,
            },
    {
        match self.get(key) {
            Some(v) => v.as_str(),
            None => None,
        }
    }
}

// ---------------------------------------------------------------------------
// Building
// ---------------------------------------------------------------------------

/// The fields with `key` set to `value`: in the place of the field that had the
/// key, else before the first field with a greater key.
pub open spec fn with_field(fields: Fields, key: Text, value: JsonView) -> Fields
    decreases fields.len(),
{
    if fields.len() == 0 {
        seq![(key, value)]
    } else if fields[0].0 == key {
        seq![(key, value)] + fields.skip(1)
    } else if text::text_lt(key, fields[0].0) {
        seq![(key, value)] + fields
    } else {
        seq![fields[0]] + with_field(fields.skip(1), key, value)
    }
}

/// A field that was set has its value, and every other field has the value that
/// it had.
pub proof fn lemma_with_field(fields: Fields, key: Text, value: JsonView, other: Text)
    ensures
        field_of(with_field(fields, key, value), key) == Some(value),
        other != key ==> field_of(with_field(fields, key, value), other) == field_of(fields, other),
    decreases fields.len(),
{
    let after = with_field(fields, key, value);
    if fields.len() == 0 {
        assert(after.skip(1) =~= fields);
    } else if fields[0].0 == key {
        assert(after.skip(1) =~= fields.skip(1));
    } else if text::text_lt(key, fields[0].0) {
        assert(after.skip(1) =~= fields);
    } else {
        lemma_with_field(fields.skip(1), key, value, other);
        assert(after.skip(1) =~= with_field(fields.skip(1), key, value));
    }
}

/// Whether fields are in the order of their keys, each key once.
pub open spec fn sorted_fields(fields: Fields) -> bool {
    forall|i: int, j: int|
        0 <= i < j < fields.len() ==> text::text_lt(
            (#[trigger] fields[i]).0,
            (#[trigger] fields[j]).0,
        )
}

/// Setting a field keeps the order of the fields.
pub proof fn lemma_with_field_sorted(fields: Fields, key: Text, value: JsonView)
    requires
        sorted_fields(fields),
    ensures
        sorted_fields(with_field(fields, key, value)),
        forall|i: int|
            0 <= i < with_field(fields, key, value).len() ==> (#[trigger] with_field(
                fields,
                key,
                value,
            )[i]).0 == key || exists|j: int|
                0 <= j < fields.len() && (#[trigger] fields[j]).0 == with_field(
                    fields,
                    key,
                    value,
                )[i].0,
    decreases fields.len(),
{
    let after = with_field(fields, key, value);
    if fields.len() > 0 {
        let rest = fields.skip(1);
        assert(forall|j: int| 0 <= j < rest.len() ==> rest[j] == fields[j + 1]);
        if fields[0].0 == key {
            assert(after =~= fields.update(0, (key, value)));
            assert forall|i: int| 0 <= i < after.len() implies (#[trigger] after[i]).0 == key
                || exists|j: int| 0 <= j < fields.len() && (#[trigger] fields[j]).0 == after[i].0 by {
                assert(fields[i].0 == after[i].0);
            }
            assert forall|i: int, j: int| 0 <= i < j < after.len() implies text::text_lt(
                (#[trigger] after[i]).0,
                (#[trigger] after[j]).0,
            ) by {
                assert(after[i].0 == fields[i].0 && after[j].0 == fields[j].0);
            }
        } else if text::text_lt(key, fields[0].0) {
            assert forall|i: int, j: int| 0 <= i < j < after.len() implies text::text_lt(
                (#[trigger] after[i]).0,
                (#[trigger] after[j]).0,
            ) by {
                assert(after[j] == fields[j - 1]);
                if i == 0 {
                    if j > 1 {
                        assert(text::text_lt(fields[0].0, fields[j - 1].0));
                        text::lemma_text_lt_transitive(key, fields[0].0, fields[j - 1].0);
                    }
                } else {
                    assert(after[i] == fields[i - 1]);
                }
            }
            assert forall|i: int| 0 <= i < after.len() implies (#[trigger] after[i]).0 == key
                || exists|j: int| 0 <= j < fields.len() && (#[trigger] fields[j]).0 == after[i].0 by {
                if i > 0 {
                    assert(after[i] == fields[i - 1]);
                }
            }
        } else {
            lemma_with_field_sorted(rest, key, value);
            let inner = with_field(rest, key, value);
            assert forall|i: int| 0 <= i < after.len() implies (#[trigger] after[i]).0 == key
                || exists|j: int| 0 <= j < fields.len() && (#[trigger] fields[j]).0 == after[i].0 by {
                if i == 0 {
                    assert(after[0] == fields[0]);
                } else {
                    assert(after[i] == inner[i - 1]);
                    if inner[i - 1].0 != key {
                        let j = choose|j: int|
                            0 <= j < rest.len() && (#[trigger] rest[j]).0 == inner[i - 1].0;
                        assert(fields[j + 1].0 == after[i].0);
                    }
                }
            }
            text::lemma_text_lt_total(key, fields[0].0);
            assert forall|i: int, j: int| 0 <= i < j < after.len() implies text::text_lt(
                (#[trigger] after[i]).0,
                (#[trigger] after[j]).0,
            ) by {
                assert(after[j] == inner[j - 1]);
                if i == 0 {
                    if inner[j - 1].0 != key {
                        let k = choose|k: int|
                            0 <= k < rest.len() && (#[trigger] rest[k]).0 == inner[j - 1].0;
                        assert(fields[k + 1].0 == after[j].0);
                        assert(text::text_lt(fields[0].0, fields[k + 1].0));
                    }
                } else {
                    assert(after[i] == inner[i - 1]);
                }
            }
        }
    }
}

/// Setting a field to the value that it has changes nothing.
pub proof fn lemma_with_field_same(fields: Fields, key: Text, value: JsonView)
    requires
        sorted_fields(fields),
        field_of(fields, key) == Some(value),
    ensures
        with_field(fields, key, value) == fields,
    decreases fields.len(),
{
    let rest = fields.skip(1);
    assert(fields =~= seq![fields[0]] + rest);
    assert(forall|j: int| 0 <= j < rest.len() ==> rest[j] == fields[j + 1]);
    if fields[0].0 != key {
        lemma_field_is_there(rest, key);
        let j = choose|j: int| 0 <= j < rest.len() && (#[trigger] rest[j]).0 == key;
        assert(text::text_lt(fields[0].0, fields[j + 1].0));
        text::lemma_text_lt_total(fields[0].0, key);
        lemma_with_field_same(rest, key, value);
    }
}

proof fn lemma_field_is_there(fields: Fields, key: Text)
    requires
        field_of(fields, key) is Some,
    ensures
        exists|j: int| 0 <= j < fields.len() && (#[trigger] fields[j]).0 == key,
    decreases fields.len(),
{
    if fields[0].0 != key {
        let rest = fields.skip(1);
        lemma_field_is_there(rest, key);
        let j = choose|j: int| 0 <= j < rest.len() && (#[trigger] rest[j]).0 == key;
        assert(fields[j + 1].0 == key);
    }
}

/// Sets a field of an object.
pub fn set_field(fields: &mut Vec<(String, Json)>, key: &str, value: Json)
    ensures
        final(fields).deep_view() == with_field(old(fields).deep_view(), key@, value.deep_view()),
{
    let ghost fs = fields.deep_view();
    let ghost v = value.deep_view();
    let n: usize = fields.len();
    let mut i: usize = 0;
    proof {
        assert(fs.skip(0) =~= fs);
        assert(fs.take(0) + with_field(fs, key@, v) =~= with_field(fs, key@, v));
    }
    while i < n && !str_eq(fields[i].0.as_str(), key) && !str_lt(key, fields[i].0.as_str())
        invariant
            i <= n == fields@.len(),
            fs == fields.deep_view(),
            with_field(fs, key@, v) == fs.take(i as int) + with_field(fs.skip(i as int), key@, v),
        decreases n - i,
    {
        proof {
            let rest = with_field(fs.skip(i as int + 1), key@, v);
            assert(fs[i as int] == fields@[i as int].deep_view());
            assert(fs.skip(i as int).skip(1) =~= fs.skip(i as int + 1));
            assert(fs.take(i as int) + (seq![fs[i as int]] + rest) =~= fs.take(i as int + 1) + rest);
        }
        i = i + 1;
    }
    let entry = (key.to_owned(), value);
    if i < n && str_eq(fields[i].0.as_str(), key) {
        proof {
            assert(fs[i as int] == fields@[i as int].deep_view());
        }
        fields.set(i, entry);
        assert(fields.deep_view() =~= fs.take(i as int) + (seq![(key@, v)] + fs.skip(i as int).skip(1)));
    } else {
        proof {
            if i < n {
                assert(fs[i as int] == fields@[i as int].deep_view());
            }
        }
        fields.insert(i, entry);
        assert(fields.deep_view() =~= fs.take(i as int) + (seq![(key@, v)] + fs.skip(i as int)));
        assert(i == n ==> fs.skip(i as int).len() == 0);
        assert(i == n ==> seq![(key@, v)] + fs.skip(i as int) =~= seq![(key@, v)]);
    }
}

/// An object with one field.
pub fn object1(key: &str, value: Json) -> (r: Json)
    ensures
        r.deep_view() == JsonView::Object(seq![(key@, value.deep_view())]),
{
    let mut fields: Vec<(String, Json)> = Vec::new();
    let ghost v = value.deep_view();
    fields.push((key.to_owned(), value));
    proof {
        lemma_object_view(fields);
        assert(fields.deep_view() =~= seq![(key@, v)]);
    }
    Json::Object(fields)
}

/// An object with two fields.
pub fn object2(key1: &str, value1: Json, key2: &str, value2: Json) -> (r: Json)
    ensures
        r.deep_view() == JsonView::Object(
            seq![(key1@, value1.deep_view()), (key2@, value2.deep_view())],
        ),
{
    let mut fields: Vec<(String, Json)> = Vec::new();
    let ghost v1 = value1.deep_view();
    let ghost v2 = value2.deep_view();
    fields.push((key1.to_owned(), value1));
    fields.push((key2.to_owned(), value2));
    proof {
        lemma_object_view(fields);
        assert(fields.deep_view() =~= seq![(key1@, v1), (key2@, v2)]);
    }
    Json::Object(fields)
}

/// An object with three fields.
pub fn object3(
    key1: &str,
    value1: Json,
    key2: &str,
    value2: Json,
    key3: &str,
    value3: Json,
) -> (r: Json)
    ensures
        r.deep_view() == JsonView::Object(
            seq![
                (key1@, value1.deep_view()),
                (key2@, value2.deep_view()),
                (key3@, value3.deep_view()),
            ],
        ),
{
    let mut fields: Vec<(String, Json)> = Vec::new();
    let ghost v1 = value1.deep_view();
    let ghost v2 = value2.deep_view();
    let ghost v3 = value3.deep_view();
    fields.push((key1.to_owned(), value1));
    fields.push((key2.to_owned(), value2));
    fields.push((key3.to_owned(), value3));
    proof {
        lemma_object_view(fields);
        assert(fields.deep_view() =~= seq![(key1@, v1), (key2@, v2), (key3@, v3)]);
    }
    Json::Object(fields)
}

/// The array of some texts.
pub open spec fn text_array(items: Seq<Text>) -> JsonView {
    JsonView::Array(items.map_values(|s: Text| JsonView::Str(s)))
}

/// The array of some strings.
pub fn string_array(items: &Vec<String>) -> (r: Json)
    ensures
        r.deep_view() == text_array(items.deep_view()),
{
    let mut out: Vec<Json> = Vec::new();
    let mut i: usize = 0;
    while i < items.len()
        invariant
            i <= items@.len(),
            out@.len() == i,
            forall|k: int|
                0 <= k < i ==> (#[trigger] out@[k]).deep_view() == JsonView::Str(items@[k]@),
        decreases items@.len() - i,
    {
        out.push(Json::Str(items[i].clone()));
        i = i + 1;
    }
    proof {
        lemma_array_view(out);
        assert(out.deep_view() =~= items.deep_view().map_values(|s: Text| JsonView::Str(s)));
    }
    Json::Array(out)
}

// ---------------------------------------------------------------------------
// Replies
// ---------------------------------------------------------------------------

/// The reply to a request: an HTTP status and a JSON body.
#[derive(Debug, PartialEq, Eq)]
pub struct Reply {
    pub status: u16,
    pub body: Json,
}

/// A [`Reply`] as a mathematical value.
pub struct ReplyView {
    pub status: u16,
    pub body: JsonView,
}

impl DeepView for Reply {
    type V = ReplyView;

    open spec fn deep_view(&self) -> ReplyView {
        ReplyView { status: self.status, body: self.body.deep_view() }
    }
}

/// The reply with the given status whose body is `{key: message}`.
pub open spec fn keyed_reply(status: u16, key: Text, message: Text) -> ReplyView {
    ReplyView { status, body: JsonView::Object(seq![(key, JsonView::Str(message))]) }
}

/// The reply with the given status whose body is `{"error": message}`.
pub open spec fn error_reply(status: u16, message: Text) -> ReplyView {
    keyed_reply(status, "error"@, message)
}

/// The reply with the given status whose body is `{"message": message}`.
pub open spec fn message_reply(status: u16, message: Text) -> ReplyView {
    keyed_reply(status, "message"@, message)
}

/// The reply with the given status whose body is `{"error": message}`.
pub fn reply_error(status: u16, message: String) -> (r: Reply)
    ensures
        r.deep_view() == error_reply(status, message@),
{
    Reply { status, body: object1("error", Json::Str(message)) }
}

/// The reply with the given status whose body is `{"message": message}`.
pub fn reply_message(status: u16, message: String) -> (r: Reply)
    ensures
        r.deep_view() == message_reply(status, message@),
{
    Reply { status, body: object1("message", Json::Str(message)) }
}

/// The reply with the given status whose body is a text.
pub open spec fn text_reply(status: u16, message: Text) -> ReplyView {
    ReplyView { status, body: JsonView::Str(message) }
}

/// The reply with the given status whose body is a text.
pub fn reply_text(status: u16, message: String) -> (r: Reply)
    ensures
        r.deep_view() == text_reply(status, message@),
{
    Reply { status, body: Json::Str(message) }
}

/// The reply to a request as a plain text.
#[derive(Debug, PartialEq, Eq)]
pub struct PlainReply {
    pub status: u16,
    pub message: String,
}

/// A [`PlainReply`] as a mathematical value.
pub struct PlainView {
    pub status: u16,
    pub message: Text,
}

impl DeepView for PlainReply {
    type V = PlainView;

    open spec fn deep_view(&self) -> PlainView {
        PlainView { status: self.status, message: self.message@ }
    }
}

impl PlainReply {
    /// The plain text with the given status.
    pub fn new(status: u16, message: &str) -> (r: Self)
        ensures
            r.deep_view() == (PlainView { status, message: message@ }),
    {
        PlainReply { status, message: message.to_owned() }
    }
}

/// Whether an HTTP status is one of success.
pub open spec fn success(status: u16) -> bool {
    200 <= status < 300
}

/// Whether an HTTP status is one of success.
pub fn is_success(status: u16) -> (r: bool)
    ensures
        r == success(status),
{
    200 <= status && status < 300
}

} // verus!
