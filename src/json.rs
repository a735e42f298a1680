use serde_json::{Number, Value};
use vstd::prelude::*;

verus! {

broadcast use vstd::std_specs::vec::group_vec_axioms;

/// A JSON number, kept in the three forms that serde_json tells apart.
/// A float is held as serde_json prints it (its shortest round-trip text).
#[derive(Clone, Debug, PartialEq)]
pub enum JsonNumber {
    PosInt(u64),
    NegInt(i64),
    Float(String),
}

/// A JSON value. An object is a list of entries; a well-formed one has unique keys.
#[derive(Debug)]
pub enum Json {
    Null,
    Bool(bool),
    Number(JsonNumber),
    String(String),
    Array(Vec<Json>),
    Object(Vec<(String, Json)>),
}

/// Mathematical model of a JSON number.
pub enum NumberModel {
    PosInt(u64),
    NegInt(i64),
    Float(Seq<char>),
}

/// Mathematical model of a JSON value.
pub enum JsonModel {
    Null,
    Bool(bool),
    Number(NumberModel),
    Str(Seq<char>),
    Array(Seq<JsonModel>),
    Object(Seq<(Seq<char>, JsonModel)>),
}

pub open spec fn number_model(n: JsonNumber) -> NumberModel {
    match n {
        JsonNumber::PosInt(u) => NumberModel::PosInt(u),
        JsonNumber::NegInt(i) => NumberModel::NegInt(i),
        JsonNumber::Float(s) => NumberModel::Float(s@),
    }
}

pub open spec fn json_model(j: Json) -> JsonModel
    decreases j, 0nat,
{
    match j {
        Json::Null => JsonModel::Null,
        Json::Bool(b) => JsonModel::Bool(b),
        Json::Number(n) => JsonModel::Number(number_model(n)),
        Json::String(s) => JsonModel::Str(s@),
        Json::Array(a) => JsonModel::Array(items_model(a@)),
        Json::Object(o) => JsonModel::Object(entries_model(o@)),
    }
}

pub open spec fn items_model(s: Seq<Json>) -> Seq<JsonModel>
    decreases s, s.len(),
{
    if s.len() == 0 {
        Seq::empty()
    } else {
        items_model(s.drop_last()).push(json_model(s.last()))
    }
}

pub open spec fn entries_model(s: Seq<(String, Json)>) -> Seq<(Seq<char>, JsonModel)>
    decreases s, s.len(),
{
    if s.len() == 0 {
        Seq::empty()
    } else {
        entries_model(s.drop_last()).push((s.last().0@, json_model(s.last().1)))
    }
}

impl View for JsonNumber {
    type V = NumberModel;

    open spec fn view(&self) -> NumberModel {
        number_model(*self)
    }
}

impl View for Json {
    type V = JsonModel;

    open spec fn view(&self) -> JsonModel {
        json_model(*self)
    }
}

pub proof fn lemma_items_model(s: Seq<Json>)
    ensures
        items_model(s).len() == s.len(),
        forall|i: int| 0 <= i < s.len() ==> #[trigger] items_model(s)[i] == json_model(s[i]),
    decreases s.len(),
{
    if s.len() > 0 {
        lemma_items_model(s.drop_last());
    }
}

pub proof fn lemma_entries_model(s: Seq<(String, Json)>)
    ensures
        entries_model(s).len() == s.len(),
        forall|i: int|
            0 <= i < s.len() ==> #[trigger] entries_model(s)[i] == (s[i].0@, json_model(s[i].1)),
    decreases s.len(),
{
    if s.len() > 0 {
        lemma_entries_model(s.drop_last());
    }
}


/// Index of the first entry whose key is `key`.
pub open spec fn first_key_at(entries: Seq<(Seq<char>, JsonModel)>, key: Seq<char>, i: int) -> bool {
    &&& 0 <= i < entries.len()
    &&& entries[i].0 == key
    &&& forall|j: int| 0 <= j < i ==> entries[j].0 != key
}

/// The value of the first entry whose key is `key`, as a map lookup reads it.
pub open spec fn lookup(entries: Seq<(Seq<char>, JsonModel)>, key: Seq<char>) -> Option<JsonModel> {
    if exists|i: int| first_key_at(entries, key, i) {
        Some(entries[choose|i: int| first_key_at(entries, key, i)].1)
    } else {
        None
    }
}

pub proof fn lemma_lookup_at(entries: Seq<(Seq<char>, JsonModel)>, key: Seq<char>, i: int)
    requires
        first_key_at(entries, key, i),
    ensures
        lookup(entries, key) == Some(entries[i].1),
{
    let k = choose|k: int| first_key_at(entries, key, k);
    assert(first_key_at(entries, key, k));
    if k < i {
        assert(entries[k].0 != key);
    } else if i < k {
        assert(entries[i].0 != key);
    }
}

pub proof fn lemma_lookup_none(entries: Seq<(Seq<char>, JsonModel)>, key: Seq<char>)
    requires
        forall|j: int| 0 <= j < entries.len() ==> entries[j].0 != key,
    ensures
        lookup(entries, key) is None,
{
}

pub open spec fn keys_unique(entries: Seq<(Seq<char>, JsonModel)>) -> bool {
    forall|i: int, j: int| 0 <= i < j < entries.len() ==> entries[i].0 != entries[j].0
}

/// A value as serde_json can hold it: object keys unique, a negative-integer number negative.
pub open spec fn json_wf(j: JsonModel) -> bool
    decreases j,
{
    match j {
        JsonModel::Number(NumberModel::NegInt(i)) => i < 0,
        JsonModel::Array(xs) => forall|i: int| 0 <= i < xs.len() ==> json_wf(#[trigger] xs[i]),
        JsonModel::Object(es) => keys_unique(es) && forall|i: int|
            0 <= i < es.len() ==> json_wf(#[trigger] es[i].1),
        _ => true,
    }
}

pub open spec fn is_zero_text(t: Seq<char>) -> bool {
    t == seq!['0', '.', '0'] || t == seq!['-', '0', '.', '0']
}

/// Equality of JSON numbers as serde_json decides it (floats compare as floats).
pub open spec fn number_eq(a: NumberModel, b: NumberModel) -> bool {
    match (a, b) {
        (NumberModel::PosInt(x), NumberModel::PosInt(y)) => x == y,
        (NumberModel::NegInt(x), NumberModel::NegInt(y)) => x == y,
        (NumberModel::Float(x), NumberModel::Float(y)) => x == y || (is_zero_text(x)
            && is_zero_text(y)),
        _ => false,
    }
}

fn is_zero_text_exec(t: &String) -> (r: bool)
    ensures
        r == is_zero_text(t@),
{
    let zero = String::from_str("0.0");
    let neg_zero = String::from_str("-0.0");
    proof {
        reveal_strlit("0.0");
        reveal_strlit("-0.0");
        assert("0.0"@ =~= seq!['0', '.', '0']);
        assert("-0.0"@ =~= seq!['-', '0', '.', '0']);
    }
    *t == zero || *t == neg_zero
}

impl JsonNumber {
    /// Equality of numbers as serde_json decides it.
    pub fn equals(&self, other: &JsonNumber) -> (r: bool)
        ensures
            r == number_eq(self@, other@),
    {
        match (self, other) {
            (JsonNumber::PosInt(x), JsonNumber::PosInt(y)) => *x == *y,
            (JsonNumber::NegInt(x), JsonNumber::NegInt(y)) => *x == *y,
            (JsonNumber::Float(x), JsonNumber::Float(y)) => *x == *y || (is_zero_text_exec(x)
                && is_zero_text_exec(y)),
            _ => false,
        }
    }

    pub fn copy(&self) -> (r: JsonNumber)
        ensures
            r@ == self@,
    {
        match self {
            JsonNumber::PosInt(x) => JsonNumber::PosInt(*x),
            JsonNumber::NegInt(x) => JsonNumber::NegInt(*x),
            JsonNumber::Float(x) => JsonNumber::Float(x.clone()),
        }
    }
}

impl Json {
    /// A copy of the value, equal to it in the model.
    pub fn deep_copy(&self) -> (r: Json)
        ensures
            r@ == self@,
        decreases self,
    {
        match self {
            Json::Null => Json::Null,
            Json::Bool(b) => Json::Bool(*b),
            Json::Number(n) => Json::Number(n.copy()),
            Json::String(s) => Json::String(s.clone()),
            Json::Array(a) => {
                let mut v: Vec<Json> = Vec::new();
                let mut i: usize = 0;
                proof {
                    assert(decreases_to!(*self => self->Array_0));
                    assert(decreases_to!(*a => a@));
                }
                while i < a.len()
                    invariant
                        decreases_to!(*self => a@),
                        i <= a@.len(),
                        v@.len() == i,
                        forall|j: int| 0 <= j < i ==> #[trigger] v@[j]@ == a@[j]@,
                    decreases a@.len() - i,
                {
                    proof {
                        assert(decreases_to!(a@ => a@[i as int]));
                    }
                    let c = a[i].deep_copy();
                    v.push(c);
                    i = i + 1;
                }
                proof {
                    lemma_items_model(a@);
                    lemma_items_model(v@);
                    assert forall|j: int| 0 <= j < v@.len() implies items_model(v@)[j] == items_model(
                        a@,
                    )[j] by {
                        assert(v@[j]@ == a@[j]@);
                    }
                    assert(items_model(v@) =~= items_model(a@));
                }
                Json::Array(v)
            },
            Json::Object(o) => {
                let mut v: Vec<(String, Json)> = Vec::new();
                let mut i: usize = 0;
                proof {
                    assert(decreases_to!(*self => self->Object_0));
                    assert(decreases_to!(*o => o@));
                }
                while i < o.len()
                    invariant
                        decreases_to!(*self => o@),
                        i <= o@.len(),
                        v@.len() == i,
                        forall|j: int| 0 <= j < i ==> (#[trigger] v@[j]).0@ == o@[j].0@,
                        forall|j: int| 0 <= j < i ==> (#[trigger] v@[j]).1@ == o@[j].1@,
                    decreases o@.len() - i,
                {
                    proof {
                        assert(decreases_to!(o@ => o@[i as int]));
                        assert(decreases_to!(o@[i as int] => o@[i as int].1));
                    }
                    let c = o[i].1.deep_copy();
                    v.push((o[i].0.clone(), c));
                    i = i + 1;
                }
                proof {
                    lemma_entries_model(o@);
                    lemma_entries_model(v@);
                    assert forall|j: int| 0 <= j < v@.len() implies entries_model(v@)[j]
                        == entries_model(o@)[j] by {
                        assert(v@[j].0@ == o@[j].0@ && v@[j].1@ == o@[j].1@);
                    }
                    assert(entries_model(v@) =~= entries_model(o@));
                }
                Json::Object(v)
            },
        }
    }
}

/// serde_json's `Value`, opaque here; it appears only in the signature of `to_serde`.
#[verifier::external_type_specification]
#[verifier::external_body]
pub struct ExValue(Value);

/// The compact text that serde_json writes for a value.
pub uninterp spec fn compact_text(j: JsonModel) -> Seq<char>;

/// Relies on the constructors of serde_json::Value and on serde_json::Number's
/// `FromStr` (for a float's text); carries the value over one for one.
#[verifier::external_body]
fn to_serde(j: &Json) -> Value {
    match j {
        Json::Null => Value::Null,
        Json::Bool(b) => Value::Bool(*b),
        Json::Number(JsonNumber::PosInt(u)) => Value::from(*u),
        Json::Number(JsonNumber::NegInt(i)) => Value::from(*i),
        Json::Number(JsonNumber::Float(t)) => t.parse::<Number>().map_or(Value::Null, Value::Number),
        Json::String(s) => Value::String(s.clone()),
        Json::Array(a) => Value::Array(a.iter().map(to_serde).collect()),
        Json::Object(o) => Value::Object(o.iter().map(|(k, v)| (k.clone(), to_serde(v))).collect()),
    }
}

/// Relies on serde_json's `Display` for `Value`: the compact JSON text of the value.
#[verifier::external_body]
pub(crate) fn compact_json(j: &Json) -> (r: String)
    ensures
        r@ == compact_text(j@),
{
    to_serde(j).to_string()
}

} // verus!
