//! JSON documents.
//!
//! [`Json`] holds a document as plain values; `serde_json` reads and writes the
//! text form. An object is a list of fields in which a later field replaces an
//! earlier one of the same name, so its model is a map.
use vstd::prelude::*;

use crate::text::same_text;

verus! {

/// A number of a JSON document, as `serde_json` tells them apart. A number that is
/// not a 64-bit integer is carried as it is.
#[derive(Debug)]
pub enum JsonNumber {
    Unsigned(u64),
    Negative(i64),
    Float(serde_json::Number),
}

/// A JSON document.
#[derive(Debug)]
pub enum Json {
    Null,
    Bool(bool),
    Number(JsonNumber),
    Text(String),
    Array(Vec<Json>),
    Object(Vec<(String, Json)>),
}

/// The value of a JSON number; a floating-point one by the bits of its double.
pub enum NumberModel {
    Unsigned(u64),
    Negative(i64),
    Float(u64),
}

/// The value of a JSON document.
pub enum JsonModel {
    Null,
    Bool(bool),
    Number(NumberModel),
    Text(Seq<char>),
    Array(Seq<JsonModel>),
    Object(Map<Seq<char>, JsonModel>),
}

/// `serde_json::Number`, carried through unread.
#[verifier::external_type_specification]
#[verifier::external_body]
pub struct ExNumber(serde_json::Number);

/// `serde_json::Value`, told apart only by [`value_shape`].
#[verifier::external_type_specification]
#[verifier::external_body]
pub struct ExValue(serde_json::Value);

/// The value that a `serde_json::Number` holds.
pub uninterp spec fn number_model(number: serde_json::Number) -> NumberModel;

/// The document that a `serde_json::Value` holds.
pub uninterp spec fn value_model(value: serde_json::Value) -> JsonModel;

impl View for JsonNumber {
    type V = NumberModel;

    open spec fn view(&self) -> NumberModel {
        match *self {
            JsonNumber::Unsigned(n) => NumberModel::Unsigned(n),
            JsonNumber::Negative(n) => if n < 0 {
                NumberModel::Negative(n)
            } else {
                NumberModel::Unsigned(n as u64)
            },
            JsonNumber::Float(n) => number_model(n),
        }
    }
}

impl Json {
    /// The value of this document.
    pub open spec fn model(self) -> JsonModel
        decreases self,
    {
        match self {
            Json::Null => JsonModel::Null,
            Json::Bool(b) => JsonModel::Bool(b),
            Json::Number(n) => JsonModel::Number(n@),
            Json::Text(t) => JsonModel::Text(t@),
            Json::Array(items) => JsonModel::Array(Json::models(items@)),
            Json::Object(fields) => JsonModel::Object(Json::fields_model(fields@)),
        }
    }

    /// The values of a list of documents.
    pub open spec fn models(items: Seq<Json>) -> Seq<JsonModel>
        decreases items,
    {
        if items.len() == 0 {
            seq![]
        } else {
            Json::models(items.drop_last()).push(items.last().model())
        }
    }

    /// The value of a list of fields: the last of a name counts.
    pub open spec fn fields_model(fields: Seq<(String, Json)>) -> Map<Seq<char>, JsonModel>
        decreases fields,
    {
        if fields.len() == 0 {
            Map::empty()
        } else {
            Json::fields_model(fields.drop_last()).insert(
                fields.last().0@,
                fields.last().1.model(),
            )
        }
    }
}

impl View for Json {
    type V = JsonModel;

    open spec fn view(&self) -> JsonModel {
        self.model()
    }
}

/// A `serde_json::Value`, one level deep.
pub enum JsonShape<'a> {
    Null,
    Bool(bool),
    Number(serde_json::Number),
    Text(String),
    Array(&'a Vec<serde_json::Value>),
    Object(Vec<(&'a String, &'a serde_json::Value)>),
}

/// The parts that a `serde_json::Value` is made from.
pub enum JsonParts {
    Null,
    Bool(bool),
    Number(serde_json::Number),
    Text(String),
    Array(Vec<serde_json::Value>),
    Object(Vec<(String, serde_json::Value)>),
}

/// The documents that a list of values holds.
pub open spec fn value_models(items: Seq<serde_json::Value>) -> Seq<JsonModel> {
    Seq::new(items.len(), |i: int| value_model(items[i]))
}

/// The names among a list of borrowed fields are distinct.
pub open spec fn names_distinct(fields: Seq<(&String, &serde_json::Value)>) -> bool {
    forall|i: int, j: int|
        0 <= i < j < fields.len() ==> (#[trigger] fields[i]).0@ != (#[trigger] fields[j]).0@
}

/// The map that a list of borrowed fields with distinct names makes.
pub open spec fn borrowed_fields(fields: Seq<(&String, &serde_json::Value)>) -> Map<
    Seq<char>,
    JsonModel,
>
    decreases fields.len(),
{
    if fields.len() == 0 {
        Map::empty()
    } else {
        borrowed_fields(fields.drop_last()).insert(
            fields.last().0@,
            value_model(*fields.last().1),
        )
    }
}

/// The map that a list of fields makes: the last of a name counts.
pub open spec fn owned_fields(fields: Seq<(String, serde_json::Value)>) -> Map<Seq<char>, JsonModel>
    decreases fields.len(),
{
    if fields.len() == 0 {
        Map::empty()
    } else {
        owned_fields(fields.drop_last()).insert(fields.last().0@, value_model(fields.last().1))
    }
}

/// The document that a shape describes.
pub open spec fn shape_model(shape: JsonShape) -> JsonModel {
    match shape {
        JsonShape::Null => JsonModel::Null,
        JsonShape::Bool(b) => JsonModel::Bool(b),
        JsonShape::Number(n) => JsonModel::Number(number_model(n)),
        JsonShape::Text(t) => JsonModel::Text(t@),
        JsonShape::Array(items) => JsonModel::Array(value_models(items@)),
        JsonShape::Object(fields) => JsonModel::Object(borrowed_fields(fields@)),
    }
}

/// The document that parts make.
pub open spec fn parts_model(parts: JsonParts) -> JsonModel {
    match parts {
        JsonParts::Null => JsonModel::Null,
        JsonParts::Bool(b) => JsonModel::Bool(b),
        JsonParts::Number(n) => JsonModel::Number(number_model(n)),
        JsonParts::Text(t) => JsonModel::Text(t@),
        JsonParts::Array(items) => JsonModel::Array(value_models(items@)),
        JsonParts::Object(fields) => JsonModel::Object(owned_fields(fields@)),
    }
}

/// Tells the variants of `serde_json::Value` apart. The names in an object are
/// distinct, because `serde_json::Map` keeps one value for each name.
#[verifier::external_body]
fn value_shape<'a>(value: &'a serde_json::Value) -> (shape: JsonShape<'a>)
    ensures
        shape_model(shape) == value_model(*value),
        shape matches JsonShape::Object(fields) ==> names_distinct(fields@),
{
    match value {
        serde_json::Value::Null => JsonShape::Null,
        serde_json::Value::Bool(b) => JsonShape::Bool(*b),
        serde_json::Value::Number(n) => JsonShape::Number(n.clone()),
        serde_json::Value::String(t) => JsonShape::Text(t.clone()),
        serde_json::Value::Array(items) => JsonShape::Array(items),
        serde_json::Value::Object(fields) => JsonShape::Object(fields.iter().collect()),
    }
}

/// Makes a `serde_json::Value`. Collecting fields into a `serde_json::Map` lets the
/// last field of a name replace the earlier ones.
#[verifier::external_body]
fn value_of_parts(parts: JsonParts) -> (value: serde_json::Value)
    ensures
        value_model(value) == parts_model(parts),
{
    match parts {
        JsonParts::Null => serde_json::Value::Null,
        JsonParts::Bool(b) => serde_json::Value::Bool(b),
        JsonParts::Number(n) => serde_json::Value::Number(n),
        JsonParts::Text(t) => serde_json::Value::String(t),
        JsonParts::Array(items) => serde_json::Value::Array(items),
        JsonParts::Object(fields) => serde_json::Value::Object(fields.into_iter().collect()),
    }
}

/// `Number::as_u64`: the value of a number that is an unsigned 64-bit integer.
#[verifier::external_body]
fn number_as_u64(number: &serde_json::Number) -> (r: Option<u64>)
    ensures
        r == (match number_model(*number) {
            NumberModel::Unsigned(n) => Some(n),
            _ => None,
        }),
{
    number.as_u64()
}

/// `Number::as_i64`: the value of a number that is a signed 64-bit integer.
#[verifier::external_body]
fn number_as_i64(number: &serde_json::Number) -> (r: Option<i64>)
    ensures
        r == (match number_model(*number) {
            NumberModel::Unsigned(n) => if n <= i64::MAX {
                Some(n as i64)
            } else {
                None
            },
            NumberModel::Negative(n) => Some(n),
            NumberModel::Float(_) => None,
        }),
        r matches Some(n) ==> (n < 0 <==> number_model(*number) is Negative),
{
    number.as_i64()
}

/// `Number::from(u64)`.
#[verifier::external_body]
fn number_from_u64(n: u64) -> (number: serde_json::Number)
    ensures
        number_model(number) == NumberModel::Unsigned(n),
{
    serde_json::Number::from(n)
}

/// `Number::from(i64)`: an unsigned number where `n` is not negative.
#[verifier::external_body]
fn number_from_i64(n: i64) -> (number: serde_json::Number)
    ensures
        number_model(number) == (if n < 0 {
            NumberModel::Negative(n)
        } else {
            NumberModel::Unsigned(n as u64)
        }),
{
    serde_json::Number::from(n)
}

/// `Number::clone`: the same number again.
pub assume_specification[ <serde_json::Number as Clone>::clone ](
    number: &serde_json::Number,
) -> (copy: serde_json::Number)
    ensures
        number_model(copy) == number_model(*number),
;

/// What `serde_json::from_slice` reads from a byte string: a document, or the text of
/// the error.
pub uninterp spec fn json_document(bytes: Seq<u8>) -> Result<JsonModel, Seq<char>>;

/// What `serde_json::to_vec` writes for a document.
pub uninterp spec fn json_bytes(document: JsonModel) -> Seq<u8>;

/// What the `Display` of `serde_json::Value` writes for a document.
pub uninterp spec fn json_text(document: JsonModel) -> Seq<char>;

/// A document without floating-point numbers whose arrays and objects nest at most
/// `levels` deep.
pub open spec fn plain_within(document: JsonModel, levels: nat) -> bool
    decreases levels,
{
    match document {
        JsonModel::Number(NumberModel::Float(_)) => false,
        JsonModel::Array(items) => levels > 0 && forall|i: int|
            0 <= i < items.len() ==> plain_within(#[trigger] items[i], (levels - 1) as nat),
        JsonModel::Object(fields) => levels > 0 && forall|k: Seq<char>| #[trigger]
            fields.contains_key(k) ==> plain_within(fields[k], (levels - 1) as nat),
        _ => true,
    }
}

/// Calls `serde_json::from_slice`, whose result depends on the bytes alone.
#[verifier::external_body]
fn value_from_slice(bytes: &[u8]) -> (r: Result<serde_json::Value, String>)
    ensures
        match r {
            Ok(value) => json_document(bytes@) == Ok::<JsonModel, Seq<char>>(value_model(value)),
            Err(message) => json_document(bytes@) == Err::<JsonModel, Seq<char>>(message@),
        },
{
    serde_json::from_slice(bytes).map_err(|error| error.to_string())
}

/// Calls `serde_json::to_vec`, which writes every `Value`. Reading gives the document
/// back where it holds no floating-point number, whose decimal form may lose the last
/// bit, and nests no deeper than `from_slice` follows.
#[verifier::external_body]
fn value_to_vec(value: &serde_json::Value) -> (r: Option<Vec<u8>>)
    ensures
        r is Some,
        r matches Some(bytes) ==> {
            &&& bytes@ == json_bytes(value_model(*value))
            &&& plain_within(value_model(*value), 127) ==> json_document(bytes@) == Ok::<
                JsonModel,
                Seq<char>,
            >(value_model(*value))
        },
{
    serde_json::to_vec(value).ok()
}

/// Calls `Value::to_string`, the compact text form.
#[verifier::external_body]
fn value_to_text(value: &serde_json::Value) -> (text: String)
    ensures
        text@ == json_text(value_model(*value)),
{
    value.to_string()
}

proof fn lemma_models(items: Seq<Json>)
    ensures
        Json::models(items).len() == items.len(),
        forall|i: int| 0 <= i < items.len() ==> #[trigger] Json::models(items)[i] == items[i].model(),
    decreases items.len(),
{
    if items.len() > 0 {
        lemma_models(items.drop_last());
        assert forall|i: int| 0 <= i < items.len() implies #[trigger] Json::models(items)[i]
            == items[i].model() by {
            if i < items.len() - 1 {
                assert(Json::models(items.drop_last())[i] == items.drop_last()[i].model());
            }
        }
    }
}

/// The models of a list, one for each member.
pub proof fn models_are_memberwise(items: Seq<Json>)
    ensures
        Json::models(items) == Seq::new(items.len(), |i: int| items[i]@),
{
    lemma_models(items);
    assert(Json::models(items) =~= Seq::new(items.len(), |i: int| items[i]@));
}

proof fn lemma_models_push(items: Seq<Json>, item: Json)
    ensures
        Json::models(items.push(item)) == Json::models(items).push(item@),
{
    assert(items.push(item).drop_last() =~= items);
}

proof fn lemma_fields_push(fields: Seq<(String, Json)>, field: (String, Json))
    ensures
        Json::fields_model(fields.push(field)) == Json::fields_model(fields).insert(
            field.0@,
            field.1@,
        ),
{
    assert(fields.push(field).drop_last() =~= fields);
}

proof fn lemma_borrowed_fields(fields: Seq<(&String, &serde_json::Value)>)
    requires
        names_distinct(fields),
    ensures
        borrowed_fields(fields).dom().finite(),
        forall|i: int|
            0 <= i < fields.len() ==> borrowed_fields(fields).contains_key(
                (#[trigger] fields[i]).0@,
            ) && borrowed_fields(fields)[fields[i].0@] == value_model(*fields[i].1),
    decreases fields.len(),
{
    if fields.len() > 0 {
        let rest = fields.drop_last();
        lemma_borrowed_fields(rest);
        assert forall|i: int| 0 <= i < fields.len() implies borrowed_fields(fields).contains_key(
            (#[trigger] fields[i]).0@,
        ) && borrowed_fields(fields)[fields[i].0@] == value_model(*fields[i].1) by {
            if i < fields.len() - 1 {
                assert(rest[i] == fields[i]);
                assert(fields[i].0@ != fields[fields.len() - 1].0@);
            }
        }
    }
}

/// Reads a `serde_json::Value` into plain values.
fn json_of_value(value: &serde_json::Value) -> (document: Json)
    ensures
        document@ == value_model(*value),
    decreases value_model(*value),
{
    match value_shape(value) {
        JsonShape::Null => Json::Null,
        JsonShape::Bool(b) => Json::Bool(b),
        JsonShape::Text(t) => Json::Text(t),
        JsonShape::Number(n) => Json::Number(
            match number_as_u64(&n) {
                Some(u) => JsonNumber::Unsigned(u),
                None => match number_as_i64(&n) {
                    Some(i) => JsonNumber::Negative(i),
                    None => JsonNumber::Float(n),
                },
            },
        ),
        JsonShape::Array(items) => {
            let mut list: Vec<Json> = Vec::new();
            let ghost models = value_models(items@);
            let mut i: usize = 0;
            assert(Json::models(list@) =~= models.take(0));
            while i < items.len()
                invariant
                    i <= items@.len(),
                    models == value_models(items@),
                    value_model(*value) == JsonModel::Array(models),
                    Json::models(list@) == models.take(i as int),
                decreases items.len() - i,
            {
                assert(models[i as int] == value_model(items@[i as int]));
                assert(decreases_to!(value_model(*value) => value_model(*value)->Array_0));
                assert(decreases_to!(models => models[i as int]));
                let item = json_of_value(&items[i]);
                proof {
                    lemma_models_push(list@, item);
                    assert(models.take(i + 1) =~= models.take(i as int).push(models[i as int]));
                }
                list.push(item);
                i += 1;
            }
            assert(models.take(models.len() as int) =~= models);
            Json::Array(list)
        },
        JsonShape::Object(fields) => {
            let mut list: Vec<(String, Json)> = Vec::new();
            let mut i: usize = 0;
            assert(fields@.take(0) =~= seq![]);
            while i < fields.len()
                invariant
                    i <= fields@.len(),
                    names_distinct(fields@),
                    value_model(*value) == JsonModel::Object(borrowed_fields(fields@)),
                    Json::fields_model(list@) == borrowed_fields(fields@.take(i as int)),
                decreases fields.len() - i,
            {
                proof {
                    lemma_borrowed_fields(fields@);
                    let map = borrowed_fields(fields@);
                    assert(decreases_to!(value_model(*value) => value_model(*value)->Object_0));
                    assert(decreases_to!(map => map[fields@[i as int].0@]));
                }
                let (name, part) = &fields[i];
                let item = json_of_value(*part);
                let field = ((*name).clone(), item);
                proof {
                    lemma_fields_push(list@, field);
                    assert(fields@.take(i + 1).drop_last() =~= fields@.take(i as int));
                }
                list.push(field);
                i += 1;
            }
            assert(fields@.take(fields@.len() as int) =~= fields@);
            Json::Object(list)
        },
    }
}

/// Makes a `serde_json::Value` of plain values.
fn value_of_json(document: &Json) -> (value: serde_json::Value)
    ensures
        value_model(value) == document@,
    decreases document,
{
    match document {
        Json::Null => value_of_parts(JsonParts::Null),
        Json::Bool(b) => value_of_parts(JsonParts::Bool(*b)),
        Json::Text(t) => value_of_parts(JsonParts::Text(t.clone())),
        Json::Number(n) => value_of_parts(
            JsonParts::Number(
                match n {
                    JsonNumber::Unsigned(u) => number_from_u64(*u),
                    JsonNumber::Negative(i) => number_from_i64(*i),
                    JsonNumber::Float(f) => f.clone(),
                },
            ),
        ),
        Json::Array(items) => {
            let mut list: Vec<serde_json::Value> = Vec::new();
            let mut i: usize = 0;
            while i < items.len()
                invariant
                    i <= items@.len(),
                    *document == Json::Array(*items),
                    list@.len() == i,
                    forall|j: int| 0 <= j < i ==> value_model(#[trigger] list@[j]) == items@[j]@,
                decreases items.len() - i,
            {
                assert(decreases_to!(document => document->Array_0));
                assert(decreases_to!(items => items[i as int]));
                list.push(value_of_json(&items[i]));
                i += 1;
            }
            proof {
                models_are_memberwise(items@);
                assert(value_models(list@) =~= Json::models(items@));
            }
            value_of_parts(JsonParts::Array(list))
        },
        Json::Object(fields) => {
            let mut list: Vec<(String, serde_json::Value)> = Vec::new();
            let mut i: usize = 0;
            assert(fields@.take(0) =~= seq![]);
            while i < fields.len()
                invariant
                    i <= fields@.len(),
                    *document == Json::Object(*fields),
                    owned_fields(list@) == Json::fields_model(fields@.take(i as int)),
                decreases fields.len() - i,
            {
                assert(decreases_to!(document => document->Object_0));
                assert(decreases_to!(fields => fields[i as int]));
                assert(decreases_to!(fields[i as int] => fields[i as int].1));
                let field = (fields[i].0.clone(), value_of_json(&fields[i].1));
                proof {
                    assert(fields@.take(i + 1).drop_last() =~= fields@.take(i as int));
                    assert(list@.push(field).drop_last() =~= list@);
                }
                list.push(field);
                i += 1;
            }
            assert(fields@.take(fields@.len() as int) =~= fields@);
            value_of_parts(JsonParts::Object(list))
        },
    }
}

/// The field `name` of an object.
pub open spec fn field(document: JsonModel, name: Seq<char>) -> Option<JsonModel> {
    match document {
        JsonModel::Object(fields) => if fields.contains_key(name) {
            Some(fields[name])
        } else {
            None
        },
        _ => None,
    }
}

/// The text of a string.
pub open spec fn text_value(document: JsonModel) -> Option<Seq<char>> {
    match document {
        JsonModel::Text(t) => Some(t),
        _ => None,
    }
}

/// The members of an array.
pub open spec fn items_value(document: JsonModel) -> Option<Seq<JsonModel>> {
    match document {
        JsonModel::Array(items) => Some(items),
        _ => None,
    }
}

/// The value of an unsigned 64-bit integer.
pub open spec fn unsigned_value(document: JsonModel) -> Option<u64> {
    match document {
        JsonModel::Number(NumberModel::Unsigned(n)) => Some(n),
        _ => None,
    }
}

/// The value of a truth value.
pub open spec fn bool_value(document: JsonModel) -> Option<bool> {
    match document {
        JsonModel::Bool(b) => Some(b),
        _ => None,
    }
}

/// The text in the field `name` of an object.
pub open spec fn text_field(document: JsonModel, name: Seq<char>) -> Option<Seq<char>> {
    match field(document, name) {
        Some(value) => text_value(value),
        None => None,
    }
}

/// The truth value in the field `name` of an object.
pub open spec fn bool_field(document: JsonModel, name: Seq<char>) -> Option<bool> {
    match field(document, name) {
        Some(value) => bool_value(value),
        None => None,
    }
}

/// The array in the field `name` of an object.
pub open spec fn items_field(document: JsonModel, name: Seq<char>) -> Option<Seq<JsonModel>> {
    match field(document, name) {
        Some(value) => items_value(value),
        None => None,
    }
}

impl Json {
    /// The field `name`, if this is an object that has it.
    pub fn get(&self, name: &str) -> (r: Option<&Json>)
        ensures
            match r {
                Some(value) => field(self@, name@) == Some(value@),
                None => field(self@, name@) is None,
            },
    {
        match self {
            Json::Object(fields) => {
                let mut i: usize = fields.len();
                assert(fields@.take(fields@.len() as int) =~= fields@);
                while i > 0
                    invariant
                        i <= fields@.len(),
                        self@ == JsonModel::Object(Json::fields_model(fields@)),
                        field(self@, name@) == field(
                            JsonModel::Object(Json::fields_model(fields@.take(i as int))),
                            name@,
                        ),
                    decreases i,
                {
                    assert(fields@.take(i as int).drop_last() =~= fields@.take(i - 1));
                    assert(fields@.take(i as int).last() == fields@[i - 1]);
                    i -= 1;
                    if same_text(fields[i].0.as_str(), name) {
                        return Some(&fields[i].1);
                    }
                }
                assert(fields@.take(0) =~= seq![]);
                None
            },
            _ => None,
        }
    }

    /// The text, if this is a string.
    pub fn as_str(&self) -> (r: Option<&str>)
        ensures
            match r {
                Some(t) => text_value(self@) == Some(t@),
                None => text_value(self@) is None,
            },
    {
        match self {
            Json::Text(t) => Some(t.as_str()),
            _ => None,
        }
    }

    /// The members, if this is an array.
    pub fn as_array(&self) -> (r: Option<&Vec<Json>>)
        ensures
            match r {
                Some(items) => items_value(self@) == Some(Json::models(items@)),
                None => items_value(self@) is None,
            },
    {
        match self {
            Json::Array(items) => Some(items),
            _ => None,
        }
    }

    /// The value, if this is an unsigned 64-bit integer.
    pub fn as_u64(&self) -> (r: Option<u64>)
        ensures
            r == unsigned_value(self@),
    {
        match self {
            Json::Number(JsonNumber::Unsigned(n)) => Some(*n),
            Json::Number(JsonNumber::Negative(n)) => if *n < 0 {
                None
            } else {
                Some(*n as u64)
            },
            Json::Number(JsonNumber::Float(n)) => number_as_u64(n),
            _ => None,
        }
    }

    /// The value, if this is a truth value.
    pub fn as_bool(&self) -> (r: Option<bool>)
        ensures
            r == bool_value(self@),
    {
        match self {
            Json::Bool(b) => Some(*b),
            _ => None,
        }
    }

    /// The text in the field `name`.
    pub fn text_at(&self, name: &str) -> (r: Option<&str>)
        ensures
            match r {
                Some(t) => text_field(self@, name@) == Some(t@),
                None => text_field(self@, name@) is None,
            },
    {
        match self.get(name) {
            Some(value) => value.as_str(),
            None => None,
        }
    }

    /// The truth value in the field `name`.
    pub fn bool_at(&self, name: &str) -> (r: Option<bool>)
        ensures
            r == bool_field(self@, name@),
    {
        match self.get(name) {
            Some(value) => value.as_bool(),
            None => None,
        }
    }

    /// The array in the field `name`.
    pub fn array_at(&self, name: &str) -> (r: Option<&Vec<Json>>)
        ensures
            match r {
                Some(items) => items_field(self@, name@) == Some(Json::models(items@)),
                None => items_field(self@, name@) is None,
            },
    {
        match self.get(name) {
            Some(value) => value.as_array(),
            None => None,
        }
    }

    /// Reads a document from its text form.
    pub fn parse(bytes: &[u8]) -> (r: Result<Json, String>)
        ensures
            match r {
                Ok(document) => json_document(bytes@) == Ok::<JsonModel, Seq<char>>(document@),
                Err(message) => json_document(bytes@) == Err::<JsonModel, Seq<char>>(message@),
            },
    {
        match value_from_slice(bytes) {
            Ok(value) => Ok(json_of_value(&value)),
            Err(message) => Err(message),
        }
    }

    /// The compact text form of this document, as bytes. Reading them gives the document
    /// back where it is plain and not nested too deep.
    pub fn to_bytes(&self) -> (bytes: Vec<u8>)
        ensures
            bytes@ == json_bytes(self@),
            plain_within(self@, 127) ==> json_document(bytes@) == Ok::<JsonModel, Seq<char>>(self@),
    {
        let value = value_of_json(self);
        value_to_vec(&value).unwrap()
    }

    /// The compact text form of this document.
    pub fn to_text(&self) -> (text: String)
        ensures
            text@ == json_text(self@),
    {
        let value = value_of_json(self);
        value_to_text(&value)
    }

    /// A second copy of this document.
    pub fn copy(&self) -> (document: Json)
        ensures
            document@ == self@,
        decreases self,
    {
        match self {
            Json::Null => Json::Null,
            Json::Bool(b) => Json::Bool(*b),
            Json::Text(t) => Json::Text(t.clone()),
            Json::Number(JsonNumber::Unsigned(n)) => Json::Number(JsonNumber::Unsigned(*n)),
            Json::Number(JsonNumber::Negative(n)) => Json::Number(JsonNumber::Negative(*n)),
            Json::Number(JsonNumber::Float(n)) => Json::Number(JsonNumber::Float(n.clone())),
            Json::Array(items) => {
                assert(decreases_to!(self => self->Array_0));
                Json::Array(Json::copy_all(items))
            },
            Json::Object(fields) => {
                let mut list: Vec<(String, Json)> = Vec::new();
                let mut i: usize = 0;
                assert(fields@.take(0) =~= seq![]);
                while i < fields.len()
                    invariant
                        i <= fields@.len(),
                        *self == Json::Object(*fields),
                        Json::fields_model(list@) == Json::fields_model(fields@.take(i as int)),
                    decreases fields.len() - i,
                {
                    assert(decreases_to!(self => self->Object_0));
                    assert(decreases_to!(fields => fields[i as int]));
                    assert(decreases_to!(fields[i as int] => fields[i as int].1));
                    let pair = (fields[i].0.clone(), fields[i].1.copy());
                    proof {
                        lemma_fields_push(list@, pair);
                        assert(fields@.take(i + 1).drop_last() =~= fields@.take(i as int));
                    }
                    list.push(pair);
                    i += 1;
                }
                assert(fields@.take(fields@.len() as int) =~= fields@);
                Json::Object(list)
            },
        }
    }

    /// Copies of a list of documents.
    pub fn copy_all(items: &Vec<Json>) -> (copies: Vec<Json>)
        ensures
            Json::models(copies@) == Json::models(items@),
            copies@.len() == items@.len(),
        decreases items,
    {
        let mut list: Vec<Json> = Vec::new();
        let mut i: usize = 0;
        assert(items@.take(0) =~= seq![]);
        while i < items.len()
            invariant
                i <= items@.len(),
                list@.len() == i,
                Json::models(list@) == Json::models(items@.take(i as int)),
            decreases items.len() - i,
        {
            assert(decreases_to!(items => items[i as int]));
            let item = items[i].copy();
            proof {
                lemma_models_push(list@, item);
                assert(items@.take(i + 1).drop_last() =~= items@.take(i as int));
            }
            list.push(item);
            i += 1;
        }
        assert(items@.take(items@.len() as int) =~= items@);
        list
    }
}

} // verus!
