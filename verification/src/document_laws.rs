//! The documents for Candid values hold what the values hold.
use vstd::prelude::*;

use crate::candid::{
    blob_text, byte_numerals, json_of_candid, json_of_fields, json_of_items, label_name,
    signed_decimal, CandidModel, LabelModel,
};
use crate::idl::{envelope_text, reply_json};
use crate::json::{
    field, items_value, json_text, text_field, text_value, unsigned_value, JsonModel, NumberModel,
};
use crate::text::{
    decimal, is_digit, joined, joined_resplits, numerals_are_digits, numerals_are_read_back, pieces,
    unsigned_up_to,
};

verus! {

/// The document for a vector has the documents for its members, one for each, in order.
pub proof fn vectors_become_arrays(items: Seq<CandidModel>)
    ensures
        items_value(json_of_candid(CandidModel::Vec(items))) matches Some(documents)
            && documents.len() == items.len() && forall|i: int|
            0 <= i < items.len() ==> #[trigger] documents[i] == json_of_candid(items[i]),
{
    lemma_items(items);
    assert(json_of_candid(CandidModel::Vec(items)) == JsonModel::Array(json_of_items(items)));
}

proof fn lemma_items(items: Seq<CandidModel>)
    ensures
        json_of_items(items).len() == items.len(),
        forall|i: int|
            0 <= i < items.len() ==> #[trigger] json_of_items(items)[i] == json_of_candid(
                items[i],
            ),
    decreases items.len(),
{
    if items.len() > 0 {
        lemma_items(items.drop_last());
        assert(json_of_items(items) == json_of_items(items.drop_last()).push(
            json_of_candid(items.last()),
        ));
    }
}

/// The document for a record has a field for each of its fields, under its name and with the
/// document for its value, where no later field has the same name; and no other fields.
pub proof fn records_become_objects(
    fields: Seq<(LabelModel, CandidModel)>,
    name: Seq<char>,
    i: int,
)
    ensures
        ({
            let document = json_of_candid(CandidModel::Record(fields));
            &&& 0 <= i < fields.len() && label_name(fields[i].0) == name && (forall|k: int|
                i < k < fields.len() ==> label_name((#[trigger] fields[k]).0) != name) ==> field(
                document,
                name,
            ) == Some(json_of_candid(fields[i].1))
            &&& (forall|k: int|
                0 <= k < fields.len() ==> label_name((#[trigger] fields[k]).0) != name) ==> field(
                document,
                name,
            ) is None
        }),
{
    lemma_fields(fields, name, i);
    assert(json_of_candid(CandidModel::Record(fields)) == JsonModel::Object(
        json_of_fields(fields),
    ));
}

proof fn lemma_fields(fields: Seq<(LabelModel, CandidModel)>, name: Seq<char>, i: int)
    ensures
        0 <= i < fields.len() && label_name(fields[i].0) == name && (forall|k: int|
            i < k < fields.len() ==> label_name((#[trigger] fields[k]).0) != name)
            ==> json_of_fields(fields).contains_key(name) && json_of_fields(fields)[name]
            == json_of_candid(fields[i].1),
        (forall|k: int| 0 <= k < fields.len() ==> label_name((#[trigger] fields[k]).0) != name)
            ==> !json_of_fields(fields).contains_key(name),
    decreases fields.len(),
{
    if fields.len() > 0 {
        let front = fields.drop_last();
        let n = fields.len() - 1;
        lemma_fields(front, name, i);
        assert(json_of_fields(fields) == json_of_fields(front).insert(
            label_name(fields[n].0),
            json_of_candid(fields[n].1),
        ));
        assert(forall|k: int| 0 <= k < front.len() ==> front[k] == #[trigger] fields[k]);
        if 0 <= i < n && (forall|k: int|
            i < k < fields.len() ==> label_name((#[trigger] fields[k]).0) != name) {
            assert(label_name(fields[n].0) != name);
            assert forall|k: int| i < k < front.len() implies label_name((#[trigger] front[k]).0)
                != name by {
                assert(fields[k] == front[k]);
            }
        }
        if forall|k: int| 0 <= k < fields.len() ==> label_name((#[trigger] fields[k]).0) != name {
            assert(label_name(fields[n].0) != name);
            assert forall|k: int| 0 <= k < front.len() implies label_name((#[trigger] front[k]).0)
                != name by {
                assert(fields[k] == front[k]);
            }
        }
    }
}

/// The document for a variant has one field, under the name of the case and with the document
/// for its value.
pub proof fn variants_become_objects(label: LabelModel, value: CandidModel, name: Seq<char>)
    ensures
        ({
            let document = json_of_candid(CandidModel::Variant(label, Box::new(value)));
            &&& name == label_name(label) ==> field(document, name) == Some(json_of_candid(value))
            &&& name != label_name(label) ==> field(document, name) is None
        }),
{
    assert(json_of_candid(CandidModel::Variant(label, Box::new(value))) == JsonModel::Object(
        Map::<Seq<char>, JsonModel>::empty().insert(label_name(label), json_of_candid(value)),
    ));
}

/// A field is called by its name, or by the numeral of its number, which reads back.
pub proof fn labels_name_the_fields(name: Seq<char>, n: u32)
    ensures
        label_name(LabelModel::Named(name)) == name,
        unsigned_up_to(label_name(LabelModel::Id(n)), u32::MAX as nat) == Some(n as nat),
        unsigned_up_to(label_name(LabelModel::Unnamed(n)), u32::MAX as nat) == Some(n as nat),
{
    numerals_are_read_back(n as nat, u32::MAX as nat);
}

/// An option that is there is its value, and what is not there is null.
pub proof fn options_disappear(value: CandidModel)
    ensures
        json_of_candid(CandidModel::Opt(Box::new(value))) == json_of_candid(value),
        json_of_candid(CandidModel::Absent) == JsonModel::Null,
        json_of_candid(CandidModel::Null) == JsonModel::Null,
        json_of_candid(CandidModel::Reserved) == JsonModel::Null,
        json_of_candid(CandidModel::Float(None)) == JsonModel::Null,
{
}

/// Texts, principals and unbounded numbers are texts, and truth values are what they are.
pub proof fn texts_stay_texts(text: Seq<char>, method: Seq<char>, b: bool)
    ensures
        text_value(json_of_candid(CandidModel::Text(text))) == Some(text),
        text_value(json_of_candid(CandidModel::Principal(text))) == Some(text),
        text_value(json_of_candid(CandidModel::Service(text))) == Some(text),
        text_value(json_of_candid(CandidModel::Func(text, method))) == Some(
            text + ":"@ + method,
        ),
        text_value(json_of_candid(CandidModel::Number(text))) == Some(text),
        text_value(json_of_candid(CandidModel::Int(text))) == Some(text),
        text_value(json_of_candid(CandidModel::Nat(text))) == Some(text),
        json_of_candid(CandidModel::Bool(b)) == JsonModel::Bool(b),
{
}

/// The text reads back as this number.
pub open spec fn reads_as(document: JsonModel, n: int) -> bool {
    text_value(document) matches Some(text) && if n < 0 {
        &&& text.len() > 0
        &&& text[0] == '-'
        &&& unsigned_up_to(text.drop_first(), u64::MAX as nat) == Some((-n) as nat)
    } else {
        unsigned_up_to(text, u64::MAX as nat) == Some(n as nat)
    }
}

proof fn lemma_signed(n: i64)
    ensures
        reads_as(JsonModel::Text(signed_decimal(n as int)), n as int),
{
    reveal_strlit("-");
    if n < 0 {
        numerals_are_read_back((-(n as int)) as nat, u64::MAX as nat);
        assert(signed_decimal(n as int).drop_first() =~= decimal((-(n as int)) as nat));
    } else {
        numerals_are_read_back(n as nat, u64::MAX as nat);
    }
}

/// A byte is a number, and every wider integer a text that reads back as it.
pub proof fn integers_read_back(
    n8: u8,
    n16: u16,
    n32: u32,
    n64: u64,
    i8_: i8,
    i16_: i16,
    i32_: i32,
    i64_: i64,
)
    ensures
        unsigned_value(json_of_candid(CandidModel::Nat8(n8))) == Some(n8 as u64),
        reads_as(json_of_candid(CandidModel::Nat16(n16)), n16 as int),
        reads_as(json_of_candid(CandidModel::Nat32(n32)), n32 as int),
        reads_as(json_of_candid(CandidModel::Nat64(n64)), n64 as int),
        json_of_candid(CandidModel::Int8(i8_)) == JsonModel::Number(
            if i8_ < 0 {
                NumberModel::Negative(i8_ as i64)
            } else {
                NumberModel::Unsigned(i8_ as u64)
            },
        ),
        reads_as(json_of_candid(CandidModel::Int16(i16_)), i16_ as int),
        reads_as(json_of_candid(CandidModel::Int32(i32_)), i32_ as int),
        reads_as(json_of_candid(CandidModel::Int64(i64_)), i64_ as int),
{
    numerals_are_read_back(n16 as nat, u64::MAX as nat);
    numerals_are_read_back(n32 as nat, u64::MAX as nat);
    numerals_are_read_back(n64 as nat, u64::MAX as nat);
    lemma_signed(i16_ as i64);
    lemma_signed(i32_ as i64);
    lemma_signed(i64_);
}

/// The document of a reply is that of its first value; a reply without values is null.
pub proof fn replies_are_their_first_value(values: Seq<CandidModel>)
    ensures
        values.len() == 0 ==> reply_json(values) == JsonModel::Null,
        values.len() > 0 ==> reply_json(values) == json_of_candid(values[0]),
{
}

/// The text of a blob is a list of numerals, one for each byte, which read back as the bytes.
pub proof fn blobs_are_read_back(bytes: Seq<u8>)
    ensures
        bytes.len() == 0 ==> blob_text(bytes) == "vec {}"@,
        bytes.len() > 0 ==> exists|inner: Seq<char>|
            blob_text(bytes) == "vec {"@ + inner + "}"@ && (#[trigger] pieces(inner, ';')).len()
                == bytes.len() && forall|i: int|
                0 <= i < bytes.len() ==> #[trigger] unsigned_up_to(pieces(inner, ';')[i], 255)
                    == Some(bytes[i] as nat),
{
    let numerals = byte_numerals(bytes);
    let inner = joined(numerals, ";"@);
    reveal_strlit(";");
    reveal_strlit("vec {");
    reveal_strlit("}");
    reveal_strlit("vec {}");
    assert(";"@ =~= seq![';']);
    if bytes.len() == 0 {
        assert(blob_text(bytes) =~= "vec {}"@);
    } else {
        assert forall|i: int| 0 <= i < numerals.len() implies !(#[trigger] numerals[i]).contains(
            ';',
        ) by {
            numerals_are_digits(bytes[i] as nat);
            if numerals[i].contains(';') {
                let k = choose|k: int| 0 <= k < numerals[i].len() && numerals[i][k] == ';';
                assert(is_digit(numerals[i][k]));
            }
        }
        joined_resplits(numerals, ';');
        assert forall|i: int| 0 <= i < bytes.len() implies #[trigger] unsigned_up_to(
            pieces(inner, ';')[i],
            255,
        ) == Some(bytes[i] as nat) by {
            numerals_are_read_back(bytes[i] as nat, 255);
        }
        assert(pieces(inner, ';').len() == bytes.len());
    }
}

/// The Candid text of a reply is in the field `response_candid` of what the client prints; an
/// envelope without one is no reply.
pub proof fn envelopes_hold_the_reply(envelope: JsonModel, text: Seq<char>)
    ensures
        text_field(envelope, "response_candid"@) == Some(text) ==> envelope_text(envelope) == Ok::<
            Seq<char>,
            Seq<char>,
        >(text),
        text_field(envelope, "response_candid"@) is None ==> envelope_text(envelope) == Err::<
            Seq<char>,
            Seq<char>,
        >("icp-cli returned no Candid response: "@ + json_text(envelope)),
{
}

} // verus!
