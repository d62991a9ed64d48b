//! Candid values: reading them, writing them as arguments, and the service contract.
//!
//! [`Candid`] holds a Candid value as plain values; `candid_parser` reads the text and
//! binary forms and encodes the arguments of a call.
use vstd::prelude::*;

use crate::json::{number_model, Json, JsonModel, JsonNumber, NumberModel};
use crate::text::{
    decimal, decimal_text, is_digit, joined, joined_resplits, numerals_are_digits,
    numerals_are_read_back, pieces,
};

verus! {

/// The interface of the storage canister.
pub const PACK_DID: &'static str = r#"
type Kind = variant { "blob"; "tree"; "commit"; "tag" };
type Ref = record { name : text; oid : text };
type Object = record { kind : Kind; payload : blob };
type ObjectEntry = record { oid : text; git_object : Object };
type Metadata = record { oid : text; kind : Kind; size : nat };
type PackChunkUpload = record { index : nat; digest : text; payload : blob };
type TransportCapabilities = record { version : nat; max_chunk_batch_items : nat; max_chunk_batch_bytes : nat; max_pack_index_batch_items : nat; max_download_batch_items : nat; max_retained_packs : nat; packed_object_reads : bool; streaming_pack_downloads : bool };
type TransportSnapshot = record { generation : text; unchanged : bool; refs : vec Ref; packs : vec Pack; capabilities : TransportCapabilities };
type RefChange = record { name : text; expected_old : opt text; new : opt text };
type RefTransactionReceipt = record { transaction_id : text; uploaded_pages : nat; change_count : nat; updated_at : int };
type ChunkReceipt = record { index : nat; uploaded_chunks : nat; chunk_count : nat };
type Chunked = record { oid : text; kind : Kind; total_size : nat; chunk_size : nat; chunk_count : nat; uploaded_chunks : vec nat; complete : bool };
type Pack = record { pack_id : text; total_size : nat; chunk_size : nat; chunk_count : nat; uploaded_chunks : vec nat; complete : bool; indexed_objects : nat };
type Prune = record { removed_packs : nat; removed_logical_bytes : nat; reclaimed_physical_bytes : nat };
type ResultRefs = variant { ok : vec Ref; err : text };
type ResultRefTransaction = variant { ok : RefTransactionReceipt; err : text };
type ResultTexts = variant { ok : vec text; err : text };
type ResultNat = variant { ok : nat; err : text };
type ResultChunk = variant { ok : ChunkReceipt; err : text };
type ResultChunked = variant { ok : Chunked; err : text };
type ResultPack = variant { ok : Pack; err : text };
type ResultPacks = variant { ok : vec Pack; err : text };
type ResultBlob = variant { ok : blob; err : text };
type ResultPrune = variant { ok : Prune; err : text };
service : {
  list_refs : (principal, text) -> (ResultRefs) query;
  list_packs : (principal, text) -> (ResultPacks) query;
  missing_objects : (principal, text, vec text, bool) -> (ResultTexts) query;
  begin_pack : (principal, text, text, nat, nat) -> (ResultPack);
  put_pack_chunk : (principal, text, text, nat, text, blob) -> (ResultChunk);
  transport_capabilities : () -> (TransportCapabilities) query;
  transport_snapshot : (principal, text, opt text) -> (variant { ok : TransportSnapshot; err : text }) query;
  put_pack_chunks : (principal, text, text, vec PackChunkUpload) -> (variant { ok : vec ChunkReceipt; err : text });
  finalize_pack : (principal, text, text) -> (ResultPack);
  list_pack_objects : (principal, text, text) -> (ResultTexts) query;
  index_pack_objects_batch : (principal, text, text, vec Metadata, bool) -> (ResultNat);
  index_pack_objects_batch_v2 : (principal, text, text, vec Metadata, bool) -> (ResultNat);
  put_objects_batch : (principal, text, vec ObjectEntry) -> (ResultTexts);
  update_refs_atomic : (principal, text, vec RefChange) -> (ResultRefs);
  stage_ref_transaction_page : (principal, text, text, nat, nat, vec RefChange) -> (ResultRefTransaction);
  commit_ref_transaction : (principal, text, text) -> (ResultRefs);
  abort_ref_transaction : (principal, text, text) -> (variant { ok; err : text });
  prune_packs : (principal, text, vec text) -> (ResultPrune);
  get_pack_chunk : (principal, text, text, nat) -> (ResultBlob) query;
  get_pack_chunks : (principal, text, text, vec nat) -> (variant { ok : vec blob; err : text }) query;
  begin_chunked_object : (principal, text, text, Kind, nat, nat) -> (ResultChunked);
  put_object_chunk : (principal, text, text, nat, blob) -> (ResultChunk);
  finalize_chunked_object : (principal, text, text) -> (ResultChunked);
}"#;

/// The name of a record field or of a variant.
#[derive(Debug)]
pub enum CandidLabel {
    Id(u32),
    Named(String),
    Unnamed(u32),
}

/// A Candid value. Numbers of unbounded size and principals are held by their text; a
/// floating-point number by the JSON number of its double, which only a finite one has.
#[derive(Debug)]
pub enum Candid {
    Bool(bool),
    Null,
    Absent,
    Reserved,
    Text(String),
    Number(String),
    Float(Option<serde_json::Number>),
    Opt(Box<Candid>),
    Vec(Vec<Candid>),
    Blob(Vec<u8>),
    Record(Vec<(CandidLabel, Candid)>),
    Variant(CandidLabel, Box<Candid>),
    Principal(String),
    Service(String),
    Func(String, String),
    Int(String),
    Nat(String),
    Nat8(u8),
    Nat16(u16),
    Nat32(u32),
    Nat64(u64),
    Int8(i8),
    Int16(i16),
    Int32(i32),
    Int64(i64),
}

/// The value of a label.
pub enum LabelModel {
    Id(u32),
    Named(Seq<char>),
    Unnamed(u32),
}

/// The value of a Candid value.
pub enum CandidModel {
    Bool(bool),
    Null,
    Absent,
    Reserved,
    Text(Seq<char>),
    Number(Seq<char>),
    Float(Option<NumberModel>),
    Opt(Box<CandidModel>),
    Vec(Seq<CandidModel>),
    Record(Seq<(LabelModel, CandidModel)>),
    Variant(LabelModel, Box<CandidModel>),
    Principal(Seq<char>),
    Service(Seq<char>),
    Func(Seq<char>, Seq<char>),
    Int(Seq<char>),
    Nat(Seq<char>),
    Nat8(u8),
    Nat16(u16),
    Nat32(u32),
    Nat64(u64),
    Int8(i8),
    Int16(i16),
    Int32(i32),
    Int64(i64),
}

/// The value of a blob, which Candid defines as a vector of bytes.
pub open spec fn blob_model(bytes: Seq<u8>) -> CandidModel {
    CandidModel::Vec(Seq::new(bytes.len(), |i: int| CandidModel::Nat8(bytes[i])))
}

impl View for CandidLabel {
    type V = LabelModel;

    open spec fn view(&self) -> LabelModel {
        match *self {
            CandidLabel::Id(n) => LabelModel::Id(n),
            CandidLabel::Named(t) => LabelModel::Named(t@),
            CandidLabel::Unnamed(n) => LabelModel::Unnamed(n),
        }
    }
}

impl Candid {
    /// The value of this Candid value.
    pub open spec fn model(self) -> CandidModel
        decreases self,
    {
        match self {
            Candid::Bool(b) => CandidModel::Bool(b),
            Candid::Null => CandidModel::Null,
            Candid::Absent => CandidModel::Absent,
            Candid::Reserved => CandidModel::Reserved,
            Candid::Text(t) => CandidModel::Text(t@),
            Candid::Number(t) => CandidModel::Number(t@),
            Candid::Float(n) => CandidModel::Float(
                match n {
                    Some(n) => Some(number_model(n)),
                    None => None,
                },
            ),
            Candid::Opt(v) => CandidModel::Opt(Box::new(v.model())),
            Candid::Vec(items) => CandidModel::Vec(Candid::models(items@)),
            Candid::Blob(bytes) => blob_model(bytes@),
            Candid::Record(fields) => CandidModel::Record(Candid::field_models(fields@)),
            Candid::Variant(label, v) => CandidModel::Variant(label@, Box::new(v.model())),
            Candid::Principal(t) => CandidModel::Principal(t@),
            Candid::Service(t) => CandidModel::Service(t@),
            Candid::Func(t, m) => CandidModel::Func(t@, m@),
            Candid::Int(t) => CandidModel::Int(t@),
            Candid::Nat(t) => CandidModel::Nat(t@),
            Candid::Nat8(n) => CandidModel::Nat8(n),
            Candid::Nat16(n) => CandidModel::Nat16(n),
            Candid::Nat32(n) => CandidModel::Nat32(n),
            Candid::Nat64(n) => CandidModel::Nat64(n),
            Candid::Int8(n) => CandidModel::Int8(n),
            Candid::Int16(n) => CandidModel::Int16(n),
            Candid::Int32(n) => CandidModel::Int32(n),
            Candid::Int64(n) => CandidModel::Int64(n),
        }
    }

    /// The values of a list.
    pub open spec fn models(items: Seq<Candid>) -> Seq<CandidModel>
        decreases items,
    {
        if items.len() == 0 {
            seq![]
        } else {
            Candid::models(items.drop_last()).push(items.last().model())
        }
    }

    /// The values of a list of fields.
    pub open spec fn field_models(fields: Seq<(CandidLabel, Candid)>) -> Seq<
        (LabelModel, CandidModel),
    >
        decreases fields,
    {
        if fields.len() == 0 {
            seq![]
        } else {
            Candid::field_models(fields.drop_last()).push(
                (fields.last().0@, fields.last().1.model()),
            )
        }
    }
}

impl View for Candid {
    type V = CandidModel;

    open spec fn view(&self) -> CandidModel {
        self.model()
    }
}

/// The decimal numeral of an integer.
pub open spec fn signed_decimal(n: int) -> Seq<char> {
    if n < 0 {
        "-"@ + decimal((-n) as nat)
    } else {
        decimal(n as nat)
    }
}

/// The field name that a label stands for.
pub open spec fn label_name(label: LabelModel) -> Seq<char> {
    match label {
        LabelModel::Named(name) => name,
        LabelModel::Id(n) => decimal(n as nat),
        LabelModel::Unnamed(n) => decimal(n as nat),
    }
}

/// A document that holds a byte as a number.
pub open spec fn byte_json(byte: u8) -> JsonModel {
    JsonModel::Number(NumberModel::Unsigned(byte as u64))
}

/// The JSON document for a Candid value: options disappear, records and variants are
/// objects, and every integer wider than a byte is a string of its digits.
pub open spec fn json_of_candid(value: CandidModel) -> JsonModel
    decreases value,
{
    match value {
        CandidModel::Bool(b) => JsonModel::Bool(b),
        CandidModel::Null => JsonModel::Null,
        CandidModel::Absent => JsonModel::Null,
        CandidModel::Reserved => JsonModel::Null,
        CandidModel::Text(t) => JsonModel::Text(t),
        CandidModel::Number(t) => JsonModel::Text(t),
        CandidModel::Float(Some(n)) => JsonModel::Number(n),
        CandidModel::Float(None) => JsonModel::Null,
        CandidModel::Opt(v) => json_of_candid(*v),
        CandidModel::Vec(items) => JsonModel::Array(json_of_items(items)),
        CandidModel::Record(fields) => JsonModel::Object(json_of_fields(fields)),
        CandidModel::Variant(label, v) => JsonModel::Object(
            Map::<Seq<char>, JsonModel>::empty().insert(label_name(label), json_of_candid(*v)),
        ),
        CandidModel::Principal(t) => JsonModel::Text(t),
        CandidModel::Service(t) => JsonModel::Text(t),
        CandidModel::Func(t, method) => JsonModel::Text(t + ":"@ + method),
        CandidModel::Int(t) => JsonModel::Text(t),
        CandidModel::Nat(t) => JsonModel::Text(t),
        CandidModel::Nat8(n) => JsonModel::Number(NumberModel::Unsigned(n as u64)),
        CandidModel::Nat16(n) => JsonModel::Text(decimal(n as nat)),
        CandidModel::Nat32(n) => JsonModel::Text(decimal(n as nat)),
        CandidModel::Nat64(n) => JsonModel::Text(decimal(n as nat)),
        CandidModel::Int8(n) => JsonModel::Number(
            if n < 0 {
                NumberModel::Negative(n as i64)
            } else {
                NumberModel::Unsigned(n as u64)
            },
        ),
        CandidModel::Int16(n) => JsonModel::Text(signed_decimal(n as int)),
        CandidModel::Int32(n) => JsonModel::Text(signed_decimal(n as int)),
        CandidModel::Int64(n) => JsonModel::Text(signed_decimal(n as int)),
    }
}

/// The documents for a list of Candid values.
pub open spec fn json_of_items(items: Seq<CandidModel>) -> Seq<JsonModel>
    decreases items,
{
    if items.len() == 0 {
        seq![]
    } else {
        json_of_items(items.drop_last()).push(json_of_candid(items.last()))
    }
}

/// The object for the fields of a record; the last of a name counts.
pub open spec fn json_of_fields(fields: Seq<(LabelModel, CandidModel)>) -> Map<
    Seq<char>,
    JsonModel,
>
    decreases fields,
{
    if fields.len() == 0 {
        Map::empty()
    } else {
        json_of_fields(fields.drop_last()).insert(
            label_name(fields.last().0),
            json_of_candid(fields.last().1),
        )
    }
}

/// Writes an integer in decimal.
fn signed_text(n: i64) -> (text: String)
    ensures
        text@ == signed_decimal(n as int),
{
    if n < 0 {
        let mut text = "-".to_owned();
        let magnitude: u64 = (-(n as i128)) as u64;
        text.append(decimal_text(magnitude).as_str());
        text
    } else {
        decimal_text(n as u64)
    }
}

/// The field name that a label stands for.
pub fn label_text(label: &CandidLabel) -> (name: String)
    ensures
        name@ == label_name(label@),
{
    match label {
        CandidLabel::Named(name) => name.clone(),
        CandidLabel::Id(n) => decimal_text(*n as u64),
        CandidLabel::Unnamed(n) => decimal_text(*n as u64),
    }
}

proof fn lemma_candid_models_push(items: Seq<JsonModel>, list: Seq<Json>, item: Json)
    requires
        items == Json::models(list),
    ensures
        Json::models(list.push(item)) == items.push(item@),
{
    assert(list.push(item).drop_last() =~= list);
}

/// The document for a blob is the array of its bytes.
pub proof fn blobs_become_arrays_of_bytes(bytes: Seq<u8>)
    ensures
        json_of_candid(blob_model(bytes)) == JsonModel::Array(
            Seq::new(bytes.len(), |i: int| byte_json(bytes[i])),
        ),
    decreases bytes.len(),
{
    let items = Seq::new(bytes.len(), |i: int| CandidModel::Nat8(bytes[i]));
    let all = Seq::new(bytes.len(), |i: int| byte_json(bytes[i]));
    if bytes.len() == 0 {
        assert(json_of_items(items) =~= all);
    } else {
        let front = bytes.drop_last();
        blobs_become_arrays_of_bytes(front);
        assert(items.drop_last() =~= Seq::new(front.len(), |i: int| CandidModel::Nat8(front[i])));
        assert(all.drop_last() =~= Seq::new(front.len(), |i: int| byte_json(front[i])));
        assert(blob_model(front) == CandidModel::Vec(items.drop_last()));
        assert(json_of_candid(blob_model(front)) == JsonModel::Array(all.drop_last()));
        assert(json_of_candid(CandidModel::Vec(items.drop_last())) == JsonModel::Array(
            json_of_items(items.drop_last()),
        ));
        assert(json_of_candid(items.last()) == all.last());
        assert(all =~= all.drop_last().push(all.last()));
        assert(json_of_items(items) == all);
    }
    assert(blob_model(bytes) == CandidModel::Vec(items));
}

/// The JSON document for a Candid value.
pub fn candid_json(value: &Candid) -> (document: Json)
    ensures
        document@ == json_of_candid(value@),
    decreases value,
{
    match value {
        Candid::Bool(b) => Json::Bool(*b),
        Candid::Null => Json::Null,
        Candid::Absent => Json::Null,
        Candid::Reserved => Json::Null,
        Candid::Text(t) => Json::Text(t.clone()),
        Candid::Number(t) => Json::Text(t.clone()),
        Candid::Float(Some(n)) => Json::Number(JsonNumber::Float(n.clone())),
        Candid::Float(None) => Json::Null,
        Candid::Opt(v) => candid_json(v),
        Candid::Vec(items) => {
            let mut list: Vec<Json> = Vec::new();
            let mut i: usize = 0;
            assert(items@.take(0) =~= seq![]);
            while i < items.len()
                invariant
                    i <= items@.len(),
                    *value == Candid::Vec(*items),
                    Json::models(list@) == json_of_items(Candid::models(items@.take(i as int))),
                decreases items.len() - i,
            {
                assert(decreases_to!(value => value->Vec_0));
                assert(decreases_to!(items => items[i as int]));
                let item = candid_json(&items[i]);
                proof {
                    lemma_candid_models_push(Json::models(list@), list@, item);
                    let next = items@.take(i + 1);
                    assert(next.drop_last() =~= items@.take(i as int));
                    let models = Candid::models(next);
                    assert(models.drop_last() =~= Candid::models(items@.take(i as int)));
                }
                list.push(item);
                i += 1;
            }
            assert(items@.take(items@.len() as int) =~= items@);
            Json::Array(list)
        },
        Candid::Blob(bytes) => {
            let mut list: Vec<Json> = Vec::new();
            let mut i: usize = 0;
            let ghost all = Seq::new(bytes@.len(), |j: int| byte_json(bytes@[j]));
            assert(Json::models(list@) =~= all.take(0));
            while i < bytes.len()
                invariant
                    i <= bytes@.len(),
                    all == Seq::new(bytes@.len(), |j: int| byte_json(bytes@[j])),
                    Json::models(list@) == all.take(i as int),
                decreases bytes.len() - i,
            {
                let item = Json::Number(JsonNumber::Unsigned(bytes[i] as u64));
                proof {
                    lemma_candid_models_push(Json::models(list@), list@, item);
                    assert(all.take(i + 1) =~= all.take(i as int).push(all[i as int]));
                }
                list.push(item);
                i += 1;
            }
            proof {
                blobs_become_arrays_of_bytes(bytes@);
                assert(all.take(all.len() as int) =~= all);
            }
            Json::Array(list)
        },
        Candid::Record(fields) => {
            let mut list: Vec<(String, Json)> = Vec::new();
            let mut i: usize = 0;
            assert(fields@.take(0) =~= seq![]);
            while i < fields.len()
                invariant
                    i <= fields@.len(),
                    *value == Candid::Record(*fields),
                    Json::fields_model(list@) == json_of_fields(
                        Candid::field_models(fields@.take(i as int)),
                    ),
                decreases fields.len() - i,
            {
                assert(decreases_to!(value => value->Record_0));
                assert(decreases_to!(fields => fields[i as int]));
                assert(decreases_to!(fields[i as int] => fields[i as int].1));
                let pair = (label_text(&fields[i].0), candid_json(&fields[i].1));
                proof {
                    let next = fields@.take(i + 1);
                    assert(next.drop_last() =~= fields@.take(i as int));
                    let models = Candid::field_models(next);
                    assert(models.drop_last() =~= Candid::field_models(fields@.take(i as int)));
                    assert(list@.push(pair).drop_last() =~= list@);
                }
                list.push(pair);
                i += 1;
            }
            assert(fields@.take(fields@.len() as int) =~= fields@);
            Json::Object(list)
        },
        Candid::Variant(label, v) => {
            let mut list: Vec<(String, Json)> = Vec::new();
            let pair = (label_text(label), candid_json(v));
            proof {
                assert(Json::fields_model(list@) =~= Map::<Seq<char>, JsonModel>::empty());
                assert(list@.push(pair).drop_last() =~= list@);
            }
            list.push(pair);
            Json::Object(list)
        },
        Candid::Principal(t) => Json::Text(t.clone()),
        Candid::Service(t) => Json::Text(t.clone()),
        Candid::Func(t, method) => {
            let mut text = t.clone();
            text.append(":");
            text.append(method.as_str());
            Json::Text(text)
        },
        Candid::Int(t) => Json::Text(t.clone()),
        Candid::Nat(t) => Json::Text(t.clone()),
        Candid::Nat8(n) => Json::Number(JsonNumber::Unsigned(*n as u64)),
        Candid::Nat16(n) => Json::Text(decimal_text(*n as u64)),
        Candid::Nat32(n) => Json::Text(decimal_text(*n as u64)),
        Candid::Nat64(n) => Json::Text(decimal_text(*n)),
        Candid::Int8(n) => Json::Number(JsonNumber::Negative(*n as i64)),
        Candid::Int16(n) => Json::Text(signed_text(*n as i64)),
        Candid::Int32(n) => Json::Text(signed_text(*n as i64)),
        Candid::Int64(n) => Json::Text(signed_text(*n)),
    }
}

/// The decimal numerals of a byte string.
pub open spec fn byte_numerals(bytes: Seq<u8>) -> Seq<Seq<char>> {
    Seq::new(bytes.len(), |i: int| decimal(bytes[i] as nat))
}

/// A byte string as a Candid argument.
pub open spec fn blob_text(bytes: Seq<u8>) -> Seq<char> {
    "vec {"@ + joined(byte_numerals(bytes), ";"@) + "}"@
}

/// Writes a byte string as a Candid argument.
pub fn candid_blob(bytes: &[u8]) -> (text: String)
    ensures
        text@ == blob_text(bytes@),
{
    let mut text = "vec {".to_owned();
    let ghost numerals = byte_numerals(bytes@);
    let mut i: usize = 0;
    assert(text@ =~= "vec {"@ + joined(numerals.take(0), ";"@));
    while i < bytes.len()
        invariant
            i <= bytes@.len(),
            numerals == byte_numerals(bytes@),
            text@ == "vec {"@ + joined(numerals.take(i as int), ";"@),
        decreases bytes.len() - i,
    {
        assert(numerals.take(i + 1).drop_last() =~= numerals.take(i as int));
        if i > 0 {
            text.append(";");
        }
        text.append(decimal_text(bytes[i] as u64).as_str());
        assert(text@ =~= "vec {"@ + joined(numerals.take(i + 1), ";"@));
        i += 1;
    }
    assert(numerals.take(numerals.len() as int) =~= numerals);
    text.append("}");
    text
}

proof fn lemma_numerals(bytes: Seq<u8>)
    ensures
        forall|i: int|
            0 <= i < bytes.len() ==> (#[trigger] byte_numerals(bytes)[i]).len() > 0
                && !byte_numerals(bytes)[i].contains(';'),
{
    assert forall|i: int| 0 <= i < bytes.len() implies (#[trigger] byte_numerals(bytes)[i]).len()
        > 0 && !byte_numerals(bytes)[i].contains(';') by {
        numerals_are_digits(bytes[i] as nat);
        let numeral = byte_numerals(bytes)[i];
        assert forall|k: int| 0 <= k < numeral.len() implies numeral[k] != ';' by {
            assert(is_digit(numeral[k]));
        }
    }
}

proof fn lemma_joined_numerals(bytes: Seq<u8>)
    requires
        bytes.len() > 0,
    ensures
        joined(byte_numerals(bytes), seq![';']).len() > 0,
        pieces(joined(byte_numerals(bytes), seq![';']), ';') == byte_numerals(bytes),
{
    let list = byte_numerals(bytes);
    lemma_numerals(bytes);
    joined_resplits(list, ';');
    if joined(list, seq![';']).len() == 0 {
        assert(list == pieces(seq![], ';'));
        assert(list[0].len() == 0);
    }
}

/// Different byte strings are written differently.
pub proof fn blobs_are_told_apart(a: Seq<u8>, b: Seq<u8>)
    requires
        blob_text(a) == blob_text(b),
    ensures
        a == b,
{
    reveal_strlit("vec {");
    reveal_strlit("}");
    reveal_strlit(";");
    assert(";"@ =~= seq![';']);
    let x = joined(byte_numerals(a), ";"@);
    let y = joined(byte_numerals(b), ";"@);
    assert(x =~= blob_text(a).subrange(5, blob_text(a).len() - 1));
    assert(y =~= blob_text(b).subrange(5, blob_text(b).len() - 1));
    if a.len() > 0 {
        lemma_joined_numerals(a);
    }
    if b.len() > 0 {
        lemma_joined_numerals(b);
    }
    assert(a.len() == 0 ==> x.len() == 0);
    assert(b.len() == 0 ==> y.len() == 0);
    if a.len() > 0 && b.len() > 0 {
        assert(byte_numerals(a) == byte_numerals(b));
        assert(a.len() == byte_numerals(a).len());
        assert(b.len() == byte_numerals(b).len());
        assert forall|i: int| 0 <= i < a.len() implies a[i] == b[i] by {
            assert(byte_numerals(a)[i] == byte_numerals(b)[i]);
            numerals_are_read_back(a[i] as nat, 255);
            numerals_are_read_back(b[i] as nat, 255);
        }
    }
    assert(a =~= b);
}

} // verus!
