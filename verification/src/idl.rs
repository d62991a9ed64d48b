//! Candid as `candid_parser` speaks it: the binary form of calls and the text form of
//! values.
use candid_parser::candid::types::value::{IDLArgs, IDLValue};
use candid_parser::candid::types::Label;
use vstd::prelude::*;

use crate::candid::{
    blob_model, candid_json, json_of_candid, Candid, CandidLabel, CandidModel, LabelModel,
};
use crate::candid_scan::{
    are_arguments_readable, are_values_readable, check_arguments, check_contract, check_decoding,
    check_values, has_list_types, is_annotated, is_contract_decodable, is_contract_readable,
};
use crate::json::{json_document, json_text, number_model, text_field, Json, JsonModel};
use crate::text::first_occurrence;

verus! {

/// `candid::types::value::IDLValue`, told apart by the functions below.
#[verifier::external_type_specification]
#[verifier::external_body]
pub struct ExIdlValue(IDLValue);

/// `candid::types::Label`, told apart by [`idl_label`].
#[verifier::external_type_specification]
#[verifier::external_body]
pub struct ExLabel(Label);

/// The value that an `IDLValue` holds.
pub uninterp spec fn idl_model(value: IDLValue) -> CandidModel;

/// The value that a `Label` holds.
pub uninterp spec fn label_model(label: Label) -> LabelModel;

/// The variants without parts, and texts.
pub enum IdlPlain {
    Bool(bool),
    Null,
    Absent,
    Reserved,
    Text(String),
    Number(String),
}

/// The variants of fixed size.
pub enum IdlFixed {
    Nat8(u8),
    Nat16(u16),
    Nat32(u32),
    Nat64(u64),
    Int8(i8),
    Int16(i16),
    Int32(i32),
    Int64(i64),
}

/// The variants that hold other values.
pub enum IdlTree<'a> {
    Opt(&'a IDLValue),
    Vec(&'a Vec<IDLValue>),
    Blob(&'a Vec<u8>),
    Record(Vec<(&'a Label, &'a IDLValue)>),
    Variant(&'a Label, &'a IDLValue),
}

/// The variants that are held by their text, or by the JSON number of their double.
pub enum IdlWide {
    Float(Option<serde_json::Number>),
    Principal(String),
    Service(String),
    Func(String, String),
    Int(String),
    Nat(String),
}

/// The value of a plain variant.
pub open spec fn plain_model(part: IdlPlain) -> CandidModel {
    match part {
        IdlPlain::Bool(b) => CandidModel::Bool(b),
        IdlPlain::Null => CandidModel::Null,
        IdlPlain::Absent => CandidModel::Absent,
        IdlPlain::Reserved => CandidModel::Reserved,
        IdlPlain::Text(t) => CandidModel::Text(t@),
        IdlPlain::Number(t) => CandidModel::Number(t@),
    }
}

/// The value of a variant of fixed size.
pub open spec fn fixed_model(part: IdlFixed) -> CandidModel {
    match part {
        IdlFixed::Nat8(n) => CandidModel::Nat8(n),
        IdlFixed::Nat16(n) => CandidModel::Nat16(n),
        IdlFixed::Nat32(n) => CandidModel::Nat32(n),
        IdlFixed::Nat64(n) => CandidModel::Nat64(n),
        IdlFixed::Int8(n) => CandidModel::Int8(n),
        IdlFixed::Int16(n) => CandidModel::Int16(n),
        IdlFixed::Int32(n) => CandidModel::Int32(n),
        IdlFixed::Int64(n) => CandidModel::Int64(n),
    }
}

/// The value of a variant that holds others.
pub open spec fn tree_model(part: IdlTree) -> CandidModel {
    match part {
        IdlTree::Opt(v) => CandidModel::Opt(Box::new(idl_model(*v))),
        IdlTree::Vec(items) => CandidModel::Vec(
            Seq::new(items@.len(), |i: int| idl_model(items@[i])),
        ),
        IdlTree::Blob(bytes) => blob_model(bytes@),
        IdlTree::Record(fields) => CandidModel::Record(
            Seq::new(
                fields@.len(),
                |i: int| (label_model(*fields@[i].0), idl_model(*fields@[i].1)),
            ),
        ),
        IdlTree::Variant(label, v) => CandidModel::Variant(
            label_model(*label),
            Box::new(idl_model(*v)),
        ),
    }
}

/// The value of a variant that is held by its text or its JSON number.
pub open spec fn wide_model(part: IdlWide) -> CandidModel {
    match part {
        IdlWide::Float(n) => CandidModel::Float(
            match n {
                Some(n) => Some(number_model(n)),
                None => None,
            },
        ),
        IdlWide::Principal(t) => CandidModel::Principal(t@),
        IdlWide::Service(t) => CandidModel::Service(t@),
        IdlWide::Func(t, m) => CandidModel::Func(t@, m@),
        IdlWide::Int(t) => CandidModel::Int(t@),
        IdlWide::Nat(t) => CandidModel::Nat(t@),
    }
}

/// The plain variants.
pub open spec fn is_plain(value: CandidModel) -> bool {
    value is Bool || value is Null || value is Absent || value is Reserved || value is Text
        || value is Number
}

/// The variants of fixed size.
pub open spec fn is_fixed(value: CandidModel) -> bool {
    value is Nat8 || value is Nat16 || value is Nat32 || value is Nat64 || value is Int8
        || value is Int16 || value is Int32 || value is Int64
}

/// The variants that hold others.
pub open spec fn is_tree(value: CandidModel) -> bool {
    value is Opt || value is Vec || value is Record || value is Variant
}

/// The variants that are held by their text or their JSON number.
pub open spec fn is_wide(value: CandidModel) -> bool {
    value is Float || value is Principal || value is Service || value is Func || value is Int
        || value is Nat
}

/// Tells the variants of `Label` apart.
#[verifier::external_body]
fn idl_label(label: &Label) -> (r: CandidLabel)
    ensures
        r@ == label_model(*label),
{
    match label {
        Label::Id(n) => CandidLabel::Id(*n),
        Label::Named(name) => CandidLabel::Named(name.clone()),
        Label::Unnamed(n) => CandidLabel::Unnamed(*n),
    }
}

/// Tells the plain variants of `IDLValue` apart.
#[verifier::external_body]
fn idl_plain(value: &IDLValue) -> (r: Option<IdlPlain>)
    ensures
        r is Some == is_plain(idl_model(*value)),
        r matches Some(part) ==> plain_model(part) == idl_model(*value),
{
    match value {
        IDLValue::Bool(b) => Some(IdlPlain::Bool(*b)),
        IDLValue::Null => Some(IdlPlain::Null),
        IDLValue::None => Some(IdlPlain::Absent),
        IDLValue::Reserved => Some(IdlPlain::Reserved),
        IDLValue::Text(t) => Some(IdlPlain::Text(t.clone())),
        IDLValue::Number(t) => Some(IdlPlain::Number(t.clone())),
        _ => None,
    }
}

/// Tells the variants of `IDLValue` apart that are integers of fixed size.
#[verifier::external_body]
fn idl_fixed(value: &IDLValue) -> (r: Option<IdlFixed>)
    ensures
        r is Some == is_fixed(idl_model(*value)),
        r matches Some(part) ==> fixed_model(part) == idl_model(*value),
{
    match value {
        IDLValue::Nat8(n) => Some(IdlFixed::Nat8(*n)),
        IDLValue::Nat16(n) => Some(IdlFixed::Nat16(*n)),
        IDLValue::Nat32(n) => Some(IdlFixed::Nat32(*n)),
        IDLValue::Nat64(n) => Some(IdlFixed::Nat64(*n)),
        IDLValue::Int8(n) => Some(IdlFixed::Int8(*n)),
        IDLValue::Int16(n) => Some(IdlFixed::Int16(*n)),
        IDLValue::Int32(n) => Some(IdlFixed::Int32(*n)),
        IDLValue::Int64(n) => Some(IdlFixed::Int64(*n)),
        _ => None,
    }
}

/// Tells the variants of `IDLValue` apart that hold other values. A `Blob` holds what a
/// `Vec` of its bytes does.
#[verifier::external_body]
fn idl_tree<'a>(value: &'a IDLValue) -> (r: Option<IdlTree<'a>>)
    ensures
        r is Some == is_tree(idl_model(*value)),
        r matches Some(part) ==> tree_model(part) == idl_model(*value),
{
    match value {
        IDLValue::Opt(v) => Some(IdlTree::Opt(v)),
        IDLValue::Vec(items) => Some(IdlTree::Vec(items)),
        IDLValue::Blob(bytes) => Some(IdlTree::Blob(bytes)),
        IDLValue::Record(fields) => Some(
            IdlTree::Record(fields.iter().map(|f| (&f.id, &f.val)).collect()),
        ),
        IDLValue::Variant(v) => Some(IdlTree::Variant(&v.0.id, &v.0.val)),
        _ => None,
    }
}

/// Tells the remaining variants of `IDLValue` apart. `Principal::to_text`, and the
/// `Display` of `Int` and `Nat`, give the texts; `serde_json::Number::from_f64` gives the
/// number of a finite double.
#[verifier::external_body]
fn idl_wide(value: &IDLValue) -> (r: Option<IdlWide>)
    ensures
        r is Some == is_wide(idl_model(*value)),
        r matches Some(part) ==> wide_model(part) == idl_model(*value),
{
    match value {
        IDLValue::Float64(v) => Some(IdlWide::Float(serde_json::Number::from_f64(*v))),
        IDLValue::Float32(v) => Some(IdlWide::Float(serde_json::Number::from_f64((*v).into()))),
        IDLValue::Principal(p) => Some(IdlWide::Principal(p.to_text())),
        IDLValue::Service(p) => Some(IdlWide::Service(p.to_text())),
        IDLValue::Func(p, method) => Some(IdlWide::Func(p.to_text(), method.clone())),
        IDLValue::Int(n) => Some(IdlWide::Int(n.to_string())),
        IDLValue::Nat(n) => Some(IdlWide::Nat(n.to_string())),
        _ => None,
    }
}

/// Reads an `IDLValue` into plain values.
fn candid_of_idl(value: &IDLValue) -> (r: Candid)
    ensures
        r@ == idl_model(*value),
    decreases idl_model(*value),
{
    if let Some(part) = idl_plain(value) {
        return match part {
            IdlPlain::Bool(b) => Candid::Bool(b),
            IdlPlain::Null => Candid::Null,
            IdlPlain::Absent => Candid::Absent,
            IdlPlain::Reserved => Candid::Reserved,
            IdlPlain::Text(t) => Candid::Text(t),
            IdlPlain::Number(t) => Candid::Number(t),
        };
    }
    if let Some(part) = idl_fixed(value) {
        return match part {
            IdlFixed::Nat8(n) => Candid::Nat8(n),
            IdlFixed::Nat16(n) => Candid::Nat16(n),
            IdlFixed::Nat32(n) => Candid::Nat32(n),
            IdlFixed::Nat64(n) => Candid::Nat64(n),
            IdlFixed::Int8(n) => Candid::Int8(n),
            IdlFixed::Int16(n) => Candid::Int16(n),
            IdlFixed::Int32(n) => Candid::Int32(n),
            IdlFixed::Int64(n) => Candid::Int64(n),
        };
    }
    if let Some(part) = idl_wide(value) {
        return match part {
            IdlWide::Float(n) => Candid::Float(n),
            IdlWide::Principal(t) => Candid::Principal(t),
            IdlWide::Service(t) => Candid::Service(t),
            IdlWide::Func(t, m) => Candid::Func(t, m),
            IdlWide::Int(t) => Candid::Int(t),
            IdlWide::Nat(t) => Candid::Nat(t),
        };
    }
    let ghost model = idl_model(*value);
    match idl_tree(value) {
        Some(IdlTree::Opt(v)) => {
            assert(decreases_to!(model => model->Opt_0));
            assert(decreases_to!(model => *model->Opt_0));
            Candid::Opt(Box::new(candid_of_idl(v)))
        },
        Some(IdlTree::Vec(items)) => {
            let mut list: Vec<Candid> = Vec::new();
            let mut i: usize = 0;
            let ghost all = model->Vec_0;
            assert(Candid::models(list@) =~= all.take(0));
            while i < items.len()
                invariant
                    i <= items@.len(),
                    model == idl_model(*value),
                    model is Vec,
                    all == model->Vec_0,
                    all == Seq::new(items@.len(), |j: int| idl_model(items@[j])),
                    Candid::models(list@) == all.take(i as int),
                decreases items.len() - i,
            {
                assert(decreases_to!(model => model->Vec_0));
                assert(decreases_to!(all => all[i as int]));
                let item = candid_of_idl(&items[i]);
                proof {
                    assert(list@.push(item).drop_last() =~= list@);
                    assert(all.take(i + 1) =~= all.take(i as int).push(all[i as int]));
                }
                list.push(item);
                i += 1;
            }
            assert(all.take(all.len() as int) =~= all);
            Candid::Vec(list)
        },
        Some(IdlTree::Blob(bytes)) => Candid::Blob(bytes.clone()),
        Some(IdlTree::Record(fields)) => {
            let mut list: Vec<(CandidLabel, Candid)> = Vec::new();
            let mut i: usize = 0;
            let ghost all = model->Record_0;
            assert(Candid::field_models(list@) =~= all.take(0));
            while i < fields.len()
                invariant
                    i <= fields@.len(),
                    model == idl_model(*value),
                    model is Record,
                    all == model->Record_0,
                    all == Seq::new(
                        fields@.len(),
                        |j: int| (label_model(*fields@[j].0), idl_model(*fields@[j].1)),
                    ),
                    Candid::field_models(list@) == all.take(i as int),
                decreases fields.len() - i,
            {
                assert(decreases_to!(model => model->Record_0));
                assert(decreases_to!(all => all[i as int]));
                assert(decreases_to!(all[i as int] => all[i as int].1));
                let (label, part) = &fields[i];
                let pair = (idl_label(*label), candid_of_idl(*part));
                proof {
                    assert(list@.push(pair).drop_last() =~= list@);
                    assert(all.take(i + 1) =~= all.take(i as int).push(all[i as int]));
                }
                list.push(pair);
                i += 1;
            }
            assert(all.take(all.len() as int) =~= all);
            Candid::Record(list)
        },
        Some(IdlTree::Variant(label, v)) => {
            assert(decreases_to!(model => model->Variant_1));
            assert(decreases_to!(model => *model->Variant_1));
            Candid::Variant(idl_label(label), Box::new(candid_of_idl(v)))
        },
        None => Candid::Null,
    }
}

/// The JSON document for an `IDLValue`.
pub fn idl_json(value: &IDLValue) -> (document: Json)
    ensures
        document@ == json_of_candid(idl_model(*value)),
{
    let plain = candid_of_idl(value);
    candid_json(&plain)
}

/// The values of a list of `IDLValue`.
pub open spec fn idl_models(values: Seq<IDLValue>) -> Seq<CandidModel> {
    Seq::new(values.len(), |i: int| idl_model(values[i]))
}

/// The document of a reply: that of its first value, or null if it has none.
pub open spec fn reply_json(values: Seq<CandidModel>) -> JsonModel {
    if values.len() == 0 {
        JsonModel::Null
    } else {
        json_of_candid(values[0])
    }
}

/// The document of a reply with these values.
pub fn reply_document(values: &Vec<IDLValue>) -> (document: Json)
    ensures
        document@ == reply_json(idl_models(values@)),
{
    if values.len() == 0 {
        Json::Null
    } else {
        idl_json(&values[0])
    }
}

/// What `candid_parser::parse_idl_args` reads from a text with stack enough: values, or the
/// text of the error.
pub uninterp spec fn candid_values(text: Seq<char>) -> Result<Seq<CandidModel>, Seq<char>>;

/// A message that reading a text can give where little stack is left: a type stands behind
/// a value, and fitting the value to it was given up. It says that the recursion limit was
/// exceeded; for lists, whose items were then not looked at, it may also be that the value
/// does not fit, and for services that a method is no function.
pub open spec fn is_stack_error(text: Seq<char>, message: Seq<char>) -> bool {
    &&& is_annotated(text)
    &&& {
        ||| first_occurrence(message, "Recursion limit exceeded"@, 0) is Some
        ||| has_list_types(text) && first_occurrence(message, " be of type "@, 0) is Some
        ||| has_list_types(text) && first_occurrence(message, "is a non-function type"@, 0) is Some
    }
}

/// Calls `candid_parser::parse_idl_args`. The values that it gives depend on the text alone,
/// and so does the error, except where a type stands behind a value: fitting the value to
/// its type (`IDLValue::annotate_type`) first looks at the stack that is left, and gives up
/// with a message of its own below 32 KiB. `Type::is_blob` and `check_meths` turn that
/// message into others.
///
/// Texts on which it would stop the program are left out, and with them deep nesting. What
/// is left of the caller's stack is not looked at: with next to nothing of it left, looking
/// up the type of a field that a record lacks stops the program, as running out of stack
/// does anywhere.
#[verifier::external_body]
fn parse_values(text: &str) -> (r: Result<Vec<IDLValue>, String>)
    requires
        are_values_readable(text@),
    ensures
        match r {
            Ok(values) => candid_values(text@) == Ok::<Seq<CandidModel>, Seq<char>>(
                idl_models(values@),
            ),
            Err(message) => is_stack_error(text@, message@) || candid_values(text@) == Err::<
                Seq<CandidModel>,
                Seq<char>,
            >(message@),
        },
{
    candid_parser::parse_idl_args(text).map(|list| list.args).map_err(|error| error.to_string())
}

/// The Candid text in the JSON envelope that the command line client prints, or the
/// message for an envelope without one.
pub open spec fn envelope_text(envelope: JsonModel) -> Result<Seq<char>, Seq<char>> {
    match text_field(envelope, "response_candid"@) {
        Some(text) => Ok(text),
        None => Err("icp-cli returned no Candid response: "@ + json_text(envelope)),
    }
}

/// The document of a reply, as read from its Candid text with stack enough.
pub open spec fn text_reply(text: Seq<char>) -> Result<JsonModel, Seq<char>> {
    match candid_values(text) {
        Ok(values) => Ok(reply_json(values)),
        Err(message) => Err("invalid Candid response: "@ + message),
    }
}

/// The message for a text that is not read.
pub const UNREADABLE_TEXT: &'static str = "the Candid text cannot be read";

/// The message for a contract that is not read.
pub const UNREADABLE_CONTRACT: &'static str = "the Candid contract cannot be read";

/// What can come of reading a Candid text: its document or its error, or, where a type
/// stands behind a value, that the stack was too small for it. A text on which the parser
/// would stop the program is not read.
pub open spec fn is_text_reply(text: Seq<char>, r: Result<JsonModel, Seq<char>>) -> bool {
    if !are_values_readable(text) {
        r == Err::<JsonModel, Seq<char>>("invalid Candid response: "@ + UNREADABLE_TEXT@)
    } else {
        ||| r == text_reply(text)
        ||| exists|error: Seq<char>| #[trigger]
            is_stack_error(text, error) && r == Err::<JsonModel, Seq<char>>(
                "invalid Candid response: "@ + error,
            )
    }
}

/// What can come of reading what the command line client printed.
pub open spec fn is_printed_reply(output: Seq<u8>, r: Result<JsonModel, Seq<char>>) -> bool {
    match json_document(output) {
        Err(message) => r == Err::<JsonModel, Seq<char>>("invalid icp-cli JSON: "@ + message),
        Ok(envelope) => match envelope_text(envelope) {
            Err(message) => r == Err::<JsonModel, Seq<char>>(message),
            Ok(text) => is_text_reply(text, r),
        },
    }
}

/// The model of a document or an error.
pub open spec fn outcome(r: Result<Json, String>) -> Result<JsonModel, Seq<char>> {
    match r {
        Ok(document) => Ok(document@),
        Err(message) => Err(message@),
    }
}

/// The Candid text in the envelope of a printed reply.
pub fn read_envelope(envelope: &Json) -> (r: Result<&str, String>)
    ensures
        match r {
            Ok(text) => envelope_text(envelope@) == Ok::<Seq<char>, Seq<char>>(text@),
            Err(message) => envelope_text(envelope@) == Err::<Seq<char>, Seq<char>>(message@),
        },
{
    match envelope.text_at("response_candid") {
        Some(text) => Ok(text),
        None => {
            let mut message = "icp-cli returned no Candid response: ".to_owned();
            message.append(envelope.to_text().as_str());
            Err(message)
        },
    }
}

/// The document of a parsed reply, or the message for one that could not be parsed.
pub fn reply_of_parsed(parsed: Result<Vec<IDLValue>, String>) -> (r: Result<Json, String>)
    ensures
        outcome(r) == (match parsed {
            Ok(values) => Ok(reply_json(idl_models(values@))),
            Err(error) => Err("invalid Candid response: "@ + error@),
        }),
{
    match parsed {
        Ok(values) => Ok(reply_document(&values)),
        Err(error) => {
            let mut message = "invalid Candid response: ".to_owned();
            message.append(error.as_str());
            Err(message)
        },
    }
}

/// Reads a reply from its Candid text.
pub fn read_candid_reply(text: &str) -> (r: Result<Json, String>)
    ensures
        is_text_reply(text@, outcome(r)),
{
    if check_values(text) {
        reply_of_parsed(parse_values(text))
    } else {
        reply_of_parsed(Err(UNREADABLE_TEXT.to_owned()))
    }
}

/// Reads a reply that the command line client printed.
pub fn read_printed_reply(output: &[u8]) -> (r: Result<Json, String>)
    ensures
        is_printed_reply(output@, outcome(r)),
{
    match Json::parse(output) {
        Err(error) => {
            let mut message = "invalid icp-cli JSON: ".to_owned();
            message.append(error.as_str());
            Err(message)
        },
        Ok(envelope) => match read_envelope(&envelope) {
            Err(message) => Err(message),
            Ok(text) => read_candid_reply(text),
        },
    }
}

/// The text of the error that `str::parse::<IDLProg>` gives for a contract, if it gives one.
pub uninterp spec fn contract_error(did: Seq<char>) -> Option<Seq<char>>;

/// What `TypeEnv::get_method` finds in a contract under the name of a method: whether it is
/// a query, how many parameters it has and how many results; nothing where the contract
/// declares no service.
pub uninterp spec fn declared_method(did: Seq<char>, method: Seq<char>) -> Option<
    (bool, nat, nat),
>;

/// What `IDLArgs::to_bytes_with_types` writes for the arguments of a call.
pub uninterp spec fn argument_bytes(
    did: Seq<char>,
    method: Seq<char>,
    argument: Seq<char>,
) -> Seq<u8>;

/// The texts of the errors that encoding a call can give, whatever stack is left to it.
pub uninterp spec fn request_errors(
    did: Seq<char>,
    method: Seq<char>,
    argument: Seq<char>,
) -> Set<Seq<char>>;

/// The form of a call: whether the method is a query, and the encoded arguments; nothing
/// where the contract declares no service.
pub open spec fn request_form(did: Seq<char>, method: Seq<char>, argument: Seq<char>) -> Option<
    (bool, Seq<u8>),
> {
    match declared_method(did, method) {
        Some((query, _, _)) => Some((query, argument_bytes(did, method, argument))),
        None => None,
    }
}

/// A call can be encoded: the contract is one, it declares the method, and the text of the
/// arguments has a value for each parameter.
pub open spec fn is_callable(did: Seq<char>, method: Seq<char>, argument: Seq<char>) -> bool {
    &&& contract_error(did) is None
    &&& declared_method(did, method) matches Some((_, parameters, _))
    &&& candid_values(argument) matches Ok(values)
    &&& values.len() >= parameters
}

/// Binary Candid starts with these letters.
pub open spec fn has_candid_magic(bytes: Seq<u8>) -> bool {
    bytes.len() >= 4 && bytes.take(4) == seq![0x44u8, 0x49u8, 0x44u8, 0x4cu8]
}

/// Encodes the arguments of a call: parses the contract with `str::parse::<IDLProg>` and
/// `check_prog`, finds the method with `TypeEnv::get_method`, and encodes what
/// `parse_idl_args` reads with `IDLArgs::to_bytes_with_types`, which wants a value for each
/// parameter and begins with the letters `DIDL`.
///
/// What is encoded depends on the three texts alone, and a contract that does not parse
/// gives the error of its parser. Of the other errors it is only said that they are among
/// those that the three texts can give: the type checker gives up on recursion where little
/// stack is left, and may then report anything. Texts on which a parser would stop the
/// program are left out, and arguments that could not be printed in an error; the caller's
/// stack is not looked at, as in [`parse_values`].
#[verifier::external_body]
fn encode_request(did: &str, method: &str, argument: &str) -> (r: Result<
    Option<(bool, Vec<u8>)>,
    String,
>)
    requires
        is_contract_readable(did@),
        are_arguments_readable(argument@),
    ensures
        match r {
            Ok(Some((query, bytes))) => {
                &&& is_callable(did@, method@, argument@)
                &&& has_candid_magic(bytes@)
                &&& bytes@ == argument_bytes(did@, method@, argument@)
                &&& declared_method(did@, method@) matches Some((declared, _, _))
                &&& declared == query
            },
            Ok(None) => contract_error(did@) is None && declared_method(did@, method@) is None,
            Err(message) => {
                &&& contract_error(did@) matches Some(error) ==> message@ == error
                &&& request_errors(did@, method@, argument@).contains(message@)
            },
        },
{
    let ast = did.parse::<candid_parser::IDLProg>().map_err(|error| error.to_string())?;
    let mut env = candid_parser::TypeEnv::new();
    let checked = candid_parser::check_prog(&mut env, &ast).map_err(|error| error.to_string())?;
    let Some(actor) = checked else { return Ok(None) };
    let signature = env.get_method(&actor, method).map_err(|error| error.to_string())?;
    let values = candid_parser::parse_idl_args(argument).map_err(|error| error.to_string())?;
    let bytes = values.to_bytes_with_types(&env, &signature.args);
    Ok(Some((signature.is_query(), bytes.map_err(|error| error.to_string())?)))
}

/// What `IDLArgs::from_bytes_with_types_with_config` reads from the reply to a call with
/// stack and quota enough: a value for each result, or nothing where it gives an error.
pub uninterp spec fn reply_values(
    did: Seq<char>,
    method: Seq<char>,
    bytes: Seq<u8>,
) -> Option<Seq<CandidModel>>;

/// The texts of the errors that decoding a reply under a quota can give, whatever stack is
/// left to it.
pub uninterp spec fn reply_errors(
    did: Seq<char>,
    method: Seq<char>,
    bytes: Seq<u8>,
    quota: nat,
) -> Set<Seq<char>>;

/// A value is another one, except that options in it may be absent.
pub open spec fn agrees(full: CandidModel, value: CandidModel) -> bool
    decreases full,
{
    ||| value == full
    ||| full is Opt && value is Absent
    ||| match (full, value) {
        (CandidModel::Opt(a), CandidModel::Opt(b)) => agrees(*a, *b),
        (CandidModel::Vec(a), CandidModel::Vec(b)) => agree(a, b),
        (CandidModel::Record(a), CandidModel::Record(b)) => fields_agree(a, b),
        (CandidModel::Variant(l, a), CandidModel::Variant(m, b)) => l == m && agrees(*a, *b),
        _ => false,
    }
}

/// Values are others, one by one, except that options in them may be absent.
pub open spec fn agree(full: Seq<CandidModel>, values: Seq<CandidModel>) -> bool
    decreases full,
{
    if full.len() == 0 {
        values.len() == 0
    } else {
        &&& values.len() > 0
        &&& agree(full.drop_last(), values.drop_last())
        &&& agrees(full.last(), values.last())
    }
}

/// Fields are others, one by one, except that options in them may be absent.
pub open spec fn fields_agree(
    full: Seq<(LabelModel, CandidModel)>,
    fields: Seq<(LabelModel, CandidModel)>,
) -> bool
    decreases full,
{
    if full.len() == 0 {
        fields.len() == 0
    } else {
        &&& fields.len() > 0
        &&& fields_agree(full.drop_last(), fields.drop_last())
        &&& full.last().0 == fields.last().0
        &&& agrees(full.last().1, fields.last().1)
    }
}

/// These values can be the reply to a call of a method: the contract is one and declares
/// the method, the bytes start as binary Candid does, and there is a value for each result.
/// Where the bytes hold values at all, `held`, they are these except that options in them
/// may be absent.
pub open spec fn is_reply(
    did: Seq<char>,
    method: Seq<char>,
    bytes: Seq<u8>,
    held: Option<Seq<CandidModel>>,
    values: Seq<CandidModel>,
) -> bool {
    &&& contract_error(did) is None
    &&& declared_method(did, method) matches Some((_, _, results))
    &&& has_candid_magic(bytes)
    &&& values.len() == results
    &&& held matches Some(full) ==> agree(full, values)
}

/// This message can come of a call of a method that `errors` can fail: the error of the
/// contract's parser, one of the errors, or that the contract declares no service.
pub open spec fn is_call_error(
    did: Seq<char>,
    method: Seq<char>,
    errors: Set<Seq<char>>,
    message: Seq<char>,
) -> bool {
    match contract_error(did) {
        Some(error) => message == error,
        None => errors.contains(message) || declared_method(did, method) is None && message
            == "Candid contract has no service actor"@,
    }
}

/// How much work goes into decoding a reply of so many bytes.
pub open spec fn reply_quota(bytes: nat) -> nat {
    if 1_000_000 + 100 * bytes <= usize::MAX {
        1_000_000 + 100 * bytes
    } else {
        usize::MAX as nat
    }
}

/// Decodes the reply to a call with `IDLArgs::from_bytes_with_types_with_config`, against
/// the result types that `TypeEnv::get_method` finds for the method in the contract: one
/// value for each, from bytes that start with the letters `DIDL`. A contract that does not
/// parse gives the error of its parser, `str::parse::<IDLProg>`.
///
/// The decoder counts its work against the quota, as `DecoderConfig::set_skipping_quota` has
/// it count what it reads to an `IDLValue` or skips, and gives an error where there is more.
/// With little stack left it reads an option as absent, or gives up. So the values are
/// those that the bytes hold but for options, where the bytes hold values at all, and of the
/// errors it is only said that they are among those that the arguments can give. Contracts
/// that would stop the program are left out.
#[verifier::external_body]
fn decode_values(did: &str, method: &str, bytes: &[u8], quota: usize) -> (r: Result<
    Option<Vec<IDLValue>>,
    String,
>)
    requires
        is_contract_decodable(did@),
    ensures
        match r {
            Ok(Some(values)) => is_reply(
                did@,
                method@,
                bytes@,
                reply_values(did@, method@, bytes@),
                idl_models(values@),
            ),
            Ok(None) => contract_error(did@) is None && declared_method(did@, method@) is None,
            Err(message) => {
                &&& contract_error(did@) matches Some(error) ==> message@ == error
                &&& reply_errors(did@, method@, bytes@, quota as nat).contains(message@)
            },
        },
{
    let ast = did.parse::<candid_parser::IDLProg>().map_err(|error| error.to_string())?;
    let mut env = candid_parser::TypeEnv::new();
    let checked = candid_parser::check_prog(&mut env, &ast).map_err(|error| error.to_string())?;
    let Some(actor) = checked else { return Ok(None) };
    let signature = env.get_method(&actor, method).map_err(|error| error.to_string())?;
    let mut config = candid_parser::DecoderConfig::new();
    config.set_skipping_quota(quota);
    let types = &signature.rets;
    let decoded = IDLArgs::from_bytes_with_types_with_config(bytes, &env, types, &config);
    Ok(Some(decoded.map_err(|error| error.to_string())?.args))
}

/// A call, ready to be sent.
#[derive(Debug)]
pub struct Request {
    pub query: bool,
    pub bytes: Vec<u8>,
}

/// The call that an encoded form describes; a message where the contract declares no
/// service, and the error where nothing was encoded.
pub fn request_of_form(form: Result<Option<(bool, Vec<u8>)>, String>) -> (r: Result<
    Request,
    String,
>)
    ensures
        match form {
            Ok(Some((query, bytes))) => r matches Ok(request) && request.query == query
                && request.bytes@ == bytes@,
            Ok(None) => r matches Err(message) && message@
                == "Candid contract has no service actor"@,
            Err(error) => r matches Err(message) && message@ == error@,
        },
{
    match form {
        Ok(Some((query, bytes))) => Ok(Request { query, bytes }),
        Ok(None) => Err("Candid contract has no service actor".to_owned()),
        Err(error) => Err(error),
    }
}

/// Encodes a call of `method`, which the contract `did` declares.
///
/// A contract or arguments on which a parser would stop the program are not read, and a
/// contract that does not parse gives the error of its parser. Which other calls fail is not
/// stated, as it rests on the type checker of `candid_parser` and the stack that is left to
/// it; what is returned for each outcome is stated by [`request_of_form`].
pub fn prepare_call(did: &str, method: &str, argument: &str) -> (r: Result<Request, String>)
    ensures
        match r {
            Ok(request) => {
                &&& is_contract_readable(did@)
                &&& are_arguments_readable(argument@)
                &&& is_callable(did@, method@, argument@)
                &&& has_candid_magic(request.bytes@)
                &&& request_form(did@, method@, argument@) == Some(
                    (request.query, request.bytes@),
                )
            },
            Err(message) => if !is_contract_readable(did@) {
                message@ == UNREADABLE_CONTRACT@
            } else if !are_arguments_readable(argument@) {
                message@ == UNREADABLE_TEXT@
            } else {
                is_call_error(did@, method@, request_errors(did@, method@, argument@), message@)
            },
        },
{
    if !check_contract(did) {
        request_of_form(Err(UNREADABLE_CONTRACT.to_owned()))
    } else if !check_arguments(argument) {
        request_of_form(Err(UNREADABLE_TEXT.to_owned()))
    } else {
        request_of_form(encode_request(did, method, argument))
    }
}

/// The document of a decoded reply; a message where the contract declares no service, and
/// the error where nothing was decoded.
pub fn document_of_values(values: Result<Option<Vec<IDLValue>>, String>) -> (r: Result<
    Json,
    String,
>)
    ensures
        outcome(r) == (match values {
            Ok(Some(list)) => Ok(reply_json(idl_models(list@))),
            Ok(None) => Err("Candid contract has no service actor"@),
            Err(error) => Err(error@),
        }),
{
    match values {
        Ok(Some(list)) => Ok(reply_document(&list)),
        Ok(None) => Err("Candid contract has no service actor".to_owned()),
        Err(error) => Err(error),
    }
}

/// Decodes the reply to a call of `method`: the document of its first value.
///
/// A contract that would stop the program is not read, and one that does not parse gives
/// the error of its parser. A reply whose decoding is more work than [`reply_quota`] is given
/// up. Which other replies fail, and whether an option comes out
/// absent, is not stated, as it rests on the decoder of `candid` and the stack that is left
/// to it; what is returned for each outcome is stated by [`document_of_values`].
pub fn decode_reply(did: &str, method: &str, bytes: &[u8]) -> (r: Result<Json, String>)
    ensures
        match r {
            Ok(document) => is_contract_decodable(did@) && exists|values: Seq<CandidModel>|
                #[trigger] is_reply(
                    did@,
                    method@,
                    bytes@,
                    reply_values(did@, method@, bytes@),
                    values,
                ) && document@ == reply_json(values),
            Err(message) => if !is_contract_decodable(did@) {
                message@ == UNREADABLE_CONTRACT@
            } else {
                is_call_error(
                    did@,
                    method@,
                    reply_errors(did@, method@, bytes@, reply_quota(bytes@.len())),
                    message@,
                )
            },
        },
{
    if check_decoding(did) {
        let quota: usize = if bytes.len() <= (usize::MAX - 1_000_000) / 100 {
            1_000_000 + 100 * bytes.len()
        } else {
            usize::MAX
        };
        document_of_values(decode_values(did, method, bytes, quota))
    } else {
        document_of_values(Err(UNREADABLE_CONTRACT.to_owned()))
    }
}

} // verus!
