//! What the operations ask the outside world to do, and what it answers.
//!
//! An operation is a state machine: each step takes an [`Event`], the answer to the
//! action before, and gives the next [`Action`]. Whoever runs the machine performs the
//! action on the canister and the local repository and hands the answer back.
use vstd::prelude::*;

use crate::json::{field, json_text, models_are_memberwise, Json, JsonModel};
use crate::text::{join_texts, joined, maybe_string, texts};
use crate::transport::maybe_bytes;

verus! {

/// A repository on its canister.
#[derive(Debug)]
pub struct Repository {
    pub owner: String,
    pub name: String,
}

impl View for Repository {
    type V = (Seq<char>, Seq<char>);

    open spec fn view(&self) -> (Seq<char>, Seq<char>) {
        (self.owner@, self.name@)
    }
}

/// A call of a canister's method.
#[derive(Debug)]
pub struct Call {
    pub method: String,
    pub argument: String,
}

/// The model of a call.
pub struct CallModel {
    pub method: Seq<char>,
    pub argument: Seq<char>,
}

impl View for Call {
    type V = CallModel;

    open spec fn view(&self) -> CallModel {
        CallModel { method: self.method@, argument: self.argument@ }
    }
}

/// The models of a list of calls.
pub open spec fn call_models(calls: Seq<Call>) -> Seq<CallModel> {
    Seq::new(calls.len(), |i: int| calls[i]@)
}

/// What to do next. The comment on each variant names the event that answers it.
#[derive(Debug)]
pub enum Action {
    /// Make a call: `Reply`.
    Call(Call),
    /// Make calls at the same time: `Replies`, in the order of the calls.
    Calls(Vec<Call>),
    /// Make calls one after the other: `Replies`.
    Sequence(Vec<Call>),
    /// Ask for capabilities and make calls, all at the same time: `Negotiated`.
    Negotiate(Vec<Call>),
    /// List the local refs: `Output`.
    ListRefs,
    /// List the objects that these arguments of `git rev-list` select: `Listed`.
    ListObjects(Vec<String>),
    /// List all objects: `Output`.
    ListAllObjects,
    /// Read these objects with `git cat-file --batch`: `Stream`.
    ReadObjects(Vec<String>),
    /// Pack these objects: `Output`.
    PackObjects(Vec<String>),
    /// Pack everything anew: `Names`, the ids of the packs that there are then.
    Repack,
    /// Count the objects in the index of a pack: `Count`.
    CountObjects(String),
    /// Verify a pack: `Output`.
    VerifyPack(String),
    /// Read a pack: `Output`.
    ReadPack(String),
    /// See that there is a place for packs: `Done`.
    PreparePacks,
    /// Read the checksum of a pack: `Checksum`.
    ReadChecksum(String),
    /// See whether a pack has an index: `Present`.
    FindIndex(String),
    /// Index a pack: `Done`.
    IndexPack(String),
    /// Start receiving a pack: `Done`.
    OpenIncoming(String),
    /// Append to the pack that is being received: `Done`.
    Append(Vec<u8>),
    /// Read the checksum of the received pack: `Checksum`.
    IncomingChecksum(String),
    /// Throw the received pack away: `Done`.
    DiscardIncoming(String),
    /// Index the received pack: `Done`.
    IndexIncoming(String),
    /// Put the received pack and its index in place: `Done`.
    InstallIncoming(String),
    /// See whether there is an index over all packs: `Present`.
    FindMultiPackIndex,
    /// Write an index over all packs: `Done`.
    WriteMultiPackIndex,
    /// Run a ref transaction: `Done`.
    UpdateRefs(String),
    /// Point `HEAD` at the main branch: `Done`.
    PointHead,
    /// Report the end of a phase: `Done`.
    Mark(String),
    /// The operation is done.
    Finish,
    /// The operation failed, for this reason.
    Fail(String),
    /// The operation came across what should not be.
    Abort(String),
}

/// The model of an action.
pub enum ActionModel {
    Call(CallModel),
    Calls(Seq<CallModel>),
    Sequence(Seq<CallModel>),
    Negotiate(Seq<CallModel>),
    ListRefs,
    ListObjects(Seq<Seq<char>>),
    ListAllObjects,
    ReadObjects(Seq<Seq<char>>),
    PackObjects(Seq<Seq<char>>),
    Repack,
    CountObjects(Seq<char>),
    VerifyPack(Seq<char>),
    ReadPack(Seq<char>),
    PreparePacks,
    ReadChecksum(Seq<char>),
    FindIndex(Seq<char>),
    IndexPack(Seq<char>),
    OpenIncoming(Seq<char>),
    Append(Seq<u8>),
    IncomingChecksum(Seq<char>),
    DiscardIncoming(Seq<char>),
    IndexIncoming(Seq<char>),
    InstallIncoming(Seq<char>),
    FindMultiPackIndex,
    WriteMultiPackIndex,
    UpdateRefs(Seq<char>),
    PointHead,
    Mark(Seq<char>),
    Finish,
    Fail(Seq<char>),
    Abort(Seq<char>),
}

impl View for Action {
    type V = ActionModel;

    open spec fn view(&self) -> ActionModel {
        match *self {
            Action::Call(call) => ActionModel::Call(call@),
            Action::Calls(calls) => ActionModel::Calls(call_models(calls@)),
            Action::Sequence(calls) => ActionModel::Sequence(call_models(calls@)),
            Action::Negotiate(calls) => ActionModel::Negotiate(call_models(calls@)),
            Action::ListRefs => ActionModel::ListRefs,
            Action::ListObjects(args) => ActionModel::ListObjects(texts(args@)),
            Action::ListAllObjects => ActionModel::ListAllObjects,
            Action::ReadObjects(ids) => ActionModel::ReadObjects(texts(ids@)),
            Action::PackObjects(ids) => ActionModel::PackObjects(texts(ids@)),
            Action::Repack => ActionModel::Repack,
            Action::CountObjects(id) => ActionModel::CountObjects(id@),
            Action::VerifyPack(id) => ActionModel::VerifyPack(id@),
            Action::ReadPack(id) => ActionModel::ReadPack(id@),
            Action::PreparePacks => ActionModel::PreparePacks,
            Action::ReadChecksum(id) => ActionModel::ReadChecksum(id@),
            Action::FindIndex(id) => ActionModel::FindIndex(id@),
            Action::IndexPack(id) => ActionModel::IndexPack(id@),
            Action::OpenIncoming(id) => ActionModel::OpenIncoming(id@),
            Action::Append(bytes) => ActionModel::Append(bytes@),
            Action::IncomingChecksum(id) => ActionModel::IncomingChecksum(id@),
            Action::DiscardIncoming(id) => ActionModel::DiscardIncoming(id@),
            Action::IndexIncoming(id) => ActionModel::IndexIncoming(id@),
            Action::InstallIncoming(id) => ActionModel::InstallIncoming(id@),
            Action::FindMultiPackIndex => ActionModel::FindMultiPackIndex,
            Action::WriteMultiPackIndex => ActionModel::WriteMultiPackIndex,
            Action::UpdateRefs(script) => ActionModel::UpdateRefs(script@),
            Action::PointHead => ActionModel::PointHead,
            Action::Mark(phase) => ActionModel::Mark(phase@),
            Action::Finish => ActionModel::Finish,
            Action::Fail(message) => ActionModel::Fail(message@),
            Action::Abort(message) => ActionModel::Abort(message@),
        }
    }
}

/// The answer to an action.
#[derive(Debug)]
pub enum Event {
    Done,
    Reply(Json),
    Replies(Vec<Json>),
    Negotiated(Option<Json>, Vec<Json>),
    Output(Vec<u8>),
    /// What a command printed, and whether it succeeded.
    Stream(Vec<u8>, bool),
    Listed(Option<Vec<u8>>),
    Names(Vec<String>),
    Count(Option<usize>),
    Checksum(Option<String>),
    Present(bool),
}

/// The model of an event.
pub enum EventModel {
    Done,
    Reply(JsonModel),
    Replies(Seq<JsonModel>),
    Negotiated(Option<JsonModel>, Seq<JsonModel>),
    Output(Seq<u8>),
    Stream(Seq<u8>, bool),
    Listed(Option<Seq<u8>>),
    Names(Seq<Seq<char>>),
    Count(Option<usize>),
    Checksum(Option<Seq<char>>),
    Present(bool),
}

/// The model of an optional document.
pub open spec fn maybe_document(document: Option<Json>) -> Option<JsonModel> {
    match document {
        Some(d) => Some(d@),
        None => None,
    }
}

impl View for Event {
    type V = EventModel;

    open spec fn view(&self) -> EventModel {
        match *self {
            Event::Done => EventModel::Done,
            Event::Reply(reply) => EventModel::Reply(reply@),
            Event::Replies(replies) => EventModel::Replies(Json::models(replies@)),
            Event::Negotiated(offer, replies) => EventModel::Negotiated(
                maybe_document(offer),
                Json::models(replies@),
            ),
            Event::Output(bytes) => EventModel::Output(bytes@),
            Event::Stream(bytes, success) => EventModel::Stream(bytes@, success),
            Event::Listed(bytes) => EventModel::Listed(maybe_bytes(bytes)),
            Event::Names(names) => EventModel::Names(texts(names@)),
            Event::Count(count) => EventModel::Count(count),
            Event::Checksum(id) => EventModel::Checksum(maybe_string(id)),
            Event::Present(present) => EventModel::Present(present),
        }
    }
}

/// A canister accepts a call by a reply with the field `ok`.
pub open spec fn accepted(reply: JsonModel) -> bool {
    field(reply, "ok"@) is Some
}

/// Every call was accepted.
pub open spec fn all_accepted(replies: Seq<JsonModel>) -> bool {
    forall|i: int| 0 <= i < replies.len() ==> accepted(#[trigger] replies[i])
}

/// The failure that a rejecting reply means.
pub open spec fn rejection(reason: Seq<char>, reply: JsonModel) -> ActionModel {
    ActionModel::Fail(reason + json_text(reply))
}

/// The first reply that is not an acceptance.
pub open spec fn first_rejected(replies: Seq<JsonModel>) -> Option<JsonModel>
    decreases replies.len(),
{
    if replies.len() == 0 {
        None
    } else if !accepted(replies[0]) {
        Some(replies[0])
    } else {
        first_rejected(replies.drop_first())
    }
}

/// No reply is a rejection exactly where all calls were accepted.
pub proof fn none_rejected_means_all_accepted(replies: Seq<JsonModel>)
    ensures
        first_rejected(replies) is None <==> all_accepted(replies),
    decreases replies.len(),
{
    if replies.len() > 0 {
        let rest = replies.drop_first();
        none_rejected_means_all_accepted(rest);
        if accepted(replies[0]) {
            if all_accepted(rest) {
                assert forall|i: int| 0 <= i < replies.len() implies accepted(
                    #[trigger] replies[i],
                ) by {
                    if i > 0 {
                        assert(accepted(rest[i - 1]));
                    }
                }
            } else {
                let k = choose|k: int| 0 <= k < rest.len() && !accepted(#[trigger] rest[k]);
                assert(!accepted(replies[k + 1]));
            }
        }
    }
}

/// The failure that a rejecting reply means.
pub fn reject(reason: &str, reply: &Json) -> (action: Action)
    ensures
        action@ == rejection(reason@, reply@),
{
    let mut message = reason.to_owned();
    message.append(reply.to_text().as_str());
    Action::Fail(message)
}

/// Whether a reply accepts its call.
pub fn accepts(reply: &Json) -> (r: bool)
    ensures
        r == accepted(reply@),
{
    reply.get("ok").is_some()
}

/// Finds the first reply that is not an acceptance.
pub fn find_rejection<'a>(replies: &'a Vec<Json>) -> (r: Option<&'a Json>)
    ensures
        match r {
            Some(reply) => first_rejected(Json::models(replies@)) == Some(reply@),
            None => first_rejected(Json::models(replies@)) is None,
        },
{
    let ghost models = Json::models(replies@);
    proof {
        models_are_memberwise(replies@);
    }
    let mut i: usize = 0;
    assert(models.skip(0) =~= models);
    while i < replies.len()
        invariant
            i <= replies@.len(),
            models == Json::models(replies@),
            models == Seq::new(replies@.len(), |k: int| replies@[k]@),
            first_rejected(models) == first_rejected(models.skip(i as int)),
        decreases replies.len() - i,
    {
        assert(models.skip(i as int)[0] == replies@[i as int]@);
        assert(models.skip(i as int).drop_first() =~= models.skip(i + 1));
        if !accepts(&replies[i]) {
            return Some(&replies[i]);
        }
        i += 1;
    }
    None
}

/// The beginning of the arguments of every call on a repository.
pub open spec fn address(at: (Seq<char>, Seq<char>)) -> Seq<char> {
    "(principal \""@ + at.0 + "\", \""@ + at.1 + "\""@
}

/// The arguments of a call on a repository as a whole.
pub open spec fn whole(at: (Seq<char>, Seq<char>)) -> Seq<char> {
    address(at) + ")"@
}

/// The beginning of the arguments of a call on a part of a repository.
pub open spec fn part(at: (Seq<char>, Seq<char>), id: Seq<char>) -> Seq<char> {
    address(at) + ", \""@ + id + "\""@
}

/// Writes the beginning of the arguments of a call on a repository.
pub fn address_text(at: &Repository) -> (text: String)
    ensures
        text@ == address(at@),
{
    let mut text = "(principal \"".to_owned();
    text.append(at.owner.as_str());
    text.append("\", \"");
    text.append(at.name.as_str());
    text.append("\"");
    text
}

/// Writes the arguments of a call on a repository as a whole.
pub fn whole_text(at: &Repository) -> (text: String)
    ensures
        text@ == whole(at@),
{
    let mut text = address_text(at);
    text.append(")");
    text
}

/// Writes the beginning of the arguments of a call on a part of a repository.
pub fn part_text(at: &Repository, id: &str) -> (text: String)
    ensures
        text@ == part(at@, id@),
{
    let mut text = address_text(at);
    text.append(", \"");
    text.append(id);
    text.append("\"");
    text
}

/// Texts in quotes.
pub open spec fn quoted(list: Seq<Seq<char>>) -> Seq<Seq<char>> {
    Seq::new(list.len(), |i: int| "\""@ + list[i] + "\""@)
}

/// Texts as a Candid vector.
pub open spec fn vector(list: Seq<Seq<char>>) -> Seq<char> {
    "vec {"@ + joined(list, ";"@) + "}"@
}

/// Puts each of `list[from..to]` in quotes.
pub fn quote_range(list: &Vec<String>, from: usize, to: usize) -> (r: Vec<String>)
    requires
        from <= to <= list@.len(),
    ensures
        texts(r@) == quoted(texts(list@).subrange(from as int, to as int)),
{
    let ghost all = texts(list@);
    let mut r: Vec<String> = Vec::new();
    let mut i: usize = from;
    while i < to
        invariant
            from <= i <= to <= list@.len(),
            all == texts(list@),
            r@.len() == i - from,
            forall|k: int|
                0 <= k < r@.len() ==> #[trigger] r@[k]@ == "\""@ + all[from + k] + "\""@,
        decreases to - i,
    {
        let mut text = "\"".to_owned();
        text.append(list[i].as_str());
        text.append("\"");
        r.push(text);
        i += 1;
    }
    assert(texts(r@) =~= quoted(all.subrange(from as int, to as int)));
    r
}

/// Writes texts as a Candid vector.
pub fn vector_text(list: &Vec<String>) -> (text: String)
    ensures
        text@ == vector(texts(list@)),
{
    let mut text = "vec {".to_owned();
    text.append(join_texts(list, ";").as_str());
    text.append("}");
    text
}

/// The model of an optional action.
pub open spec fn maybe_action(action: Option<Action>) -> Option<ActionModel> {
    match action {
        Some(a) => Some(a@),
        None => None,
    }
}

/// What a machine does when it is handed an event that does not answer its action.
pub open spec fn confused() -> ActionModel {
    ActionModel::Abort("the event does not answer the action"@)
}

/// What a machine does when it is handed an event that does not answer its action.
pub fn give_up() -> (action: Action)
    ensures
        action@ == confused(),
{
    Action::Abort("the event does not answer the action".to_owned())
}

/// The action ends the operation without success.
pub open spec fn stops(action: ActionModel) -> bool {
    action is Fail || action is Abort
}

} // verus!
