//! The upload of one pack.
//!
//! A pack that the canister has indexed completely is passed over. Any other is
//! verified, announced, sent in chunks unless the canister has them all, and indexed.
use vstd::prelude::*;

use crate::action::{
    accepted, accepts, call_models, confused, find_rejection, first_rejected, give_up, maybe_action,
    reject, rejection, Action, ActionModel, Call, CallModel, Event, EventModel, Repository,
};
use crate::json::{bool_field, field, Json, JsonModel};
use crate::pack::{
    begin_pack, begin_pack_call, chunk_calls, chunk_requests, index_calls, index_requests,
    indexed_already, listed_metadata, metadata_models, pack_id, pack_name, pack_object_metadata,
    part_call, part_request, read_indexed, MetadataModel, PackObjectMetadata, CHECKSUM_LENGTH,
};
use crate::text::{lines, lossy, same_text, texts};
use crate::transport::TransportCapabilities;

verus! {

/// Where the upload of a pack stands: what the last action was for.
#[derive(Clone, Copy, Debug, PartialEq, Eq, Structural)]
pub enum PackStage {
    Counting,
    Verifying,
    Reading,
    Announcing,
    Sending,
    Finalizing,
    Listing,
    Starting,
    Indexing,
    Complete,
    Stopped,
}

/// The upload of one pack.
pub struct PackUpload {
    pub id: String,
    pub objects: Vec<PackObjectMetadata>,
    pub bytes: Vec<u8>,
    pub calls: Vec<Call>,
    pub stage: PackStage,
}

/// The model of the upload of one pack.
pub struct PackModel {
    pub id: Seq<char>,
    pub objects: Seq<MetadataModel>,
    pub bytes: Seq<u8>,
    pub calls: Seq<CallModel>,
    pub stage: PackStage,
}

impl View for PackUpload {
    type V = PackModel;

    open spec fn view(&self) -> PackModel {
        PackModel {
            id: self.id@,
            objects: metadata_models(self.objects@),
            bytes: self.bytes@,
            calls: call_models(self.calls@),
            stage: self.stage,
        }
    }
}

/// The beginning of an upload: the objects in the local index are counted.
pub open spec fn pack_start(id: Seq<char>) -> (PackModel, ActionModel) {
    (
        PackModel {
            id,
            objects: seq![],
            bytes: seq![],
            calls: seq![],
            stage: PackStage::Counting,
        },
        ActionModel::CountObjects(id),
    )
}

/// The upload of the same pack at another stage.
pub open spec fn pack_at(s: PackModel, stage: PackStage) -> PackModel {
    PackModel { stage, ..s }
}

/// The end of an upload without success.
pub open spec fn pack_stop(s: PackModel, action: ActionModel) -> (PackModel, Option<ActionModel>) {
    (pack_at(s, PackStage::Stopped), Some(action))
}

/// The canister says of an announced object or pack that it has all of it.
pub open spec fn complete_already(reply: JsonModel) -> Option<bool> {
    match field(reply, "ok"@) {
        Some(value) => bool_field(value, "complete"@),
        None => None,
    }
}

/// After counting: nothing is left to do where the canister has indexed as many objects
/// as there are.
pub open spec fn pack_counted(
    s: PackModel,
    remote: Option<usize>,
    local: Option<usize>,
) -> (PackModel, Option<ActionModel>) {
    if remote is Some && local is Some && remote == local {
        (pack_at(s, PackStage::Complete), None)
    } else {
        (pack_at(s, PackStage::Verifying), Some(ActionModel::VerifyPack(s.id)))
    }
}

/// After reading: the pack is announced if it is what its id says.
pub open spec fn pack_read(
    at: (Seq<char>, Seq<char>),
    s: PackModel,
    bytes: Seq<u8>,
) -> (PackModel, Option<ActionModel>) {
    if bytes.len() < CHECKSUM_LENGTH {
        pack_stop(s, ActionModel::Abort("a pack is shorter than its checksum"@))
    } else if pack_name(bytes) != s.id {
        pack_stop(s, ActionModel::Fail("local pack checksum mismatch: "@ + s.id))
    } else {
        (
            PackModel { bytes, ..pack_at(s, PackStage::Announcing) },
            Some(ActionModel::Call(begin_pack_call(at, s.id, bytes.len()))),
        )
    }
}

/// Asks what the canister has indexed.
pub open spec fn pack_list(
    at: (Seq<char>, Seq<char>),
    s: PackModel,
) -> (PackModel, Option<ActionModel>) {
    (
        pack_at(s, PackStage::Listing),
        Some(ActionModel::Call(part_call("list_pack_objects"@, at, s.id))),
    )
}

/// After announcing: the chunks are sent unless the canister has them all.
pub open spec fn pack_announced(
    at: (Seq<char>, Seq<char>),
    capabilities: TransportCapabilities,
    s: PackModel,
    reply: JsonModel,
) -> (PackModel, Option<ActionModel>) {
    if complete_already(reply) == Some(true) {
        pack_list(at, PackModel { bytes: seq![], ..s })
    } else {
        (
            PackModel { bytes: seq![], ..pack_at(s, PackStage::Sending) },
            Some(ActionModel::Calls(chunk_calls(at, s.id, s.bytes, capabilities))),
        )
    }
}

/// After listing: what is not indexed is. On a transport that takes batches in any order
/// the call that starts the index goes first and alone.
pub open spec fn pack_listed(
    at: (Seq<char>, Seq<char>),
    capabilities: TransportCapabilities,
    s: PackModel,
    reply: JsonModel,
) -> (PackModel, Option<ActionModel>) {
    let already = indexed_already(reply);
    let calls = index_calls(at, s.id, capabilities, s.objects, already);
    if capabilities.version < 2 {
        (pack_at(s, PackStage::Indexing), Some(ActionModel::Sequence(calls)))
    } else if already.len() == 0 && calls.len() > 0 {
        (
            PackModel { calls: calls.drop_first(), ..pack_at(s, PackStage::Starting) },
            Some(ActionModel::Call(calls[0])),
        )
    } else {
        (pack_at(s, PackStage::Indexing), Some(ActionModel::Calls(calls)))
    }
}

/// The upload after an event, and the next action; none once the pack is done. `remote`
/// is the number of objects of the pack that the canister has indexed.
pub open spec fn pack_next(
    at: (Seq<char>, Seq<char>),
    capabilities: TransportCapabilities,
    remote: Option<usize>,
    s: PackModel,
    event: EventModel,
) -> (PackModel, Option<ActionModel>) {
    match (s.stage, event) {
        (PackStage::Counting, EventModel::Count(local)) => pack_counted(s, remote, local),
        (PackStage::Verifying, EventModel::Output(output)) => (
            PackModel {
                objects: listed_metadata(lines(lossy(output))),
                ..pack_at(s, PackStage::Reading)
            },
            Some(ActionModel::ReadPack(s.id)),
        ),
        (PackStage::Reading, EventModel::Output(bytes)) => pack_read(at, s, bytes),
        (PackStage::Announcing, EventModel::Reply(reply)) => pack_announced(
            at,
            capabilities,
            s,
            reply,
        ),
        (PackStage::Sending, EventModel::Replies(replies)) => match first_rejected(replies) {
            Some(reply) => pack_stop(s, rejection("chunk upload rejected: "@, reply)),
            None => (
                pack_at(s, PackStage::Finalizing),
                Some(ActionModel::Call(part_call("finalize_pack"@, at, s.id))),
            ),
        },
        (PackStage::Finalizing, EventModel::Reply(reply)) => if accepted(reply) {
            pack_list(at, s)
        } else {
            pack_stop(s, rejection("pack finalization rejected: "@, reply))
        },
        (PackStage::Listing, EventModel::Reply(reply)) => pack_listed(at, capabilities, s, reply),
        (PackStage::Starting, EventModel::Reply(reply)) => if accepted(reply) {
            (
                PackModel { calls: seq![], ..pack_at(s, PackStage::Indexing) },
                Some(ActionModel::Calls(s.calls)),
            )
        } else {
            pack_stop(s, rejection("pack index batch rejected: "@, reply))
        },
        (PackStage::Indexing, EventModel::Replies(replies)) => match first_rejected(replies) {
            Some(reply) => pack_stop(s, rejection("pack index batch rejected: "@, reply)),
            None => (pack_at(s, PackStage::Complete), None),
        },
        _ => pack_stop(s, confused()),
    }
}

impl PackUpload {
    /// Starts the upload of the pack `id`.
    pub fn start(id: &str) -> (r: (PackUpload, Action))
        ensures
            (r.0@, r.1@) == pack_start(id@),
    {
        let upload = PackUpload {
            id: id.to_owned(),
            objects: Vec::new(),
            bytes: Vec::new(),
            calls: Vec::new(),
            stage: PackStage::Counting,
        };
        assert(metadata_models(upload.objects@) =~= seq![]);
        assert(upload.bytes@ =~= seq![]);
        assert(call_models(upload.calls@) =~= seq![]);
        (upload, Action::CountObjects(id.to_owned()))
    }

    fn stop(&mut self, action: Action) -> (r: Option<Action>)
        ensures
            (final(self)@, maybe_action(r)) == pack_stop(old(self)@, action@),
    {
        self.stage = PackStage::Stopped;
        Some(action)
    }

    fn read(&mut self, at: &Repository, bytes: Vec<u8>) -> (r: Option<Action>)
        ensures
            (final(self)@, maybe_action(r)) == pack_read(at@, old(self)@, bytes@),
    {
        if bytes.len() < CHECKSUM_LENGTH {
            return self.stop(Action::Abort("a pack is shorter than its checksum".to_owned()));
        }
        if !same_text(pack_id(bytes.as_slice()).as_str(), self.id.as_str()) {
            let mut message = "local pack checksum mismatch: ".to_owned();
            message.append(self.id.as_str());
            return self.stop(Action::Fail(message));
        }
        let call = begin_pack(at, self.id.as_str(), bytes.len());
        self.bytes = bytes;
        self.stage = PackStage::Announcing;
        Some(Action::Call(call))
    }

    fn list(&mut self, at: &Repository) -> (r: Option<Action>)
        ensures
            (final(self)@, maybe_action(r)) == pack_list(at@, old(self)@),
    {
        let call = part_request("list_pack_objects", at, self.id.as_str());
        self.stage = PackStage::Listing;
        Some(Action::Call(call))
    }

    fn announced(
        &mut self,
        at: &Repository,
        capabilities: &TransportCapabilities,
        reply: &Json,
    ) -> (r: Option<Action>)
        ensures
            (final(self)@, maybe_action(r)) == pack_announced(at@, *capabilities, old(self)@, reply@),
    {
        if has_all(reply) == Some(true) {
            self.bytes = Vec::new();
            assert(self.bytes@ =~= seq![]);
            return self.list(at);
        }
        let calls = chunk_requests(at, self.id.as_str(), self.bytes.as_slice(), capabilities);
        self.bytes = Vec::new();
        assert(self.bytes@ =~= seq![]);
        self.stage = PackStage::Sending;
        Some(Action::Calls(calls))
    }

    fn listed(
        &mut self,
        at: &Repository,
        capabilities: &TransportCapabilities,
        reply: &Json,
    ) -> (r: Option<Action>)
        requires
            capabilities.max_pack_index_batch_items > 0,
        ensures
            (final(self)@, maybe_action(r)) == pack_listed(at@, *capabilities, old(self)@, reply@),
    {
        let already = read_indexed(reply);
        let mut calls = index_requests(
            at,
            self.id.as_str(),
            capabilities,
            &self.objects,
            &already,
        );
        let ghost all = call_models(calls@);
        assert(texts(already@).len() == already@.len());
        if capabilities.version < 2 {
            self.stage = PackStage::Indexing;
            Some(Action::Sequence(calls))
        } else if already.len() == 0 && calls.len() > 0 {
            let first = calls.remove(0);
            assert(call_models(calls@) =~= all.drop_first());
            self.calls = calls;
            self.stage = PackStage::Starting;
            Some(Action::Call(first))
        } else {
            self.stage = PackStage::Indexing;
            Some(Action::Calls(calls))
        }
    }

    /// Takes the answer to the last action and gives the next one; none once the pack is
    /// done.
    pub fn step(
        &mut self,
        at: &Repository,
        capabilities: &TransportCapabilities,
        remote: Option<usize>,
        event: Event,
    ) -> (r: Option<Action>)
        requires
            capabilities.max_pack_index_batch_items > 0,
        ensures
            (final(self)@, maybe_action(r)) == pack_next(at@, *capabilities, remote, old(self)@, event@),
    {
        match (self.stage, event) {
            (PackStage::Counting, Event::Count(local)) => {
                if remote.is_some() && local.is_some() && remote == local {
                    self.stage = PackStage::Complete;
                    None
                } else {
                    let action = Action::VerifyPack(self.id.clone());
                    self.stage = PackStage::Verifying;
                    Some(action)
                }
            },
            (PackStage::Verifying, Event::Output(output)) => {
                let action = Action::ReadPack(self.id.clone());
                self.objects = pack_object_metadata(output.as_slice());
                self.stage = PackStage::Reading;
                Some(action)
            },
            (PackStage::Reading, Event::Output(bytes)) => self.read(at, bytes),
            (PackStage::Announcing, Event::Reply(reply)) => self.announced(
                at,
                capabilities,
                &reply,
            ),
            (PackStage::Sending, Event::Replies(replies)) => match find_rejection(&replies) {
                Some(reply) => self.stop(reject("chunk upload rejected: ", reply)),
                None => {
                    let call = part_request("finalize_pack", at, self.id.as_str());
                    self.stage = PackStage::Finalizing;
                    Some(Action::Call(call))
                },
            },
            (PackStage::Finalizing, Event::Reply(reply)) => if accepts(&reply) {
                self.list(at)
            } else {
                self.stop(reject("pack finalization rejected: ", &reply))
            },
            (PackStage::Listing, Event::Reply(reply)) => self.listed(at, capabilities, &reply),
            (PackStage::Starting, Event::Reply(reply)) => if accepts(&reply) {
                let mut calls: Vec<Call> = Vec::new();
                std::mem::swap(&mut self.calls, &mut calls);
                assert(call_models(self.calls@) =~= seq![]);
                self.stage = PackStage::Indexing;
                Some(Action::Calls(calls))
            } else {
                self.stop(reject("pack index batch rejected: ", &reply))
            },
            (PackStage::Indexing, Event::Replies(replies)) => match find_rejection(&replies) {
                Some(reply) => self.stop(reject("pack index batch rejected: ", reply)),
                None => {
                    self.stage = PackStage::Complete;
                    None
                },
            },
            _ => self.stop(give_up()),
        }
    }
}

/// Reads from the answer to an announcement whether the canister has all of it.
pub fn has_all(reply: &Json) -> (r: Option<bool>)
    ensures
        r == complete_already(reply@),
{
    match reply.get("ok") {
        Some(value) => value.bool_at("complete"),
        None => None,
    }
}

} // verus!
