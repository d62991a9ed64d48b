//! The upload: what a push does on the canister.
//!
//! The refs and packs of both sides are compared, the missing objects are packed, every
//! pack is sent and indexed, the objects are stored for browsing, and only then the refs
//! are changed. When too many packs have gathered, everything is packed anew, and the
//! obsolete packs are pruned at the end.
use vstd::prelude::*;
use vstd::utf8::encode_utf8;

use crate::action::{
    accepted, accepts, address, address_text, call_models, confused, give_up, maybe_document,
    quote_range, quoted, reject, rejection, vector, vector_text, whole, whole_text, Action,
    ActionModel, Call, CallModel, Event, EventModel, Repository,
};
use crate::browse::{
    browse_next, browse_start, index_browse_objects, maybe_browse, Browse, BrowseModel, BrowseStage,
};
use crate::json::{items_field, models_are_memberwise, Json, JsonModel};
use crate::objects::{
    all_object_ids, changed_object_arguments, changed_object_ids, missing_answers, missing_objects,
    missing_questions, object_ids, read_missing,
};
use crate::order::{sorted_members, sorted_unique};
use crate::pack_upload::{pack_next, pack_start, PackModel, PackStage, PackUpload};
use crate::publish::{publish_next, publish_start, Publish, PublishModel, PublishStage};
use crate::refs::{
    candid_ref_changes, change_texts, listed_refs, local_refs, pairs, read_refs, ref_changes,
    refs_of,
};
use crate::text::{lines, lossy, lossy_text, same_text, text_range, texts, trim_text, trimmed};
use crate::transport::{
    default_capabilities, maybe_snapshot, offered, packs_model, packs_of, read_packs,
    transport_capabilities, usable, SnapshotModel, TransportCapabilities, TransportSnapshot,
};

verus! {

/// Where an upload stands: what the last action was for.
#[derive(Clone, Copy, Debug, PartialEq, Eq, Structural)]
pub enum UploadStage {
    Negotiating,
    Listing,
    Comparing,
    ListingAll,
    Asking,
    Negotiated,
    Repacking,
    Packing,
    Packs,
    PacksDone,
    Browsing,
    Browsed,
    Publishing,
    Pruning,
    Finishing,
    Ended,
    Stopped,
}

/// An upload.
pub struct Upload {
    pub at: Repository,
    pub capabilities: TransportCapabilities,
    pub expected: Vec<(String, String)>,
    pub remote: Vec<(String, usize)>,
    pub changes: Vec<String>,
    pub candidates: Vec<String>,
    pub missing: Vec<String>,
    pub compacted: bool,
    pub keep: Vec<String>,
    pub next: usize,
    pub pack: Option<PackUpload>,
    pub browse: Option<Browse>,
    pub publish: Option<Publish>,
    pub stage: UploadStage,
}

/// The model of an upload.
pub struct UploadModel {
    pub at: (Seq<char>, Seq<char>),
    pub capabilities: TransportCapabilities,
    pub expected: Seq<(Seq<char>, Seq<char>)>,
    pub remote: Seq<(Seq<char>, usize)>,
    pub changes: Seq<Seq<char>>,
    pub candidates: Seq<Seq<char>>,
    pub missing: Seq<Seq<char>>,
    pub compacted: bool,
    pub keep: Seq<Seq<char>>,
    pub next: nat,
    pub pack: Option<PackModel>,
    pub browse: Option<BrowseModel>,
    pub publish: Option<PublishModel>,
    pub stage: UploadStage,
}

/// The model of an optional pack upload.
pub open spec fn maybe_pack(pack: Option<PackUpload>) -> Option<PackModel> {
    match pack {
        Some(p) => Some(p@),
        None => None,
    }
}

/// The model of an optional publication.
pub open spec fn maybe_publish(publish: Option<Publish>) -> Option<PublishModel> {
    match publish {
        Some(p) => Some(p@),
        None => None,
    }
}

impl View for Upload {
    type V = UploadModel;

    open spec fn view(&self) -> UploadModel {
        UploadModel {
            at: self.at@,
            capabilities: self.capabilities,
            expected: pairs(self.expected@),
            remote: packs_model(self.remote@),
            changes: texts(self.changes@),
            candidates: texts(self.candidates@),
            missing: texts(self.missing@),
            compacted: self.compacted,
            keep: texts(self.keep@),
            next: self.next as nat,
            pack: maybe_pack(self.pack),
            browse: maybe_browse(self.browse),
            publish: maybe_publish(self.publish),
            stage: self.stage,
        }
    }
}

/// The ids of a list of packs.
pub open spec fn pack_ids(packs: Seq<(Seq<char>, usize)>) -> Seq<Seq<char>> {
    Seq::new(packs.len(), |i: int| packs[i].0)
}

/// The number of indexed objects of the pack `id`; the last entry counts.
pub open spec fn indexed_count(packs: Seq<(Seq<char>, usize)>, id: Seq<char>) -> Option<usize>
    decreases packs.len(),
{
    if packs.len() == 0 {
        None
    } else if packs.last().0 == id {
        Some(packs.last().1)
    } else {
        indexed_count(packs.drop_last(), id)
    }
}

/// The call that lists refs.
pub open spec fn list_refs_call(at: (Seq<char>, Seq<char>)) -> CallModel {
    CallModel { method: "list_refs"@, argument: whole(at) }
}

/// The call that lists packs.
pub open spec fn list_packs_call(at: (Seq<char>, Seq<char>)) -> CallModel {
    CallModel { method: "list_packs"@, argument: whole(at) }
}

/// Writes the call that lists refs.
pub fn list_refs(at: &Repository) -> (call: Call)
    ensures
        call@ == list_refs_call(at@),
{
    Call { method: "list_refs".to_owned(), argument: whole_text(at) }
}

/// Writes the call that lists packs.
pub fn list_packs(at: &Repository) -> (call: Call)
    ensures
        call@ == list_packs_call(at@),
{
    Call { method: "list_packs".to_owned(), argument: whole_text(at) }
}

/// The call that prunes all packs but `keep`.
pub open spec fn prune_call(at: (Seq<char>, Seq<char>), keep: Seq<Seq<char>>) -> CallModel {
    CallModel {
        method: "prune_packs"@,
        argument: address(at) + ", "@ + vector(quoted(keep)) + ")"@,
    }
}

/// An upload that has not begun.
pub open spec fn upload_blank(at: (Seq<char>, Seq<char>)) -> UploadModel {
    UploadModel {
        at,
        capabilities: default_capabilities(),
        expected: seq![],
        remote: seq![],
        changes: seq![],
        candidates: seq![],
        missing: seq![],
        compacted: false,
        keep: seq![],
        next: 0,
        pack: None,
        browse: None,
        publish: None,
        stage: UploadStage::Negotiating,
    }
}

/// The beginning of an upload: without a snapshot, the canister is asked for its refs,
/// packs and capabilities.
pub open spec fn upload_start(at: (Seq<char>, Seq<char>), snapshot: Option<SnapshotModel>) -> (
    UploadModel,
    ActionModel,
) {
    match snapshot {
        Some(known) => (
            UploadModel {
                capabilities: known.capabilities,
                expected: known.refs,
                remote: known.packs,
                stage: UploadStage::Listing,
                ..upload_blank(at)
            },
            ActionModel::ListRefs,
        ),
        None => (
            upload_blank(at),
            ActionModel::Negotiate(seq![list_refs_call(at), list_packs_call(at)]),
        ),
    }
}

/// The same upload at another stage.
pub open spec fn upload_at(s: UploadModel, stage: UploadStage) -> UploadModel {
    UploadModel { stage, ..s }
}

/// The end of an upload without success.
pub open spec fn upload_stop(s: UploadModel, action: ActionModel) -> (UploadModel, ActionModel) {
    (upload_at(s, UploadStage::Stopped), action)
}

/// The end of a phase.
pub open spec fn upload_mark(s: UploadModel, stage: UploadStage, phase: Seq<char>) -> (
    UploadModel,
    ActionModel,
) {
    (upload_at(s, stage), ActionModel::Mark(phase))
}

/// After asking the canister: its refs and packs are known.
pub open spec fn upload_negotiated(
    s: UploadModel,
    offer: Option<JsonModel>,
    replies: Seq<JsonModel>,
) -> (UploadModel, ActionModel) {
    if replies.len() != 2 {
        upload_stop(s, confused())
    } else {
        match items_field(replies[0], "ok"@) {
            None => upload_stop(s, rejection("ref listing rejected: "@, replies[0])),
            Some(entries) => match refs_of(entries) {
                None => upload_stop(s, ActionModel::Fail("ref negotiation panicked"@)),
                Some(refs) => match items_field(replies[1], "ok"@) {
                    None => upload_stop(s, rejection("pack listing rejected: "@, replies[1])),
                    Some(packs) => (
                        UploadModel {
                            capabilities: offered(offer),
                            expected: refs,
                            remote: packs_of(packs),
                            stage: UploadStage::Listing,
                            ..s
                        },
                        ActionModel::ListRefs,
                    ),
                },
            },
        }
    }
}

/// After listing the local refs: the changed objects are listed.
pub open spec fn upload_listed(s: UploadModel, output: Seq<u8>) -> (UploadModel, ActionModel) {
    let desired = listed_refs(lines(lossy(output)));
    let known = UploadModel { changes: change_texts(ref_changes(s.expected, desired)), ..s };
    if desired.len() == 0 {
        upload_compared(known, seq![])
    } else {
        (
            upload_at(known, UploadStage::Comparing),
            ActionModel::ListObjects(changed_object_arguments(s.expected, desired)),
        )
    }
}

/// After comparing: without changed objects or refs there is nothing to do.
pub open spec fn upload_compared(s: UploadModel, candidates: Seq<Seq<char>>) -> (
    UploadModel,
    ActionModel,
) {
    let known = UploadModel { candidates, ..s };
    if candidates.len() == 0 && s.changes.len() == 0 {
        upload_mark(known, UploadStage::Finishing, "up_to_date"@)
    } else {
        (
            upload_at(known, UploadStage::Asking),
            ActionModel::Calls(missing_questions(s.at, candidates, false)),
        )
    }
}

/// The number of packs from which on everything is packed anew.
pub open spec fn compaction_threshold(capabilities: TransportCapabilities) -> nat {
    if capabilities.max_retained_packs < 10 {
        0
    } else {
        (capabilities.max_retained_packs - 10) as nat
    }
}

/// After negotiating: the missing objects are packed, or everything is.
pub open spec fn upload_pack(s: UploadModel) -> (UploadModel, ActionModel) {
    let present = sorted_members(pack_ids(s.remote));
    if present.len() >= compaction_threshold(s.capabilities) {
        (
            UploadModel { compacted: true, ..upload_at(s, UploadStage::Repacking) },
            ActionModel::Repack,
        )
    } else if s.missing.len() == 0 {
        upload_packs(UploadModel { keep: present, next: 0, ..s })
    } else {
        (upload_at(s, UploadStage::Packing), ActionModel::PackObjects(s.missing))
    }
}

/// After packing the missing objects: the new pack joins those on the canister.
pub open spec fn upload_packed(s: UploadModel, output: Seq<u8>) -> (UploadModel, ActionModel) {
    let id = trimmed(lossy(output));
    if encode_utf8(id).len() != 40 {
        upload_stop(s, ActionModel::Fail("git pack-objects returned an invalid pack id"@))
    } else {
        upload_packs(
            UploadModel {
                keep: sorted_members(sorted_members(pack_ids(s.remote)).push(id)),
                next: 0,
                ..s
            },
        )
    }
}

/// The next pack, or the end of the packs.
pub open spec fn upload_packs(s: UploadModel) -> (UploadModel, ActionModel) {
    if s.next < s.keep.len() {
        let (pack, action) = pack_start(s.keep[s.next as int]);
        (UploadModel { pack: Some(pack), ..upload_at(s, UploadStage::Packs) }, action)
    } else {
        upload_mark(s, UploadStage::PacksDone, "pack_upload_and_index"@)
    }
}

/// While packs travel.
pub open spec fn upload_packing(s: UploadModel, event: EventModel) -> (UploadModel, ActionModel) {
    match s.pack {
        None => upload_stop(s, confused()),
        Some(pack) => {
            let (after, action) = pack_next(
                s.at,
                s.capabilities,
                indexed_count(s.remote, pack.id),
                pack,
                event,
            );
            match action {
                None => if s.next < s.keep.len() {
                    upload_packs(
                        UploadModel { next: s.next + 1, pack: Some(after), ..s },
                    )
                } else {
                    upload_stop(UploadModel { pack: Some(after), ..s }, confused())
                },
                Some(next) => (
                    UploadModel {
                        pack: Some(after),
                        stage: if after.stage == PackStage::Stopped {
                            UploadStage::Stopped
                        } else {
                            UploadStage::Packs
                        },
                        ..s
                    },
                    next,
                ),
            }
        },
    }
}

/// Begins to store the objects for browsing.
pub open spec fn upload_browse(s: UploadModel) -> (UploadModel, ActionModel) {
    let (browse, action) = browse_start(s.at, s.candidates);
    (UploadModel { browse: Some(browse), ..upload_at(s, UploadStage::Browsing) }, action)
}

/// While objects are stored for browsing.
pub open spec fn upload_browsing(s: UploadModel, event: EventModel) -> (UploadModel, ActionModel) {
    match s.browse {
        None => upload_stop(s, confused()),
        Some(browse) => {
            let (after, action) = browse_next(s.at, browse, event);
            let known = UploadModel { browse: Some(after), ..s };
            match action {
                None => upload_mark(known, UploadStage::Browsed, "browse_objects"@),
                Some(next) => (
                    UploadModel {
                        stage: if after.stage == BrowseStage::Stopped {
                            UploadStage::Stopped
                        } else {
                            UploadStage::Browsing
                        },
                        ..known
                    },
                    next,
                ),
            }
        },
    }
}

/// Begins to publish the ref changes.
pub open spec fn upload_publish(s: UploadModel) -> (UploadModel, ActionModel) {
    let (publish, action) = publish_start(s.at, s.changes);
    let known = UploadModel { publish: Some(publish), ..s };
    match action {
        None => upload_published(known),
        Some(next) => (upload_at(known, UploadStage::Publishing), next),
    }
}

/// While ref changes are published.
pub open spec fn upload_publishing(s: UploadModel, event: EventModel) -> (
    UploadModel,
    ActionModel,
) {
    match s.publish {
        None => upload_stop(s, confused()),
        Some(publish) => {
            let (after, action) = publish_next(s.at, publish, event);
            let known = UploadModel { publish: Some(after), ..s };
            match action {
                None => upload_published(known),
                Some(next) => (
                    UploadModel {
                        stage: if after.stage == PublishStage::Stopped {
                            UploadStage::Stopped
                        } else {
                            UploadStage::Publishing
                        },
                        ..known
                    },
                    next,
                ),
            }
        },
    }
}

/// After publishing: obsolete packs are pruned where everything was packed anew.
pub open spec fn upload_published(s: UploadModel) -> (UploadModel, ActionModel) {
    if s.compacted {
        (upload_at(s, UploadStage::Pruning), ActionModel::Call(prune_call(s.at, s.keep)))
    } else {
        upload_mark(s, UploadStage::Finishing, "publish_and_prune"@)
    }
}

/// The upload after an event, and the next action.
pub open spec fn upload_next(s: UploadModel, event: EventModel) -> (UploadModel, ActionModel) {
    match (s.stage, event) {
        (UploadStage::Negotiating, EventModel::Negotiated(offer, replies)) => upload_negotiated(
            s,
            offer,
            replies,
        ),
        (UploadStage::Listing, EventModel::Output(output)) => upload_listed(s, output),
        (UploadStage::Comparing, EventModel::Listed(Some(output))) => upload_compared(
            s,
            object_ids(lossy(output)),
        ),
        (UploadStage::Comparing, EventModel::Listed(None)) => (
            upload_at(s, UploadStage::ListingAll),
            ActionModel::ListAllObjects,
        ),
        (UploadStage::ListingAll, EventModel::Output(output)) => upload_compared(
            s,
            object_ids(lossy(output)),
        ),
        (UploadStage::Asking, EventModel::Replies(replies)) => match missing_answers(replies) {
            Err(action) => upload_stop(s, action),
            Ok(missing) => upload_mark(
                UploadModel { missing, ..s },
                UploadStage::Negotiated,
                "negotiate"@,
            ),
        },
        (UploadStage::Negotiated, EventModel::Done) => upload_pack(s),
        (UploadStage::Repacking, EventModel::Names(ids)) => upload_packs(
            UploadModel { keep: sorted_members(ids), next: 0, ..s },
        ),
        (UploadStage::Packing, EventModel::Output(output)) => upload_packed(s, output),
        (UploadStage::Packs, event) => upload_packing(s, event),
        (UploadStage::PacksDone, EventModel::Done) => upload_browse(s),
        (UploadStage::Browsing, event) => upload_browsing(s, event),
        (UploadStage::Browsed, EventModel::Done) => upload_publish(s),
        (UploadStage::Publishing, event) => upload_publishing(s, event),
        (UploadStage::Pruning, EventModel::Reply(reply)) => if accepted(reply) {
            upload_mark(s, UploadStage::Finishing, "publish_and_prune"@)
        } else {
            upload_stop(s, rejection("obsolete pack pruning rejected: "@, reply))
        },
        (UploadStage::Finishing, EventModel::Done) => (
            upload_at(s, UploadStage::Ended),
            ActionModel::Finish,
        ),
        _ => upload_stop(s, confused()),
    }
}

/// Finds the number of indexed objects of the pack `id`.
fn find_indexed(packs: &Vec<(String, usize)>, id: &str) -> (r: Option<usize>)
    ensures
        r == indexed_count(packs_model(packs@), id@),
{
    let ghost all = packs_model(packs@);
    let mut i: usize = packs.len();
    assert(all.take(all.len() as int) =~= all);
    while i > 0
        invariant
            i <= packs@.len(),
            all == packs_model(packs@),
            indexed_count(all, id@) == indexed_count(all.take(i as int), id@),
        decreases i,
    {
        assert(all.take(i as int).drop_last() =~= all.take(i - 1));
        assert(all.take(i as int).last() == (packs@[i - 1].0@, packs@[i - 1].1));
        i -= 1;
        if same_text(packs[i].0.as_str(), id) {
            return Some(packs[i].1);
        }
    }
    None
}

fn sorted_pack_ids(packs: &Vec<(String, usize)>) -> (ids: Vec<String>)
    ensures
        texts(ids@) == sorted_members(pack_ids(packs_model(packs@))),
{
    let ghost all = pack_ids(packs_model(packs@));
    let mut ids: Vec<String> = Vec::new();
    let mut i: usize = 0;
    while i < packs.len()
        invariant
            i <= packs@.len(),
            all == pack_ids(packs_model(packs@)),
            ids@.len() == i,
            forall|k: int| 0 <= k < i ==> #[trigger] ids@[k]@ == all[k],
        decreases packs.len() - i,
    {
        ids.push(packs[i].0.clone());
        i += 1;
    }
    assert(texts(ids@) =~= all);
    sorted_unique(&ids)
}

/// A copy of a list of texts.
fn copied(list: &Vec<String>) -> (r: Vec<String>)
    ensures
        texts(r@) == texts(list@),
{
    let r = text_range(list, 0, list.len());
    assert(texts(r@) =~= texts(list@));
    r
}

impl Upload {
    /// Starts an upload.
    pub fn start(at: Repository, snapshot: Option<TransportSnapshot>) -> (r: (Upload, Action))
        requires
            snapshot matches Some(known) ==> usable(known.capabilities),
        ensures
            (r.0@, r.1@) == upload_start(at@, maybe_snapshot(snapshot)),
            usable(r.0.capabilities),
    {
        let refs_call = list_refs(&at);
        let packs_call = list_packs(&at);
        let mut upload = Upload {
            at,
            capabilities: TransportCapabilities::default(),
            expected: Vec::new(),
            remote: Vec::new(),
            changes: Vec::new(),
            candidates: Vec::new(),
            missing: Vec::new(),
            compacted: false,
            keep: Vec::new(),
            next: 0,
            pack: None,
            browse: None,
            publish: None,
            stage: UploadStage::Negotiating,
        };
        assert(pairs(upload.expected@) =~= seq![]);
        assert(packs_model(upload.remote@) =~= seq![]);
        assert(texts(upload.changes@) =~= seq![]);
        assert(texts(upload.candidates@) =~= seq![]);
        assert(texts(upload.missing@) =~= seq![]);
        assert(texts(upload.keep@) =~= seq![]);
        match snapshot {
            Some(known) => {
                upload.capabilities = known.capabilities;
                upload.expected = known.refs;
                upload.remote = known.packs;
                upload.stage = UploadStage::Listing;
                (upload, Action::ListRefs)
            },
            None => {
                let mut calls: Vec<Call> = Vec::new();
                calls.push(refs_call);
                calls.push(packs_call);
                assert(call_models(calls@) =~= seq![
                    list_refs_call(upload.at@),
                    list_packs_call(upload.at@),
                ]);
                (upload, Action::Negotiate(calls))
            },
        }
    }

    fn stop(&mut self, action: Action) -> (r: Action)
        ensures
            (final(self)@, r@) == upload_stop(old(self)@, action@),
            final(self).capabilities == old(self).capabilities,
    {
        self.stage = UploadStage::Stopped;
        action
    }

    fn mark(&mut self, stage: UploadStage, phase: &str) -> (r: Action)
        ensures
            (final(self)@, r@) == upload_mark(old(self)@, stage, phase@),
            final(self).capabilities == old(self).capabilities,
    {
        self.stage = stage;
        Action::Mark(phase.to_owned())
    }

    fn negotiated(&mut self, offer: Option<Json>, replies: &Vec<Json>) -> (r: Action)
        requires
            usable(old(self).capabilities),
        ensures
            (final(self)@, r@) == upload_negotiated(
                old(self)@,
                maybe_document(offer),
                Json::models(replies@),
            ),
            usable(final(self).capabilities),
    {
        proof {
            models_are_memberwise(replies@);
        }
        if replies.len() != 2 {
            return self.stop(give_up());
        }
        let refs = match replies[0].array_at("ok") {
            None => return self.stop(reject("ref listing rejected: ", &replies[0])),
            Some(entries) => match read_refs(entries) {
                None => return self.stop(Action::Fail("ref negotiation panicked".to_owned())),
                Some(refs) => refs,
            },
        };
        let packs = match replies[1].array_at("ok") {
            None => return self.stop(reject("pack listing rejected: ", &replies[1])),
            Some(entries) => read_packs(entries),
        };
        self.capabilities = transport_capabilities(offer.as_ref());
        self.expected = refs;
        self.remote = packs;
        self.stage = UploadStage::Listing;
        Action::ListRefs
    }

    fn listed(&mut self, output: &[u8]) -> (r: Action)
        ensures
            (final(self)@, r@) == upload_listed(old(self)@, output@),
            final(self).capabilities == old(self).capabilities,
    {
        let desired = local_refs(output);
        assert(pairs(desired@).len() == desired@.len());
        self.changes = candid_ref_changes(&self.expected, &desired);
        if desired.len() == 0 {
            let none: Vec<String> = Vec::new();
            assert(texts(none@) =~= seq![]);
            return self.compared(none);
        }
        let arguments = changed_object_ids(&self.expected, &desired);
        self.stage = UploadStage::Comparing;
        Action::ListObjects(arguments)
    }

    fn compared(&mut self, candidates: Vec<String>) -> (r: Action)
        ensures
            (final(self)@, r@) == upload_compared(old(self)@, texts(candidates@)),
            final(self).capabilities == old(self).capabilities,
    {
        assert(texts(candidates@).len() == candidates@.len());
        assert(texts(self.changes@).len() == self.changes@.len());
        self.candidates = candidates;
        if self.candidates.len() == 0 && self.changes.len() == 0 {
            return self.mark(UploadStage::Finishing, "up_to_date");
        }
        let calls = missing_objects(&self.at, &self.candidates, false);
        self.stage = UploadStage::Asking;
        Action::Calls(calls)
    }

    fn pack(&mut self) -> (r: Action)
        ensures
            (final(self)@, r@) == upload_pack(old(self)@),
            final(self).capabilities == old(self).capabilities,
    {
        let present = sorted_pack_ids(&self.remote);
        assert(texts(present@).len() == present@.len());
        assert(texts(self.missing@).len() == self.missing@.len());
        let threshold: usize = if self.capabilities.max_retained_packs < 10 {
            0
        } else {
            self.capabilities.max_retained_packs - 10
        };
        if present.len() >= threshold {
            self.compacted = true;
            self.stage = UploadStage::Repacking;
            return Action::Repack;
        }
        if self.missing.len() == 0 {
            self.keep = present;
            self.next = 0;
            return self.packs();
        }
        let ids = copied(&self.missing);
        self.stage = UploadStage::Packing;
        Action::PackObjects(ids)
    }

    fn packed(&mut self, output: &[u8]) -> (r: Action)
        ensures
            (final(self)@, r@) == upload_packed(old(self)@, output@),
            final(self).capabilities == old(self).capabilities,
    {
        let id = trim_text(lossy_text(output).as_str());
        if id.as_str().as_bytes().len() != 40 {
            return self.stop(
                Action::Fail("git pack-objects returned an invalid pack id".to_owned()),
            );
        }
        let mut ids = sorted_pack_ids(&self.remote);
        let ghost present = texts(ids@);
        let ghost name = id@;
        ids.push(id);
        assert(texts(ids@) =~= present.push(name));
        self.keep = sorted_unique(&ids);
        self.next = 0;
        self.packs()
    }

    fn packs(&mut self) -> (r: Action)
        ensures
            (final(self)@, r@) == upload_packs(old(self)@),
            final(self).capabilities == old(self).capabilities,
    {
        assert(texts(self.keep@).len() == self.keep@.len());
        if self.next < self.keep.len() {
            let (pack, action) = PackUpload::start(self.keep[self.next].as_str());
            self.pack = Some(pack);
            self.stage = UploadStage::Packs;
            action
        } else {
            self.mark(UploadStage::PacksDone, "pack_upload_and_index")
        }
    }

    fn packing(&mut self, event: Event) -> (r: Action)
        requires
            usable(old(self).capabilities),
        ensures
            (final(self)@, r@) == upload_packing(old(self)@, event@),
            final(self).capabilities == old(self).capabilities,
    {
        assert(texts(self.keep@).len() == self.keep@.len());
        let mut current: Option<PackUpload> = None;
        std::mem::swap(&mut self.pack, &mut current);
        match current {
            None => self.stop(give_up()),
            Some(pack) => {
                let mut pack = pack;
                let remote = find_indexed(&self.remote, pack.id.as_str());
                let action = pack.step(&self.at, &self.capabilities, remote, event);
                match action {
                    None => if self.next < self.keep.len() {
                        self.next = self.next + 1;
                        self.pack = Some(pack);
                        self.packs()
                    } else {
                        self.pack = Some(pack);
                        self.stop(give_up())
                    },
                    Some(next) => {
                        self.stage = if pack.stage == PackStage::Stopped {
                            UploadStage::Stopped
                        } else {
                            UploadStage::Packs
                        };
                        self.pack = Some(pack);
                        next
                    },
                }
            },
        }
    }

    fn browse(&mut self) -> (r: Action)
        ensures
            (final(self)@, r@) == upload_browse(old(self)@),
            final(self).capabilities == old(self).capabilities,
    {
        let (browse, action) = index_browse_objects(&self.at, &self.candidates);
        self.browse = Some(browse);
        self.stage = UploadStage::Browsing;
        action
    }

    fn browsing(&mut self, event: Event) -> (r: Action)
        ensures
            (final(self)@, r@) == upload_browsing(old(self)@, event@),
            final(self).capabilities == old(self).capabilities,
    {
        let mut current: Option<Browse> = None;
        std::mem::swap(&mut self.browse, &mut current);
        match current {
            None => self.stop(give_up()),
            Some(browse) => {
                let mut browse = browse;
                let action = browse.step(&self.at, event);
                let stopped = browse.stage == BrowseStage::Stopped;
                self.browse = Some(browse);
                match action {
                    None => self.mark(UploadStage::Browsed, "browse_objects"),
                    Some(next) => {
                        self.stage = if stopped {
                            UploadStage::Stopped
                        } else {
                            UploadStage::Browsing
                        };
                        next
                    },
                }
            },
        }
    }

    fn publish(&mut self) -> (r: Action)
        ensures
            (final(self)@, r@) == upload_publish(old(self)@),
            final(self).capabilities == old(self).capabilities,
    {
        let (publish, action) = Publish::start(&self.at, copied(&self.changes));
        self.publish = Some(publish);
        match action {
            None => self.published(),
            Some(next) => {
                self.stage = UploadStage::Publishing;
                next
            },
        }
    }

    fn publishing(&mut self, event: Event) -> (r: Action)
        ensures
            (final(self)@, r@) == upload_publishing(old(self)@, event@),
            final(self).capabilities == old(self).capabilities,
    {
        let mut current: Option<Publish> = None;
        std::mem::swap(&mut self.publish, &mut current);
        match current {
            None => self.stop(give_up()),
            Some(publish) => {
                let mut publish = publish;
                let action = publish.step(&self.at, event);
                let stopped = publish.stage == PublishStage::Stopped;
                self.publish = Some(publish);
                match action {
                    None => self.published(),
                    Some(next) => {
                        self.stage = if stopped {
                            UploadStage::Stopped
                        } else {
                            UploadStage::Publishing
                        };
                        next
                    },
                }
            },
        }
    }

    fn published(&mut self) -> (r: Action)
        ensures
            (final(self)@, r@) == upload_published(old(self)@),
            final(self).capabilities == old(self).capabilities,
    {
        if self.compacted {
            let ids = quote_range(&self.keep, 0, self.keep.len());
            assert(texts(self.keep@).subrange(0, self.keep@.len() as int) =~= texts(self.keep@));
            let mut argument = address_text(&self.at);
            argument.append(", ");
            argument.append(vector_text(&ids).as_str());
            argument.append(")");
            self.stage = UploadStage::Pruning;
            Action::Call(Call { method: "prune_packs".to_owned(), argument })
        } else {
            self.mark(UploadStage::Finishing, "publish_and_prune")
        }
    }

    fn asked(&mut self, replies: &Vec<Json>) -> (r: Action)
        ensures
            (final(self)@, r@) == (match missing_answers(Json::models(replies@)) {
                Err(action) => upload_stop(old(self)@, action),
                Ok(missing) => upload_mark(
                    UploadModel { missing, ..old(self)@ },
                    UploadStage::Negotiated,
                    "negotiate"@,
                ),
            }),
            final(self).capabilities == old(self).capabilities,
    {
        match read_missing(replies) {
            Err(action) => self.stop(action),
            Ok(missing) => {
                self.missing = missing;
                self.mark(UploadStage::Negotiated, "negotiate")
            },
        }
    }

    /// Takes the answer to the last action and gives the next one.
    pub fn step(&mut self, event: Event) -> (r: Action)
        requires
            usable(old(self).capabilities),
        ensures
            (final(self)@, r@) == upload_next(old(self)@, event@),
            usable(final(self).capabilities),
    {
        match (self.stage, event) {
            (UploadStage::Negotiating, Event::Negotiated(offer, replies)) => self.negotiated(
                offer,
                &replies,
            ),
            (UploadStage::Listing, Event::Output(output)) => self.listed(output.as_slice()),
            (UploadStage::Comparing, Event::Listed(listed)) => match listed {
                Some(output) => self.compared(all_object_ids(output.as_slice())),
                None => {
                    self.stage = UploadStage::ListingAll;
                    Action::ListAllObjects
                },
            },
            (UploadStage::ListingAll, Event::Output(output)) => self.compared(
                all_object_ids(output.as_slice()),
            ),
            (UploadStage::Asking, Event::Replies(replies)) => self.asked(&replies),
            (UploadStage::Negotiated, Event::Done) => self.pack(),
            (UploadStage::Repacking, Event::Names(ids)) => {
                self.keep = sorted_unique(&ids);
                self.next = 0;
                self.packs()
            },
            (UploadStage::Packing, Event::Output(output)) => self.packed(output.as_slice()),
            (UploadStage::Packs, event) => self.packing(event),
            (UploadStage::PacksDone, Event::Done) => self.browse(),
            (UploadStage::Browsing, event) => self.browsing(event),
            (UploadStage::Browsed, Event::Done) => self.publish(),
            (UploadStage::Publishing, event) => self.publishing(event),
            (UploadStage::Pruning, Event::Reply(reply)) => if accepts(&reply) {
                self.mark(UploadStage::Finishing, "publish_and_prune")
            } else {
                self.stop(reject("obsolete pack pruning rejected: ", &reply))
            },
            (UploadStage::Finishing, Event::Done) => {
                self.stage = UploadStage::Ended;
                Action::Finish
            },
            _ => self.stop(give_up()),
        }
    }
}

} // verus!
