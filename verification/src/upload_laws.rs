//! What holds of every run of an upload.
use vstd::prelude::*;

use crate::action::{
    accepted, all_accepted, none_rejected_means_all_accepted, stops, ActionModel, CallModel,
    EventModel,
};
use crate::browse::{
    browse_next, object_next, BrowseModel, BrowseStage, ObjectStage, ObjectUploadModel,
};
use crate::chunk::flatten_push;
use crate::json::{items_field, JsonModel};
use crate::objects::{missing_answers, texts_of};
use crate::order::sorted_members;
use crate::pack_upload::{pack_next, PackModel, PackStage};
use crate::publish::{publish_next, PublishModel, PublishStage};
use crate::text::{lossy, trimmed};
use crate::transport::{SnapshotModel, TransportCapabilities};
use crate::upload::{
    indexed_count, pack_ids, upload_next, upload_packs, upload_start, UploadModel, UploadStage,
};
use crate::wording::{all_told_ids, take_all, takes, tells_ids, told_ids};

verus! {

/// One step of an upload, as [`upload_next`] gives it.
#[verifier::opaque]
pub open spec fn upload_step(s: UploadModel, event: EventModel) -> (UploadModel, ActionModel) {
    upload_next(s, event)
}

/// The upload after a list of events, and the action that is then to be taken.
pub open spec fn upload_run(
    at: (Seq<char>, Seq<char>),
    snapshot: Option<SnapshotModel>,
    events: Seq<EventModel>,
) -> (UploadModel, ActionModel)
    decreases events.len(),
{
    if events.len() == 0 {
        upload_start(at, snapshot)
    } else {
        upload_step(upload_run(at, snapshot, events.drop_last()).0, events.last())
    }
}

/// A method that changes refs or prepares to.
pub open spec fn ref_method(method: Seq<char>) -> bool {
    method == "update_refs_atomic"@ || method == "stage_ref_transaction_page"@ || method
        == "commit_ref_transaction"@
}

/// A list of calls none of which changes refs.
pub open spec fn leaves_refs(calls: Seq<CallModel>) -> bool {
    forall|i: int| 0 <= i < calls.len() ==> !ref_method((#[trigger] calls[i]).method)
}

/// An action that changes refs on the canister.
pub open spec fn changes_refs(action: ActionModel) -> bool {
    match action {
        ActionModel::Call(call) => ref_method(call.method),
        ActionModel::Calls(calls) => !leaves_refs(calls),
        ActionModel::Sequence(calls) => !leaves_refs(calls),
        ActionModel::Negotiate(calls) => !leaves_refs(calls),
        _ => false,
    }
}

/// An answer in which a batch of calls was not accepted as a whole.
pub open spec fn rejects_batch(event: EventModel) -> bool {
    event matches EventModel::Replies(replies) && !all_accepted(replies)
}

/// A method whose call has to be accepted for the upload to go on.
pub open spec fn must_be_accepted(method: Seq<char>) -> bool {
    method == "finalize_pack"@ || method == "index_pack_objects_batch"@ || method
        == "index_pack_objects_batch_v2"@ || method == "put_object"@ || method
        == "begin_chunked_object"@ || method == "finalize_chunked_object"@
}

/// An action that makes a call which has to be accepted.
pub open spec fn asks_acceptance(action: ActionModel) -> bool {
    action matches ActionModel::Call(call) && must_be_accepted(call.method)
}

/// An answer that does not accept a single call.
pub open spec fn refuses(event: EventModel) -> bool {
    event matches EventModel::Reply(reply) && !accepted(reply)
}

proof fn lemma_missing_answers(replies: Seq<JsonModel>)
    ensures
        missing_answers(replies) matches Err(action) ==> stops(action),
        missing_answers(replies) is Ok ==> all_accepted(replies),
    decreases replies.len(),
{
    if replies.len() > 0 {
        let front = replies.drop_last();
        lemma_missing_answers(front);
        if missing_answers(replies) is Ok {
            assert(items_field(replies.last(), "ok"@) is Some);
            assert(accepted(replies.last()));
            assert forall|i: int| 0 <= i < replies.len() implies accepted(
                #[trigger] replies[i],
            ) by {
                if i < front.len() {
                    assert(accepted(front[i]));
                }
            }
        }
    }
}

proof fn lemma_ref_methods()
    ensures
        forall|method: Seq<char>|
            ref_method(method) ==> method.len() == 18 || method.len() == 26 || method.len() == 22,
{
    reveal_strlit("update_refs_atomic");
    reveal_strlit("stage_ref_transaction_page");
    reveal_strlit("commit_ref_transaction");
}

proof fn lemma_methods()
    ensures
        !ref_method("list_refs"@),
        !ref_method("list_packs"@),
        !ref_method("missing_objects"@),
        !ref_method("begin_pack"@),
        !ref_method("put_pack_chunk"@),
        !ref_method("put_pack_chunks"@),
        !ref_method("finalize_pack"@),
        !ref_method("list_pack_objects"@),
        !ref_method("index_pack_objects_batch"@),
        !ref_method("index_pack_objects_batch_v2"@),
        !ref_method("put_objects_batch"@),
        !ref_method("put_object"@),
        !ref_method("begin_chunked_object"@),
        !ref_method("put_object_chunk"@),
        !ref_method("finalize_chunked_object"@),
        !ref_method("prune_packs"@),
{
    lemma_ref_methods();
    reveal_strlit("list_refs");
    assert("list_refs"@.len() == 9);
    reveal_strlit("list_packs");
    assert("list_packs"@.len() == 10);
    reveal_strlit("missing_objects");
    assert("missing_objects"@.len() == 15);
    reveal_strlit("begin_pack");
    assert("begin_pack"@.len() == 10);
    reveal_strlit("put_pack_chunk");
    assert("put_pack_chunk"@.len() == 14);
    reveal_strlit("put_pack_chunks");
    assert("put_pack_chunks"@.len() == 15);
    reveal_strlit("finalize_pack");
    assert("finalize_pack"@.len() == 13);
    reveal_strlit("list_pack_objects");
    assert("list_pack_objects"@.len() == 17);
    reveal_strlit("index_pack_objects_batch");
    assert("index_pack_objects_batch"@.len() == 24);
    reveal_strlit("index_pack_objects_batch_v2");
    assert("index_pack_objects_batch_v2"@.len() == 27);
    reveal_strlit("put_objects_batch");
    assert("put_objects_batch"@.len() == 17);
    reveal_strlit("put_object");
    assert("put_object"@.len() == 10);
    reveal_strlit("begin_chunked_object");
    assert("begin_chunked_object"@.len() == 20);
    reveal_strlit("put_object_chunk");
    assert("put_object_chunk"@.len() == 16);
    reveal_strlit("finalize_chunked_object");
    assert("finalize_chunked_object"@.len() == 23);
    reveal_strlit("prune_packs");
    assert("prune_packs"@.len() == 11);
}

proof fn lemma_needless_methods()
    ensures
        !must_be_accepted("begin_pack"@),
        !must_be_accepted("list_pack_objects"@),
        !must_be_accepted("prune_packs"@),
        !must_be_accepted("update_refs_atomic"@),
        !must_be_accepted("stage_ref_transaction_page"@),
        !must_be_accepted("commit_ref_transaction"@),
        !must_be_accepted("abort_ref_transaction"@),
{
    reveal_strlit("finalize_pack");
    assert("finalize_pack"@.len() == 13);
    reveal_strlit("index_pack_objects_batch");
    assert("index_pack_objects_batch"@.len() == 24);
    reveal_strlit("index_pack_objects_batch_v2");
    assert("index_pack_objects_batch_v2"@.len() == 27);
    reveal_strlit("put_object");
    assert("put_object"@.len() == 10);
    assert("put_object"@[0] == 'p');
    reveal_strlit("begin_chunked_object");
    assert("begin_chunked_object"@.len() == 20);
    reveal_strlit("finalize_chunked_object");
    assert("finalize_chunked_object"@.len() == 23);
    reveal_strlit("begin_pack");
    assert("begin_pack"@.len() == 10);
    assert("begin_pack"@[0] == 'b');
    reveal_strlit("list_pack_objects");
    assert("list_pack_objects"@.len() == 17);
    reveal_strlit("prune_packs");
    assert("prune_packs"@.len() == 11);
    reveal_strlit("update_refs_atomic");
    assert("update_refs_atomic"@.len() == 18);
    reveal_strlit("stage_ref_transaction_page");
    assert("stage_ref_transaction_page"@.len() == 26);
    reveal_strlit("commit_ref_transaction");
    assert("commit_ref_transaction"@.len() == 22);
    reveal_strlit("abort_ref_transaction");
    assert("abort_ref_transaction"@.len() == 21);
}

/// The upload of a pack waits for a call that has to be accepted.
pub open spec fn pack_awaits(s: PackModel) -> bool {
    s.stage == PackStage::Finalizing || s.stage == PackStage::Starting
}

/// The upload of an object waits for a call that has to be accepted.
pub open spec fn object_awaits(s: ObjectUploadModel) -> bool {
    s.stage == ObjectStage::Storing || s.stage == ObjectStage::Announcing || s.stage
        == ObjectStage::Finalizing
}

/// The storing of objects waits for a call that has to be accepted.
pub open spec fn browse_awaits(s: BrowseModel) -> bool {
    &&& s.stage == BrowseStage::Storing
    &&& s.upload matches Some(upload)
    &&& object_awaits(upload)
}

/// An upload waits for a call that has to be accepted.
pub open spec fn upload_awaits(s: UploadModel) -> bool {
    ||| s.stage == UploadStage::Packs && (s.pack matches Some(pack) && pack_awaits(pack))
    ||| s.stage == UploadStage::Browsing && (s.browse matches Some(browse) && browse_awaits(
        browse,
    ))
}

/// The upload of a pack prepares no call that changes refs.
pub open spec fn pack_leaves_refs(s: PackModel) -> bool {
    leaves_refs(s.calls)
}

proof fn lemma_pack_step(
    at: (Seq<char>, Seq<char>),
    capabilities: TransportCapabilities,
    remote: Option<usize>,
    s: PackModel,
    event: EventModel,
)
    requires
        pack_leaves_refs(s),
    ensures
        ({
            let (after, action) = pack_next(at, capabilities, remote, s, event);
            &&& pack_leaves_refs(after)
            &&& action is None ==> after.stage == PackStage::Complete
            &&& action matches Some(next) ==> !changes_refs(next)
            &&& action matches Some(next) ==> (stops(next) <==> after.stage == PackStage::Stopped)
            &&& rejects_batch(event) ==> after.stage == PackStage::Stopped && action is Some
            &&& action matches Some(next) ==> (asks_acceptance(next) ==> pack_awaits(after))
            &&& pack_awaits(s) && refuses(event) ==> after.stage == PackStage::Stopped
                && action is Some
        }),
{
    lemma_methods();
    lemma_needless_methods();
    if let EventModel::Replies(replies) = event {
        none_rejected_means_all_accepted(replies);
    }
}

proof fn lemma_object_step(at: (Seq<char>, Seq<char>), s: ObjectUploadModel, event: EventModel)
    ensures
        ({
            let (after, action) = object_next(at, s, event);
            &&& action is None ==> after.stage == ObjectStage::Complete
            &&& action matches Some(next) ==> !changes_refs(next)
            &&& action matches Some(next) ==> (stops(next) <==> after.stage
                == ObjectStage::Stopped)
            &&& rejects_batch(event) ==> after.stage == ObjectStage::Stopped && action is Some
            &&& action matches Some(next) ==> (asks_acceptance(next) ==> object_awaits(after))
            &&& object_awaits(s) && refuses(event) ==> after.stage == ObjectStage::Stopped
                && action is Some
        }),
{
    lemma_methods();
    if let EventModel::Replies(replies) = event {
        none_rejected_means_all_accepted(replies);
    }
}

/// The storing of objects prepares no call that changes refs.
pub open spec fn browse_leaves_refs(s: BrowseModel) -> bool {
    leaves_refs(s.calls)
}

proof fn lemma_browse_step(at: (Seq<char>, Seq<char>), s: BrowseModel, event: EventModel)
    requires
        browse_leaves_refs(s),
    ensures
        ({
            let (after, action) = browse_next(at, s, event);
            &&& browse_leaves_refs(after)
            &&& action is None ==> after.stage == BrowseStage::Complete
            &&& action matches Some(next) ==> !changes_refs(next)
            &&& action matches Some(next) ==> (stops(next) <==> after.stage
                == BrowseStage::Stopped)
            &&& rejects_batch(event) ==> after.stage == BrowseStage::Stopped && action is Some
            &&& action matches Some(next) ==> (asks_acceptance(next) ==> browse_awaits(after))
            &&& browse_awaits(s) && refuses(event) ==> after.stage == BrowseStage::Stopped
                && action is Some
        }),
{
    lemma_methods();
    if let EventModel::Replies(replies) = event {
        none_rejected_means_all_accepted(replies);
        lemma_missing_answers(replies);
    }
    if let Some(upload) = s.upload {
        lemma_object_step(at, upload, event);
    }
}

proof fn lemma_publish_step(at: (Seq<char>, Seq<char>), s: PublishModel, event: EventModel)
    ensures
        ({
            let (after, action) = publish_next(at, s, event);
            &&& action is None ==> after.stage == PublishStage::Published
            &&& action matches Some(next) ==> (stops(next) <==> after.stage
                == PublishStage::Stopped)
            &&& rejects_batch(event) ==> after.stage == PublishStage::Stopped && action is Some
            &&& action matches Some(next) ==> !asks_acceptance(next)
        }),
{
    lemma_needless_methods();
}

/// What holds of an upload at any time: the objects are all stored before refs change, and
/// the refs have changed before packs are pruned.
pub open spec fn in_order(s: UploadModel) -> bool {
    &&& s.pack matches Some(pack) ==> pack_leaves_refs(pack)
    &&& s.browse matches Some(browse) ==> browse_leaves_refs(browse)
    &&& (s.stage == UploadStage::Browsed || s.stage == UploadStage::Publishing || s.stage
        == UploadStage::Pruning) ==> (s.browse matches Some(browse) && browse.stage
        == BrowseStage::Complete)
    &&& s.stage == UploadStage::Pruning ==> (s.publish matches Some(publish) && publish.stage
        == PublishStage::Published)
}

/// What one step of an upload keeps.
spec fn step_in_order(s: UploadModel, event: EventModel) -> bool {
    let (after, action) = upload_next(s, event);
    &&& in_order(after)
    &&& stops(action) <==> after.stage == UploadStage::Stopped
    &&& changes_refs(action) ==> after.stage == UploadStage::Publishing
    &&& rejects_batch(event) ==> after.stage == UploadStage::Stopped
    &&& asks_acceptance(action) ==> upload_awaits(after)
    &&& upload_awaits(s) && refuses(event) ==> after.stage == UploadStage::Stopped
}

proof fn lemma_packing_step(s: UploadModel, event: EventModel)
    requires
        in_order(s),
        s.stage == UploadStage::Packs,
    ensures
        step_in_order(s, event),
{
    if let Some(pack) = s.pack {
        lemma_pack_step(
            s.at,
            s.capabilities,
            indexed_count(s.remote, pack.id),
            pack,
            event,
        );
    }
}

proof fn lemma_browsing_step(s: UploadModel, event: EventModel)
    requires
        in_order(s),
        s.stage == UploadStage::Browsing,
    ensures
        step_in_order(s, event),
{
    if let Some(browse) = s.browse {
        lemma_browse_step(s.at, browse, event);
    }
}

proof fn lemma_publishing_step(s: UploadModel, event: EventModel)
    requires
        in_order(s),
        s.stage == UploadStage::Publishing,
    ensures
        step_in_order(s, event),
{
    lemma_methods();
    lemma_needless_methods();
    if let Some(publish) = s.publish {
        lemma_publish_step(s.at, publish, event);
    }
}

proof fn lemma_early_step(s: UploadModel, event: EventModel)
    requires
        in_order(s),
        s.stage == UploadStage::Negotiating || s.stage == UploadStage::Listing || s.stage
            == UploadStage::Comparing || s.stage == UploadStage::ListingAll || s.stage
            == UploadStage::Asking,
    ensures
        step_in_order(s, event),
{
    lemma_methods();
    if let EventModel::Replies(replies) = event {
        lemma_missing_answers(replies);
    }
}

proof fn lemma_late_step(s: UploadModel, event: EventModel)
    requires
        in_order(s),
        s.stage == UploadStage::Negotiated || s.stage == UploadStage::Repacking || s.stage
            == UploadStage::Packing || s.stage == UploadStage::PacksDone || s.stage
            == UploadStage::Browsed || s.stage == UploadStage::Pruning || s.stage
            == UploadStage::Finishing || s.stage == UploadStage::Ended || s.stage
            == UploadStage::Stopped,
    ensures
        step_in_order(s, event),
{
    lemma_methods();
    lemma_needless_methods();
}

proof fn lemma_upload_step(s: UploadModel, event: EventModel)
    requires
        in_order(s),
    ensures
        ({
            let (after, action) = upload_step(s, event);
            &&& in_order(after)
            &&& stops(action) <==> after.stage == UploadStage::Stopped
            &&& changes_refs(action) ==> after.stage == UploadStage::Publishing
            &&& rejects_batch(event) ==> after.stage == UploadStage::Stopped
            &&& asks_acceptance(action) ==> upload_awaits(after)
            &&& upload_awaits(s) && refuses(event) ==> after.stage == UploadStage::Stopped
            &&& s.stage == UploadStage::Stopped ==> after.stage == UploadStage::Stopped
        }),
{
    reveal(upload_step);
    match s.stage {
        UploadStage::Packs => lemma_packing_step(s, event),
        UploadStage::Browsing => lemma_browsing_step(s, event),
        UploadStage::Publishing => lemma_publishing_step(s, event),
        UploadStage::Negotiating | UploadStage::Listing | UploadStage::Comparing
        | UploadStage::ListingAll | UploadStage::Asking => lemma_early_step(s, event),
        _ => lemma_late_step(s, event),
    }
}

/// An upload that has stopped or ended does nothing any more.
pub proof fn a_stopped_upload_stays_stopped(s: UploadModel, event: EventModel)
    requires
        s.stage == UploadStage::Stopped || s.stage == UploadStage::Ended,
    ensures
        upload_next(s, event).0.stage == UploadStage::Stopped,
        stops(upload_next(s, event).1),
{
}

proof fn lemma_start(at: (Seq<char>, Seq<char>), snapshot: Option<SnapshotModel>)
    ensures
        in_order(upload_start(at, snapshot).0),
        !changes_refs(upload_start(at, snapshot).1),
{
    lemma_methods();
}

proof fn lemma_run(
    at: (Seq<char>, Seq<char>),
    snapshot: Option<SnapshotModel>,
    events: Seq<EventModel>,
)
    ensures
        in_order(upload_run(at, snapshot, events).0),
        (exists|i: int| 0 <= i < events.len() && rejects_batch(#[trigger] events[i])) ==> upload_run(
            at,
            snapshot,
            events,
        ).0.stage == UploadStage::Stopped,
        changes_refs(upload_run(at, snapshot, events).1) ==> upload_run(
            at,
            snapshot,
            events,
        ).0.stage == UploadStage::Publishing,
    decreases events.len(),
{
    if events.len() == 0 {
        lemma_start(at, snapshot);
    } else {
        let front = events.drop_last();
        let before = upload_run(at, snapshot, front).0;
        lemma_run(at, snapshot, front);
        lemma_upload_step(before, events.last());
        if exists|i: int| 0 <= i < events.len() && rejects_batch(#[trigger] events[i]) {
            let i = choose|i: int| 0 <= i < events.len() && rejects_batch(#[trigger] events[i]);
            if i < front.len() {
                assert(rejects_batch(front[i]));
            }
        }
    }
}

/// The event at `i` does not accept a call that has to be accepted.
pub open spec fn rejects_call(
    at: (Seq<char>, Seq<char>),
    snapshot: Option<SnapshotModel>,
    events: Seq<EventModel>,
    i: int,
) -> bool {
    asks_acceptance(upload_run(at, snapshot, events.take(i)).1) && refuses(events[i])
}

proof fn lemma_calls(
    at: (Seq<char>, Seq<char>),
    snapshot: Option<SnapshotModel>,
    events: Seq<EventModel>,
    i: int,
)
    requires
        0 <= i < events.len(),
        rejects_call(at, snapshot, events, i),
    ensures
        upload_run(at, snapshot, events).0.stage == UploadStage::Stopped,
    decreases events.len(),
{
    let front = events.drop_last();
    let before = upload_run(at, snapshot, front);
    lemma_run(at, snapshot, front);
    lemma_upload_step(before.0, events.last());
    if i < front.len() {
        assert(front.take(i) =~= events.take(i));
        lemma_calls(at, snapshot, front, i);
    } else {
        assert(events.take(i) =~= front);
        if front.len() > 0 {
            lemma_run(at, snapshot, front.drop_last());
            lemma_upload_step(upload_run(at, snapshot, front.drop_last()).0, front.last());
        }
    }
}

/// In every run, a call that has to be accepted and is not stops the upload, for good.
pub proof fn a_rejected_call_stops_the_upload(
    at: (Seq<char>, Seq<char>),
    snapshot: Option<SnapshotModel>,
    events: Seq<EventModel>,
    i: int,
)
    requires
        0 <= i < events.len(),
        rejects_call(at, snapshot, events, i),
    ensures
        upload_run(at, snapshot, events).0.stage == UploadStage::Stopped,
        stops(upload_run(at, snapshot, events).1),
{
    lemma_calls(at, snapshot, events, i);
    lemma_run(at, snapshot, events.drop_last());
    lemma_upload_step(upload_run(at, snapshot, events.drop_last()).0, events.last());
}

/// In every run, a batch of calls that is not accepted as a whole stops the upload.
pub proof fn a_rejected_batch_stops_the_upload(
    at: (Seq<char>, Seq<char>),
    snapshot: Option<SnapshotModel>,
    events: Seq<EventModel>,
    replies: Seq<JsonModel>,
)
    requires
        !all_accepted(replies),
    ensures
        upload_run(at, snapshot, events.push(EventModel::Replies(replies))).0.stage
            == UploadStage::Stopped,
        stops(upload_run(at, snapshot, events.push(EventModel::Replies(replies))).1),
{
    let longer = events.push(EventModel::Replies(replies));
    assert(longer.drop_last() =~= events);
    lemma_run(at, snapshot, events);
    lemma_upload_step(upload_run(at, snapshot, events).0, longer.last());
}

/// A pack is done in two ways only: the canister has indexed as many objects as there are,
/// or it accepted every batch that was left to index.
pub proof fn packs_are_done_only_when_indexed(
    at: (Seq<char>, Seq<char>),
    capabilities: TransportCapabilities,
    remote: Option<usize>,
    s: PackModel,
    event: EventModel,
)
    requires
        pack_next(at, capabilities, remote, s, event).1 is None,
    ensures
        match event {
            EventModel::Count(local) => remote is Some && remote == local,
            EventModel::Replies(replies) => s.stage == PackStage::Indexing && all_accepted(
                replies,
            ),
            _ => false,
        },
{
    if let EventModel::Replies(replies) = event {
        none_rejected_means_all_accepted(replies);
    }
}

/// The storing of objects is done only when the canister accepted every batch of them.
pub proof fn objects_are_stored_only_when_accepted(
    at: (Seq<char>, Seq<char>),
    s: BrowseModel,
    event: EventModel,
)
    requires
        browse_next(at, s, event).1 is None,
    ensures
        s.stage == BrowseStage::Batching,
        event matches EventModel::Replies(replies) && all_accepted(replies),
{
    if let EventModel::Replies(replies) = event {
        none_rejected_means_all_accepted(replies);
    }
}

/// The event completes the pack that is travelling.
pub open spec fn completes_pack(s: UploadModel, event: EventModel) -> bool {
    s.stage == UploadStage::Packs && match s.pack {
        Some(pack) => pack_next(
            s.at,
            s.capabilities,
            indexed_count(s.remote, pack.id),
            pack,
            event,
        ).1 is None,
        None => false,
    }
}

/// The ids of the packs that a run has completed.
pub open spec fn completed_packs(
    at: (Seq<char>, Seq<char>),
    snapshot: Option<SnapshotModel>,
    events: Seq<EventModel>,
) -> Seq<Seq<char>>
    decreases events.len(),
{
    if events.len() == 0 {
        seq![]
    } else {
        let front = events.drop_last();
        let s = upload_run(at, snapshot, front).0;
        completed_after(s, completed_packs(at, snapshot, front), events.last())
    }
}

/// The ids of the completed packs after one more event.
pub open spec fn completed_after(
    s: UploadModel,
    done: Seq<Seq<char>>,
    event: EventModel,
) -> Seq<Seq<char>> {
    match s.pack {
        Some(pack) => if completes_pack(s, event) {
            done.push(pack.id)
        } else {
            done
        },
        None => done,
    }
}

/// The stages before any pack travels.
pub open spec fn before_packs(stage: UploadStage) -> bool {
    stage == UploadStage::Negotiating || stage == UploadStage::Listing || stage
        == UploadStage::Comparing || stage == UploadStage::ListingAll || stage
        == UploadStage::Asking || stage == UploadStage::Negotiated || stage
        == UploadStage::Repacking || stage == UploadStage::Packing
}

/// The stages after all packs have travelled.
pub open spec fn after_packs(stage: UploadStage) -> bool {
    stage == UploadStage::PacksDone || stage == UploadStage::Browsing || stage
        == UploadStage::Browsed || stage == UploadStage::Publishing || stage
        == UploadStage::Pruning
}

/// The completed packs are those up to the one that is travelling.
pub open spec fn packs_in_order(s: UploadModel, done: Seq<Seq<char>>) -> bool {
    &&& before_packs(s.stage) ==> done.len() == 0
    &&& s.stage == UploadStage::Packs ==> {
        &&& s.next < s.keep.len()
        &&& done == s.keep.take(s.next as int)
        &&& s.pack matches Some(pack) && pack.id == s.keep[s.next as int]
    }
    &&& after_packs(s.stage) ==> done == s.keep
}

proof fn lemma_pack_keeps_its_id(
    at: (Seq<char>, Seq<char>),
    capabilities: TransportCapabilities,
    remote: Option<usize>,
    s: PackModel,
    event: EventModel,
)
    ensures
        pack_next(at, capabilities, remote, s, event).0.id == s.id,
{
}

proof fn lemma_packs_begin(s: UploadModel, done: Seq<Seq<char>>)
    requires
        s.next <= s.keep.len(),
        done == s.keep.take(s.next as int),
    ensures
        packs_in_order(upload_packs(s).0, done),
        upload_packs(s).0.stage == UploadStage::Packs || upload_packs(s).0.stage
            == UploadStage::PacksDone,
{
    if s.next == s.keep.len() {
        assert(s.keep.take(s.next as int) =~= s.keep);
    }
}

proof fn lemma_progress_before(s: UploadModel, done: Seq<Seq<char>>, event: EventModel)
    requires
        packs_in_order(s, done),
        before_packs(s.stage),
    ensures
        packs_in_order(upload_next(s, event).0, done),
{
    let present = sorted_members(pack_ids(s.remote));
    let direct = UploadModel { keep: present, next: 0, ..s };
    assert(direct.keep.take(0) =~= done);
    lemma_packs_begin(direct, done);
    if let EventModel::Names(ids) = event {
        let repacked = UploadModel { keep: sorted_members(ids), next: 0, ..s };
        assert(repacked.keep.take(0) =~= done);
        lemma_packs_begin(repacked, done);
    }
    if let EventModel::Output(output) = event {
        let packed = UploadModel {
            keep: sorted_members(present.push(trimmed(lossy(output)))),
            next: 0,
            ..s
        };
        assert(packed.keep.take(0) =~= done);
        lemma_packs_begin(packed, done);
    }
}

proof fn lemma_progress_packs(s: UploadModel, done: Seq<Seq<char>>, event: EventModel)
    requires
        packs_in_order(s, done),
        s.stage == UploadStage::Packs,
    ensures
        packs_in_order(upload_next(s, event).0, completed_after(s, done, event)),
{
    if let Some(pack) = s.pack {
        let remote = indexed_count(s.remote, pack.id);
        let (after, action) = pack_next(s.at, s.capabilities, remote, pack, event);
        lemma_pack_keeps_its_id(s.at, s.capabilities, remote, pack, event);
        if action is None {
            let more = UploadModel { next: s.next + 1, pack: Some(after), ..s };
            assert(more.keep.take(more.next as int) =~= done.push(pack.id));
            lemma_packs_begin(more, done.push(pack.id));
        }
    }
}

proof fn lemma_progress_after(s: UploadModel, done: Seq<Seq<char>>, event: EventModel)
    requires
        packs_in_order(s, done),
        !before_packs(s.stage),
        s.stage != UploadStage::Packs,
    ensures
        packs_in_order(upload_next(s, event).0, done),
{
}

proof fn lemma_progress(
    at: (Seq<char>, Seq<char>),
    snapshot: Option<SnapshotModel>,
    events: Seq<EventModel>,
)
    ensures
        packs_in_order(
            upload_run(at, snapshot, events).0,
            completed_packs(at, snapshot, events),
        ),
    decreases events.len(),
{
    if events.len() > 0 {
        let front = events.drop_last();
        let s = upload_run(at, snapshot, front).0;
        lemma_progress(at, snapshot, front);
        lemma_progress_step(s, completed_packs(at, snapshot, front), events.last());
    }
}

proof fn lemma_progress_step(s: UploadModel, done: Seq<Seq<char>>, event: EventModel)
    requires
        packs_in_order(s, done),
    ensures
        packs_in_order(upload_step(s, event).0, completed_after(s, done, event)),
{
    reveal(upload_step);
    if before_packs(s.stage) {
        lemma_progress_before(s, done, event);
    } else if s.stage == UploadStage::Packs {
        lemma_progress_packs(s, done, event);
    } else {
        lemma_progress_after(s, done, event);
    }
}

/// In every run, refs are changed on the canister only once every pack that is to be kept
/// is done, every object is stored for browsing, and nothing was rejected on the way: no
/// batch of calls, and no single call that finishes a pack, begins its index, or stores an
/// object.
pub proof fn refs_are_published_last(
    at: (Seq<char>, Seq<char>),
    snapshot: Option<SnapshotModel>,
    events: Seq<EventModel>,
)
    requires
        changes_refs(upload_run(at, snapshot, events).1),
    ensures
        ({
            let s = upload_run(at, snapshot, events).0;
            &&& completed_packs(at, snapshot, events) == s.keep
            &&& s.browse matches Some(browse) && browse.stage == BrowseStage::Complete
        }),
        forall|i: int| 0 <= i < events.len() ==> !rejects_batch(#[trigger] events[i]),
        forall|i: int|
            0 <= i < events.len() ==> !#[trigger] rejects_call(at, snapshot, events, i),
{
    lemma_run(at, snapshot, events);
    lemma_progress(at, snapshot, events);
    assert forall|i: int| 0 <= i < events.len() implies !#[trigger] rejects_call(
        at,
        snapshot,
        events,
        i,
    ) by {
        if rejects_call(at, snapshot, events, i) {
            lemma_calls(at, snapshot, events, i);
        }
    }
}

/// In every run, packs are pruned only once the refs are published.
pub proof fn packs_are_pruned_after_publication(
    at: (Seq<char>, Seq<char>),
    snapshot: Option<SnapshotModel>,
    events: Seq<EventModel>,
)
    requires
        upload_run(at, snapshot, events).0.stage == UploadStage::Pruning,
    ensures
        upload_run(at, snapshot, events).0.publish matches Some(publish) && publish.stage
            == PublishStage::Published,
{
    lemma_run(at, snapshot, events);
}

/// Every reply is a list of texts.
pub open spec fn all_tell_ids(replies: Seq<JsonModel>) -> bool {
    forall|i: int| 0 <= i < replies.len() ==> tells_ids(#[trigger] replies[i])
}

/// The answers to the questions for missing objects are understood exactly where each is a
/// list of texts, and then name the texts in all of them, in order.
pub proof fn answers_name_every_missing_object(replies: Seq<JsonModel>)
    ensures
        missing_answers(replies) is Ok <==> all_tell_ids(replies),
        missing_answers(replies) matches Ok(ids) ==> ids == all_told_ids(replies),
    decreases replies.len(),
{
    let parts = Seq::new(replies.len(), |i: int| told_ids(replies[i]));
    if replies.len() == 0 {
        assert(parts.flatten() =~= seq![]);
    } else {
        let front = replies.drop_last();
        let less = Seq::new(front.len(), |i: int| told_ids(front[i]));
        answers_name_every_missing_object(front);
        assert(parts =~= less.push(told_ids(replies.last())));
        flatten_push(less, told_ids(replies.last()));
        if let Some(items) = items_field(replies.last(), "ok"@) {
            if let Some(ids) = texts_of(items) {
                assert(ids =~= told_ids(replies.last()));
            }
        }
        if all_tell_ids(replies) {
            assert forall|i: int| 0 <= i < front.len() implies tells_ids(#[trigger] front[i]) by {
                assert(tells_ids(replies[i]));
            }
            assert(tells_ids(replies[replies.len() - 1]));
        }
        if missing_answers(replies) is Ok {
            assert(tells_ids(replies.last()));
            assert forall|i: int| 0 <= i < replies.len() implies tells_ids(
                #[trigger] replies[i],
            ) by {
                if i < front.len() {
                    assert(tells_ids(front[i]));
                }
            }
        }
    }
}

/// What is known of the missing objects once the canister has named them.
spec fn names_missing(s: UploadModel, event: EventModel) -> bool {
    s.stage == UploadStage::Negotiated ==> {
        &&& event matches EventModel::Replies(replies)
        &&& all_tell_ids(replies)
        &&& s.missing == all_told_ids(replies)
    }
}

proof fn lemma_named(s: UploadModel, event: EventModel)
    ensures
        names_missing(upload_step(s, event).0, event),
        upload_step(s, event).0.stage == UploadStage::Negotiated ==> s.stage
            == UploadStage::Asking,
        upload_step(s, event).1 matches ActionModel::PackObjects(ids) ==> {
            &&& s.stage == UploadStage::Negotiated
            &&& event is Done
            &&& ids == s.missing
            &&& ids.len() > 0
        },
{
    reveal(upload_step);
    if let EventModel::Replies(replies) = event {
        answers_name_every_missing_object(replies);
    }
    lemma_no_packing(s, event);
}

proof fn lemma_no_packing(s: UploadModel, event: EventModel)
    ensures
        s.stage != UploadStage::Negotiated ==> upload_next(s, event).1 !is PackObjects,
{
    if let EventModel::Replies(replies) = event {
        lemma_missing_answers(replies);
    }
    if let Some(browse) = s.browse {
        if let Some(upload) = browse.upload {
            lemma_no_packing_object(s.at, upload, event);
        }
    }
}

proof fn lemma_no_packing_object(
    at: (Seq<char>, Seq<char>),
    s: ObjectUploadModel,
    event: EventModel,
)
    ensures
        object_next(at, s, event).1 matches Some(action) ==> action !is PackObjects,
{
}

/// In every run that packs objects, they are exactly those that the canister named in its
/// answers to the questions before: every id of every answer, in order.
pub proof fn the_missing_objects_are_packed(
    at: (Seq<char>, Seq<char>),
    snapshot: Option<SnapshotModel>,
    events: Seq<EventModel>,
    ids: Seq<Seq<char>>,
)
    requires
        upload_run(at, snapshot, events).1 == ActionModel::PackObjects(ids),
    ensures
        events.len() >= 2,
        upload_run(at, snapshot, events.take(events.len() - 2)).0.stage == UploadStage::Asking,
        events[events.len() - 2] matches EventModel::Replies(replies) && all_tell_ids(replies)
            && ids == all_told_ids(replies),
        events[events.len() - 1] is Done,
{
    assert(events.len() > 0);
    let front = events.drop_last();
    let s = upload_run(at, snapshot, front).0;
    lemma_named(s, events.last());
    assert(front.len() > 0);
    let before = front.drop_last();
    lemma_named(upload_run(at, snapshot, before).0, front.last());
    assert(before =~= events.take(events.len() - 2));
}

/// In every run, once the canister has named the missing objects they are all packed, in
/// the order in which it named them, unless it has so many packs that everything is packed
/// anew, or it lacks nothing.
pub proof fn named_objects_are_packed(
    at: (Seq<char>, Seq<char>),
    snapshot: Option<SnapshotModel>,
    events: Seq<EventModel>,
    replies: Seq<JsonModel>,
)
    requires
        upload_run(at, snapshot, events).0.stage == UploadStage::Asking,
        all_tell_ids(replies),
    ensures
        ({
            let s = upload_run(at, snapshot, events).0;
            let packs = sorted_members(pack_ids(s.remote));
            let next = upload_run(
                at,
                snapshot,
                events.push(EventModel::Replies(replies)).push(EventModel::Done),
            ).1;
            if packs.len() + 10 >= s.capabilities.max_retained_packs {
                next is Repack
            } else if all_told_ids(replies).len() > 0 {
                next == ActionModel::PackObjects(all_told_ids(replies))
            } else {
                next !is PackObjects && next !is Repack && !stops(next)
            }
        }),
{
    let answered = events.push(EventModel::Replies(replies));
    assert(answered.drop_last() =~= events);
    assert(answered.push(EventModel::Done).drop_last() =~= answered);
    answers_name_every_missing_object(replies);
    let s = upload_run(at, snapshot, events).0;
    let named = upload_run(at, snapshot, answered);
    assert(named == upload_step(s, EventModel::Replies(replies)));
    assert(upload_run(at, snapshot, answered.push(EventModel::Done)) == upload_step(
        named.0,
        EventModel::Done,
    ));
    reveal(upload_step);
    assert(named.0.missing == all_told_ids(replies));
}

/// There is nothing to push, or everything is stored and the changes are published.
pub open spec fn is_pushed(s: UploadModel) -> bool {
    ||| s.candidates.len() == 0 && s.changes.len() == 0
    ||| {
        &&& s.browse matches Some(browse) && browse.stage == BrowseStage::Complete
        &&& s.publish matches Some(publish) && publish.stage == PublishStage::Published
    }
}

spec fn finishes_well(s: UploadModel, action: ActionModel) -> bool {
    &&& in_order(s)
    &&& s.stage == UploadStage::Finishing || s.stage == UploadStage::Ended ==> is_pushed(s)
    &&& action is Finish ==> s.stage == UploadStage::Ended
}

proof fn lemma_finishes_step(s: UploadModel, event: EventModel)
    requires
        in_order(s),
        s.stage == UploadStage::Finishing || s.stage == UploadStage::Ended ==> is_pushed(s),
    ensures
        finishes_well(upload_step(s, event).0, upload_step(s, event).1),
{
    lemma_upload_step(s, event);
    reveal(upload_step);
    match s.stage {
        UploadStage::Packs => {
            if let Some(pack) = s.pack {
                lemma_pack_step(
                    s.at,
                    s.capabilities,
                    indexed_count(s.remote, pack.id),
                    pack,
                    event,
                );
                lemma_pack_goes_on(
                    s.at,
                    s.capabilities,
                    indexed_count(s.remote, pack.id),
                    pack,
                    event,
                );
            }
        },
        UploadStage::Browsing => {
            if let Some(browse) = s.browse {
                lemma_browse_goes_on(s.at, browse, event);
            }
        },
        UploadStage::Publishing => {
            if let Some(publish) = s.publish {
                lemma_publish_step(s.at, publish, event);
                lemma_publish_goes_on(s.at, publish, event);
            }
        },
        UploadStage::Asking => {
            if let EventModel::Replies(replies) = event {
                lemma_missing_answers(replies);
            }
        },
        _ => {},
    }
}

proof fn lemma_pack_goes_on(
    at: (Seq<char>, Seq<char>),
    capabilities: TransportCapabilities,
    remote: Option<usize>,
    s: PackModel,
    event: EventModel,
)
    ensures
        pack_next(at, capabilities, remote, s, event).1 matches Some(next) ==> next !is Finish,
{
}

proof fn lemma_browse_goes_on(at: (Seq<char>, Seq<char>), s: BrowseModel, event: EventModel)
    ensures
        browse_next(at, s, event).1 matches Some(next) ==> next !is Finish,
{
    if let EventModel::Replies(replies) = event {
        lemma_missing_answers(replies);
    }
    if let Some(upload) = s.upload {
        lemma_object_goes_on(at, upload, event);
    }
}

proof fn lemma_object_goes_on(at: (Seq<char>, Seq<char>), s: ObjectUploadModel, event: EventModel)
    ensures
        object_next(at, s, event).1 matches Some(next) ==> next !is Finish,
{
}

proof fn lemma_publish_goes_on(at: (Seq<char>, Seq<char>), s: PublishModel, event: EventModel)
    ensures
        publish_next(at, s, event).1 matches Some(next) ==> next !is Finish,
{
}

proof fn lemma_finishes(
    at: (Seq<char>, Seq<char>),
    snapshot: Option<SnapshotModel>,
    events: Seq<EventModel>,
)
    ensures
        finishes_well(
            upload_run(at, snapshot, events).0,
            upload_run(at, snapshot, events).1,
        ),
    decreases events.len(),
{
    if events.len() == 0 {
        lemma_start(at, snapshot);
    } else {
        let front = events.drop_last();
        lemma_finishes(at, snapshot, front);
        lemma_finishes_step(upload_run(at, snapshot, front).0, events.last());
    }
}

/// In every run, an upload is finished only where there was nothing to push, or every object
/// is stored and the changes of refs are published.
pub proof fn pushes_finish_only_when_published(
    at: (Seq<char>, Seq<char>),
    snapshot: Option<SnapshotModel>,
    events: Seq<EventModel>,
)
    requires
        upload_run(at, snapshot, events).1 is Finish,
    ensures
        is_pushed(upload_run(at, snapshot, events).0),
{
    lemma_finishes(at, snapshot, events);
}

/// A push without a snapshot whose questions are not all taken goes no further.
pub proof fn refused_listings_stop_the_push(
    at: (Seq<char>, Seq<char>),
    offer: Option<JsonModel>,
    replies: Seq<JsonModel>,
)
    requires
        !take_all(replies),
    ensures
        stops(upload_run(at, None, seq![EventModel::Negotiated(offer, replies)]).1),
{
    let event = EventModel::Negotiated(offer, replies);
    assert(seq![event].drop_last() =~= seq![]);
    reveal(upload_step);
    assert(upload_run(at, None, seq![event].drop_last()) == upload_start(at, None));
    let i = choose|i: int| 0 <= i < replies.len() && !takes(#[trigger] replies[i]);
    if replies.len() == 2 {
        assert(i == 0 || i == 1);
    }
}

} // verus!
