//! Where an operation fails, and what it says then.
use vstd::prelude::*;
use vstd::utf8::encode_utf8;

use crate::action::{first_rejected, stops, ActionModel, EventModel};
use crate::browse::{browse_next, BrowseModel, BrowseStage};
use crate::download::{gives_batches, replies_bytes, reply_bytes};
use crate::json::{bool_field, items_field, json_text, text_field, JsonModel};
use crate::materialize::{
    materialize_next, materialize_packs, MaterializeModel, MaterializeStage,
};
use crate::objects::{missing_answers, objects_in};
use crate::pack::pack_name;
use crate::pack_upload::{pack_next, PackModel, PackStage};
use crate::refs::{ref_of, refs_of};
use crate::text::{lossy, trimmed};
use crate::transport::{capabilities_of, default_capabilities, offered, TransportCapabilities};
use crate::upload::{indexed_count, upload_next, UploadModel, UploadStage};
use crate::upload_laws::answers_name_every_missing_object;
use crate::wording::{takes, tells_ids};

verus! {

/// The first reply that does not take its call is at `i`.
pub open spec fn first_refused(replies: Seq<JsonModel>, i: int) -> bool {
    &&& 0 <= i < replies.len()
    &&& !takes(replies[i])
    &&& forall|k: int| 0 <= k < i ==> takes(#[trigger] replies[k])
}

/// A failure with this reason, and the reply.
pub open spec fn failure(reason: Seq<char>, reply: JsonModel) -> ActionModel {
    ActionModel::Fail(reason + json_text(reply))
}

proof fn lemma_first(replies: Seq<JsonModel>, i: int)
    requires
        first_refused(replies, i),
    ensures
        first_rejected(replies) == Some(replies[i]),
    decreases replies.len(),
{
    if i > 0 {
        assert(takes(replies[0]));
        let rest = replies.drop_first();
        assert forall|k: int| 0 <= k < i - 1 implies takes(#[trigger] rest[k]) by {
            assert(rest[k] == replies[k + 1]);
        }
        assert(rest[i - 1] == replies[i]);
        lemma_first(rest, i - 1);
    }
}

/// While a pack travels, the first piece or batch of the index that is not taken ends the
/// upload with that reply, and so does a conclusion that is not taken.
pub proof fn refused_packs_fail(
    at: (Seq<char>, Seq<char>),
    capabilities: TransportCapabilities,
    remote: Option<usize>,
    s: PackModel,
    replies: Seq<JsonModel>,
    i: int,
    reply: JsonModel,
)
    requires
        first_refused(replies, i),
        !takes(reply),
    ensures
        s.stage == PackStage::Sending ==> pack_next(
            at,
            capabilities,
            remote,
            s,
            EventModel::Replies(replies),
        ).1 == Some(failure("chunk upload rejected: "@, replies[i])),
        s.stage == PackStage::Indexing ==> pack_next(
            at,
            capabilities,
            remote,
            s,
            EventModel::Replies(replies),
        ).1 == Some(failure("pack index batch rejected: "@, replies[i])),
        s.stage == PackStage::Finalizing ==> pack_next(
            at,
            capabilities,
            remote,
            s,
            EventModel::Reply(reply),
        ).1 == Some(failure("pack finalization rejected: "@, reply)),
        s.stage == PackStage::Starting ==> pack_next(
            at,
            capabilities,
            remote,
            s,
            EventModel::Reply(reply),
        ).1 == Some(failure("pack index batch rejected: "@, reply)),
{
    lemma_first(replies, i);
}

/// A pack that is not what its id says is not sent.
pub proof fn broken_packs_are_not_sent(
    at: (Seq<char>, Seq<char>),
    capabilities: TransportCapabilities,
    remote: Option<usize>,
    s: PackModel,
    bytes: Seq<u8>,
)
    requires
        s.stage == PackStage::Reading,
        bytes.len() < 20 || pack_name(bytes) != s.id,
    ensures
        pack_next(at, capabilities, remote, s, EventModel::Output(bytes)).1 == Some(
            if bytes.len() < 20 {
                ActionModel::Abort("a pack is shorter than its checksum"@)
            } else {
                ActionModel::Fail("local pack checksum mismatch: "@ + s.id)
            },
        ),
{
}

/// A batch of objects that is not taken ends their storing with that reply. Objects that git
/// could not print, or did not print as it should, are not stored.
pub proof fn refused_objects_fail(
    at: (Seq<char>, Seq<char>),
    s: BrowseModel,
    replies: Seq<JsonModel>,
    i: int,
    output: Seq<u8>,
)
    requires
        first_refused(replies, i),
    ensures
        s.stage == BrowseStage::Batching ==> browse_next(at, s, EventModel::Replies(replies)).1
            == Some(failure("browse object batch rejected: "@, replies[i])),
        s.stage == BrowseStage::Reading ==> {
            &&& objects_in(s.missing, output) matches Err(message) ==> browse_next(
                at,
                s,
                EventModel::Stream(output, true),
            ).1 == Some(ActionModel::Fail(message))
            &&& objects_in(s.missing, output) is Ok ==> browse_next(
                at,
                s,
                EventModel::Stream(output, false),
            ).1 == Some(ActionModel::Fail("git cat-file batch failed"@))
        },
{
    lemma_first(replies, i);
}

proof fn lemma_answers(replies: Seq<JsonModel>, i: int)
    requires
        0 <= i < replies.len(),
        items_field(replies[i], "ok"@) is None,
        forall|k: int| 0 <= k < i ==> tells_ids(#[trigger] replies[k]),
    ensures
        missing_answers(replies) == Err::<Seq<Seq<char>>, ActionModel>(
            failure("object negotiation rejected: "@, replies[i]),
        ),
    decreases replies.len(),
{
    let front = replies.drop_last();
    if i < front.len() {
        assert forall|k: int| 0 <= k < i implies tells_ids(#[trigger] front[k]) by {
            assert(tells_ids(replies[k]));
        }
        assert(front[i] == replies[i]);
        lemma_answers(front, i);
    } else {
        assert forall|k: int| 0 <= k < front.len() implies tells_ids(
            #[trigger] front[k],
        ) by {
            assert(tells_ids(replies[k]));
        }
        answers_name_every_missing_object(front);
    }
}

/// A question for missing objects that is not answered by a list ends a push, or the storing
/// of objects, with that reply.
pub proof fn refused_questions_fail(
    at: (Seq<char>, Seq<char>),
    s: UploadModel,
    b: BrowseModel,
    replies: Seq<JsonModel>,
    i: int,
)
    requires
        0 <= i < replies.len(),
        items_field(replies[i], "ok"@) is None,
        forall|k: int| 0 <= k < i ==> tells_ids(#[trigger] replies[k]),
    ensures
        s.stage == UploadStage::Asking ==> upload_next(s, EventModel::Replies(replies)).1
            == failure("object negotiation rejected: "@, replies[i]),
        b.stage == BrowseStage::Asking ==> browse_next(at, b, EventModel::Replies(replies)).1
            == Some(failure("object negotiation rejected: "@, replies[i])),
{
    lemma_answers(replies, i);
}

/// A push whose listings are refused, or whose pruning is, fails with the reply. So does one
/// for which git names no pack.
pub proof fn refused_pushes_fail(
    s: UploadModel,
    offer: Option<JsonModel>,
    refs: JsonModel,
    packs: JsonModel,
    reply: JsonModel,
    output: Seq<u8>,
)
    ensures
        s.stage == UploadStage::Negotiating && items_field(refs, "ok"@) is None ==> upload_next(
            s,
            EventModel::Negotiated(offer, seq![refs, packs]),
        ).1 == failure("ref listing rejected: "@, refs),
        s.stage == UploadStage::Negotiating && items_field(packs, "ok"@) is None && (items_field(
            refs,
            "ok"@,
        ) matches Some(entries) && refs_of(entries) is Some) ==> upload_next(
            s,
            EventModel::Negotiated(offer, seq![refs, packs]),
        ).1 == failure("pack listing rejected: "@, packs),
        s.stage == UploadStage::Pruning && !takes(reply) ==> upload_next(
            s,
            EventModel::Reply(reply),
        ).1 == failure("obsolete pack pruning rejected: "@, reply),
        s.stage == UploadStage::Packing && encode_utf8(trimmed(lossy(output))).len() != 40
            ==> upload_next(s, EventModel::Output(output)).1 == ActionModel::Fail(
            "git pack-objects returned an invalid pack id"@,
        ),
{
}

proof fn lemma_chunks(replies: Seq<JsonModel>, batched: bool, i: int)
    requires
        0 <= i < replies.len(),
        items_field(replies[i], "ok"@) is None,
        forall|k: int| 0 <= k < i ==> reply_bytes(#[trigger] replies[k], batched) is Ok,
    ensures
        replies_bytes(replies, batched) == Err::<Seq<u8>, ActionModel>(
            failure("chunk download rejected: "@, replies[i]),
        ),
    decreases replies.len(),
{
    let front = replies.drop_last();
    if i < front.len() {
        assert forall|k: int| 0 <= k < i implies reply_bytes(#[trigger] front[k], batched) is Ok by {
            assert(reply_bytes(replies[k], batched) is Ok);
        }
        assert(front[i] == replies[i]);
        lemma_chunks(front, batched, i);
    } else {
        assert forall|k: int| 0 <= k < front.len() implies reply_bytes(
            #[trigger] front[k],
            batched,
        ) is Ok by {
            assert(reply_bytes(replies[k], batched) is Ok);
        }
        lemma_fine(front, batched);
    }
}

proof fn lemma_fine(replies: Seq<JsonModel>, batched: bool)
    requires
        forall|k: int| 0 <= k < replies.len() ==> reply_bytes(#[trigger] replies[k], batched) is Ok,
    ensures
        replies_bytes(replies, batched) is Ok,
    decreases replies.len(),
{
    if replies.len() > 0 {
        let front = replies.drop_last();
        assert forall|k: int| 0 <= k < front.len() implies reply_bytes(
            #[trigger] front[k],
            batched,
        ) is Ok by {
            assert(reply_bytes(replies[k], batched) is Ok);
        }
        lemma_fine(front, batched);
        assert(reply_bytes(replies[replies.len() - 1], batched) is Ok);
    }
}

/// A pull whose listings are refused, or a chunk of which is, fails with the reply; and a pack
/// that is not what its id says fails it with the id, once it is thrown away.
pub proof fn refused_pulls_fail(
    s: MaterializeModel,
    offer: Option<JsonModel>,
    reply: JsonModel,
    replies: Seq<JsonModel>,
    i: int,
)
    requires
        items_field(reply, "ok"@) is None,
        0 <= i < replies.len(),
        items_field(replies[i], "ok"@) is None,
        forall|k: int|
            0 <= k < i ==> reply_bytes(#[trigger] replies[k], gives_batches(s.capabilities)) is Ok,
    ensures
        s.stage == MaterializeStage::Probing ==> materialize_next(
            s,
            EventModel::Negotiated(offer, seq![reply]),
        ).1 == failure("pack listing rejected: "@, reply),
        s.stage == MaterializeStage::ListingRemote ==> materialize_next(
            s,
            EventModel::Reply(reply),
        ).1 == failure("ref listing rejected: "@, reply),
        s.stage == MaterializeStage::Fetching ==> materialize_next(
            s,
            EventModel::Replies(replies),
        ).1 == failure("chunk download rejected: "@, replies[i]),
        s.stage == MaterializeStage::Discarding ==> materialize_next(s, EventModel::Done).1
            == ActionModel::Fail("pack checksum mismatch: "@ + s.id),
{
    lemma_chunks(replies, gives_batches(s.capabilities), i);
}

/// The number of indexed objects of a pack is that of its last entry in the listing; a pack
/// that is not listed has none.
pub proof fn the_last_entry_counts(
    packs: Seq<(Seq<char>, usize)>,
    id: Seq<char>,
    other: Seq<char>,
    n: usize,
)
    ensures
        indexed_count(seq![], id) is None,
        indexed_count(packs.push((id, n)), id) == Some(n),
        other != id ==> indexed_count(packs.push((other, n)), id) == indexed_count(packs, id),
{
    assert(packs.push((id, n)).drop_last() =~= packs);
    assert(packs.push((other, n)).drop_last() =~= packs);
}

/// A transport offers what its canister told; without an answer, what every one has: single
/// chunks, five hundred index entries at a time, and a hundred packs.
pub proof fn transports_offer_what_was_told(answer: JsonModel)
    ensures
        offered(Some(answer)) == capabilities_of(answer),
        offered(None) == (TransportCapabilities {
            version: 1,
            max_chunk_batch_items: 1,
            max_chunk_batch_bytes: 524_288,
            max_pack_index_batch_items: 500,
            max_download_batch_items: 1,
            max_retained_packs: 100,
            packed_object_reads: false,
            streaming_pack_downloads: false,
        }),
        default_capabilities() == offered(None),
{
}

/// A pull that comes to a pack which is complete but has no id, or no number of chunks, gives
/// up; one that is not complete is passed over.
pub proof fn broken_listings_end_the_pull(s: MaterializeModel)
    requires
        s.next < s.packs.len(),
    ensures
        ({
            let pack = s.packs[s.next as int];
            let complete = bool_field(pack, "complete"@) == Some(true);
            &&& complete && text_field(pack, "pack_id"@) is None ==> stops(
                materialize_packs(s).1,
            )
            &&& complete && text_field(pack, "chunk_count"@) is None ==> stops(
                materialize_packs(s).1,
            )
            &&& !complete ==> materialize_packs(s) == materialize_packs(
                MaterializeModel { next: s.next + 1, ..s },
            )
        }),
{
}

/// A ref without a name or an object ends a push or a pull that is told of it.
pub proof fn broken_refs_end_the_operation(
    p: UploadModel,
    s: MaterializeModel,
    offer: Option<JsonModel>,
    reply: JsonModel,
    packs: JsonModel,
    i: int,
)
    requires
        items_field(reply, "ok"@) is Some,
        0 <= i < items_field(reply, "ok"@)->Some_0.len(),
        ({
            let entry = items_field(reply, "ok"@)->Some_0[i];
            text_field(entry, "name"@) is None || text_field(entry, "oid"@) is None
        }),
    ensures
        p.stage == UploadStage::Negotiating ==> stops(
            upload_next(p, EventModel::Negotiated(offer, seq![reply, packs])).1,
        ),
        s.stage == MaterializeStage::ListingRemote ==> stops(
            materialize_next(s, EventModel::Reply(reply)).1,
        ),
{
    let entries = items_field(reply, "ok"@)->Some_0;
    assert(ref_of(entries[i]) is None);
}

} // verus!
