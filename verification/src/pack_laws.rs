//! What the upload of a pack does, from its first action to its last.
use vstd::prelude::*;

use crate::action::{
    accepted, all_accepted, first_rejected, none_rejected_means_all_accepted, ActionModel,
    CallModel, EventModel,
};
use crate::browse_laws::says_complete;
use crate::candid::blob_text;
use crate::chunk::{chunks, chunks_are_at_multiples, chunks_are_bounded};
use crate::json::{items_field, text_value, JsonModel};
use crate::order::sorted_members_are_the_members_in_order;
use crate::pack::{
    batch_end, batches, chunk_calls, chunk_records, index_calls, indexed_already, lengths,
    listed_metadata, metadata_records, pack_batches_keep_the_limits, pack_name, pending_objects,
    sha256, texts_among, MetadataModel,
};
use crate::pack_upload::{pack_next, pack_start, PackModel, PackStage};
use crate::talk::{
    replies_to, talk_after, talk_step, talks_go_on, talks_step_on, Machine, Outside, Talk,
};
use crate::text::{decimal, hex, lines, lossy};
use crate::transport::{usable, TransportCapabilities, CHUNK_SIZE};
use crate::wording::{nth_run, opening_at, part_alone, run_count, take_all, takes, worded_list};

verus! {

/// The machine that uploads a pack.
pub open spec fn pack_machine(
    at: (Seq<char>, Seq<char>),
    capabilities: TransportCapabilities,
    remote: Option<usize>,
) -> Machine<PackModel> {
    |s: PackModel, event: EventModel| pack_next(at, capabilities, remote, s, event)
}

/// The call that announces a pack.
pub open spec fn pack_announcement(
    at: (Seq<char>, Seq<char>),
    id: Seq<char>,
    bytes: Seq<u8>,
) -> CallModel {
    CallModel {
        method: "begin_pack"@,
        argument: opening_at(at, id) + ", "@ + decimal(bytes.len()) + ", "@ + decimal(524_288)
            + ")"@,
    }
}

/// The piece of a pack from `index` times 524288 on.
pub open spec fn piece(bytes: Seq<u8>, index: nat) -> Seq<u8> {
    nth_run(bytes, 524_288, index)
}

/// The call that carries one piece, with its number and its digest.
pub open spec fn piece_call(
    at: (Seq<char>, Seq<char>),
    id: Seq<char>,
    bytes: Seq<u8>,
    index: nat,
) -> CallModel {
    CallModel {
        method: "put_pack_chunk"@,
        argument: opening_at(at, id) + ", "@ + decimal(index) + ", \""@ + hex(
            sha256(piece(bytes, index)),
        ) + "\", "@ + blob_text(piece(bytes, index)) + ")"@,
    }
}

/// A piece within the call that carries several.
pub open spec fn piece_record(bytes: Seq<u8>, index: nat) -> Seq<char> {
    "record { index = "@ + decimal(index) + "; digest = \""@ + hex(sha256(piece(bytes, index)))
        + "\"; payload = "@ + blob_text(piece(bytes, index)) + " }"@
}

/// The call that carries the pieces from `from` up to but not including `to`.
pub open spec fn pieces_call(
    at: (Seq<char>, Seq<char>),
    id: Seq<char>,
    bytes: Seq<u8>,
    from: nat,
    to: nat,
) -> CallModel {
    CallModel {
        method: "put_pack_chunks"@,
        argument: opening_at(at, id) + ", "@ + worded_list(
            Seq::new((to - from) as nat, |i: int| piece_record(bytes, (from + i) as nat)),
        ) + ")"@,
    }
}

/// How the pieces of a pack are put together, where the transport takes several at a time.
pub open spec fn piece_batches(bytes: Seq<u8>, capabilities: TransportCapabilities) -> Seq<
    (nat, nat),
> {
    batches(
        lengths(chunks(bytes, CHUNK_SIZE as nat)),
        0,
        capabilities.max_chunk_batch_items as nat,
        capabilities.max_chunk_batch_bytes as nat,
    )
}

/// The calls that carry a pack.
pub open spec fn carrying_calls(
    at: (Seq<char>, Seq<char>),
    id: Seq<char>,
    bytes: Seq<u8>,
    capabilities: TransportCapabilities,
) -> Seq<CallModel> {
    if capabilities.version >= 2 && capabilities.max_chunk_batch_items > 1 {
        let cuts = piece_batches(bytes, capabilities);
        Seq::new(cuts.len(), |i: int| pieces_call(at, id, bytes, cuts[i].0, cuts[i].1))
    } else {
        Seq::new(run_count(bytes.len(), 524_288), |i: int| piece_call(at, id, bytes, i as nat))
    }
}

/// The reply names this id.
pub open spec fn names_id(reply: JsonModel, id: Seq<char>) -> bool {
    items_field(reply, "ok"@) matches Some(items) && exists|i: int|
        0 <= i < items.len() && #[trigger] text_value(items[i]) == Some(id)
}

/// The reply names no id.
pub open spec fn names_none(reply: JsonModel) -> bool {
    forall|id: Seq<char>| !#[trigger] names_id(reply, id)
}

/// The objects that a canister has not indexed yet.
pub open spec fn unnamed_objects(
    objects: Seq<MetadataModel>,
    reply: JsonModel,
) -> Seq<MetadataModel> {
    objects.filter(|o: MetadataModel| !names_id(reply, o.oid))
}

/// An object within the call that indexes several, written out.
pub open spec fn worded_metadata(object: MetadataModel) -> Seq<char> {
    "record { oid = \""@ + object.oid + "\"; kind = variant { \""@ + object.kind
        + "\" }; size = "@ + decimal(object.size as nat) + " }"@
}

/// The call that indexes objects of a pack; `starts` is whether it starts the index.
pub open spec fn indexing_call(
    at: (Seq<char>, Seq<char>),
    id: Seq<char>,
    version: usize,
    objects: Seq<MetadataModel>,
    starts: bool,
) -> CallModel {
    CallModel {
        method: if version >= 2 {
            "index_pack_objects_batch_v2"@
        } else {
            "index_pack_objects_batch"@
        },
        argument: opening_at(at, id) + ", "@ + worded_list(
            Seq::new(objects.len(), |i: int| worded_metadata(objects[i])),
        ) + ", "@ + (if starts {
            "true"@
        } else {
            "false"@
        }) + ")"@,
    }
}

/// The calls that index what a canister has not indexed of a pack, so many objects at a time
/// as its transport takes.
pub open spec fn indexing_calls(
    at: (Seq<char>, Seq<char>),
    id: Seq<char>,
    capabilities: TransportCapabilities,
    objects: Seq<MetadataModel>,
    reply: JsonModel,
) -> Seq<CallModel> {
    let left = unnamed_objects(objects, reply);
    let size = capabilities.max_pack_index_batch_items as nat;
    Seq::new(
        run_count(left.len(), size),
        |i: int|
            indexing_call(
                at,
                id,
                capabilities.version,
                nth_run(left, size, i as nat),
                names_none(reply) && i == 0,
            ),
    )
}

/// The actions that index a pack.
pub open spec fn indexing_actions(
    at: (Seq<char>, Seq<char>),
    id: Seq<char>,
    capabilities: TransportCapabilities,
    objects: Seq<MetadataModel>,
    reply: JsonModel,
) -> Seq<ActionModel> {
    let calls = indexing_calls(at, id, capabilities, objects, reply);
    if capabilities.version < 2 {
        seq![ActionModel::Sequence(calls)]
    } else if names_none(reply) && calls.len() > 0 {
        seq![ActionModel::Call(calls[0]), ActionModel::Calls(calls.drop_first())]
    } else {
        seq![ActionModel::Calls(calls)]
    }
}

/// The actions of the upload of a pack. A pack of which the canister has indexed as many
/// objects as there are is passed over. Any other is verified and announced, its bytes are
/// sent unless the canister has them all, and its objects are indexed.
pub open spec fn pack_actions(
    w: Outside,
    at: (Seq<char>, Seq<char>),
    capabilities: TransportCapabilities,
    remote: Option<usize>,
    id: Seq<char>,
) -> Seq<ActionModel> {
    let bytes = (w.packs)(id);
    let announcement = pack_announcement(at, id, bytes);
    let listing = part_alone("list_pack_objects"@, at, id);
    if remote is Some && remote == (w.counts)(id) {
        seq![ActionModel::CountObjects(id)]
    } else {
        seq![
            ActionModel::CountObjects(id),
            ActionModel::VerifyPack(id),
            ActionModel::ReadPack(id),
            ActionModel::Call(announcement),
        ] + (if says_complete((w.answers)(announcement)) == Some(true) {
            seq![]
        } else {
            seq![
                ActionModel::Calls(carrying_calls(at, id, bytes, capabilities)),
                ActionModel::Call(part_alone("finalize_pack"@, at, id)),
            ]
        }) + seq![ActionModel::Call(listing)] + indexing_actions(
            at,
            id,
            capabilities,
            listed_metadata(lines(lossy((w.verified)(id)))),
            (w.answers)(listing),
        )
    }
}

proof fn lemma_carrying(
    at: (Seq<char>, Seq<char>),
    id: Seq<char>,
    bytes: Seq<u8>,
    capabilities: TransportCapabilities,
)
    requires
        usable(capabilities),
    ensures
        chunk_calls(at, id, bytes, capabilities) == carrying_calls(at, id, bytes, capabilities),
{
    let list = chunks(bytes, CHUNK_SIZE as nat);
    chunks_are_at_multiples(bytes, CHUNK_SIZE as nat);
    assert forall|i: int| 0 <= i < list.len() implies #[trigger] list[i] == piece(
        bytes,
        i as nat,
    ) by {
        assert(list[(i as nat) as int] == nth_run(bytes, CHUNK_SIZE as nat, i as nat));
    }
    if capabilities.version >= 2 && capabilities.max_chunk_batch_items > 1 {
        let cuts = piece_batches(bytes, capabilities);
        pack_batches_keep_the_limits(bytes, capabilities);
        assert forall|i: int| 0 <= i < cuts.len() implies #[trigger] chunk_records(list, cuts[i])
            == Seq::new(
            (cuts[i].1 - cuts[i].0) as nat,
            |k: int| piece_record(bytes, (cuts[i].0 + k) as nat),
        ) by {
            assert(cuts[i].1 <= lengths(list).len());
            assert(chunk_records(list, cuts[i]) =~= Seq::new(
                (cuts[i].1 - cuts[i].0) as nat,
                |k: int| piece_record(bytes, (cuts[i].0 + k) as nat),
            ));
        }
    }
    assert(chunk_calls(at, id, bytes, capabilities) =~= carrying_calls(
        at,
        id,
        bytes,
        capabilities,
    ));
}

proof fn lemma_among(items: Seq<JsonModel>, id: Seq<char>)
    ensures
        texts_among(items).contains(id) <==> exists|i: int|
            0 <= i < items.len() && #[trigger] text_value(items[i]) == Some(id),
    decreases items.len(),
{
    if items.len() > 0 {
        let front = items.drop_last();
        lemma_among(front, id);
        let n = items.len() - 1;
        let less = texts_among(front);
        if texts_among(items).contains(id) {
            if less.contains(id) {
                let i = choose|i: int|
                    0 <= i < front.len() && #[trigger] text_value(front[i]) == Some(id);
                assert(text_value(items[i]) == Some(id));
            } else {
                assert(text_value(items[n]) == Some(id));
            }
        }
        if exists|i: int| 0 <= i < items.len() && #[trigger] text_value(items[i]) == Some(id) {
            let i = choose|i: int|
                0 <= i < items.len() && #[trigger] text_value(items[i]) == Some(id);
            if i < n {
                assert(text_value(front[i]) == Some(id));
                let k = choose|k: int| 0 <= k < less.len() && less[k] == id;
                assert(texts_among(items)[k] == id);
            } else {
                assert(texts_among(items)[less.len() as int] == id);
            }
        }
    }
}

proof fn lemma_already(reply: JsonModel, id: Seq<char>)
    ensures
        indexed_already(reply).contains(id) <==> names_id(reply, id),
{
    if let Some(items) = items_field(reply, "ok"@) {
        lemma_among(items, id);
        sorted_members_are_the_members_in_order(texts_among(items));
    }
}

proof fn lemma_none_named(reply: JsonModel)
    ensures
        indexed_already(reply).len() == 0 <==> names_none(reply),
{
    if names_none(reply) && indexed_already(reply).len() > 0 {
        let id = indexed_already(reply)[0];
        assert(indexed_already(reply).contains(id));
        lemma_already(reply, id);
        assert(names_id(reply, id));
    }
    if indexed_already(reply).len() == 0 {
        assert forall|id: Seq<char>| !#[trigger] names_id(reply, id) by {
            lemma_already(reply, id);
        }
    }
}

proof fn lemma_pending(objects: Seq<MetadataModel>, reply: JsonModel)
    ensures
        pending_objects(objects, indexed_already(reply)) == unnamed_objects(objects, reply),
    decreases objects.len(),
{
    reveal(Seq::filter);
    if objects.len() > 0 {
        lemma_pending(objects.drop_last(), reply);
        lemma_already(reply, objects.last().oid);
    } else {
        assert(pending_objects(objects, indexed_already(reply)) =~= unnamed_objects(
            objects,
            reply,
        ));
    }
}

proof fn lemma_indexing(
    at: (Seq<char>, Seq<char>),
    id: Seq<char>,
    capabilities: TransportCapabilities,
    objects: Seq<MetadataModel>,
    reply: JsonModel,
)
    requires
        usable(capabilities),
    ensures
        index_calls(at, id, capabilities, objects, indexed_already(reply)) == indexing_calls(
            at,
            id,
            capabilities,
            objects,
            reply,
        ),
{
    let left = unnamed_objects(objects, reply);
    let size = capabilities.max_pack_index_batch_items as nat;
    lemma_pending(objects, reply);
    lemma_none_named(reply);
    chunks_are_at_multiples(left, size);
    let list = chunks(left, size);
    assert forall|i: int| 0 <= i < list.len() implies #[trigger] list[i] == nth_run(
        left,
        size,
        i as nat,
    ) by {
        assert(list[(i as nat) as int] == nth_run(left, size, i as nat));
    }
    assert forall|i: int| 0 <= i < list.len() implies #[trigger] metadata_records(list[i])
        == Seq::new(list[i].len(), |k: int| worded_metadata(list[i][k])) by {
        assert(metadata_records(list[i]) =~= Seq::new(
            list[i].len(),
            |k: int| worded_metadata(list[i][k]),
        ));
    }
    assert(index_calls(at, id, capabilities, objects, indexed_already(reply)) =~= indexing_calls(
        at,
        id,
        capabilities,
        objects,
        reply,
    ));
}

/// The canister takes every call.
pub open spec fn takes_every_call(w: Outside) -> bool {
    forall|call: CallModel| takes(#[trigger] (w.answers)(call))
}

/// Replies of a canister that takes every call take theirs.
pub proof fn takers_reject_nothing(w: Outside, calls: Seq<CallModel>)
    requires
        takes_every_call(w),
    ensures
        take_all(replies_to(w, calls)),
        first_rejected(replies_to(w, calls)) is None,
{
    let replies = replies_to(w, calls);
    assert forall|i: int| 0 <= i < replies.len() implies accepted(#[trigger] replies[i]) by {
        assert(takes((w.answers)(calls[i])));
    }
    assert forall|i: int| 0 <= i < replies.len() implies takes(#[trigger] replies[i]) by {
        assert(takes((w.answers)(calls[i])));
    }
    assert(all_accepted(replies));
    none_rejected_means_all_accepted(replies);
}

/// The pack is what its id says.
pub open spec fn is_pack(w: Outside, id: Seq<char>) -> bool {
    (w.packs)(id).len() >= 20 && pack_name((w.packs)(id)) == id
}

#[verifier::rlimit(60)]
proof fn lemma_index_steps(
    w: Outside,
    at: (Seq<char>, Seq<char>),
    capabilities: TransportCapabilities,
    remote: Option<usize>,
    t: Talk<PackModel>,
    id: Seq<char>,
) -> (n: nat)
    requires
        usable(capabilities),
        takes_every_call(w),
        t.s.stage == PackStage::Listing,
        t.s.id == id,
        t.action == Some(ActionModel::Call(part_alone("list_pack_objects"@, at, id))),
    ensures
        ({
            let machine = pack_machine(at, capabilities, remote);
            let end = talk_after(w, machine, t, n);
            let listing = part_alone("list_pack_objects"@, at, id);
            &&& end.action is None
            &&& end.log == t.log + seq![ActionModel::Call(listing)] + indexing_actions(
                at,
                id,
                capabilities,
                t.s.objects,
                (w.answers)(listing),
            )
        }),
{
    let machine = pack_machine(at, capabilities, remote);
    let listing = part_alone("list_pack_objects"@, at, id);
    let reply = (w.answers)(listing);
    lemma_indexing(at, id, capabilities, t.s.objects, reply);
    lemma_none_named(reply);
    let calls = indexing_calls(at, id, capabilities, t.s.objects, reply);
    let a = talk_step(w, machine, t);
    let b = talk_step(w, machine, a);
    takers_reject_nothing(w, calls);
    talks_step_on(w, machine, t, 0);
    talks_step_on(w, machine, t, 1);
    if capabilities.version < 2 {
        assert(b.log =~= t.log + seq![ActionModel::Call(listing)] + seq![
            ActionModel::Sequence(calls),
        ]);
        2
    } else if names_none(reply) && calls.len() > 0 {
        assert(takes((w.answers)(calls[0])));
        let c = talk_step(w, machine, b);
        takers_reject_nothing(w, calls.drop_first());
        talks_step_on(w, machine, t, 2);
        assert(c.log =~= t.log + seq![ActionModel::Call(listing)] + seq![
            ActionModel::Call(calls[0]),
            ActionModel::Calls(calls.drop_first()),
        ]);
        3
    } else {
        assert(b.log =~= t.log + seq![ActionModel::Call(listing)] + seq![
            ActionModel::Calls(calls),
        ]);
        2
    }
}

#[verifier::rlimit(60)]
proof fn lemma_pack_steps(
    w: Outside,
    at: (Seq<char>, Seq<char>),
    capabilities: TransportCapabilities,
    remote: Option<usize>,
    t: Talk<PackModel>,
    id: Seq<char>,
) -> (n: nat)
    requires
        usable(capabilities),
        takes_every_call(w),
        is_pack(w, id),
        t.s == pack_start(id).0,
        t.action == Some(pack_start(id).1),
    ensures
        n > 0,
        talk_after(w, pack_machine(at, capabilities, remote), t, n).action is None,
        talk_after(w, pack_machine(at, capabilities, remote), t, n).log == t.log + pack_actions(
            w,
            at,
            capabilities,
            remote,
            id,
        ),
{
    let machine = pack_machine(at, capabilities, remote);
    let bytes = (w.packs)(id);
    let announcement = pack_announcement(at, id, bytes);
    let counted = talk_step(w, machine, t);
    talks_step_on(w, machine, t, 0);
    if remote is Some && remote == (w.counts)(id) {
        assert(counted.log =~= t.log + seq![ActionModel::CountObjects(id)]);
        1
    } else {
        let verified = talk_step(w, machine, counted);
        let read = talk_step(w, machine, verified);
        assert(read.action == Some(ActionModel::Call(announcement)));
        let announced = talk_step(w, machine, read);
        talks_step_on(w, machine, t, 1);
        talks_step_on(w, machine, t, 2);
        let head = seq![
            ActionModel::CountObjects(id),
            ActionModel::VerifyPack(id),
            ActionModel::ReadPack(id),
        ];
        assert(read.log =~= t.log + head);
        let m = lemma_send_steps(w, at, capabilities, remote, read, id);
        talks_go_on(w, machine, t, 3, m);
        let sent = sending_actions(w, at, capabilities, id);
        assert(pack_actions(w, at, capabilities, remote, id) =~= head + sent);
        assert(talk_after(w, machine, read, m).log == read.log + sent);
        assert(t.log + head + sent =~= t.log + (head + sent));
        (m + 3) as nat
    }
}

/// The actions from the announcement of a pack on.
spec fn sending_actions(
    w: Outside,
    at: (Seq<char>, Seq<char>),
    capabilities: TransportCapabilities,
    id: Seq<char>,
) -> Seq<ActionModel> {
    let bytes = (w.packs)(id);
    let announcement = pack_announcement(at, id, bytes);
    let listing = part_alone("list_pack_objects"@, at, id);
    seq![ActionModel::Call(announcement)] + (if says_complete((w.answers)(announcement)) == Some(
        true,
    ) {
        seq![]
    } else {
        seq![
            ActionModel::Calls(carrying_calls(at, id, bytes, capabilities)),
            ActionModel::Call(part_alone("finalize_pack"@, at, id)),
        ]
    }) + seq![ActionModel::Call(listing)] + indexing_actions(
        at,
        id,
        capabilities,
        listed_metadata(lines(lossy((w.verified)(id)))),
        (w.answers)(listing),
    )
}

#[verifier::rlimit(60)]
proof fn lemma_send_steps(
    w: Outside,
    at: (Seq<char>, Seq<char>),
    capabilities: TransportCapabilities,
    remote: Option<usize>,
    t: Talk<PackModel>,
    id: Seq<char>,
) -> (n: nat)
    requires
        usable(capabilities),
        takes_every_call(w),
        t.s.stage == PackStage::Announcing,
        t.s.id == id,
        t.s.bytes == (w.packs)(id),
        t.s.objects == listed_metadata(lines(lossy((w.verified)(id)))),
        t.action == Some(ActionModel::Call(pack_announcement(at, id, (w.packs)(id)))),
    ensures
        talk_after(w, pack_machine(at, capabilities, remote), t, n).action is None,
        talk_after(w, pack_machine(at, capabilities, remote), t, n).log == t.log + sending_actions(
            w,
            at,
            capabilities,
            id,
        ),
{
    let machine = pack_machine(at, capabilities, remote);
    let bytes = (w.packs)(id);
    let announcement = pack_announcement(at, id, bytes);
    let listing = seq![ActionModel::Call(part_alone("list_pack_objects"@, at, id))];
    let first = seq![ActionModel::Call(announcement)];
    lemma_carrying(at, id, bytes, capabilities);
    let announced = talk_step(w, machine, t);
    talks_step_on(w, machine, t, 0);
    let index = indexing_actions(
        at,
        id,
        capabilities,
        t.s.objects,
        (w.answers)(part_alone("list_pack_objects"@, at, id)),
    );
    if says_complete((w.answers)(announcement)) == Some(true) {
        let m = lemma_index_steps(w, at, capabilities, remote, announced, id);
        talks_go_on(w, machine, t, 1, m);
        assert(announced.log + listing + index =~= t.log + (first + seq![] + listing + index));
        (m + 1) as nat
    } else {
        let calls = carrying_calls(at, id, bytes, capabilities);
        takers_reject_nothing(w, calls);
        let sent = talk_step(w, machine, announced);
        let finalize = part_alone("finalize_pack"@, at, id);
        assert(takes((w.answers)(finalize)));
        let closed = talk_step(w, machine, sent);
        talks_step_on(w, machine, t, 1);
        talks_step_on(w, machine, t, 2);
        let m = lemma_index_steps(w, at, capabilities, remote, closed, id);
        talks_go_on(w, machine, t, 3, m);
        let middle = seq![ActionModel::Calls(calls), ActionModel::Call(finalize)];
        assert(closed.log + listing + index =~= t.log + (first + middle + listing + index));
        (m + 3) as nat
    }
}

/// A pack that is what its id says is uploaded to a canister that takes every call by exactly
/// the actions of [`pack_actions`].
pub proof fn packs_are_uploaded(
    w: Outside,
    at: (Seq<char>, Seq<char>),
    capabilities: TransportCapabilities,
    remote: Option<usize>,
    id: Seq<char>,
    log: Seq<ActionModel>,
) -> (n: nat)
    requires
        usable(capabilities),
        takes_every_call(w),
        is_pack(w, id),
    ensures
        ({
            let t = Talk { s: pack_start(id).0, action: Some(pack_start(id).1), log };
            let end = talk_after(w, pack_machine(at, capabilities, remote), t, n);
            &&& n > 0
            &&& end.action is None
            &&& end.log == log + pack_actions(w, at, capabilities, remote, id)
        }),
{
    let t = Talk { s: pack_start(id).0, action: Some(pack_start(id).1), log };
    lemma_pack_steps(w, at, capabilities, remote, t, id)
}

/// The pieces that are sent make up the pack, in order, none of them longer than 524288
/// bytes; and where they are put together, each is in one batch.
pub proof fn pieces_make_up_the_pack(bytes: Seq<u8>, capabilities: TransportCapabilities)
    requires
        usable(capabilities),
    ensures
        Seq::new(run_count(bytes.len(), 524_288), |i: int| piece(bytes, i as nat)).flatten()
            == bytes,
        ({
            let cuts = piece_batches(bytes, capabilities);
            &&& cuts.len() == 0 <==> bytes.len() == 0
            &&& cuts.len() > 0 ==> cuts[0].0 == 0 && cuts.last().1 == run_count(
                bytes.len(),
                524_288,
            )
            &&& forall|i: int| 0 <= i < cuts.len() ==> (#[trigger] cuts[i]).0 < cuts[i].1
            &&& forall|i: int| 0 < i < cuts.len() ==> cuts[i - 1].1 == (#[trigger] cuts[i]).0
        }),
{
    let list = chunks(bytes, CHUNK_SIZE as nat);
    chunks_are_at_multiples(bytes, CHUNK_SIZE as nat);
    chunks_are_bounded(bytes, CHUNK_SIZE as nat);
    pack_batches_keep_the_limits(bytes, capabilities);
    assert(Seq::new(run_count(bytes.len(), 524_288), |i: int| piece(bytes, i as nat)) =~= list)
        by {
        assert forall|i: int| 0 <= i < list.len() implies #[trigger] list[i] == piece(
            bytes,
            i as nat,
        ) by {
            assert(list[(i as nat) as int] == nth_run(bytes, CHUNK_SIZE as nat, i as nat));
        }
    }
    let cuts = piece_batches(bytes, capabilities);
    assert(lengths(list).len() == list.len());
}

/// The sum of the sizes in a range.
pub open spec fn sum_of(sizes: Seq<nat>, from: nat, to: nat) -> nat
    decreases to - from,
{
    if from >= to {
        0
    } else {
        sum_of(sizes, from, (to - 1) as nat) + sizes[to - 1]
    }
}

/// No more can be put into this batch: it has as many members as it may, or the next one
/// would be too much.
pub open spec fn is_full(
    sizes: Seq<nat>,
    cut: (nat, nat),
    items: nat,
    limit: nat,
) -> bool {
    cut.1 - cut.0 >= items || sum_of(sizes, cut.0, cut.1) + sizes[cut.1 as int] > limit
}

proof fn lemma_full(
    sizes: Seq<nat>,
    from: nat,
    to: nat,
    used: nat,
    items: nat,
    limit: nat,
)
    requires
        from < sizes.len(),
        from <= to <= sizes.len(),
        used == sum_of(sizes, from, to),
        items >= 1,
        sizes[from as int] <= limit,
    ensures
        ({
            let end = batch_end(sizes, from, to, used, items, limit);
            from < end <= sizes.len() && (end < sizes.len() ==> is_full(
                sizes,
                (from, end),
                items,
                limit,
            ))
        }),
    decreases sizes.len() - to,
{
    if to < sizes.len() && to - from < items && used + sizes[to as int] <= limit {
        assert(sum_of(sizes, from, to + 1) == sum_of(sizes, from, to) + sizes[to as int]);
        lemma_full(sizes, from, to + 1, used + sizes[to as int], items, limit);
    } else if to <= from {
        assert(sum_of(sizes, from, from) == 0);
    }
}

/// Batches are as large as they may be: every one but the last is full.
pub proof fn batches_are_full(sizes: Seq<nat>, from: nat, items: nat, limit: nat)
    requires
        from <= sizes.len(),
        items >= 1,
        forall|i: int| 0 <= i < sizes.len() ==> #[trigger] sizes[i] <= limit,
    ensures
        forall|i: int|
            0 <= i < batches(sizes, from, items, limit).len() - 1 ==> is_full(
                sizes,
                #[trigger] batches(sizes, from, items, limit)[i],
                items,
                limit,
            ),
    decreases sizes.len() - from,
{
    if from < sizes.len() {
        let end = batch_end(sizes, from, from, 0, items, limit);
        assert(sizes[from as int] <= limit);
        assert(sum_of(sizes, from, from) == 0);
        lemma_full(sizes, from, from, 0, items, limit);
        batches_are_full(sizes, end, items, limit);
        let rest = batches(sizes, end, items, limit);
        let all = batches(sizes, from, items, limit);
        assert(all =~= seq![(from, end)] + rest);
        assert forall|i: int| 0 <= i < all.len() - 1 implies is_full(
            sizes,
            #[trigger] all[i],
            items,
            limit,
        ) by {
            if i > 0 {
                assert(all[i] == rest[i - 1]);
            } else if end >= sizes.len() {
                assert(rest.len() == 0);
            }
        }
    }
}

} // verus!
