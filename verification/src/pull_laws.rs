//! What a pull does, from its first action to its last.
//!
//! A canister that holds packs and refs answers the calls, and the local repository performs
//! the actions. The laws say what the local repository has got in the end.
use vstd::prelude::*;

use crate::action::{ActionModel, CallModel, EventModel};
use crate::chunk::{flatten_push, ranges, ranges_are_at_multiples};
use crate::download::{
    batch_bytes, bytes_of, download_calls, gives_batches, numerals, replies_bytes, reply_bytes,
};
use crate::json::{bool_field, items_field, items_value, text_field, unsigned_value, JsonModel};
use crate::materialize::{
    chunk_count, group_end, materialize_fetch, materialize_index_all, materialize_next,
    materialize_packs, materialize_packs_done, materialize_start, MaterializeModel,
    MaterializeStage, PaceModel,
};
use crate::materialize_laws::{complete_packs, materialize_step};
use crate::refs::{
    command_lines, listed_refs, names, ref_of, refs_after, refs_map, refs_of, replacement,
    replacement_leaves_the_remote_refs, RefCommand,
};
use crate::text::{decimal, lines, lossy, numerals_are_read_back};
use crate::transport::{concurrency, SnapshotModel, TransportCapabilities};
use crate::wording::{opening, opening_at, run_count, worded_list};

verus! {

/// The call for one chunk of a pack.
pub open spec fn one_chunk(at: (Seq<char>, Seq<char>), id: Seq<char>, index: nat) -> CallModel {
    CallModel {
        method: "get_pack_chunk"@,
        argument: opening_at(at, id) + ", "@ + decimal(index) + ")"@,
    }
}

/// The call for the chunks of a pack from `from` up to but not including `to`.
pub open spec fn some_chunks(
    at: (Seq<char>, Seq<char>),
    id: Seq<char>,
    from: nat,
    to: nat,
) -> CallModel {
    CallModel {
        method: "get_pack_chunks"@,
        argument: opening_at(at, id) + ", "@ + worded_list(
            Seq::new((to - from) as nat, |i: int| decimal((from + i) as nat)),
        ) + ")"@,
    }
}

/// The document is a blob of these bytes.
pub open spec fn is_blob(items: Seq<JsonModel>, bytes: Seq<u8>) -> bool {
    &&& items.len() == bytes.len()
    &&& forall|i: int|
        0 <= i < items.len() ==> #[trigger] unsigned_value(items[i]) == Some(bytes[i] as u64)
}

/// The reply hands out one blob.
pub open spec fn hands_out(reply: JsonModel, bytes: Seq<u8>) -> bool {
    items_field(reply, "ok"@) matches Some(items) && is_blob(items, bytes)
}

/// The document is a list of these blobs.
pub open spec fn are_blobs(items: Seq<JsonModel>, parts: Seq<Seq<u8>>) -> bool {
    &&& items.len() == parts.len()
    &&& forall|i: int|
        0 <= i < items.len() ==> (#[trigger] items_value(items[i]) matches Some(blob) && is_blob(
            blob,
            parts[i],
        ))
}

/// The reply hands out a list of blobs.
pub open spec fn hands_out_all(reply: JsonModel, parts: Seq<Seq<u8>>) -> bool {
    items_field(reply, "ok"@) matches Some(items) && are_blobs(items, parts)
}

/// The canister that gives these answers holds a pack in these chunks.
pub open spec fn holds_pack(
    answers: spec_fn(CallModel) -> JsonModel,
    at: (Seq<char>, Seq<char>),
    id: Seq<char>,
    parts: Seq<Seq<u8>>,
) -> bool {
    &&& forall|i: nat|
        i < parts.len() ==> #[trigger] hands_out(answers(one_chunk(at, id, i)), parts[i as int])
    &&& forall|from: nat, to: nat|
        from < to <= parts.len() ==> #[trigger] hands_out_all(
            answers(some_chunks(at, id, from, to)),
            parts.subrange(from as int, to as int),
        )
}

/// A canister: the packs and the refs that it lists, what its transport offers, the chunks of
/// its packs, and its answers.
pub struct Canister {
    pub listing: Seq<JsonModel>,
    pub refs: Seq<(Seq<char>, Seq<char>)>,
    pub offer: Option<JsonModel>,
    pub parts: spec_fn(Seq<char>) -> Seq<Seq<u8>>,
    pub answers: spec_fn(CallModel) -> JsonModel,
}

/// A local repository: the checksums of its packs, which of them have an index, whether there
/// is an index over all packs, what git prints for its refs, and the checksum that a received
/// pack would have.
pub struct Local {
    pub found: spec_fn(Seq<char>) -> Option<Seq<char>>,
    pub indexed: spec_fn(Seq<char>) -> bool,
    pub multi: bool,
    pub refs: Seq<u8>,
    pub checksum: spec_fn(Seq<u8>) -> Option<Seq<char>>,
}

/// What has been done to a local repository: the bytes of the pack that is being received,
/// the packs that were put in place, those that were indexed, whether an index over all
/// packs was written, the ref transactions, and whether `HEAD` was pointed at the main
/// branch.
pub struct Effects {
    pub incoming: Seq<u8>,
    pub installed: Seq<(Seq<char>, Seq<u8>)>,
    pub indexed: Seq<Seq<char>>,
    pub all_indexed: bool,
    pub scripts: Seq<Seq<char>>,
    pub head: bool,
}

/// Nothing has been done.
pub open spec fn nothing() -> Effects {
    Effects {
        incoming: seq![],
        installed: seq![],
        indexed: seq![],
        all_indexed: false,
        scripts: seq![],
        head: false,
    }
}

/// What the canister and the local repository answer to an action.
pub open spec fn answer_to(
    c: Canister,
    l: Local,
    fx: Effects,
    action: ActionModel,
) -> EventModel {
    match action {
        ActionModel::Negotiate(calls) => EventModel::Negotiated(
            c.offer,
            Seq::new(calls.len(), |i: int| (c.answers)(calls[i])),
        ),
        ActionModel::Calls(calls) => EventModel::Replies(
            Seq::new(calls.len(), |i: int| (c.answers)(calls[i])),
        ),
        ActionModel::Call(call) => EventModel::Reply((c.answers)(call)),
        ActionModel::ReadChecksum(id) => EventModel::Checksum((l.found)(id)),
        ActionModel::FindIndex(id) => EventModel::Present((l.indexed)(id)),
        ActionModel::IncomingChecksum(_) => EventModel::Checksum((l.checksum)(fx.incoming)),
        ActionModel::FindMultiPackIndex => EventModel::Present(l.multi),
        ActionModel::ListRefs => EventModel::Output(l.refs),
        _ => EventModel::Done,
    }
}

/// What an action does to the local repository.
pub open spec fn performed(fx: Effects, action: ActionModel) -> Effects {
    match action {
        ActionModel::OpenIncoming(_) => Effects { incoming: seq![], ..fx },
        ActionModel::Append(bytes) => Effects { incoming: fx.incoming + bytes, ..fx },
        ActionModel::InstallIncoming(id) => Effects {
            installed: fx.installed.push((id, fx.incoming)),
            ..fx
        },
        ActionModel::IndexPack(id) => Effects { indexed: fx.indexed.push(id), ..fx },
        ActionModel::WriteMultiPackIndex => Effects { all_indexed: true, ..fx },
        ActionModel::UpdateRefs(script) => Effects { scripts: fx.scripts.push(script), ..fx },
        ActionModel::PointHead => Effects { head: true, ..fx },
        _ => fx,
    }
}

/// A pull, the action that it has come to, and what it has done.
pub struct Pull {
    pub s: MaterializeModel,
    pub action: ActionModel,
    pub fx: Effects,
}

/// A pull after one more action was performed and answered.
pub open spec fn pull_step(c: Canister, l: Local, p: Pull) -> Pull {
    let (s, action) = materialize_step(p.s, answer_to(c, l, p.fx, p.action));
    Pull { s, action, fx: performed(p.fx, p.action) }
}

/// A pull after `n` more actions.
pub open spec fn pull_after(c: Canister, l: Local, p: Pull, n: nat) -> Pull
    decreases n,
{
    if n == 0 {
        p
    } else {
        pull_after(c, l, pull_step(c, l, p), (n - 1) as nat)
    }
}

proof fn lemma_after(c: Canister, l: Local, p: Pull, n: nat, m: nat)
    ensures
        pull_after(c, l, pull_after(c, l, p, n), m) == pull_after(c, l, p, n + m),
    decreases n,
{
    if n > 0 {
        lemma_after(c, l, pull_step(c, l, p), (n - 1) as nat, m);
    }
}

proof fn lemma_one(c: Canister, l: Local, p: Pull)
    ensures
        pull_after(c, l, p, 1) == pull_step(c, l, p),
{
    reveal_with_fuel(pull_after, 2);
}

// The chunks that the calls of a download cover.

spec fn bound(count: nat, capabilities: TransportCapabilities, i: nat) -> nat {
    if gives_batches(capabilities) {
        if i * (capabilities.max_download_batch_items as nat) <= count {
            i * (capabilities.max_download_batch_items as nat)
        } else {
            count
        }
    } else {
        i
    }
}

proof fn lemma_calls(
    at: (Seq<char>, Seq<char>),
    id: Seq<char>,
    count: nat,
    capabilities: TransportCapabilities,
    i: nat,
)
    ensures
        ({
            let calls = download_calls(at, id, count, capabilities);
            let from = bound(count, capabilities, i);
            let to = bound(count, capabilities, i + 1);
            &&& bound(count, capabilities, 0) == 0
            &&& bound(count, capabilities, calls.len()) == count
            &&& i < calls.len() ==> {
                &&& from < to <= count
                &&& calls[i as int] == if gives_batches(capabilities) {
                    some_chunks(at, id, from, to)
                } else {
                    one_chunk(at, id, i)
                }
                &&& !gives_batches(capabilities) ==> from == i && to == i + 1
            }
        }),
{
    let calls = download_calls(at, id, count, capabilities);
    if gives_batches(capabilities) {
        let size = capabilities.max_download_batch_items as nat;
        ranges_are_at_multiples(count, size, i);
        let n = ranges(0, count, size).len();
        assert(n * size >= count) by (nonlinear_arith)
            requires
                n == (count + size - 1) / (size as int),
                size > 0,
        ;
        assert((i + 1) * size == i * size + size) by (nonlinear_arith);
        assert(0 * size == 0) by (nonlinear_arith);
        if i < calls.len() {
            let from = bound(count, capabilities, i);
            let to = bound(count, capabilities, i + 1);
            assert(numerals(from, to) =~= Seq::new(
                (to - from) as nat,
                |k: int| decimal((from + k) as nat),
            ));
        }
    }
}

proof fn lemma_blob(items: Seq<JsonModel>, bytes: Seq<u8>)
    requires
        is_blob(items, bytes),
    ensures
        bytes_of(items) == Some(bytes),
{
    let read = Seq::new(items.len(), |i: int| unsigned_value(items[i])->Some_0 as u8);
    assert forall|i: int| 0 <= i < items.len() implies read[i] == bytes[i] by {
        assert(unsigned_value(items[i]) == Some(bytes[i] as u64));
        let n = bytes[i];
        assert(n as u64 as u8 == n);
    }
    assert(read =~= bytes);
}

proof fn lemma_blobs(items: Seq<JsonModel>, parts: Seq<Seq<u8>>)
    requires
        are_blobs(items, parts),
    ensures
        batch_bytes(items) == Ok::<Seq<u8>, ActionModel>(parts.flatten()),
    decreases items.len(),
{
    if items.len() == 0 {
        assert(parts.flatten() =~= seq![]);
    } else {
        let front = items.drop_last();
        let less = parts.drop_last();
        assert forall|i: int| 0 <= i < front.len() implies (#[trigger] items_value(front[i]) matches
            Some(blob) && is_blob(blob, less[i])) by {
            assert(items_value(items[i]) is Some);
        }
        lemma_blobs(front, less);
        let n = items.len() - 1;
        assert(items_value(items[n]) is Some);
        lemma_blob(items_value(items[n])->Some_0, parts[n]);
        flatten_push(less, parts.last());
        assert(less.push(parts.last()) =~= parts);
    }
}

proof fn lemma_split(parts: Seq<Seq<u8>>, a: int, b: int, c: int)
    requires
        0 <= a <= b <= c <= parts.len(),
    ensures
        parts.subrange(a, c).flatten() == parts.subrange(a, b).flatten() + parts.subrange(
            b,
            c,
        ).flatten(),
    decreases c - b,
{
    if b == c {
        assert(parts.subrange(b, c) =~= seq![]);
        assert(parts.subrange(b, c).flatten() =~= seq![]);
        assert(parts.subrange(a, c).flatten() =~= parts.subrange(a, b).flatten() + parts.subrange(
            b,
            c,
        ).flatten());
    } else {
        lemma_split(parts, a, b, c - 1);
        flatten_push(parts.subrange(a, c - 1), parts[c - 1]);
        flatten_push(parts.subrange(b, c - 1), parts[c - 1]);
        assert(parts.subrange(a, c - 1).push(parts[c - 1]) =~= parts.subrange(a, c));
        assert(parts.subrange(b, c - 1).push(parts[c - 1]) =~= parts.subrange(b, c));
        assert(parts.subrange(a, c).flatten() =~= parts.subrange(a, b).flatten() + parts.subrange(
            b,
            c,
        ).flatten());
    }
}

proof fn lemma_reply(
    answers: spec_fn(CallModel) -> JsonModel,
    at: (Seq<char>, Seq<char>),
    id: Seq<char>,
    parts: Seq<Seq<u8>>,
    capabilities: TransportCapabilities,
    i: nat,
)
    requires
        holds_pack(answers, at, id, parts),
        i < download_calls(at, id, parts.len(), capabilities).len(),
    ensures
        reply_bytes(
            answers(download_calls(at, id, parts.len(), capabilities)[i as int]),
            gives_batches(capabilities),
        ) == Ok::<Seq<u8>, ActionModel>(
            parts.subrange(
                bound(parts.len(), capabilities, i) as int,
                bound(parts.len(), capabilities, i + 1) as int,
            ).flatten(),
        ),
{
    lemma_calls(at, id, parts.len(), capabilities, i);
    let from = bound(parts.len(), capabilities, i);
    let to = bound(parts.len(), capabilities, i + 1);
    let part = parts.subrange(from as int, to as int);
    if gives_batches(capabilities) {
        let reply = answers(some_chunks(at, id, from, to));
        assert(hands_out_all(reply, part));
        lemma_blobs(items_field(reply, "ok"@)->Some_0, part);
    } else {
        let reply = answers(one_chunk(at, id, i));
        assert(hands_out(reply, parts[i as int]));
        lemma_blob(items_field(reply, "ok"@)->Some_0, parts[i as int]);
        part.lemma_flatten_one_element();
        assert(part.first() == parts[i as int]);
    }
}

proof fn lemma_group(
    answers: spec_fn(CallModel) -> JsonModel,
    at: (Seq<char>, Seq<char>),
    id: Seq<char>,
    parts: Seq<Seq<u8>>,
    capabilities: TransportCapabilities,
    from: nat,
    to: nat,
)
    requires
        holds_pack(answers, at, id, parts),
        from <= to <= download_calls(at, id, parts.len(), capabilities).len(),
    ensures
        ({
            let calls = download_calls(at, id, parts.len(), capabilities);
            let group = calls.subrange(from as int, to as int);
            &&& bound(parts.len(), capabilities, from) <= bound(parts.len(), capabilities, to)
                <= parts.len()
            &&& replies_bytes(
                Seq::new(group.len(), |k: int| answers(group[k])),
                gives_batches(capabilities),
            ) == Ok::<Seq<u8>, ActionModel>(
                parts.subrange(
                    bound(parts.len(), capabilities, from) as int,
                    bound(parts.len(), capabilities, to) as int,
                ).flatten(),
            )
        }),
    decreases to - from,
{
    let calls = download_calls(at, id, parts.len(), capabilities);
    let group = calls.subrange(from as int, to as int);
    let replies = Seq::new(group.len(), |k: int| answers(group[k]));
    let a = bound(parts.len(), capabilities, from);
    let b = bound(parts.len(), capabilities, to);
    if from == to {
        lemma_calls(at, id, parts.len(), capabilities, from);
        assert(replies =~= seq![]);
        assert(parts.subrange(a as int, b as int) =~= seq![]);
        assert(parts.subrange(a as int, b as int).flatten() =~= seq![]);
        if gives_batches(capabilities) {
        } else {
            assert(from <= parts.len());
        }
    } else {
        let mid = (to - 1) as nat;
        lemma_group(answers, at, id, parts, capabilities, from, mid);
        lemma_calls(at, id, parts.len(), capabilities, mid);
        lemma_reply(answers, at, id, parts, capabilities, mid);
        let less = calls.subrange(from as int, mid as int);
        assert(replies.drop_last() =~= Seq::new(less.len(), |k: int| answers(less[k])));
        assert(replies.last() == answers(calls[mid as int]));
        let m = bound(parts.len(), capabilities, mid);
        lemma_split(parts, a as int, m as int, b as int);
    }
}

proof fn lemma_pace(s: MaterializeModel)
    requires
        s.sent < s.calls.len(),
    ensures
        s.sent < group_end(s) <= s.calls.len(),
{
    let size = concurrency(s.pace.processors, s.pace.configured, s.calls.len() as usize);
    assert(1 <= size);
}

/// The pull is about to receive a pack: `sent` of its calls have been answered.
spec fn receiving(
    c: Canister,
    p: Pull,
    at: (Seq<char>, Seq<char>),
    id: Seq<char>,
    sent: nat,
) -> bool {
    let parts = (c.parts)(id);
    &&& p.s.at == at
    &&& p.s.id == id
    &&& p.s.count == parts.len()
    &&& p.s.calls == download_calls(at, id, parts.len(), p.s.capabilities)
    &&& p.s.sent == sent
    &&& sent <= p.s.calls.len()
    &&& bound(parts.len(), p.s.capabilities, sent) <= parts.len()
    &&& p.fx.incoming == parts.take(bound(parts.len(), p.s.capabilities, sent) as int).flatten()
    &&& (p.s, p.action) == materialize_fetch(p.s)
}

#[verifier::rlimit(60)]
proof fn lemma_receive(
    c: Canister,
    l: Local,
    p: Pull,
    at: (Seq<char>, Seq<char>),
    id: Seq<char>,
) -> (n: nat)
    requires
        holds_pack(c.answers, at, id, (c.parts)(id)),
        receiving(c, p, at, id, p.s.sent),
    ensures
        ({
            let q = pull_after(c, l, p, n);
            &&& q.action == ActionModel::IncomingChecksum(id)
            &&& q.s == MaterializeModel {
                sent: p.s.calls.len(),
                stage: MaterializeStage::Sealing,
                ..p.s
            }
            &&& q.fx == Effects { incoming: (c.parts)(id).flatten(), ..p.fx }
        }),
    decreases p.s.calls.len() - p.s.sent,
{
    reveal(materialize_step);
    let parts = (c.parts)(id);
    let calls = p.s.calls;
    let caps = p.s.capabilities;
    if p.s.sent == calls.len() {
        lemma_calls(at, id, parts.len(), caps, 0);
        assert(parts.take(parts.len() as int) =~= parts);
        assert(p.s == MaterializeModel {
            sent: p.s.calls.len(),
            stage: MaterializeStage::Sealing,
            ..p.s
        });
        0
    } else {
        lemma_pace(p.s);
        let end = group_end(p.s);
        let from = bound(parts.len(), caps, p.s.sent);
        let to = bound(parts.len(), caps, end);
        lemma_group(c.answers, at, id, parts, caps, p.s.sent, end);
        let q = pull_step(c, l, p);
        let group = calls.subrange(p.s.sent as int, end as int);
        assert(answer_to(c, l, p.fx, p.action) == EventModel::Replies(
            Seq::new(group.len(), |k: int| (c.answers)(group[k])),
        ));
        assert(q.action == ActionModel::Append(
            parts.subrange(from as int, to as int).flatten(),
        ));
        let r = pull_step(c, l, q);
        lemma_split(parts, 0, from as int, to as int);
        assert(parts.subrange(0, from as int) =~= parts.take(from as int));
        assert(parts.subrange(0, to as int) =~= parts.take(to as int));
        assert(r.fx.incoming == parts.take(to as int).flatten());
        let m = lemma_receive(c, l, r, at, id);
        lemma_one(c, l, p);
        lemma_one(c, l, q);
        lemma_after(c, l, p, 1, 1);
        lemma_after(c, l, p, 2, m);
        (m + 2) as nat
    }
}

/// A pack that is not here is received whole, whatever the transport offers and however many
/// calls run at a time: the bytes that are appended are those of its chunks on the canister,
/// one after the other, and then the checksum is read.
pub proof fn packs_are_received_whole(
    c: Canister,
    l: Local,
    p: Pull,
    id: Seq<char>,
)
    requires
        p.s.stage == MaterializeStage::Checking,
        p.s.id == id,
        p.action == ActionModel::ReadChecksum(id),
        p.s.count == (c.parts)(id).len(),
        holds_pack(c.answers, p.s.at, id, (c.parts)(id)),
        (l.found)(id) != Some(id),
    ensures
        exists|n: nat|
            {
                let q = #[trigger] pull_after(c, l, p, n);
                &&& q.action == ActionModel::IncomingChecksum(id)
                &&& q.fx == Effects { incoming: (c.parts)(id).flatten(), ..p.fx }
            },
{
    let n = lemma_open(c, l, p, id);
    let q = pull_after(c, l, p, n);
    assert(q.action == ActionModel::IncomingChecksum(id));
}

proof fn lemma_open(c: Canister, l: Local, p: Pull, id: Seq<char>) -> (n: nat)
    requires
        p.s.stage == MaterializeStage::Checking,
        p.s.id == id,
        p.action == ActionModel::ReadChecksum(id),
        p.s.count == (c.parts)(id).len(),
        holds_pack(c.answers, p.s.at, id, (c.parts)(id)),
        (l.found)(id) != Some(id),
    ensures
        ({
            let q = pull_after(c, l, p, n);
            &&& q.action == ActionModel::IncomingChecksum(id)
            &&& q.s.stage == MaterializeStage::Sealing
            &&& q.s == MaterializeModel {
                calls: q.s.calls,
                sent: q.s.sent,
                stage: MaterializeStage::Sealing,
                ..p.s
            }
            &&& q.fx == Effects { incoming: (c.parts)(id).flatten(), ..p.fx }
        }),
{
    reveal(materialize_step);
    let parts = (c.parts)(id);
    let opened = pull_step(c, l, p);
    let first = pull_step(c, l, opened);
    assert(opened.action == ActionModel::OpenIncoming(id));
    lemma_calls(p.s.at, id, parts.len(), p.s.capabilities, 0);
    assert(parts.take(0) =~= seq![]);
    assert(parts.take(0).flatten() =~= seq![]);
    assert(receiving(c, first, p.s.at, id, 0));
    let m = lemma_receive(c, l, first, p.s.at, id);
    lemma_one(c, l, p);
    lemma_one(c, l, opened);
    lemma_after(c, l, p, 1, 1);
    lemma_after(c, l, p, 2, m);
    (m + 2) as nat
}

/// A pack in a listing that is complete, and that the canister holds: its id is the checksum
/// of its bytes.
pub open spec fn is_held(
    c: Canister,
    l: Local,
    at: (Seq<char>, Seq<char>),
    pack: JsonModel,
) -> bool {
    &&& text_field(pack, "pack_id"@) matches Some(id) && {
        let parts = (c.parts)(id);
        &&& text_field(pack, "chunk_count"@) == Some(decimal(parts.len()))
        &&& parts.len() <= usize::MAX
        &&& holds_pack(c.answers, at, id, parts)
        &&& (l.checksum)(parts.flatten()) == Some(id)
    }
}

/// The canister holds every pack that it lists as complete.
pub open spec fn holds_its_packs(c: Canister, l: Local, at: (Seq<char>, Seq<char>)) -> bool {
    forall|i: int|
        0 <= i < c.listing.len() && bool_field(c.listing[i], "complete"@) == Some(true)
            ==> #[trigger] is_held(c, l, at, c.listing[i])
}

/// The packs among `ids` that are not here, each with its bytes on the canister.
pub open spec fn lacking(c: Canister, l: Local, ids: Seq<Seq<char>>) -> Seq<(Seq<char>, Seq<u8>)>
    decreases ids.len(),
{
    if ids.len() == 0 {
        seq![]
    } else {
        let front = lacking(c, l, ids.drop_last());
        let id = ids.last();
        if (l.found)(id) != Some(id) {
            front.push((id, (c.parts)(id).flatten()))
        } else {
            front
        }
    }
}

/// The packs among `ids` that are here without an index.
pub open spec fn unindexed(l: Local, ids: Seq<Seq<char>>) -> Seq<Seq<char>>
    decreases ids.len(),
{
    if ids.len() == 0 {
        seq![]
    } else {
        let front = unindexed(l, ids.drop_last());
        let id = ids.last();
        if (l.found)(id) == Some(id) && !(l.indexed)(id) {
            front.push(id)
        } else {
            front
        }
    }
}

/// The pull has seen to the first `next` packs of the listing.
spec fn seen_to(c: Canister, l: Local, fx: Effects, next: int) -> bool {
    let ids = complete_packs(c.listing.take(next));
    &&& fx.installed == lacking(c, l, ids)
    &&& fx.indexed == unindexed(l, ids)
    &&& !fx.all_indexed
    &&& fx.scripts.len() == 0
    &&& !fx.head
}

/// The packs are to be looked through from `s.next` on, and `p` is what comes of it.
spec fn looking(c: Canister, l: Local, at: (Seq<char>, Seq<char>), s: MaterializeModel, p: Pull) -> bool {
    &&& s.at == at
    &&& s.packs == c.listing
    &&& s.next <= c.listing.len()
    &&& s.installed == (p.fx.installed.len() > 0)
    &&& (p.s, p.action) == materialize_packs(s)
    &&& seen_to(c, l, p.fx, s.next as int)
}

/// The pull is done with the packs.
spec fn packs_done(c: Canister, l: Local, at: (Seq<char>, Seq<char>), p: Pull, s: MaterializeModel) -> bool {
    &&& (p.s, p.action) == materialize_index_all(s)
    &&& s.at == at
    &&& s.packs == c.listing
    &&& s.installed == (p.fx.installed.len() > 0)
    &&& seen_to(c, l, p.fx, c.listing.len() as int)
}

proof fn lemma_take_one(c: Canister, n: int)
    requires
        0 <= n < c.listing.len(),
    ensures
        c.listing.take(n + 1).drop_last() == c.listing.take(n),
        c.listing.take(n + 1).last() == c.listing[n],
{
    assert(c.listing.take(n + 1).drop_last() =~= c.listing.take(n));
}

#[verifier::rlimit(60)]
proof fn lemma_look(
    c: Canister,
    l: Local,
    at: (Seq<char>, Seq<char>),
    s: MaterializeModel,
    p: Pull,
) -> (r: (nat, MaterializeModel))
    requires
        looking(c, l, at, s, p),
        holds_its_packs(c, l, at),
    ensures
        packs_done(c, l, at, pull_after(c, l, p, r.0), r.1),
        r.1.refs == s.refs,
        r.1.capabilities == s.capabilities,
    decreases c.listing.len() - s.next,
{
    let n = s.next as int;
    if s.next >= c.listing.len() {
        (0, s)
    } else {
        lemma_take_one(c, n);
        let pack = c.listing[n];
        let rest = MaterializeModel { next: s.next + 1, ..s };
        if bool_field(pack, "complete"@) != Some(true) {
            lemma_look(c, l, at, rest, p)
        } else {
            assert(is_held(c, l, at, pack));
            let id = text_field(pack, "pack_id"@)->Some_0;
            let parts = (c.parts)(id);
            numerals_are_read_back(parts.len(), usize::MAX as nat);
            assert(chunk_count(pack) == Some(parts.len()));
            assert(p.action == ActionModel::ReadChecksum(id));
            let ids = complete_packs(c.listing.take(n));
            assert(complete_packs(c.listing.take(n + 1)) == ids.push(id));
            assert(ids.push(id).drop_last() =~= ids);
            let (m, t, q) = lemma_one_pack(c, l, at, p, id);
            assert(looking(c, l, at, t, q));
            let (k, end) = lemma_look(c, l, at, t, q);
            lemma_after(c, l, p, m, k);
            ((m + k) as nat, end)
        }
    }
}

#[verifier::rlimit(60)]
proof fn lemma_one_pack(
    c: Canister,
    l: Local,
    at: (Seq<char>, Seq<char>),
    p: Pull,
    id: Seq<char>,
) -> (r: (nat, MaterializeModel, Pull))
    requires
        p.s.at == at,
        p.s.stage == MaterializeStage::Checking,
        p.s.id == id,
        p.action == ActionModel::ReadChecksum(id),
        p.s.count == (c.parts)(id).len(),
        holds_pack(c.answers, at, id, (c.parts)(id)),
        (l.checksum)((c.parts)(id).flatten()) == Some(id),
    ensures
        ({
            let (n, t, q) = r;
            let here = (l.found)(id) == Some(id);
            &&& q == pull_after(c, l, p, n)
            &&& (q.s, q.action) == materialize_packs(t)
            &&& t.at == at
            &&& t.packs == p.s.packs
            &&& t.next == p.s.next
            &&& t.refs == p.s.refs
            &&& t.capabilities == p.s.capabilities
            &&& t.installed == (p.s.installed || !here)
            &&& q.fx.installed == if here {
                p.fx.installed
            } else {
                p.fx.installed.push((id, (c.parts)(id).flatten()))
            }
            &&& q.fx.indexed == if here && !(l.indexed)(id) {
                p.fx.indexed.push(id)
            } else {
                p.fx.indexed
            }
            &&& q.fx.all_indexed == p.fx.all_indexed
            &&& q.fx.scripts == p.fx.scripts
            &&& q.fx.head == p.fx.head
        }),
{
    reveal(materialize_step);
    if (l.found)(id) == Some(id) {
        let found = pull_step(c, l, p);
        let next = pull_step(c, l, found);
        lemma_one(c, l, p);
        lemma_one(c, l, found);
        lemma_after(c, l, p, 1, 1);
        if (l.indexed)(id) {
            (2, found.s, next)
        } else {
            let done = pull_step(c, l, next);
            lemma_one(c, l, next);
            lemma_after(c, l, p, 2, 1);
            (3, next.s, done)
        }
    } else {
        let n = lemma_open(c, l, p, id);
        let sealed = pull_after(c, l, p, n);
        let indexing = pull_step(c, l, sealed);
        assert(indexing.action == ActionModel::IndexIncoming(id));
        let installing = pull_step(c, l, indexing);
        assert(installing.action == ActionModel::InstallIncoming(id));
        let done = pull_step(c, l, installing);
        lemma_one(c, l, sealed);
        lemma_one(c, l, indexing);
        lemma_one(c, l, installing);
        lemma_after(c, l, sealed, 1, 1);
        lemma_after(c, l, sealed, 2, 1);
        lemma_after(c, l, p, n, 3);
        ((n + 3) as nat, MaterializeModel { installed: true, ..installing.s }, done)
    }
}

/// A command of a ref transaction, written out.
pub open spec fn worded_command(command: RefCommand) -> Seq<char> {
    match command {
        RefCommand::Delete(name) => "delete "@ + name + "\n"@,
        RefCommand::Update(name, oid) => "update "@ + name + " "@ + oid + "\n"@,
    }
}

/// The commands of a ref transaction, written out.
pub open spec fn worded_commands(commands: Seq<RefCommand>) -> Seq<char>
    decreases commands.len(),
{
    if commands.len() == 0 {
        seq![]
    } else {
        worded_commands(commands.drop_last()) + worded_command(commands.last())
    }
}

proof fn lemma_commands(commands: Seq<RefCommand>)
    ensures
        command_lines(commands) == worded_commands(commands),
    decreases commands.len(),
{
    if commands.len() > 0 {
        lemma_commands(commands.drop_last());
    }
}

/// The script is one transaction that turns the refs `local` into `remote`.
pub open spec fn replaces(
    script: Seq<char>,
    local: Seq<(Seq<char>, Seq<char>)>,
    remote: Seq<(Seq<char>, Seq<char>)>,
) -> bool {
    exists|commands: Seq<RefCommand>|
        script == "start\n"@ + #[trigger] worded_commands(commands) + "prepare\ncommit\n"@
            && refs_after(commands, refs_map(local)) == refs_map(remote)
}

/// The reply lists these refs.
pub open spec fn lists_refs(reply: JsonModel, refs: Seq<(Seq<char>, Seq<char>)>) -> bool {
    items_field(reply, "ok"@) matches Some(entries) && entries.len() == refs.len() && forall|i: int|
        0 <= i < entries.len() ==> (#[trigger] text_field(entries[i], "name"@)) == Some(refs[i].0)
            && text_field(entries[i], "oid"@) == Some(refs[i].1)
}

proof fn lemma_refs(reply: JsonModel, refs: Seq<(Seq<char>, Seq<char>)>)
    requires
        lists_refs(reply, refs),
    ensures
        refs_of(items_field(reply, "ok"@)->Some_0) == Some(refs),
{
    let entries = items_field(reply, "ok"@)->Some_0;
    assert forall|i: int| 0 <= i < entries.len() implies #[trigger] ref_of(entries[i]) == Some(
        refs[i],
    ) by {
        assert(text_field(entries[i], "name"@) == Some(refs[i].0));
    }
    assert(Seq::new(entries.len(), |i: int| ref_of(entries[i])->Some_0) =~= refs);
}

/// A listing of refs is read as it is.
pub proof fn lists_refs_as_told(reply: JsonModel, refs: Seq<(Seq<char>, Seq<char>)>)
    requires
        lists_refs(reply, refs),
    ensures
        refs_of(items_field(reply, "ok"@)->Some_0) == Some(refs),
{
    lemma_refs(reply, refs);
}

/// The call that lists refs or packs.
pub open spec fn listing_call(method: Seq<char>, at: (Seq<char>, Seq<char>)) -> CallModel {
    CallModel { method, argument: opening(at) + ")"@ }
}

/// The beginning of a pull.
pub open spec fn pull_start(
    at: (Seq<char>, Seq<char>),
    pace: PaceModel,
    snapshot: Option<SnapshotModel>,
) -> Pull {
    let (s, action) = materialize_start(at, pace, snapshot);
    Pull { s, action, fx: nothing() }
}

/// What a pull leaves behind: every complete pack of the canister that was not here is in
/// place with all its bytes, in the order of the listing; those that were here have their
/// index; several packs have an index over all of them; and the refs have become those of the
/// canister in one transaction, with `HEAD` at the main branch where there is one.
pub open spec fn pulled(c: Canister, l: Local, fx: Effects) -> bool {
    let ids = complete_packs(c.listing);
    &&& fx.installed == lacking(c, l, ids)
    &&& fx.indexed == unindexed(l, ids)
    &&& fx.all_indexed == (c.listing.len() > 1 && (fx.installed.len() > 0 || !l.multi))
    &&& fx.scripts.len() == 1
    &&& replaces(fx.scripts[0], listed_refs(lines(lossy(l.refs))), c.refs)
    &&& fx.head == exists|i: int|
        0 <= i < c.refs.len() && (#[trigger] c.refs[i]).0 == "refs/heads/main"@
}

proof fn lemma_list(
    c: Canister,
    l: Local,
    at: (Seq<char>, Seq<char>),
    q: Pull,
) -> (r: (nat, Pull))
    requires
        (q.s, q.action) == materialize_packs_done(q.s),
        q.s.at == at,
        q.s.refs == Some(c.refs) || q.s.refs is None,
        lists_refs((c.answers)(listing_call("list_refs"@, at)), c.refs),
    ensures
        r.1 == pull_after(c, l, q, r.0),
        r.1.action is ListRefs,
        r.1.s.stage == MaterializeStage::ListingLocal,
        r.1.s.refs == Some(c.refs),
        r.1.fx == q.fx,
{
    reveal(materialize_step);
    lemma_refs((c.answers)(listing_call("list_refs"@, at)), c.refs);
    let a = pull_step(c, l, q);
    lemma_one(c, l, q);
    if q.s.refs is Some {
        (1, a)
    } else {
        let b = pull_step(c, l, a);
        lemma_one(c, l, a);
        lemma_after(c, l, q, 1, 1);
        (2, b)
    }
}

proof fn lemma_main(refs: Seq<(Seq<char>, Seq<char>)>, main: Seq<char>)
    ensures
        names(refs).contains(main) <==> exists|i: int|
            0 <= i < refs.len() && (#[trigger] refs[i]).0 == main,
{
    if names(refs).contains(main) {
        let i = choose|i: int| 0 <= i < refs.len() && names(refs)[i] == main;
        assert(refs[i].0 == main);
    }
    if exists|i: int| 0 <= i < refs.len() && (#[trigger] refs[i]).0 == main {
        let i = choose|i: int| 0 <= i < refs.len() && (#[trigger] refs[i]).0 == main;
        assert(names(refs)[i] == main);
    }
}

#[verifier::rlimit(60)]
proof fn lemma_replace(c: Canister, l: Local, b: Pull) -> (r: (nat, Seq<char>))
    requires
        b.action is ListRefs,
        b.s.stage == MaterializeStage::ListingLocal,
        b.s.refs == Some(c.refs),
        b.fx.scripts.len() == 0,
        !b.fx.head,
    ensures
        ({
            let end = pull_after(c, l, b, r.0);
            &&& end.action is Finish
            &&& end.fx == Effects {
                scripts: seq![r.1],
                head: names(c.refs).contains("refs/heads/main"@),
                ..b.fx
            }
            &&& replaces(r.1, listed_refs(lines(lossy(l.refs))), c.refs)
        }),
{
    let local = listed_refs(lines(lossy(l.refs)));
    let commands = replacement(local, c.refs);
    replacement_leaves_the_remote_refs(local, c.refs);
    lemma_commands(commands);
    let script = "start\n"@ + worded_commands(commands) + "prepare\ncommit\n"@;
    assert(replaces(script, local, c.refs));
    reveal(materialize_step);
    let update = pull_step(c, l, b);
    assert(update.action == ActionModel::UpdateRefs(script));
    let after = pull_step(c, l, update);
    assert(after.fx.scripts =~= seq![script]);
    lemma_one(c, l, b);
    lemma_one(c, l, update);
    lemma_one(c, l, after);
    lemma_after(c, l, b, 1, 1);
    lemma_after(c, l, b, 2, 1);
    let next = pull_step(c, l, after);
    if names(c.refs).contains("refs/heads/main"@) {
        lemma_one(c, l, next);
        lemma_after(c, l, b, 3, 1);
        (4, script)
    } else {
        (3, script)
    }
}

proof fn lemma_tail(
    c: Canister,
    l: Local,
    at: (Seq<char>, Seq<char>),
    p: Pull,
    s: MaterializeModel,
) -> (n: nat)
    requires
        packs_done(c, l, at, p, s),
        s.refs == Some(c.refs) || s.refs is None,
        lists_refs((c.answers)(listing_call("list_refs"@, at)), c.refs),
    ensures
        pull_after(c, l, p, n).action is Finish,
        pulled(c, l, pull_after(c, l, p, n).fx),
{
    assert(c.listing.take(c.listing.len() as int) =~= c.listing);
    let (m, q) = lemma_all_indexed(c, l, p, s);
    let (k, b) = lemma_list(c, l, at, q);
    let (j, script) = lemma_replace(c, l, b);
    lemma_main(c.refs, "refs/heads/main"@);
    lemma_after(c, l, q, k, j);
    lemma_after(c, l, p, m, (k + j) as nat);
    (m + k + j) as nat
}

proof fn lemma_all_indexed(c: Canister, l: Local, p: Pull, s: MaterializeModel) -> (r: (nat, Pull))
    requires
        (p.s, p.action) == materialize_index_all(s),
        s.packs == c.listing,
        s.installed == (p.fx.installed.len() > 0),
        !p.fx.all_indexed,
    ensures
        ({
            let (n, q) = r;
            &&& q == pull_after(c, l, p, n)
            &&& (q.s, q.action) == materialize_packs_done(q.s)
            &&& q.s.refs == s.refs
            &&& q.s.at == s.at
            &&& q.fx == Effects {
                all_indexed: c.listing.len() > 1 && (p.fx.installed.len() > 0 || !l.multi),
                ..p.fx
            }
        }),
{
    reveal(materialize_step);
    if c.listing.len() <= 1 {
        (0, p)
    } else {
        let a = pull_step(c, l, p);
        lemma_one(c, l, p);
        if s.installed || l.multi {
            (1, a)
        } else {
            let b = pull_step(c, l, a);
            lemma_one(c, l, a);
            lemma_after(c, l, p, 1, 1);
            (2, b)
        }
    }
}

/// A pull from a canister that holds its packs comes to its end and leaves the local
/// repository as the canister describes it, whether a snapshot was at hand or the canister
/// had to be asked, and whatever its transport offers.
pub proof fn pulls_bring_everything(
    c: Canister,
    l: Local,
    at: (Seq<char>, Seq<char>),
    pace: PaceModel,
    snapshot: Option<SnapshotModel>,
)
    requires
        holds_its_packs(c, l, at),
        lists_refs((c.answers)(listing_call("list_refs"@, at)), c.refs),
        items_field((c.answers)(listing_call("list_packs"@, at)), "ok"@) == Some(c.listing),
        snapshot matches Some(known) ==> known.pack_values == c.listing && known.refs == c.refs,
    ensures
        exists|n: nat|
            {
                let end = #[trigger] pull_after(c, l, pull_start(at, pace, snapshot), n);
                end.action is Finish && pulled(c, l, end.fx)
            },
{
    reveal(materialize_step);
    let p = pull_start(at, pace, snapshot);
    let (k, ready) = if snapshot is Some {
        (0nat, p)
    } else {
        let probed = pull_step(c, l, p);
        lemma_one(c, l, p);
        (1nat, probed)
    };
    assert(ready == pull_after(c, l, p, k));
    assert(ready.action is PreparePacks);
    let first = pull_step(c, l, ready);
    lemma_one(c, l, ready);
    lemma_after(c, l, p, k, 1);
    assert(c.listing.take(0) =~= seq![]);
    assert(complete_packs(c.listing.take(0)) =~= seq![]);
    assert(looking(c, l, at, ready.s, first));
    let (m, s) = lemma_look(c, l, at, ready.s, first);
    lemma_after(c, l, p, (k + 1) as nat, m);
    let done = pull_after(c, l, first, m);
    let j = lemma_tail(c, l, at, done, s);
    lemma_after(c, l, p, (k + 1 + m) as nat, j);
    let end = pull_after(c, l, p, (k + 1 + m + j) as nat);
    assert(end.action is Finish);
}

/// In every pull, the calls that fetch chunks run in groups: at least one at a time, no more
/// than the pace allows, and all that are left where they are no more than that.
pub proof fn chunks_are_fetched_at_the_pace(s: MaterializeModel, event: EventModel)
    requires
        s.stage == MaterializeStage::Opening || s.stage == MaterializeStage::Appending,
        event is Done,
    ensures
        ({
            let pace = concurrency(s.pace.processors, s.pace.configured, s.calls.len() as usize);
            let next = materialize_next(s, event).1;
            if s.sent < s.calls.len() {
                next matches ActionModel::Calls(group) && group.len() == if s.calls.len() - s.sent
                    <= pace {
                    s.calls.len() - s.sent
                } else {
                    pace as int
                } && group == s.calls.subrange(s.sent as int, s.sent as int + group.len())
            } else {
                next is IncomingChecksum
            }
        }),
{
    if s.sent < s.calls.len() {
        lemma_pace(s);
    }
}

/// The calls that fetch the chunks of a pack, in order: so many at a time as the transport
/// gives, where it gives several, and else one by one.
pub proof fn chunks_are_asked_for_in_order(
    at: (Seq<char>, Seq<char>),
    id: Seq<char>,
    count: nat,
    capabilities: TransportCapabilities,
)
    ensures
        ({
            let several = capabilities.version >= 2 && capabilities.max_download_batch_items > 1;
            let size = capabilities.max_download_batch_items as nat;
            let calls = download_calls(at, id, count, capabilities);
            if several {
                &&& calls.len() == run_count(count, size)
                &&& forall|i: nat|
                    i < calls.len() ==> #[trigger] calls[i as int] == some_chunks(
                        at,
                        id,
                        i * size,
                        if (i + 1) * size <= count {
                            (i + 1) * size
                        } else {
                            count
                        },
                    )
            } else {
                calls == Seq::new(count, |i: int| one_chunk(at, id, i as nat))
            }
        }),
{
    let size = capabilities.max_download_batch_items as nat;
    let calls = download_calls(at, id, count, capabilities);
    if capabilities.version >= 2 && capabilities.max_download_batch_items > 1 {
        ranges_are_at_multiples(count, size, 0);
        assert forall|i: nat| i < calls.len() implies #[trigger] calls[i as int] == some_chunks(
            at,
            id,
            i * size,
            if (i + 1) * size <= count {
                (i + 1) * size
            } else {
                count
            },
        ) by {
            lemma_calls(at, id, count, capabilities, i);
            ranges_are_at_multiples(count, size, i);
        }
    } else {
        assert(calls =~= Seq::new(count, |i: int| one_chunk(at, id, i as nat)));
    }
}

} // verus!
