//! The download of a pack: the calls that fetch its chunks, and what they answer.
use vstd::prelude::*;

use crate::action::{
    call_models, part, part_text, reject, rejection, vector, vector_text, Action, ActionModel, Call,
    CallModel, Repository,
};
use crate::candid::{
    blob_model, blobs_become_arrays_of_bytes, byte_json, json_of_candid, json_of_items, CandidModel,
    LabelModel,
};
use crate::chunk::{chunk_ranges, chunks, chunks_rejoin, cuts_model, flatten_push, ranges};
use crate::json::{items_field, items_value, models_are_memberwise, unsigned_value, Json, JsonModel};
use crate::text::{decimal, decimal_text, texts};
use crate::transport::{TransportCapabilities, CHUNK_SIZE};

verus! {

/// Whether the transport gives several chunks at a time.
pub open spec fn gives_batches(capabilities: TransportCapabilities) -> bool {
    capabilities.version >= 2 && capabilities.max_download_batch_items > 1
}

/// Whether the transport gives several chunks at a time.
pub fn batched_downloads(capabilities: &TransportCapabilities) -> (r: bool)
    ensures
        r == gives_batches(*capabilities),
{
    capabilities.version >= 2 && capabilities.max_download_batch_items > 1
}

/// The numerals from `from` up to but not including `to`.
pub open spec fn numerals(from: nat, to: nat) -> Seq<Seq<char>> {
    Seq::new((to - from) as nat, |i: int| decimal((from + i) as nat))
}

/// The call that fetches one chunk.
pub open spec fn fetch_call(at: (Seq<char>, Seq<char>), id: Seq<char>, index: nat) -> CallModel {
    CallModel {
        method: "get_pack_chunk"@,
        argument: part(at, id) + ", "@ + decimal(index) + ")"@,
    }
}

/// The call that fetches the chunks in a range.
pub open spec fn fetch_batch_call(
    at: (Seq<char>, Seq<char>),
    id: Seq<char>,
    cut: (nat, nat),
) -> CallModel {
    CallModel {
        method: "get_pack_chunks"@,
        argument: part(at, id) + ", "@ + vector(numerals(cut.0, cut.1)) + ")"@,
    }
}

/// The calls that fetch the `count` chunks of a pack.
pub open spec fn download_calls(
    at: (Seq<char>, Seq<char>),
    id: Seq<char>,
    count: nat,
    capabilities: TransportCapabilities,
) -> Seq<CallModel> {
    if gives_batches(capabilities) {
        let cuts = ranges(0, count, capabilities.max_download_batch_items as nat);
        Seq::new(cuts.len(), |i: int| fetch_batch_call(at, id, cuts[i]))
    } else {
        Seq::new(count, |i: int| fetch_call(at, id, i as nat))
    }
}

fn numeral_texts(from: usize, to: usize) -> (list: Vec<String>)
    requires
        from <= to,
    ensures
        texts(list@) == numerals(from as nat, to as nat),
{
    let mut list: Vec<String> = Vec::new();
    let mut i: usize = from;
    while i < to
        invariant
            from <= i <= to,
            list@.len() == i - from,
            forall|k: int| 0 <= k < i - from ==> #[trigger] list@[k]@ == decimal((from + k) as nat),
        decreases to - i,
    {
        list.push(decimal_text(i as u64));
        i += 1;
    }
    assert(texts(list@) =~= numerals(from as nat, to as nat));
    list
}

/// Writes the calls that fetch the `count` chunks of a pack.
pub fn download_requests(
    at: &Repository,
    id: &str,
    count: usize,
    capabilities: &TransportCapabilities,
) -> (calls: Vec<Call>)
    ensures
        call_models(calls@) == download_calls(at@, id@, count as nat, *capabilities),
{
    let mut calls: Vec<Call> = Vec::new();
    let mut i: usize = 0;
    if batched_downloads(capabilities) {
        let ghost size = capabilities.max_download_batch_items as nat;
        let cuts = chunk_ranges(count, capabilities.max_download_batch_items);
        while i < cuts.len()
            invariant
                i <= cuts@.len(),
                cuts_model(cuts@) == ranges(0, count as nat, size),
                forall|k: int| 0 <= k < cuts@.len() ==> (#[trigger] cuts@[k]).0 < cuts@[k].1,
                calls@.len() == i,
                forall|k: int|
                    0 <= k < i ==> #[trigger] calls@[k]@ == fetch_batch_call(
                        at@,
                        id@,
                        ranges(0, count as nat, size)[k],
                    ),
            decreases cuts.len() - i,
        {
            let (from, to) = cuts[i];
            assert(cuts_model(cuts@)[i as int] == (from as nat, to as nat));
            let mut argument = part_text(at, id);
            argument.append(", ");
            argument.append(vector_text(&numeral_texts(from, to)).as_str());
            argument.append(")");
            calls.push(Call { method: "get_pack_chunks".to_owned(), argument });
            i += 1;
        }
        assert(call_models(calls@) =~= download_calls(at@, id@, count as nat, *capabilities));
        calls
    } else {
        while i < count
            invariant
                i <= count,
                calls@.len() == i,
                forall|k: int|
                    0 <= k < i ==> #[trigger] calls@[k]@ == fetch_call(at@, id@, k as nat),
            decreases count - i,
        {
            let mut argument = part_text(at, id);
            argument.append(", ");
            argument.append(decimal_text(i as u64).as_str());
            argument.append(")");
            calls.push(Call { method: "get_pack_chunk".to_owned(), argument });
            i += 1;
        }
        assert(call_models(calls@) =~= download_calls(at@, id@, count as nat, *capabilities));
        calls
    }
}

/// The numbers in the ranges of a list, one after the other.
pub open spec fn covered(cuts: Seq<(nat, nat)>) -> Seq<nat>
    decreases cuts.len(),
{
    if cuts.len() == 0 {
        seq![]
    } else {
        Seq::new((cuts[0].1 - cuts[0].0) as nat, |i: int| (cuts[0].0 + i) as nat) + covered(
            cuts.drop_first(),
        )
    }
}

proof fn lemma_covered(from: nat, count: nat, size: nat)
    requires
        size > 0,
        from <= count,
    ensures
        covered(ranges(from, count, size)) == Seq::new(
            (count - from) as nat,
            |i: int| (from + i) as nat,
        ),
    decreases count - from,
{
    let cuts = ranges(from, count, size);
    let all = Seq::new((count - from) as nat, |i: int| (from + i) as nat);
    if from >= count {
        assert(covered(cuts) =~= all);
    } else if count - from <= size {
        assert(cuts.drop_first() =~= seq![]);
        assert(covered(cuts.drop_first()) =~= seq![]);
        assert(covered(cuts) =~= all);
    } else {
        lemma_covered(from + size, count, size);
        assert(cuts.drop_first() =~= ranges(from + size, count, size));
        assert(covered(cuts) =~= all);
    }
}

/// Batched downloads fetch every chunk exactly once, in order.
pub proof fn downloads_fetch_every_chunk_once(count: nat, size: nat)
    requires
        size > 0,
    ensures
        covered(ranges(0, count, size)) == Seq::new(count, |i: int| i as nat),
{
    lemma_covered(0, count, size);
    assert(covered(ranges(0, count, size)) =~= Seq::new(count, |i: int| i as nat));
}

/// The bytes that an array of numbers stands for; the low eight bits of each count.
pub open spec fn bytes_of(items: Seq<JsonModel>) -> Option<Seq<u8>> {
    if forall|i: int| 0 <= i < items.len() ==> (#[trigger] unsigned_value(items[i])) is Some {
        Some(Seq::new(items.len(), |i: int| unsigned_value(items[i])->Some_0 as u8))
    } else {
        None
    }
}

/// Reads the bytes that an array of numbers stands for.
pub fn read_bytes(items: &Vec<Json>) -> (r: Option<Vec<u8>>)
    ensures
        match r {
            Some(bytes) => bytes_of(Json::models(items@)) == Some(bytes@),
            None => bytes_of(Json::models(items@)) is None,
        },
{
    let ghost models = Json::models(items@);
    proof {
        models_are_memberwise(items@);
    }
    let mut bytes: Vec<u8> = Vec::new();
    let mut i: usize = 0;
    while i < items.len()
        invariant
            i <= items@.len(),
            models == Json::models(items@),
            models == Seq::new(items@.len(), |k: int| items@[k]@),
            bytes@.len() == i,
            forall|k: int|
                0 <= k < i ==> (#[trigger] unsigned_value(models[k])) is Some && bytes@[k]
                    == unsigned_value(models[k])->Some_0 as u8,
        decreases items.len() - i,
    {
        assert(models[i as int] == items@[i as int]@);
        match items[i].as_u64() {
            Some(n) => bytes.push(
                #[verifier::truncate]
                (n as u8),
            ),
            None => {
                assert(unsigned_value(models[i as int]) is None);
                return None;
            },
        }
        i += 1;
    }
    assert(bytes@ =~= Seq::new(models.len(), |k: int| unsigned_value(models[k])->Some_0 as u8)) by {
        assert forall|k: int| 0 <= k < models.len() implies #[trigger] bytes@[k]
            == unsigned_value(models[k])->Some_0 as u8 by {
            assert(unsigned_value(models[k]) is Some);
        }
    }
    Some(bytes)
}

/// What a chunk that is not made of bytes means.
pub open spec fn malformed_chunk() -> ActionModel {
    ActionModel::Abort("a chunk holds something that is not a byte"@)
}

/// The bytes of a batch of chunks.
pub open spec fn batch_bytes(list: Seq<JsonModel>) -> Result<Seq<u8>, ActionModel>
    decreases list.len(),
{
    if list.len() == 0 {
        Ok(seq![])
    } else {
        match batch_bytes(list.drop_last()) {
            Err(action) => Err(action),
            Ok(front) => match items_value(list.last()) {
                None => Err(ActionModel::Fail("invalid chunk batch response"@)),
                Some(items) => match bytes_of(items) {
                    None => Err(malformed_chunk()),
                    Some(bytes) => Ok(front + bytes),
                },
            },
        }
    }
}

/// The bytes in the answer to a call that fetches chunks.
pub open spec fn reply_bytes(reply: JsonModel, batched: bool) -> Result<Seq<u8>, ActionModel> {
    match items_field(reply, "ok"@) {
        None => Err(rejection("chunk download rejected: "@, reply)),
        Some(items) => if batched {
            batch_bytes(items)
        } else {
            match bytes_of(items) {
                None => Err(malformed_chunk()),
                Some(bytes) => Ok(bytes),
            }
        },
    }
}

/// The bytes in the answers to calls that fetch chunks, one answer after the other.
pub open spec fn replies_bytes(replies: Seq<JsonModel>, batched: bool) -> Result<
    Seq<u8>,
    ActionModel,
>
    decreases replies.len(),
{
    if replies.len() == 0 {
        Ok(seq![])
    } else {
        match replies_bytes(replies.drop_last(), batched) {
            Err(action) => Err(action),
            Ok(front) => match reply_bytes(replies.last(), batched) {
                Err(action) => Err(action),
                Ok(bytes) => Ok(front + bytes),
            },
        }
    }
}

proof fn lemma_batch_fails(list: Seq<JsonModel>, n: int, action: ActionModel)
    requires
        0 <= n <= list.len(),
        batch_bytes(list.take(n)) == Err::<Seq<u8>, ActionModel>(action),
    ensures
        batch_bytes(list) == Err::<Seq<u8>, ActionModel>(action),
    decreases list.len() - n,
{
    if n == list.len() {
        assert(list.take(n) =~= list);
    } else {
        assert(list.take(n + 1).drop_last() =~= list.take(n));
        lemma_batch_fails(list, n + 1, action);
    }
}

proof fn lemma_replies_fail(replies: Seq<JsonModel>, batched: bool, n: int, action: ActionModel)
    requires
        0 <= n <= replies.len(),
        replies_bytes(replies.take(n), batched) == Err::<Seq<u8>, ActionModel>(action),
    ensures
        replies_bytes(replies, batched) == Err::<Seq<u8>, ActionModel>(action),
    decreases replies.len() - n,
{
    if n == replies.len() {
        assert(replies.take(n) =~= replies);
    } else {
        assert(replies.take(n + 1).drop_last() =~= replies.take(n));
        lemma_replies_fail(replies, batched, n + 1, action);
    }
}

fn malformed() -> (action: Action)
    ensures
        action@ == malformed_chunk(),
{
    Action::Abort("a chunk holds something that is not a byte".to_owned())
}

fn append_bytes(bytes: &mut Vec<u8>, more: &Vec<u8>)
    ensures
        final(bytes)@ == old(bytes)@ + more@,
{
    let ghost start = bytes@;
    let mut i: usize = 0;
    assert(bytes@ =~= start + more@.take(0));
    while i < more.len()
        invariant
            i <= more@.len(),
            bytes@ == start + more@.take(i as int),
        decreases more.len() - i,
    {
        bytes.push(more[i]);
        assert(bytes@ =~= start + more@.take(i + 1));
        i += 1;
    }
    assert(more@.take(more@.len() as int) =~= more@);
}

fn read_batch(list: &Vec<Json>) -> (r: Result<Vec<u8>, Action>)
    ensures
        match r {
            Ok(bytes) => batch_bytes(Json::models(list@)) == Ok::<Seq<u8>, ActionModel>(bytes@),
            Err(action) => batch_bytes(Json::models(list@)) == Err::<Seq<u8>, ActionModel>(
                action@,
            ),
        },
{
    let ghost models = Json::models(list@);
    proof {
        models_are_memberwise(list@);
    }
    let mut bytes: Vec<u8> = Vec::new();
    let mut i: usize = 0;
    assert(bytes@ =~= seq![]);
    while i < list.len()
        invariant
            i <= list@.len(),
            models == Json::models(list@),
            models == Seq::new(list@.len(), |k: int| list@[k]@),
            batch_bytes(models.take(i as int)) == Ok::<Seq<u8>, ActionModel>(bytes@),
        decreases list.len() - i,
    {
        let ghost next = models.take(i + 1);
        assert(next.drop_last() =~= models.take(i as int));
        assert(next.last() == list@[i as int]@);
        let found = match list[i].as_array() {
            None => Err(Action::Fail("invalid chunk batch response".to_owned())),
            Some(items) => match read_bytes(items) {
                None => Err(malformed()),
                Some(more) => Ok(more),
            },
        };
        match found {
            Ok(more) => append_bytes(&mut bytes, &more),
            Err(action) => {
                proof {
                    lemma_batch_fails(models, i + 1, action@);
                }
                return Err(action);
            },
        }
        i += 1;
    }
    assert(models.take(models.len() as int) =~= models);
    Ok(bytes)
}

fn read_reply(reply: &Json, batched: bool) -> (r: Result<Vec<u8>, Action>)
    ensures
        match r {
            Ok(bytes) => reply_bytes(reply@, batched) == Ok::<Seq<u8>, ActionModel>(bytes@),
            Err(action) => reply_bytes(reply@, batched) == Err::<Seq<u8>, ActionModel>(action@),
        },
{
    match reply.array_at("ok") {
        None => Err(reject("chunk download rejected: ", reply)),
        Some(items) => if batched {
            read_batch(items)
        } else {
            match read_bytes(items) {
                None => Err(malformed()),
                Some(bytes) => Ok(bytes),
            }
        },
    }
}

/// Reads the bytes in the answers to calls that fetch chunks.
pub fn read_chunks(replies: &Vec<Json>, batched: bool) -> (r: Result<Vec<u8>, Action>)
    ensures
        match r {
            Ok(bytes) => replies_bytes(Json::models(replies@), batched) == Ok::<
                Seq<u8>,
                ActionModel,
            >(bytes@),
            Err(action) => replies_bytes(Json::models(replies@), batched) == Err::<
                Seq<u8>,
                ActionModel,
            >(action@),
        },
{
    let ghost models = Json::models(replies@);
    proof {
        models_are_memberwise(replies@);
    }
    let mut bytes: Vec<u8> = Vec::new();
    let mut i: usize = 0;
    assert(bytes@ =~= seq![]);
    while i < replies.len()
        invariant
            i <= replies@.len(),
            models == Json::models(replies@),
            models == Seq::new(replies@.len(), |k: int| replies@[k]@),
            replies_bytes(models.take(i as int), batched) == Ok::<Seq<u8>, ActionModel>(bytes@),
        decreases replies.len() - i,
    {
        let ghost next = models.take(i + 1);
        assert(next.drop_last() =~= models.take(i as int));
        assert(next.last() == replies@[i as int]@);
        match read_reply(&replies[i], batched) {
            Ok(more) => append_bytes(&mut bytes, &more),
            Err(action) => {
                proof {
                    lemma_replies_fail(models, batched, i + 1, action@);
                }
                return Err(action);
            },
        }
        i += 1;
    }
    assert(models.take(models.len() as int) =~= models);
    Ok(bytes)
}

/// The reply that hands out one chunk.
pub open spec fn chunk_reply(chunk: Seq<u8>) -> JsonModel {
    json_of_candid(
        CandidModel::Variant(LabelModel::Named("ok"@), Box::new(blob_model(chunk))),
    )
}

/// The reply that hands out the chunks in a range.
pub open spec fn chunks_reply(list: Seq<Seq<u8>>, cut: (nat, nat)) -> JsonModel {
    json_of_candid(
        CandidModel::Variant(
            LabelModel::Named("ok"@),
            Box::new(CandidModel::Vec(chunk_blobs(list.subrange(cut.0 as int, cut.1 as int)))),
        ),
    )
}

/// Chunks as Candid values.
pub open spec fn chunk_blobs(list: Seq<Seq<u8>>) -> Seq<CandidModel> {
    Seq::new(list.len(), |i: int| blob_model(list[i]))
}

proof fn lemma_blob(chunk: Seq<u8>)
    ensures
        items_value(json_of_candid(blob_model(chunk))) matches Some(items) && bytes_of(items) == Some(
            chunk,
        ),
{
    blobs_become_arrays_of_bytes(chunk);
    let items = Seq::new(chunk.len(), |i: int| byte_json(chunk[i]));
    assert forall|i: int| 0 <= i < items.len() implies (#[trigger] unsigned_value(items[i]))
        == Some(chunk[i] as u64) by {}
    let bytes = Seq::new(items.len(), |i: int| unsigned_value(items[i])->Some_0 as u8);
    assert forall|i: int| 0 <= i < items.len() implies bytes[i] == chunk[i] by {
        assert(unsigned_value(items[i]) == Some(chunk[i] as u64));
        let n = chunk[i];
        assert(n as u64 as u8 == n);
    }
    assert(bytes =~= chunk);
}

proof fn lemma_chunk_reply(chunk: Seq<u8>)
    ensures
        reply_bytes(chunk_reply(chunk), false) == Ok::<Seq<u8>, ActionModel>(chunk),
{
    lemma_blob(chunk);
    let blob = blob_model(chunk);
    let value = CandidModel::Variant(LabelModel::Named("ok"@), Box::new(blob));
    assert(json_of_candid(value) == JsonModel::Object(
        Map::<Seq<char>, JsonModel>::empty().insert("ok"@, json_of_candid(blob)),
    ));
}

proof fn lemma_blobs(list: Seq<Seq<u8>>)
    ensures
        batch_bytes(json_of_items(chunk_blobs(list))) == Ok::<Seq<u8>, ActionModel>(list.flatten()),
    decreases list.len(),
{
    if list.len() == 0 {
        assert(chunk_blobs(list) =~= seq![]);
        assert(list.flatten() =~= seq![]);
    } else {
        let front = list.drop_last();
        lemma_blobs(front);
        lemma_blob(list.last());
        assert(chunk_blobs(list).drop_last() =~= chunk_blobs(front));
        assert(chunk_blobs(list).last() == blob_model(list.last()));
        let items = json_of_items(chunk_blobs(list));
        assert(items.drop_last() =~= json_of_items(chunk_blobs(front)));
        flatten_push(front, list.last());
        assert(front.push(list.last()) =~= list);
    }
}

proof fn lemma_chunks_reply(list: Seq<Seq<u8>>, cut: (nat, nat))
    requires
        cut.0 <= cut.1 <= list.len(),
    ensures
        reply_bytes(chunks_reply(list, cut), true) == Ok::<Seq<u8>, ActionModel>(
            list.subrange(cut.0 as int, cut.1 as int).flatten(),
        ),
{
    let part = list.subrange(cut.0 as int, cut.1 as int);
    lemma_blobs(part);
    let blobs = CandidModel::Vec(chunk_blobs(part));
    let value = CandidModel::Variant(LabelModel::Named("ok"@), Box::new(blobs));
    assert(json_of_candid(blobs) == JsonModel::Array(json_of_items(chunk_blobs(part))));
    assert(json_of_candid(value) == JsonModel::Object(
        Map::<Seq<char>, JsonModel>::empty().insert("ok"@, json_of_candid(blobs)),
    ));
}

proof fn lemma_single_replies(list: Seq<Seq<u8>>)
    ensures
        replies_bytes(Seq::new(list.len(), |i: int| chunk_reply(list[i])), false) == Ok::<
            Seq<u8>,
            ActionModel,
        >(list.flatten()),
    decreases list.len(),
{
    let replies = Seq::new(list.len(), |i: int| chunk_reply(list[i]));
    if list.len() == 0 {
        assert(replies =~= seq![]);
        assert(list.flatten() =~= seq![]);
    } else {
        let front = list.drop_last();
        lemma_single_replies(front);
        lemma_chunk_reply(list.last());
        assert(replies.drop_last() =~= Seq::new(front.len(), |i: int| chunk_reply(front[i])));
        flatten_push(front, list.last());
        assert(front.push(list.last()) =~= list);
    }
}

/// The ranges stand one behind the other, from the beginning of a list on.
pub open spec fn consecutive(cuts: Seq<(nat, nat)>, from: nat, to: nat) -> bool {
    &&& cuts.len() == 0 ==> from == to
    &&& cuts.len() > 0 ==> cuts[0].0 == from && cuts.last().1 == to
    &&& forall|i: int| 0 <= i < cuts.len() ==> (#[trigger] cuts[i]).0 <= cuts[i].1 <= to
    &&& forall|i: int| 0 < i < cuts.len() ==> cuts[i - 1].1 == (#[trigger] cuts[i]).0
}

proof fn lemma_ranges_consecutive(from: nat, len: nat, size: nat)
    requires
        size > 0,
        from <= len,
    ensures
        consecutive(ranges(from, len, size), from, len),
    decreases len - from,
{
    let cuts = ranges(from, len, size);
    if from < len && len - from > size {
        lemma_ranges_consecutive(from + size, len, size);
        let rest = ranges(from + size, len, size);
        assert forall|i: int| 0 <= i < cuts.len() implies (#[trigger] cuts[i]).0 <= cuts[i].1
            <= len by {
            if i > 0 {
                assert(cuts[i] == rest[i - 1]);
            }
        }
        assert forall|i: int| 0 < i < cuts.len() implies cuts[i - 1].1 == (#[trigger] cuts[i]).0 by {
            assert(cuts[i] == rest[i - 1]);
            if i > 1 {
                assert(cuts[i - 1] == rest[i - 2]);
            }
        }
        if rest.len() > 0 {
            assert(cuts.last() == rest.last());
        }
    }
}

proof fn lemma_flatten_split(list: Seq<Seq<u8>>, n: int)
    requires
        0 <= n <= list.len(),
    ensures
        list.flatten() == list.take(n).flatten() + list.skip(n).flatten(),
    decreases list.len() - n,
{
    if n == list.len() {
        assert(list.take(n) =~= list);
        assert(list.skip(n) =~= seq![]);
        assert(list.skip(n).flatten() =~= seq![]);
        assert(list.take(n).flatten() + list.skip(n).flatten() =~= list.flatten());
    } else {
        lemma_flatten_split(list, n + 1);
        flatten_push(list.take(n), list[n]);
        assert(list.take(n).push(list[n]) =~= list.take(n + 1));
        assert(list.skip(n).drop_first() =~= list.skip(n + 1));
        assert(list.take(n + 1).flatten() + list.skip(n + 1).flatten() =~= list.take(n).flatten()
            + list.skip(n).flatten());
    }
}

proof fn lemma_batched_replies(list: Seq<Seq<u8>>, cuts: Seq<(nat, nat)>, to: nat)
    requires
        consecutive(cuts, 0, to),
        to <= list.len(),
    ensures
        replies_bytes(Seq::new(cuts.len(), |i: int| chunks_reply(list, cuts[i])), true) == Ok::<
            Seq<u8>,
            ActionModel,
        >(list.take(to as int).flatten()),
    decreases cuts.len(),
{
    let replies = Seq::new(cuts.len(), |i: int| chunks_reply(list, cuts[i]));
    if cuts.len() == 0 {
        assert(replies =~= seq![]);
        assert(list.take(0) =~= seq![]);
        assert(list.take(0).flatten() =~= seq![]);
    } else {
        let front = cuts.drop_last();
        let cut = cuts.last();
        assert(cuts[cuts.len() - 1] == cut);
        let from = cut.0;
        if front.len() > 0 {
            assert(cuts[cuts.len() - 2].1 == cuts[cuts.len() - 1].0);
        }
        assert forall|i: int| 0 <= i < front.len() implies (#[trigger] front[i]).0 <= front[i].1
            <= from by {
            lemma_below(cuts, i, to);
        }
        assert(consecutive(front, 0, from));
        lemma_batched_replies(list, front, from);
        lemma_chunks_reply(list, cut);
        assert(replies.drop_last() =~= Seq::new(
            front.len(),
            |i: int| chunks_reply(list, front[i]),
        ));
        let whole = list.take(to as int);
        lemma_flatten_split(whole, from as int);
        assert(whole.take(from as int) =~= list.take(from as int));
        assert(whole.skip(from as int) =~= list.subrange(from as int, to as int));
    }
}

proof fn lemma_below(cuts: Seq<(nat, nat)>, i: int, to: nat)
    requires
        consecutive(cuts, 0, to),
        0 <= i < cuts.len() - 1,
    ensures
        cuts[i].1 <= cuts.last().0,
    decreases cuts.len() - i,
{
    assert(cuts[i].1 == cuts[i + 1].0);
    assert(cuts[i + 1].0 <= cuts[i + 1].1);
    if i + 1 < cuts.len() - 1 {
        lemma_below(cuts, i + 1, to);
    }
}

/// A pack that was sent in chunks is given back whole, whether the chunks are fetched one
/// by one or in batches of any size.
pub proof fn downloads_give_back_the_upload(bytes: Seq<u8>, size: nat)
    requires
        size > 0,
    ensures
        ({
            let list = chunks(bytes, CHUNK_SIZE as nat);
            let cuts = ranges(0, list.len(), size);
            &&& replies_bytes(Seq::new(list.len(), |i: int| chunk_reply(list[i])), false) == Ok::<
                Seq<u8>,
                ActionModel,
            >(bytes)
            &&& replies_bytes(
                Seq::new(cuts.len(), |i: int| chunks_reply(list, cuts[i])),
                true,
            ) == Ok::<Seq<u8>, ActionModel>(bytes)
        }),
{
    let list = chunks(bytes, CHUNK_SIZE as nat);
    chunks_rejoin(bytes, CHUNK_SIZE as nat);
    lemma_single_replies(list);
    lemma_ranges_consecutive(0, list.len(), size);
    lemma_batched_replies(list, ranges(0, list.len(), size), list.len());
    assert(list.take(list.len() as int) =~= list);
}

} // verus!
