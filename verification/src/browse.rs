//! Objects for browsing: stored one by one on the canister, so that every commit a ref
//! points at can be shown.
//!
//! Small objects travel in batches, large ones in chunks.
use vstd::prelude::*;
use vstd::slice::slice_subrange;

use crate::action::{
    accepted, accepts, address, address_text, call_models, confused, find_rejection, first_rejected,
    give_up, maybe_action, part, part_text, reject, rejection, vector, vector_text, Action,
    ActionModel, Call, CallModel, Event, EventModel, Repository,
};
use crate::candid::{blob_text, candid_blob};
use crate::chunk::{chunk_ranges, chunks, cuts_model, flatten_push, ranges};
use crate::json::{Json, JsonModel};
use crate::objects::{
    all_object_ids, missing_answers, missing_objects, missing_questions, object_ids, object_models,
    objects_in, read_git_objects, read_missing, GitObject, ObjectModel,
};
use crate::pack::{part_call, part_request};
use crate::pack_upload::{complete_already, has_all};
use crate::text::{decimal, decimal_text, lossy, text_range, texts};
use crate::transport::CHUNK_SIZE;

verus! {

/// Largest object that travels in a batch.
pub const INLINE_OBJECT_LIMIT: usize = 131_072;

/// Whether an object of `size` bytes travels in a batch.
pub fn should_inline_object(size: usize) -> (inline: bool)
    ensures
        inline == (size <= INLINE_OBJECT_LIMIT),
{
    size <= INLINE_OBJECT_LIMIT
}

/// The number of objects that one batch may hold.
pub const BATCH_OBJECTS: usize = 100;

/// The number of payload bytes that one batch may hold.
pub const BATCH_BYTES: usize = 1_250_000;

/// The kind of an object as a Candid argument.
pub open spec fn kind_variant(kind: Seq<char>) -> Seq<char> {
    "variant { \""@ + kind + "\" }"@
}

/// An object within a batch.
pub open spec fn object_record(object: ObjectModel) -> Seq<char> {
    "record { oid = \""@ + object.oid + "\"; git_object = record { kind = "@ + kind_variant(
        object.kind,
    ) + "; payload = "@ + blob_text(object.payload) + " } }"@
}

/// Objects within a batch.
pub open spec fn object_records(objects: Seq<ObjectModel>) -> Seq<Seq<char>> {
    Seq::new(objects.len(), |i: int| object_record(objects[i]))
}

/// The call that stores a batch of objects.
pub open spec fn objects_call(at: (Seq<char>, Seq<char>), batch: Seq<ObjectModel>) -> CallModel {
    CallModel {
        method: "put_objects_batch"@,
        argument: address(at) + ", "@ + vector(object_records(batch)) + ")"@,
    }
}

/// The calls that store batches of objects.
pub open spec fn objects_calls(
    at: (Seq<char>, Seq<char>),
    batches: Seq<Seq<ObjectModel>>,
) -> Seq<CallModel> {
    Seq::new(batches.len(), |i: int| objects_call(at, batches[i]))
}

/// The number of payload bytes of a list of objects.
pub open spec fn weight(objects: Seq<ObjectModel>) -> nat
    decreases objects.len(),
{
    if objects.len() == 0 {
        0
    } else {
        weight(objects.drop_last()) + objects.last().payload.len()
    }
}

/// How objects are to travel: in full batches, in a batch that is still open, and one by
/// one.
pub struct BrowsePlan {
    pub batches: Seq<Seq<ObjectModel>>,
    pub open: Seq<ObjectModel>,
    pub large: Seq<ObjectModel>,
}

/// The batches of a plan once the open one is closed.
pub open spec fn closed_batches(plan: BrowsePlan) -> Seq<Seq<ObjectModel>> {
    if plan.open.len() == 0 {
        plan.batches
    } else {
        plan.batches.push(plan.open)
    }
}

/// Puts one more object into a plan. A full batch is closed first, and so is any open
/// batch where a large object comes.
pub open spec fn planned(plan: BrowsePlan, object: ObjectModel) -> BrowsePlan {
    if object.payload.len() > INLINE_OBJECT_LIMIT {
        BrowsePlan {
            batches: closed_batches(plan),
            open: seq![],
            large: plan.large.push(object),
        }
    } else if plan.open.len() == BATCH_OBJECTS || weight(plan.open) + object.payload.len()
        > BATCH_BYTES {
        BrowsePlan { batches: closed_batches(plan), open: seq![object], large: plan.large }
    } else {
        BrowsePlan { open: plan.open.push(object), ..plan }
    }
}

/// The plan for a list of objects.
pub open spec fn browse_plan(objects: Seq<ObjectModel>) -> BrowsePlan
    decreases objects.len(),
{
    if objects.len() == 0 {
        BrowsePlan { batches: seq![], open: seq![], large: seq![] }
    } else {
        planned(browse_plan(objects.drop_last()), objects.last())
    }
}

/// An object that travels in a batch.
pub open spec fn travels_inline(object: ObjectModel) -> bool {
    object.payload.len() <= INLINE_OBJECT_LIMIT
}

/// A batch within its limits.
pub open spec fn proper_batch(batch: Seq<ObjectModel>) -> bool {
    0 < batch.len() <= BATCH_OBJECTS && weight(batch) <= BATCH_BYTES
}

proof fn lemma_plan(objects: Seq<ObjectModel>)
    ensures
        ({
            let plan = browse_plan(objects);
            &&& plan.batches.flatten() + plan.open == objects.filter(|o: ObjectModel| travels_inline(o))
            &&& plan.large == objects.filter(|o: ObjectModel| !travels_inline(o))
            &&& forall|i: int| 0 <= i < plan.batches.len() ==> proper_batch(#[trigger] plan.batches[i])
            &&& plan.open.len() <= BATCH_OBJECTS
            &&& weight(plan.open) <= BATCH_BYTES
        }),
    decreases objects.len(),
{
    reveal(Seq::filter);
    let plan = browse_plan(objects);
    if objects.len() == 0 {
        assert(plan.batches.flatten() =~= seq![]);
        assert(plan.batches.flatten() + plan.open =~= objects.filter(
            |o: ObjectModel| travels_inline(o),
        ));
        assert(plan.large =~= objects.filter(|o: ObjectModel| !travels_inline(o)));
    } else {
        let object = objects.last();
        let front = objects.drop_last();
        let prior = browse_plan(front);
        lemma_plan(front);
        let inline = front.filter(|o: ObjectModel| travels_inline(o));
        assert(closed_batches(prior).flatten() =~= prior.batches.flatten() + prior.open) by {
            if prior.open.len() > 0 {
                flatten_push(prior.batches, prior.open);
            }
        }
        assert(seq![object].drop_last() =~= seq![]);
        assert(weight(seq![object].drop_last()) == 0);
        assert(weight(seq![object]) == object.payload.len());
        assert(prior.open.push(object).drop_last() =~= prior.open);
        if !travels_inline(object) {
            assert(plan.batches.flatten() + plan.open =~= inline);
        } else {
            assert(plan.batches.flatten() + plan.open =~= inline.push(object));
        }
    }
}

/// Every small object is in exactly one batch, in order; every batch keeps its limits; and
/// the large objects travel one by one, in order.
pub proof fn plans_hold_every_object(objects: Seq<ObjectModel>)
    ensures
        closed_batches(browse_plan(objects)).flatten() == objects.filter(
            |o: ObjectModel| travels_inline(o),
        ),
        browse_plan(objects).large == objects.filter(|o: ObjectModel| !travels_inline(o)),
        forall|i: int|
            0 <= i < closed_batches(browse_plan(objects)).len() ==> proper_batch(
                #[trigger] closed_batches(browse_plan(objects))[i],
            ),
{
    lemma_plan(objects);
    let plan = browse_plan(objects);
    if plan.open.len() > 0 {
        flatten_push(plan.batches, plan.open);
    } else {
        assert(plan.batches.flatten() + plan.open =~= plan.batches.flatten());
    }
}

fn object_record_text(object: &GitObject) -> (text: String)
    ensures
        text@ == object_record(object@),
{
    let mut text = "record { oid = \"".to_owned();
    text.append(object.oid.as_str());
    text.append("\"; git_object = record { kind = ");
    text.append(kind_text(object.kind.as_str()).as_str());
    text.append("; payload = ");
    text.append(candid_blob(object.payload.as_slice()).as_str());
    text.append(" } }");
    text
}

fn kind_text(kind: &str) -> (text: String)
    ensures
        text@ == kind_variant(kind@),
{
    let mut text = "variant { \"".to_owned();
    text.append(kind);
    text.append("\" }");
    text
}

fn objects_request(at: &Repository, records: &Vec<String>, batch: Ghost<Seq<ObjectModel>>) -> (call:
    Call)
    requires
        texts(records@) == object_records(batch@),
    ensures
        call@ == objects_call(at@, batch@),
{
    let mut argument = address_text(at);
    argument.append(", ");
    argument.append(vector_text(records).as_str());
    argument.append(")");
    Call { method: "put_objects_batch".to_owned(), argument }
}

/// The same objects in the opposite order, without copying them.
fn reversed(objects: Vec<GitObject>) -> (r: Vec<GitObject>)
    ensures
        r@.len() == objects@.len(),
        forall|k: int|
            0 <= k < r@.len() ==> #[trigger] r@[k] == objects@[objects@.len() - 1 - k],
{
    let mut objects = objects;
    let ghost all = objects@;
    let mut r: Vec<GitObject> = Vec::new();
    while objects.len() > 0
        invariant
            objects@.len() + r@.len() == all.len(),
            forall|k: int| 0 <= k < objects@.len() ==> #[trigger] objects@[k] == all[k],
            forall|k: int| 0 <= k < r@.len() ==> #[trigger] r@[k] == all[all.len() - 1 - k],
        decreases objects.len(),
    {
        match objects.pop() {
            Some(object) => r.push(object),
            None => {},
        }
    }
    r
}

/// Plans how `objects` travel: the calls that store the batches, and the large objects.
pub fn plan_objects(at: &Repository, objects: Vec<GitObject>) -> (r: (Vec<Call>, Vec<GitObject>))
    ensures
        call_models(r.0@) == objects_calls(
            at@,
            closed_batches(browse_plan(object_models(objects@))),
        ),
        object_models(r.1@) == browse_plan(object_models(objects@)).large,
{
    let ghost all = object_models(objects@);
    let n = objects.len();
    let mut rest = reversed(objects);
    let mut calls: Vec<Call> = Vec::new();
    let mut records: Vec<String> = Vec::new();
    let mut bytes: usize = 0;
    let mut large: Vec<GitObject> = Vec::new();
    let mut i: usize = 0;
    let ghost mut plan = browse_plan(all.take(0));
    assert(call_models(calls@) =~= objects_calls(at@, plan.batches));
    assert(texts(records@) =~= object_records(plan.open));
    assert(object_models(large@) =~= plan.large);
    while i < n
        invariant
            i <= n,
            n == all.len(),
            rest@.len() == n - i,
            forall|k: int| 0 <= k < rest@.len() ==> (#[trigger] rest@[k])@ == all[n - 1 - k],
            plan == browse_plan(all.take(i as int)),
            call_models(calls@) == objects_calls(at@, plan.batches),
            texts(records@) == object_records(plan.open),
            object_models(large@) == plan.large,
            bytes == weight(plan.open),
            bytes <= BATCH_BYTES,
        decreases n - i,
    {
        let ghost prior = plan;
        assert(all.take(i + 1).drop_last() =~= all.take(i as int));
        assert(rest@[rest@.len() - 1]@ == all[i as int]);
        let object = rest.pop().unwrap();
        let ghost o = object@;
        assert(o == all.take(i + 1).last());
        let size = object.payload.len();
        let inline = should_inline_object(size);
        assert(texts(records@).len() == records@.len());
        if !inline || records.len() == BATCH_OBJECTS || bytes + size > BATCH_BYTES {
            if records.len() > 0 {
                let ghost done = call_models(calls@);
                let call = objects_request(at, &records, Ghost(prior.open));
                let ghost c = call@;
                calls.push(call);
                assert(call_models(calls@) =~= done.push(c));
                assert(call_models(calls@) =~= objects_calls(at@, closed_batches(prior)));
                records = Vec::new();
            }
            assert(texts(records@) =~= seq![]);
            bytes = 0;
        }
        let ghost open = texts(records@);
        if inline {
            let record = object_record_text(&object);
            let ghost t = record@;
            records.push(record);
            assert(texts(records@) =~= open.push(t));
            bytes = bytes + size;
        } else {
            let ghost done = object_models(large@);
            large.push(object);
            assert(object_models(large@) =~= done.push(o));
        }
        i += 1;
        proof {
            plan = browse_plan(all.take(i as int));
            assert(plan == planned(prior, o));
            assert(prior.open.push(o).drop_last() =~= prior.open);
            assert(seq![o].drop_last() =~= seq![]);
            assert(weight(seq![o].drop_last()) == 0);
            assert(weight(seq![o]) == o.payload.len());
            assert(texts(records@) =~= object_records(plan.open));
        }
    }
    assert(all.take(all.len() as int) =~= all);
    assert(texts(records@).len() == records@.len());
    if records.len() > 0 {
        let ghost done = call_models(calls@);
        let call = objects_request(at, &records, Ghost(plan.open));
        let ghost c = call@;
        calls.push(call);
        assert(call_models(calls@) =~= done.push(c));
        assert(call_models(calls@) =~= objects_calls(at@, closed_batches(plan)));
    }
    (calls, large)
}

/// Where the upload of one object stands: what the last action was for.
#[derive(Clone, Copy, Debug, PartialEq, Eq, Structural)]
pub enum ObjectStage {
    Storing,
    Announcing,
    Sending,
    Finalizing,
    Complete,
    Stopped,
}

/// The upload of one object.
pub struct ObjectUpload {
    pub object: GitObject,
    pub stage: ObjectStage,
}

/// The model of the upload of one object.
pub struct ObjectUploadModel {
    pub object: ObjectModel,
    pub stage: ObjectStage,
}

impl View for ObjectUpload {
    type V = ObjectUploadModel;

    open spec fn view(&self) -> ObjectUploadModel {
        ObjectUploadModel { object: self.object@, stage: self.stage }
    }
}

/// The call that stores a small object.
pub open spec fn put_object_call(at: (Seq<char>, Seq<char>), object: ObjectModel) -> CallModel {
    CallModel {
        method: "put_object"@,
        argument: part(at, object.oid) + ", "@ + kind_variant(object.kind) + ", "@ + blob_text(
            object.payload,
        ) + ")"@,
    }
}

/// The call that announces a large object.
pub open spec fn begin_object_call(at: (Seq<char>, Seq<char>), object: ObjectModel) -> CallModel {
    CallModel {
        method: "begin_chunked_object"@,
        argument: part(at, object.oid) + ", "@ + kind_variant(object.kind) + ", "@ + decimal(
            object.payload.len(),
        ) + ", "@ + decimal(CHUNK_SIZE as nat) + ")"@,
    }
}

/// The call that carries one chunk of a large object.
pub open spec fn object_chunk_call(
    at: (Seq<char>, Seq<char>),
    oid: Seq<char>,
    index: nat,
    chunk: Seq<u8>,
) -> CallModel {
    CallModel {
        method: "put_object_chunk"@,
        argument: part(at, oid) + ", "@ + decimal(index) + ", "@ + blob_text(chunk) + ")"@,
    }
}

/// The calls that carry a large object.
pub open spec fn object_chunk_calls(
    at: (Seq<char>, Seq<char>),
    object: ObjectModel,
) -> Seq<CallModel> {
    let list = chunks(object.payload, CHUNK_SIZE as nat);
    Seq::new(list.len(), |i: int| object_chunk_call(at, object.oid, i as nat, list[i]))
}

/// The beginning of the upload of one object.
pub open spec fn object_start(at: (Seq<char>, Seq<char>), object: ObjectModel) -> (
    ObjectUploadModel,
    ActionModel,
) {
    if object.payload.len() <= INLINE_OBJECT_LIMIT {
        (
            ObjectUploadModel { object, stage: ObjectStage::Storing },
            ActionModel::Call(put_object_call(at, object)),
        )
    } else {
        (
            ObjectUploadModel { object, stage: ObjectStage::Announcing },
            ActionModel::Call(begin_object_call(at, object)),
        )
    }
}

/// The end of the upload of one object without success.
pub open spec fn object_stop(s: ObjectUploadModel, action: ActionModel) -> (
    ObjectUploadModel,
    Option<ActionModel>,
) {
    (ObjectUploadModel { stage: ObjectStage::Stopped, ..s }, Some(action))
}

/// The upload of one object after an event, and the next action; none once it is done.
pub open spec fn object_next(
    at: (Seq<char>, Seq<char>),
    s: ObjectUploadModel,
    event: EventModel,
) -> (ObjectUploadModel, Option<ActionModel>) {
    match (s.stage, event) {
        (ObjectStage::Storing, EventModel::Reply(reply)) => if accepted(reply) {
            (ObjectUploadModel { stage: ObjectStage::Complete, ..s }, None)
        } else {
            object_stop(s, rejection("browse object indexing rejected: "@, reply))
        },
        (ObjectStage::Announcing, EventModel::Reply(reply)) => match complete_already(reply) {
            None => object_stop(s, rejection("chunked browse object rejected: "@, reply)),
            Some(true) => (ObjectUploadModel { stage: ObjectStage::Complete, ..s }, None),
            Some(false) => (
                ObjectUploadModel { stage: ObjectStage::Sending, ..s },
                Some(ActionModel::Calls(object_chunk_calls(at, s.object))),
            ),
        },
        (ObjectStage::Sending, EventModel::Replies(replies)) => match first_rejected(replies) {
            Some(reply) => object_stop(
                s,
                rejection("browse object chunk upload rejected: "@, reply),
            ),
            None => (
                ObjectUploadModel { stage: ObjectStage::Finalizing, ..s },
                Some(
                    ActionModel::Call(part_call("finalize_chunked_object"@, at, s.object.oid)),
                ),
            ),
        },
        (ObjectStage::Finalizing, EventModel::Reply(reply)) => if accepted(reply) {
            (ObjectUploadModel { stage: ObjectStage::Complete, ..s }, None)
        } else {
            object_stop(s, rejection("chunked browse object finalization rejected: "@, reply))
        },
        _ => object_stop(s, confused()),
    }
}

fn object_chunk_requests(at: &Repository, object: &GitObject) -> (calls: Vec<Call>)
    ensures
        call_models(calls@) == object_chunk_calls(at@, object@),
{
    let ghost list = chunks(object@.payload, CHUNK_SIZE as nat);
    let cuts = chunk_ranges(object.payload.len(), CHUNK_SIZE);
    let mut calls: Vec<Call> = Vec::new();
    let mut i: usize = 0;
    while i < cuts.len()
        invariant
            i <= cuts@.len(),
            list == chunks(object.payload@, CHUNK_SIZE as nat),
            cuts_model(cuts@) == ranges(0, object.payload@.len(), CHUNK_SIZE as nat),
            forall|k: int|
                0 <= k < cuts@.len() ==> (#[trigger] cuts@[k]).0 < cuts@[k].1
                    <= object.payload@.len(),
            calls@.len() == i,
            forall|k: int|
                0 <= k < i ==> #[trigger] calls@[k]@ == object_chunk_call(
                    at@,
                    object.oid@,
                    k as nat,
                    list[k],
                ),
        decreases cuts.len() - i,
    {
        let (from, to) = cuts[i];
        assert(cuts_model(cuts@)[i as int] == (from as nat, to as nat));
        let chunk = slice_subrange(object.payload.as_slice(), from, to);
        assert(chunk@ == list[i as int]);
        let mut argument = part_text(at, object.oid.as_str());
        argument.append(", ");
        argument.append(decimal_text(i as u64).as_str());
        argument.append(", ");
        argument.append(candid_blob(chunk).as_str());
        argument.append(")");
        calls.push(Call { method: "put_object_chunk".to_owned(), argument });
        i += 1;
    }
    assert(call_models(calls@) =~= object_chunk_calls(at@, object@));
    calls
}

/// Starts the upload of one object.
pub fn index_browse_object(at: &Repository, object: GitObject) -> (r: (ObjectUpload, Action))
    ensures
        (r.0@, r.1@) == object_start(at@, object@),
{
    let mut argument = part_text(at, object.oid.as_str());
    argument.append(", ");
    argument.append(kind_text(object.kind.as_str()).as_str());
    argument.append(", ");
    if should_inline_object(object.payload.len()) {
        argument.append(candid_blob(object.payload.as_slice()).as_str());
        argument.append(")");
        let call = Call { method: "put_object".to_owned(), argument };
        (ObjectUpload { object, stage: ObjectStage::Storing }, Action::Call(call))
    } else {
        argument.append(decimal_text(object.payload.len() as u64).as_str());
        argument.append(", ");
        argument.append(decimal_text(CHUNK_SIZE as u64).as_str());
        argument.append(")");
        let call = Call { method: "begin_chunked_object".to_owned(), argument };
        (ObjectUpload { object, stage: ObjectStage::Announcing }, Action::Call(call))
    }
}

impl ObjectUpload {
    fn stop(&mut self, action: Action) -> (r: Option<Action>)
        ensures
            (final(self)@, maybe_action(r)) == object_stop(old(self)@, action@),
    {
        self.stage = ObjectStage::Stopped;
        Some(action)
    }

    /// Takes the answer to the last action and gives the next one; none once the object
    /// is stored.
    pub fn step(&mut self, at: &Repository, event: Event) -> (r: Option<Action>)
        ensures
            (final(self)@, maybe_action(r)) == object_next(at@, old(self)@, event@),
    {
        match (self.stage, event) {
            (ObjectStage::Storing, Event::Reply(reply)) => if accepts(&reply) {
                self.stage = ObjectStage::Complete;
                None
            } else {
                self.stop(reject("browse object indexing rejected: ", &reply))
            },
            (ObjectStage::Announcing, Event::Reply(reply)) => match has_all(&reply) {
                None => self.stop(reject("chunked browse object rejected: ", &reply)),
                Some(complete) => if complete {
                    self.stage = ObjectStage::Complete;
                    None
                } else {
                    let calls = object_chunk_requests(at, &self.object);
                    self.stage = ObjectStage::Sending;
                    Some(Action::Calls(calls))
                },
            },
            (ObjectStage::Sending, Event::Replies(replies)) => match find_rejection(&replies) {
                Some(reply) => self.stop(reject("browse object chunk upload rejected: ", reply)),
                None => {
                    let call = part_request(
                        "finalize_chunked_object",
                        at,
                        self.object.oid.as_str(),
                    );
                    self.stage = ObjectStage::Finalizing;
                    Some(Action::Call(call))
                },
            },
            (ObjectStage::Finalizing, Event::Reply(reply)) => if accepts(&reply) {
                self.stage = ObjectStage::Complete;
                None
            } else {
                self.stop(reject("chunked browse object finalization rejected: ", &reply))
            },
            _ => self.stop(give_up()),
        }
    }
}

/// Where the storing of objects for browsing stands: what the last action was for.
#[derive(Clone, Copy, Debug, PartialEq, Eq, Structural)]
pub enum BrowseStage {
    Asking,
    Reading,
    Storing,
    Batching,
    Complete,
    Stopped,
}

/// The storing of objects for browsing. The large objects stand in the order in which
/// they are taken from the end of the list.
pub struct Browse {
    pub missing: Vec<String>,
    pub calls: Vec<Call>,
    pub large: Vec<GitObject>,
    pub upload: Option<ObjectUpload>,
    pub stage: BrowseStage,
}

/// The model of the storing of objects for browsing.
pub struct BrowseModel {
    pub missing: Seq<Seq<char>>,
    pub calls: Seq<CallModel>,
    pub large: Seq<ObjectModel>,
    pub upload: Option<ObjectUploadModel>,
    pub stage: BrowseStage,
}

/// The model of an optional upload.
pub open spec fn maybe_upload(upload: Option<ObjectUpload>) -> Option<ObjectUploadModel> {
    match upload {
        Some(u) => Some(u@),
        None => None,
    }
}

impl View for Browse {
    type V = BrowseModel;

    open spec fn view(&self) -> BrowseModel {
        BrowseModel {
            missing: texts(self.missing@),
            calls: call_models(self.calls@),
            large: object_models(self.large@).reverse(),
            upload: maybe_upload(self.upload),
            stage: self.stage,
        }
    }
}

/// The beginning: the canister is asked which objects it lacks.
pub open spec fn browse_start(at: (Seq<char>, Seq<char>), ids: Seq<Seq<char>>) -> (
    BrowseModel,
    ActionModel,
) {
    (
        BrowseModel {
            missing: seq![],
            calls: seq![],
            large: seq![],
            upload: None,
            stage: BrowseStage::Asking,
        },
        ActionModel::Calls(missing_questions(at, ids, true)),
    )
}

/// The end without success.
pub open spec fn browse_stop(s: BrowseModel, action: ActionModel) -> (
    BrowseModel,
    Option<ActionModel>,
) {
    (BrowseModel { stage: BrowseStage::Stopped, ..s }, Some(action))
}

/// The next large object, or the batches once there is none.
pub open spec fn browse_proceed(at: (Seq<char>, Seq<char>), s: BrowseModel) -> (
    BrowseModel,
    Option<ActionModel>,
) {
    if s.large.len() > 0 {
        let (upload, action) = object_start(at, s.large[0]);
        (
            BrowseModel {
                large: s.large.drop_first(),
                upload: Some(upload),
                stage: BrowseStage::Storing,
                ..s
            },
            Some(action),
        )
    } else {
        (
            BrowseModel {
                calls: seq![],
                upload: None,
                stage: BrowseStage::Batching,
                ..s
            },
            Some(ActionModel::Calls(s.calls)),
        )
    }
}

/// After asking: the missing objects are read.
pub open spec fn browse_asked(
    at: (Seq<char>, Seq<char>),
    s: BrowseModel,
    replies: Seq<JsonModel>,
) -> (BrowseModel, Option<ActionModel>) {
    match missing_answers(replies) {
        Err(action) => browse_stop(s, action),
        Ok(missing) => if missing.len() == 0 {
            browse_proceed(at, s)
        } else {
            (
                BrowseModel { missing, stage: BrowseStage::Reading, ..s },
                Some(ActionModel::ReadObjects(missing)),
            )
        },
    }
}

/// After reading: the objects are planned and begin to travel.
pub open spec fn browse_read(
    at: (Seq<char>, Seq<char>),
    s: BrowseModel,
    output: Seq<u8>,
    success: bool,
) -> (BrowseModel, Option<ActionModel>) {
    match objects_in(s.missing, output) {
        Err(message) => browse_stop(s, ActionModel::Fail(message)),
        Ok(objects) => if success {
            browse_proceed(
                at,
                BrowseModel {
                    calls: objects_calls(at, closed_batches(browse_plan(objects))),
                    large: browse_plan(objects).large,
                    ..s
                },
            )
        } else {
            browse_stop(s, ActionModel::Fail("git cat-file batch failed"@))
        },
    }
}

/// While a large object travels.
pub open spec fn browse_stored(
    at: (Seq<char>, Seq<char>),
    s: BrowseModel,
    event: EventModel,
) -> (BrowseModel, Option<ActionModel>) {
    match s.upload {
        None => browse_stop(s, confused()),
        Some(upload) => {
            let (after, action) = object_next(at, upload, event);
            match action {
                None => browse_proceed(at, BrowseModel { upload: Some(after), ..s }),
                Some(next) => (
                    BrowseModel {
                        upload: Some(after),
                        stage: if after.stage == ObjectStage::Stopped {
                            BrowseStage::Stopped
                        } else {
                            BrowseStage::Storing
                        },
                        ..s
                    },
                    Some(next),
                ),
            }
        },
    }
}

/// The storing of objects after an event, and the next action; none once all are stored.
pub open spec fn browse_next(
    at: (Seq<char>, Seq<char>),
    s: BrowseModel,
    event: EventModel,
) -> (BrowseModel, Option<ActionModel>) {
    match (s.stage, event) {
        (BrowseStage::Asking, EventModel::Replies(replies)) => browse_asked(at, s, replies),
        (BrowseStage::Reading, EventModel::Stream(output, success)) => browse_read(
            at,
            s,
            output,
            success,
        ),
        (BrowseStage::Storing, event) => browse_stored(at, s, event),
        (BrowseStage::Batching, EventModel::Replies(replies)) => match first_rejected(replies) {
            Some(reply) => browse_stop(s, rejection("browse object batch rejected: "@, reply)),
            None => (BrowseModel { stage: BrowseStage::Complete, ..s }, None),
        },
        _ => browse_stop(s, confused()),
    }
}

/// Starts storing the objects `object_ids` for browsing.
pub fn index_browse_objects(at: &Repository, object_ids: &Vec<String>) -> (r: (Browse, Action))
    ensures
        (r.0@, r.1@) == browse_start(at@, texts(object_ids@)),
{
    let browse = Browse {
        missing: Vec::new(),
        calls: Vec::new(),
        large: Vec::new(),
        upload: None,
        stage: BrowseStage::Asking,
    };
    assert(texts(browse.missing@) =~= seq![]);
    assert(call_models(browse.calls@) =~= seq![]);
    assert(object_models(browse.large@).reverse() =~= seq![]);
    (browse, Action::Calls(missing_objects(at, object_ids, true)))
}

impl Browse {
    fn stop(&mut self, action: Action) -> (r: Option<Action>)
        ensures
            (final(self)@, maybe_action(r)) == browse_stop(old(self)@, action@),
    {
        self.stage = BrowseStage::Stopped;
        Some(action)
    }

    fn proceed(&mut self, at: &Repository) -> (r: Option<Action>)
        ensures
            (final(self)@, maybe_action(r)) == browse_proceed(at@, old(self)@),
    {
        let ghost all = object_models(self.large@);
        match self.large.pop() {
            Some(object) => {
                assert(object@ == all.last());
                assert(all.reverse()[0] == object@);
                assert(object_models(self.large@) =~= all.drop_last());
                assert(object_models(self.large@).reverse() =~= all.reverse().drop_first());
                let (upload, action) = index_browse_object(at, object);
                self.upload = Some(upload);
                self.stage = BrowseStage::Storing;
                Some(action)
            },
            None => {
                let mut calls: Vec<Call> = Vec::new();
                std::mem::swap(&mut self.calls, &mut calls);
                assert(call_models(self.calls@) =~= seq![]);
                self.upload = None;
                self.stage = BrowseStage::Batching;
                Some(Action::Calls(calls))
            },
        }
    }

    fn asked(&mut self, at: &Repository, replies: &Vec<Json>) -> (r: Option<Action>)
        ensures
            (final(self)@, maybe_action(r)) == browse_asked(
                at@,
                old(self)@,
                Json::models(replies@),
            ),
    {
        match read_missing(replies) {
            Err(action) => self.stop(action),
            Ok(missing) => {
                assert(texts(missing@).len() == missing@.len());
                if missing.len() == 0 {
                    self.proceed(at)
                } else {
                    let ids = text_range(&missing, 0, missing.len());
                    assert(texts(ids@) =~= texts(missing@));
                    self.missing = missing;
                    self.stage = BrowseStage::Reading;
                    Some(Action::ReadObjects(ids))
                }
            },
        }
    }

    fn read(&mut self, at: &Repository, output: &[u8], success: bool) -> (r: Option<Action>)
        ensures
            (final(self)@, maybe_action(r)) == browse_read(at@, old(self)@, output@, success),
    {
        match read_git_objects(&self.missing, output) {
            Err(message) => self.stop(Action::Fail(message)),
            Ok(objects) => {
                if !success {
                    return self.stop(Action::Fail("git cat-file batch failed".to_owned()));
                }
                let (calls, large) = plan_objects(at, objects);
                let ghost models = object_models(large@);
                self.calls = calls;
                self.large = reversed(large);
                assert(object_models(self.large@).reverse() =~= models);
                self.proceed(at)
            },
        }
    }

    fn stored(&mut self, at: &Repository, event: Event) -> (r: Option<Action>)
        ensures
            (final(self)@, maybe_action(r)) == browse_stored(at@, old(self)@, event@),
    {
        let mut current: Option<ObjectUpload> = None;
        std::mem::swap(&mut self.upload, &mut current);
        match current {
            None => self.stop(give_up()),
            Some(upload) => {
                let mut upload = upload;
                let action = upload.step(at, event);
                let stopped = upload.stage == ObjectStage::Stopped;
                self.upload = Some(upload);
                match action {
                    None => self.proceed(at),
                    Some(next) => {
                        self.stage = if stopped {
                            BrowseStage::Stopped
                        } else {
                            BrowseStage::Storing
                        };
                        Some(next)
                    },
                }
            },
        }
    }

    /// Takes the answer to the last action and gives the next one; none once all objects
    /// are stored.
    pub fn step(&mut self, at: &Repository, event: Event) -> (r: Option<Action>)
        ensures
            (final(self)@, maybe_action(r)) == browse_next(at@, old(self)@, event@),
    {
        match (self.stage, event) {
            (BrowseStage::Asking, Event::Replies(replies)) => self.asked(at, &replies),
            (BrowseStage::Reading, Event::Stream(output, success)) => self.read(
                at,
                output.as_slice(),
                success,
            ),
            (BrowseStage::Storing, event) => self.stored(at, event),
            (BrowseStage::Batching, Event::Replies(replies)) => match find_rejection(&replies) {
                Some(reply) => self.stop(reject("browse object batch rejected: ", reply)),
                None => {
                    self.stage = BrowseStage::Complete;
                    None
                },
            },
            _ => self.stop(give_up()),
        }
    }
}

/// Where the storing of all objects for browsing stands.
#[derive(Clone, Copy, Debug, PartialEq, Eq, Structural)]
pub enum BrowseAllStage {
    Listing,
    Storing,
    Ended,
    Stopped,
}

/// The storing of all objects of the local repository for browsing.
pub struct BrowseAll {
    pub at: Repository,
    pub browse: Option<Browse>,
    pub stage: BrowseAllStage,
}

/// The model of the storing of all objects.
pub struct BrowseAllModel {
    pub at: (Seq<char>, Seq<char>),
    pub browse: Option<BrowseModel>,
    pub stage: BrowseAllStage,
}

/// The model of an optional storing of objects.
pub open spec fn maybe_browse(browse: Option<Browse>) -> Option<BrowseModel> {
    match browse {
        Some(b) => Some(b@),
        None => None,
    }
}

impl View for BrowseAll {
    type V = BrowseAllModel;

    open spec fn view(&self) -> BrowseAllModel {
        BrowseAllModel {
            at: self.at@,
            browse: maybe_browse(self.browse),
            stage: self.stage,
        }
    }
}

/// The beginning: all objects are listed.
pub open spec fn browse_all_start(at: (Seq<char>, Seq<char>)) -> (BrowseAllModel, ActionModel) {
    (
        BrowseAllModel { at, browse: None, stage: BrowseAllStage::Listing },
        ActionModel::ListAllObjects,
    )
}

/// The end without success.
pub open spec fn browse_all_stop(s: BrowseAllModel, action: ActionModel) -> (
    BrowseAllModel,
    ActionModel,
) {
    (BrowseAllModel { stage: BrowseAllStage::Stopped, ..s }, action)
}

/// The storing of all objects after an event, and the next action.
pub open spec fn browse_all_next(s: BrowseAllModel, event: EventModel) -> (
    BrowseAllModel,
    ActionModel,
) {
    match (s.stage, event) {
        (BrowseAllStage::Listing, EventModel::Output(output)) => {
            let (browse, action) = browse_start(s.at, object_ids(lossy(output)));
            (
                BrowseAllModel { browse: Some(browse), stage: BrowseAllStage::Storing, ..s },
                action,
            )
        },
        (BrowseAllStage::Storing, event) => match s.browse {
            None => browse_all_stop(s, confused()),
            Some(browse) => {
                let (after, action) = browse_next(s.at, browse, event);
                match action {
                    None => (
                        BrowseAllModel {
                            browse: Some(after),
                            stage: BrowseAllStage::Ended,
                            ..s
                        },
                        ActionModel::Finish,
                    ),
                    Some(next) => (
                        BrowseAllModel {
                            browse: Some(after),
                            stage: if after.stage == BrowseStage::Stopped {
                                BrowseAllStage::Stopped
                            } else {
                                BrowseAllStage::Storing
                            },
                            ..s
                        },
                        next,
                    ),
                }
            },
        },
        _ => browse_all_stop(s, confused()),
    }
}

impl BrowseAll {
    /// Starts storing all objects.
    pub fn start(at: Repository) -> (r: (BrowseAll, Action))
        ensures
            (r.0@, r.1@) == browse_all_start(at@),
    {
        (
            BrowseAll { at, browse: None, stage: BrowseAllStage::Listing },
            Action::ListAllObjects,
        )
    }

    fn stop(&mut self, action: Action) -> (r: Action)
        ensures
            (final(self)@, r@) == browse_all_stop(old(self)@, action@),
    {
        self.stage = BrowseAllStage::Stopped;
        action
    }

    /// Takes the answer to the last action and gives the next one.
    pub fn step(&mut self, event: Event) -> (r: Action)
        ensures
            (final(self)@, r@) == browse_all_next(old(self)@, event@),
    {
        match (self.stage, event) {
            (BrowseAllStage::Listing, Event::Output(output)) => {
                let ids = all_object_ids(output.as_slice());
                let (browse, action) = index_browse_objects(&self.at, &ids);
                self.browse = Some(browse);
                self.stage = BrowseAllStage::Storing;
                action
            },
            (BrowseAllStage::Storing, event) => {
                let mut current: Option<Browse> = None;
                std::mem::swap(&mut self.browse, &mut current);
                match current {
                    None => self.stop(give_up()),
                    Some(browse) => {
                        let mut browse = browse;
                        let action = browse.step(&self.at, event);
                        let stopped = browse.stage == BrowseStage::Stopped;
                        self.browse = Some(browse);
                        match action {
                            None => {
                                self.stage = BrowseAllStage::Ended;
                                Action::Finish
                            },
                            Some(next) => {
                                self.stage = if stopped {
                                    BrowseAllStage::Stopped
                                } else {
                                    BrowseAllStage::Storing
                                };
                                next
                            },
                        }
                    },
                }
            },
            _ => self.stop(give_up()),
        }
    }
}

} // verus!
