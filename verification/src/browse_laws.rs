//! What holds of every storing of objects for browsing.
use vstd::prelude::*;

use crate::action::{
    accepted, all_accepted, call_models, none_rejected_means_all_accepted, quoted, ActionModel,
    CallModel, EventModel,
};
use crate::browse::{
    browse_next, browse_plan, browse_proceed, browse_start, closed_batches, object_chunk_calls,
    object_next, object_records, object_start, objects_calls, plans_hold_every_object, proper_batch,
    travels_inline, weight, BrowseModel, BrowseStage, ObjectStage, ObjectUploadModel,
};
use crate::candid::blob_text;
use crate::chunk::{chunks, chunks_are_at_multiples, flatten_push};
use crate::json::{bool_field, field, json_text, JsonModel};
use crate::objects::{missing_questions, objects_in, ObjectModel, MISSING_BATCH};
use crate::text::decimal;
use crate::transport::CHUNK_SIZE;
use crate::upload_laws::{all_tell_ids, answers_name_every_missing_object};
use crate::wording::{
    all_told_ids, in_quotes, nth_run, opening, opening_at, part_alone, run_count, take_all, takes,
    worded_list,
};

verus! {

/// The kind of an object, written out.
pub open spec fn worded_kind(kind: Seq<char>) -> Seq<char> {
    "variant { \""@ + kind + "\" }"@
}

/// The call that announces a large object.
pub open spec fn announcement(at: (Seq<char>, Seq<char>), object: ObjectModel) -> CallModel {
    CallModel {
        method: "begin_chunked_object"@,
        argument: opening_at(at, object.oid) + ", "@ + worded_kind(object.kind) + ", "@ + decimal(
            object.payload.len(),
        ) + ", "@ + decimal(524_288) + ")"@,
    }
}

/// The call that carries the bytes of an object from `index` times 524288 on.
pub open spec fn object_piece(
    at: (Seq<char>, Seq<char>),
    object: ObjectModel,
    index: nat,
) -> CallModel {
    CallModel {
        method: "put_object_chunk"@,
        argument: opening_at(at, object.oid) + ", "@ + decimal(index) + ", "@ + blob_text(
            nth_run(object.payload, 524_288, index),
        ) + ")"@,
    }
}

/// The calls that carry an object, from its first byte to its last.
pub open spec fn object_pieces(at: (Seq<char>, Seq<char>), object: ObjectModel) -> Seq<CallModel> {
    Seq::new(run_count(object.payload.len(), 524_288), |i: int| object_piece(at, object, i as nat))
}

/// The call after which a large object is there.
pub open spec fn conclusion(at: (Seq<char>, Seq<char>), object: ObjectModel) -> CallModel {
    part_alone("finalize_chunked_object"@, at, object.oid)
}

/// The upload of one object after a list of events, and the action that is then to be taken.
pub open spec fn object_run(
    at: (Seq<char>, Seq<char>),
    object: ObjectModel,
    events: Seq<EventModel>,
) -> (ObjectUploadModel, Option<ActionModel>)
    decreases events.len(),
{
    if events.len() == 0 {
        (object_start(at, object).0, Some(object_start(at, object).1))
    } else {
        object_next(at, object_run(at, object, events.drop_last()).0, events.last())
    }
}

/// The canister says that it has all of what was announced, or that it has not.
pub open spec fn says_complete(reply: JsonModel) -> Option<bool> {
    match field(reply, "ok"@) {
        Some(value) => bool_field(value, "complete"@),
        None => None,
    }
}

proof fn lemma_pieces(at: (Seq<char>, Seq<char>), object: ObjectModel)
    ensures
        object_chunk_calls(at, object) == object_pieces(at, object),
{
    chunks_are_at_multiples(object.payload, CHUNK_SIZE as nat);
    let list = chunks(object.payload, CHUNK_SIZE as nat);
    assert forall|i: int| 0 <= i < list.len() implies object_chunk_calls(
        at,
        object,
    )[i] == object_pieces(at, object)[i] by {
        assert(list[(i as nat) as int] == nth_run(object.payload, 524_288, i as nat));
    }
    assert(object_chunk_calls(at, object) =~= object_pieces(at, object));
}

/// The calls that carry an object are its pieces, in order.
pub proof fn object_pieces_are_sent(at: (Seq<char>, Seq<char>), object: ObjectModel)
    ensures
        object_chunk_calls(at, object) == object_pieces(at, object),
{
    lemma_pieces(at, object);
}

/// A large object is announced with its kind and its length. Where the canister has it, that
/// is all; where not, all its bytes are sent, in order, and then it is concluded.
pub proof fn large_objects_travel_in_pieces(
    at: (Seq<char>, Seq<char>),
    object: ObjectModel,
    reply: JsonModel,
    replies: Seq<JsonModel>,
    last: JsonModel,
)
    requires
        object.payload.len() > 131_072,
    ensures
        ({
            let first = EventModel::Reply(reply);
            let second = EventModel::Replies(replies);
            let third = EventModel::Reply(last);
            &&& object_run(at, object, seq![]).1 == Some(
                ActionModel::Call(announcement(at, object)),
            )
            &&& object_run(at, object, seq![first]).1 == match says_complete(reply) {
                None => Some(
                    ActionModel::Fail("chunked browse object rejected: "@ + json_text(reply)),
                ),
                Some(true) => None,
                Some(false) => Some(ActionModel::Calls(object_pieces(at, object))),
            }
            &&& says_complete(reply) == Some(false) && take_all(replies) ==> {
                &&& object_run(at, object, seq![first, second]).1 == Some(
                    ActionModel::Call(conclusion(at, object)),
                )
                &&& object_run(at, object, seq![first, second, third]).1 == if takes(last) {
                    None
                } else {
                    Some(
                        ActionModel::Fail(
                            "chunked browse object finalization rejected: "@ + json_text(last),
                        ),
                    )
                }
            }
            &&& says_complete(reply) == Some(false) && !take_all(replies) ==> (
            object_run(at, object, seq![first, second]).1 matches Some(action) && action is Fail)
        }),
{
    let first = EventModel::Reply(reply);
    let second = EventModel::Replies(replies);
    let third = EventModel::Reply(last);
    assert(seq![first].drop_last() =~= seq![]);
    assert(seq![first, second].drop_last() =~= seq![first]);
    assert(seq![first, second, third].drop_last() =~= seq![first, second]);
    assert(object_run(at, object, seq![first].drop_last()).0 == object_start(at, object).0);
    lemma_pieces(at, object);
    none_rejected_means_all_accepted(replies);
    assert(take_all(replies) <==> all_accepted(replies)) by {
        if take_all(replies) {
            assert forall|i: int| 0 <= i < replies.len() implies accepted(
                #[trigger] replies[i],
            ) by {
                assert(takes(replies[i]));
            }
        }
        if all_accepted(replies) {
            assert forall|i: int| 0 <= i < replies.len() implies takes(#[trigger] replies[i]) by {
                assert(accepted(replies[i]));
            }
        }
    }
    let one = object_run(at, object, seq![first]);
    let two = object_run(at, object, seq![first, second]);
    assert(two == object_next(at, one.0, second));
    assert(object_run(at, object, seq![first, second, third]) == object_next(at, two.0, third));
}

/// A small object that travels alone is stored by one call with its kind and all its bytes.
pub proof fn small_objects_travel_whole(
    at: (Seq<char>, Seq<char>),
    object: ObjectModel,
    reply: JsonModel,
)
    requires
        object.payload.len() <= 131_072,
    ensures
        object_run(at, object, seq![]).1 == Some(
            ActionModel::Call(
                CallModel {
                    method: "put_object"@,
                    argument: opening_at(at, object.oid) + ", "@ + worded_kind(object.kind) + ", "@
                        + blob_text(object.payload) + ")"@,
                },
            ),
        ),
        object_run(at, object, seq![EventModel::Reply(reply)]).1 == if takes(reply) {
            None
        } else {
            Some(ActionModel::Fail("browse object indexing rejected: "@ + json_text(reply)))
        },
{
    let first = EventModel::Reply(reply);
    assert(seq![first].drop_last() =~= seq![]);
    assert(object_run(at, object, seq![first].drop_last()).0 == object_start(at, object).0);
}

/// The storing of objects after a list of events, and the action that is then to be taken.
pub open spec fn browse_run(
    at: (Seq<char>, Seq<char>),
    ids: Seq<Seq<char>>,
    events: Seq<EventModel>,
) -> (BrowseModel, Option<ActionModel>)
    decreases events.len(),
{
    if events.len() == 0 {
        (browse_start(at, ids).0, Some(browse_start(at, ids).1))
    } else {
        browse_next(at, browse_run(at, ids, events.drop_last()).0, events.last())
    }
}

/// The calls that announced a large object, in the order in which they were made.
pub open spec fn announced(
    at: (Seq<char>, Seq<char>),
    ids: Seq<Seq<char>>,
    events: Seq<EventModel>,
) -> Seq<CallModel>
    decreases events.len(),
{
    if events.len() == 0 {
        seq![]
    } else {
        let front = events.drop_last();
        with_announced(announced(at, ids, front), browse_run(at, ids, front).1)
    }
}

/// The announcements with one more action.
pub open spec fn with_announced(
    list: Seq<CallModel>,
    action: Option<ActionModel>,
) -> Seq<CallModel> {
    match action {
        Some(ActionModel::Call(call)) => if call.method == "begin_chunked_object"@ {
            list.push(call)
        } else {
            list
        },
        _ => list,
    }
}

/// The calls that settled a large object, in the order in which they were made: it was
/// announced and there already, or concluded and taken.
pub open spec fn settled(
    at: (Seq<char>, Seq<char>),
    ids: Seq<Seq<char>>,
    events: Seq<EventModel>,
) -> Seq<CallModel>
    decreases events.len(),
{
    if events.len() == 0 {
        seq![]
    } else {
        let front = events.drop_last();
        with_settled(settled(at, ids, front), browse_run(at, ids, front).1, events.last())
    }
}

/// The settling calls with one more action and its answer.
pub open spec fn with_settled(
    list: Seq<CallModel>,
    action: Option<ActionModel>,
    event: EventModel,
) -> Seq<CallModel> {
    match (action, event) {
        (Some(ActionModel::Call(call)), EventModel::Reply(reply)) => if {
            ||| call.method == "begin_chunked_object"@ && says_complete(reply) == Some(true)
            ||| call.method == "finalize_chunked_object"@ && takes(reply)
        } {
            list.push(call)
        } else {
            list
        },
        _ => list,
    }
}

/// The announcements of a list of objects.
pub open spec fn announcements(
    at: (Seq<char>, Seq<char>),
    objects: Seq<ObjectModel>,
) -> Seq<CallModel> {
    Seq::new(objects.len(), |i: int| announcement(at, objects[i]))
}

/// Each of these objects was settled, in order.
pub open spec fn settles(
    at: (Seq<char>, Seq<char>),
    objects: Seq<ObjectModel>,
    calls: Seq<CallModel>,
) -> bool {
    &&& calls.len() == objects.len()
    &&& forall|i: int|
        0 <= i < calls.len() ==> {
            ||| #[trigger] calls[i] == announcement(at, objects[i])
            ||| calls[i] == conclusion(at, objects[i])
        }
}

/// The objects too large for a batch.
pub open spec fn large_ones(objects: Seq<ObjectModel>) -> Seq<ObjectModel> {
    objects.filter(|o: ObjectModel| o.payload.len() > 131_072)
}

/// The objects that travel in batches.
pub open spec fn small_ones(objects: Seq<ObjectModel>) -> Seq<ObjectModel> {
    objects.filter(|o: ObjectModel| o.payload.len() <= 131_072)
}

/// The objects that a storing has read: those that git printed for the ids that the canister
/// named; none before.
pub open spec fn objects_read(events: Seq<EventModel>) -> Seq<ObjectModel> {
    if events.len() < 2 {
        seq![]
    } else {
        match (events[0], events[1]) {
            (EventModel::Replies(replies), EventModel::Stream(output, true)) => match objects_in(
                all_told_ids(replies),
                output,
            ) {
                Ok(objects) => objects,
                Err(_) => seq![],
            },
            _ => seq![],
        }
    }
}

proof fn lemma_methods()
    ensures
        "begin_chunked_object"@ != "finalize_chunked_object"@,
{
    reveal_strlit("begin_chunked_object");
    reveal_strlit("finalize_chunked_object");
    assert("begin_chunked_object"@.len() == 20);
    assert("finalize_chunked_object"@.len() == 23);
}

proof fn lemma_large(objects: Seq<ObjectModel>)
    ensures
        browse_plan(objects).large == large_ones(objects),
        forall|i: int|
            0 <= i < large_ones(objects).len() ==> (#[trigger] large_ones(objects)[i]).payload.len()
                > 131_072,
        closed_batches(browse_plan(objects)).flatten() == small_ones(objects),
{
    plans_hold_every_object(objects);
    let large = |o: ObjectModel| o.payload.len() > 131_072;
    let not_inline = |o: ObjectModel| !travels_inline(o);
    let small = |o: ObjectModel| o.payload.len() <= 131_072;
    let inline = |o: ObjectModel| travels_inline(o);
    assert(large =~= not_inline);
    assert(small =~= inline);
    broadcast use vstd::seq_lib::group_filter_ensures;

}

/// The objects that are planned to travel alone are the large ones, in order.
pub proof fn large_objects_are_planned(objects: Seq<ObjectModel>)
    ensures
        browse_plan(objects).large == large_ones(objects),
        forall|i: int|
            0 <= i < large_ones(objects).len() ==> (#[trigger] large_ones(objects)[i]).payload.len()
                > 131_072,
{
    lemma_large(objects);
}

/// What holds of a storing at any time. `all` are the objects that were read.
spec fn browse_kept(
    at: (Seq<char>, Seq<char>),
    s: BrowseModel,
    action: Option<ActionModel>,
    all: Seq<ObjectModel>,
    begun: Seq<CallModel>,
    done: Seq<CallModel>,
) -> bool {
    let large = large_ones(all);
    let k = large.len() - s.large.len();
    match s.stage {
        BrowseStage::Asking | BrowseStage::Reading => {
            &&& action matches Some(a) && a !is Call
            &&& begun.len() == 0
            &&& done.len() == 0
            &&& s.large.len() == 0
            &&& s.calls.len() == 0
            &&& all.len() == 0
        },
        BrowseStage::Storing => {
            &&& 1 <= k <= large.len()
            &&& s.large == large.skip(k)
            &&& s.calls == objects_calls(at, closed_batches(browse_plan(all)))
            &&& settles(at, large.take(k - 1), done)
            &&& s.upload matches Some(upload) && upload.object == large[k - 1] && match upload.stage {
                ObjectStage::Announcing => {
                    &&& action == Some(ActionModel::Call(announcement(at, large[k - 1])))
                    &&& begun == announcements(at, large.take(k - 1))
                },
                ObjectStage::Sending => {
                    &&& action == Some(ActionModel::Calls(object_pieces(at, large[k - 1])))
                    &&& begun == announcements(at, large.take(k))
                },
                ObjectStage::Finalizing => {
                    &&& action == Some(ActionModel::Call(conclusion(at, large[k - 1])))
                    &&& begun == announcements(at, large.take(k))
                },
                _ => false,
            }
        },
        BrowseStage::Batching => {
            &&& s.large.len() == 0
            &&& action == Some(
                ActionModel::Calls(objects_calls(at, closed_batches(browse_plan(all)))),
            )
            &&& begun == announcements(at, large)
            &&& settles(at, large, done)
        },
        BrowseStage::Complete => {
            &&& action is None
            &&& begun == announcements(at, large)
            &&& settles(at, large, done)
        },
        BrowseStage::Stopped => action is Some,
    }
}

proof fn lemma_proceed(
    at: (Seq<char>, Seq<char>),
    s: BrowseModel,
    all: Seq<ObjectModel>,
    begun: Seq<CallModel>,
    done: Seq<CallModel>,
)
    requires
        ({
            let large = large_ones(all);
            let k = large.len() - s.large.len();
            &&& 0 <= k <= large.len()
            &&& s.large == large.skip(k)
            &&& s.calls == objects_calls(at, closed_batches(browse_plan(all)))
            &&& begun == announcements(at, large.take(k))
            &&& settles(at, large.take(k), done)
        }),
    ensures
        browse_kept(at, browse_proceed(at, s).0, browse_proceed(at, s).1, all, begun, done),
{
    let large = large_ones(all);
    let k = large.len() - s.large.len();
    lemma_large(all);
    if s.large.len() > 0 {
        assert(s.large[0] == large[k]);
        assert(s.large.drop_first() =~= large.skip(k + 1));
        assert(large[k].payload.len() > 131_072);
    } else {
        assert(large.take(k) =~= large);
    }
}

#[verifier::rlimit(60)]
proof fn lemma_stored(
    at: (Seq<char>, Seq<char>),
    s: BrowseModel,
    action: Option<ActionModel>,
    all: Seq<ObjectModel>,
    begun: Seq<CallModel>,
    done: Seq<CallModel>,
    event: EventModel,
)
    requires
        s.stage == BrowseStage::Storing,
        browse_kept(at, s, action, all, begun, done),
    ensures
        browse_kept(
            at,
            browse_next(at, s, event).0,
            browse_next(at, s, event).1,
            all,
            with_announced(begun, action),
            with_settled(done, action, event),
        ),
{
    lemma_methods();
    let large = large_ones(all);
    let k = large.len() - s.large.len();
    let upload = s.upload->Some_0;
    let (after, next) = object_next(at, upload, event);
    lemma_pieces(at, upload.object);
    assert(announcements(at, large.take(k)) =~= announcements(at, large.take(k - 1)).push(
        announcement(at, large[k - 1]),
    ));
    let more = with_announced(begun, action);
    let finished = with_settled(done, action, event);
    if next is None {
        assert(more == announcements(at, large.take(k)));
        assert(settles(at, large.take(k), finished)) by {
            assert(finished.len() == done.len() + 1);
            assert forall|i: int| 0 <= i < finished.len() implies {
                ||| #[trigger] finished[i] == announcement(at, large.take(k)[i])
                ||| finished[i] == conclusion(at, large.take(k)[i])
            } by {
                if i < done.len() {
                    assert(finished[i] == done[i]);
                }
            }
        }
        lemma_proceed(at, BrowseModel { upload: Some(after), ..s }, all, more, finished);
    } else {
        assert(after.stage == ObjectStage::Stopped || finished == done);
    }
}

/// The objects read after one more event.
spec fn read_after(s: BrowseModel, all: Seq<ObjectModel>, event: EventModel) -> Seq<ObjectModel> {
    match (s.stage, event) {
        (BrowseStage::Reading, EventModel::Stream(output, true)) => match objects_in(
            s.missing,
            output,
        ) {
            Ok(objects) => objects,
            Err(_) => seq![],
        },
        _ => all,
    }
}

#[verifier::rlimit(60)]
proof fn lemma_kept_step(
    at: (Seq<char>, Seq<char>),
    s: BrowseModel,
    action: Option<ActionModel>,
    all: Seq<ObjectModel>,
    begun: Seq<CallModel>,
    done: Seq<CallModel>,
    event: EventModel,
)
    requires
        browse_kept(at, s, action, all, begun, done),
    ensures
        browse_kept(
            at,
            browse_next(at, s, event).0,
            browse_next(at, s, event).1,
            read_after(s, all, event),
            with_announced(begun, action),
            with_settled(done, action, event),
        ),
{
    match s.stage {
        BrowseStage::Storing => {
            lemma_stored(at, s, action, all, begun, done, event);
        },
        BrowseStage::Asking => {
            lemma_nothing(at, s, all, begun, done);
            if let EventModel::Replies(replies) = event {
                answers_name_every_missing_object(replies);
            }
        },
        BrowseStage::Reading => {
            if let EventModel::Stream(output, success) = event {
                if let Ok(objects) = objects_in(s.missing, output) {
                    lemma_large(objects);
                    let large = large_ones(objects);
                    let filled = BrowseModel {
                        calls: objects_calls(at, closed_batches(browse_plan(objects))),
                        large: browse_plan(objects).large,
                        ..s
                    };
                    assert(large.skip(0) =~= large);
                    assert(begun =~= announcements(at, large.take(0)));
                    lemma_proceed(at, filled, objects, begun, done);
                }
            }
        },
        _ => {},
    }
}

proof fn lemma_nothing(
    at: (Seq<char>, Seq<char>),
    s: BrowseModel,
    all: Seq<ObjectModel>,
    begun: Seq<CallModel>,
    done: Seq<CallModel>,
)
    requires
        all.len() == 0,
        s.large.len() == 0,
        s.calls.len() == 0,
        begun.len() == 0,
        done.len() == 0,
    ensures
        browse_kept(at, browse_proceed(at, s).0, browse_proceed(at, s).1, all, begun, done),
{
    reveal(Seq::filter);
    let large = large_ones(all);
    assert(large.len() == 0);
    assert(s.large =~= large.skip(0));
    assert(s.calls =~= objects_calls(at, closed_batches(browse_plan(all))));
    assert(begun =~= announcements(at, large.take(0)));
    lemma_proceed(at, s, all, begun, done);
}

/// What holds of the first events of a storing.
spec fn first_events(s: BrowseModel, action: Option<ActionModel>, events: Seq<EventModel>) -> bool {
    &&& events.len() == 0 ==> s.stage == BrowseStage::Asking
    &&& s.stage == BrowseStage::Asking ==> events.len() == 0 && s.large.len() == 0
    &&& s.stage == BrowseStage::Reading ==> events.len() == 1
    &&& events.len() >= 1 && s.stage != BrowseStage::Stopped ==> {
        &&& events[0] matches EventModel::Replies(replies) && all_tell_ids(replies)
            && if all_told_ids(replies).len() == 0 {
            &&& s.stage == BrowseStage::Batching || s.stage == BrowseStage::Complete
            &&& s.stage == BrowseStage::Batching ==> events.len() == 1
            &&& s.stage == BrowseStage::Complete ==> events.len() == 2
        } else {
            &&& s.missing == all_told_ids(replies)
            &&& events.len() == 1 ==> s.stage == BrowseStage::Reading && action == Some(
                ActionModel::ReadObjects(all_told_ids(replies)),
            )
            &&& events.len() >= 2 ==> (events[1] matches EventModel::Stream(output, success)
                && success && objects_in(all_told_ids(replies), output) is Ok)
        }
    }
}

#[verifier::rlimit(60)]
proof fn lemma_first_step(
    at: (Seq<char>, Seq<char>),
    s: BrowseModel,
    action: Option<ActionModel>,
    front: Seq<EventModel>,
    event: EventModel,
)
    requires
        first_events(s, action, front),
    ensures
        first_events(browse_next(at, s, event).0, browse_next(at, s, event).1, front.push(event)),
        browse_next(at, s, event).0.stage != BrowseStage::Stopped ==> s.stage
            != BrowseStage::Stopped && objects_read(front.push(event)) == read_after(
            s,
            objects_read(front),
            event,
        ),
{
    let events = front.push(event);
    if let EventModel::Replies(replies) = event {
        answers_name_every_missing_object(replies);
        none_rejected_means_all_accepted(replies);
    }
    if front.len() >= 1 {
        assert(events[0] == front[0]);
    }
    if front.len() >= 2 {
        assert(events[1] == front[1]);
    }
}

proof fn lemma_browse(
    at: (Seq<char>, Seq<char>),
    ids: Seq<Seq<char>>,
    events: Seq<EventModel>,
)
    ensures
        ({
            let (s, action) = browse_run(at, ids, events);
            &&& first_events(s, action, events)
            &&& s.stage != BrowseStage::Stopped ==> browse_kept(
                at,
                s,
                action,
                objects_read(events),
                announced(at, ids, events),
                settled(at, ids, events),
            )
        }),
    decreases events.len(),
{
    if events.len() > 0 {
        let front = events.drop_last();
        let (s, action) = browse_run(at, ids, front);
        lemma_browse(at, ids, front);
        lemma_first_step(at, s, action, front, events.last());
        assert(front.push(events.last()) =~= events);
        if s.stage != BrowseStage::Stopped {
            lemma_kept_step(
                at,
                s,
                action,
                objects_read(front),
                announced(at, ids, front),
                settled(at, ids, front),
                events.last(),
            );
        }
    }
}

/// In every storing that completes, each object that was read and is too large for a batch
/// was announced by exactly one call, in the order in which the objects were read, and each
/// was there already or was concluded.
pub proof fn every_large_object_is_stored(
    at: (Seq<char>, Seq<char>),
    ids: Seq<Seq<char>>,
    events: Seq<EventModel>,
)
    requires
        browse_run(at, ids, events).1 is None,
    ensures
        announced(at, ids, events) == announcements(at, large_ones(objects_read(events))),
        settles(at, large_ones(objects_read(events)), settled(at, ids, events)),
{
    lemma_browse(at, ids, events);
    lemma_none(at, ids, events);
}

proof fn lemma_none(at: (Seq<char>, Seq<char>), ids: Seq<Seq<char>>, events: Seq<EventModel>)
    requires
        browse_run(at, ids, events).1 is None,
    ensures
        browse_run(at, ids, events).0.stage == BrowseStage::Complete,
        events.len() > 0,
        browse_run(at, ids, events.drop_last()).0.stage == BrowseStage::Batching,
        events.last() matches EventModel::Replies(replies) && take_all(replies),
{
    assert(events.len() > 0);
    let s = browse_run(at, ids, events.drop_last()).0;
    let event = events.last();
    if let EventModel::Replies(replies) = event {
        none_rejected_means_all_accepted(replies);
        if all_accepted(replies) {
            assert forall|i: int| 0 <= i < replies.len() implies takes(#[trigger] replies[i]) by {
                assert(accepted(replies[i]));
            }
        }
    }
}

/// An object within a batch, written out.
pub open spec fn worded_object(object: ObjectModel) -> Seq<char> {
    "record { oid = \""@ + object.oid + "\"; git_object = record { kind = "@ + worded_kind(
        object.kind,
    ) + "; payload = "@ + blob_text(object.payload) + " } }"@
}

/// The call that stores a batch of objects.
pub open spec fn batch_of_objects(
    at: (Seq<char>, Seq<char>),
    batch: Seq<ObjectModel>,
) -> CallModel {
    CallModel {
        method: "put_objects_batch"@,
        argument: opening(at) + ", "@ + worded_list(
            Seq::new(batch.len(), |i: int| worded_object(batch[i])),
        ) + ")"@,
    }
}

/// The number of payload bytes of a batch.
pub open spec fn batch_weight(batch: Seq<ObjectModel>) -> nat {
    Seq::new(batch.len(), |i: int| batch[i].payload).flatten().len()
}

/// These calls store these objects in batches: each object is in one batch, in order, and no
/// batch has more than a hundred objects or 1250000 payload bytes.
pub open spec fn stores_in_batches(
    at: (Seq<char>, Seq<char>),
    objects: Seq<ObjectModel>,
    calls: Seq<CallModel>,
) -> bool {
    exists|batches: Seq<Seq<ObjectModel>>| #[trigger]
        batches.flatten() == objects && calls == Seq::new(
            batches.len(),
            |i: int| batch_of_objects(at, batches[i]),
        ) && forall|i: int|
            0 <= i < batches.len() ==> 0 < (#[trigger] batches[i]).len() <= 100 && batch_weight(
                batches[i],
            ) <= 1_250_000
}

proof fn lemma_weight(batch: Seq<ObjectModel>)
    ensures
        weight(batch) == batch_weight(batch),
    decreases batch.len(),
{
    let parts = Seq::new(batch.len(), |i: int| batch[i].payload);
    if batch.len() == 0 {
        assert(parts.flatten() =~= seq![]);
    } else {
        let front = batch.drop_last();
        let less = Seq::new(front.len(), |i: int| front[i].payload);
        lemma_weight(front);
        flatten_push(less, batch.last().payload);
        assert(less.push(batch.last().payload) =~= parts);
    }
}

proof fn lemma_batches(at: (Seq<char>, Seq<char>), all: Seq<ObjectModel>)
    ensures
        stores_in_batches(
            at,
            small_ones(all),
            objects_calls(at, closed_batches(browse_plan(all))),
        ),
{
    lemma_large(all);
    plans_hold_every_object(all);
    let batches = closed_batches(browse_plan(all));
    assert forall|i: int| 0 <= i < batches.len() implies 0 < (#[trigger] batches[i]).len() <= 100
        && batch_weight(batches[i]) <= 1_250_000 by {
        assert(proper_batch(batches[i]));
        lemma_weight(batches[i]);
    }
    assert forall|i: int| 0 <= i < batches.len() implies #[trigger] objects_calls(at, batches)[i]
        == batch_of_objects(at, batches[i]) by {
        assert(object_records(batches[i]) =~= Seq::new(
            batches[i].len(),
            |j: int| worded_object(batches[i][j]),
        ));
    }
    assert(objects_calls(at, batches) =~= Seq::new(
        batches.len(),
        |i: int| batch_of_objects(at, batches[i]),
    ));
    assert(batches.flatten() == small_ones(all));
}

/// In every storing that completes, the last action was to store every object that was read
/// and is not too large, in batches, and every batch was taken.
pub proof fn every_small_object_is_stored(
    at: (Seq<char>, Seq<char>),
    ids: Seq<Seq<char>>,
    events: Seq<EventModel>,
)
    requires
        browse_run(at, ids, events).1 is None,
    ensures
        events.len() > 0,
        events.last() matches EventModel::Replies(replies) && take_all(replies),
        browse_run(at, ids, events.drop_last()).1 matches Some(ActionModel::Calls(calls))
            && stores_in_batches(at, small_ones(objects_read(events)), calls),
{
    lemma_browse(at, ids, events);
    lemma_none(at, ids, events);
    let front = events.drop_last();
    lemma_browse(at, ids, front);
    lemma_batches(at, objects_read(front));
    lemma_first_step(
        at,
        browse_run(at, ids, front).0,
        browse_run(at, ids, front).1,
        front,
        events.last(),
    );
    assert(front.push(events.last()) =~= events);
}

/// The question which of `ids` a canister cannot show.
pub open spec fn question(
    at: (Seq<char>, Seq<char>),
    ids: Seq<Seq<char>>,
    browse_only: Seq<char>,
) -> CallModel {
    CallModel {
        method: "missing_objects"@,
        argument: opening(at) + ", "@ + worded_list(in_quotes(ids)) + ", "@ + browse_only + ")"@,
    }
}

/// The questions which of `ids` a canister lacks, five hundred ids at a time.
pub open spec fn questions(
    at: (Seq<char>, Seq<char>),
    ids: Seq<Seq<char>>,
    browse_only: Seq<char>,
) -> Seq<CallModel> {
    Seq::new(
        run_count(ids.len(), 500),
        |i: int| question(at, nth_run(ids, 500, i as nat), browse_only),
    )
}

/// The questions name every id, five hundred at a time, in order.
pub proof fn questions_name_every_object(at: (Seq<char>, Seq<char>), ids: Seq<Seq<char>>)
    ensures
        missing_questions(at, ids, true) == questions(at, ids, "true"@),
        missing_questions(at, ids, false) == questions(at, ids, "false"@),
        forall|i: int|
            0 <= i < ids.len() ==> i / 500 < run_count(ids.len(), 500) && nth_run(
                ids,
                500,
                (i / 500) as nat,
            )[i % 500] == #[trigger] ids[i],
{
    chunks_are_at_multiples(ids, MISSING_BATCH as nat);
    let list = chunks(ids, MISSING_BATCH as nat);
    assert forall|i: int| 0 <= i < list.len() implies #[trigger] list[i] == nth_run(
        ids,
        500,
        i as nat,
    ) by {
        assert(list[(i as nat) as int] == nth_run(ids, 500, i as nat));
    }
    assert forall|i: int| 0 <= i < list.len() implies quoted(list[i]) == in_quotes(
        list[i],
    ) by {
        assert(quoted(list[i]) =~= in_quotes(list[i]));
    }
    assert(missing_questions(at, ids, true) =~= questions(at, ids, "true"@));
    assert(missing_questions(at, ids, false) =~= questions(at, ids, "false"@));
    assert forall|i: int| 0 <= i < ids.len() implies i / 500 < run_count(ids.len(), 500)
        && nth_run(ids, 500, (i / 500) as nat)[i % 500] == #[trigger] ids[i] by {
        assert(i == 500 * (i / 500) + i % 500);
    }
}

/// A storing first asks for every id which the canister cannot show. Once it has been told,
/// it reads all objects that the canister named, in that order, or has nothing to store.
pub proof fn the_missing_objects_are_read(
    at: (Seq<char>, Seq<char>),
    ids: Seq<Seq<char>>,
    replies: Seq<JsonModel>,
)
    requires
        all_tell_ids(replies),
    ensures
        browse_run(at, ids, seq![]).1 == Some(ActionModel::Calls(questions(at, ids, "true"@))),
        browse_run(at, ids, seq![EventModel::Replies(replies)]).1 == Some(
            if all_told_ids(replies).len() > 0 {
                ActionModel::ReadObjects(all_told_ids(replies))
            } else {
                ActionModel::Calls(seq![])
            },
        ),
{
    questions_name_every_object(at, ids);
    answers_name_every_missing_object(replies);
    let first = EventModel::Replies(replies);
    assert(seq![first].drop_last() =~= seq![]);
    assert(browse_run(at, ids, seq![first].drop_last()).0 == browse_start(at, ids).0);
    assert(call_models(seq![]) =~= seq![]);
}

proof fn lemma_one_batch(objects: Seq<ObjectModel>)
    requires
        objects.len() <= 100,
        batch_weight(objects) <= 1_250_000,
        forall|i: int| 0 <= i < objects.len() ==> (#[trigger] objects[i]).payload.len() <= 131_072,
    ensures
        browse_plan(objects).batches.len() == 0,
        browse_plan(objects).open == objects,
        browse_plan(objects).large.len() == 0,
    decreases objects.len(),
{
    lemma_weight(objects);
    if objects.len() > 0 {
        let front = objects.drop_last();
        lemma_weight(front);
        assert forall|i: int| 0 <= i < front.len() implies (#[trigger] front[i]).payload.len()
            <= 131_072 by {
            assert(objects[i].payload.len() <= 131_072);
        }
        lemma_one_batch(front);
        assert(objects[objects.len() - 1].payload.len() <= 131_072);
        assert(front.push(objects.last()) =~= objects);
    } else {
        assert(browse_plan(objects).open =~= objects);
    }
}

/// Objects that fit into one batch travel in one.
pub proof fn objects_that_fit_travel_together(objects: Seq<ObjectModel>)
    requires
        0 < objects.len() <= 100,
        batch_weight(objects) <= 1_250_000,
        forall|i: int| 0 <= i < objects.len() ==> (#[trigger] objects[i]).payload.len() <= 131_072,
    ensures
        closed_batches(browse_plan(objects)) == seq![objects],
        large_ones(objects).len() == 0,
{
    lemma_one_batch(objects);
    assert(closed_batches(browse_plan(objects)) =~= seq![objects]);
    lemma_large(objects);
}

} // verus!
