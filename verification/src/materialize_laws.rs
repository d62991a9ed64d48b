//! What holds of every run of a materialization.
use vstd::prelude::*;

use crate::action::{stops, ActionModel, EventModel};
use crate::download::{batch_bytes, gives_batches, replies_bytes};
use crate::json::{bool_field, items_field, text_field, JsonModel};
use crate::materialize::{
    materialize_next, materialize_packs, materialize_start, MaterializeModel, MaterializeStage,
    PaceModel,
};
use crate::transport::SnapshotModel;
use crate::wording::{take_all, takes};

verus! {

/// One step of a materialization, as [`materialize_next`] gives it.
#[verifier::opaque]
pub open spec fn materialize_step(s: MaterializeModel, event: EventModel) -> (
    MaterializeModel,
    ActionModel,
) {
    materialize_next(s, event)
}

/// The materialization after a list of events, and the action that is then to be taken.
pub open spec fn materialize_run(
    at: (Seq<char>, Seq<char>),
    pace: PaceModel,
    snapshot: Option<SnapshotModel>,
    events: Seq<EventModel>,
) -> (MaterializeModel, ActionModel)
    decreases events.len(),
{
    if events.len() == 0 {
        materialize_start(at, pace, snapshot)
    } else {
        materialize_step(
            materialize_run(at, pace, snapshot, events.drop_last()).0,
            events.last(),
        )
    }
}

/// The stages after the packs.
pub open spec fn past_packs(stage: MaterializeStage) -> bool {
    stage == MaterializeStage::FindingAll || stage == MaterializeStage::IndexingAll || stage
        == MaterializeStage::PacksDone || stage == MaterializeStage::ListingRemote || stage
        == MaterializeStage::ListingLocal || stage == MaterializeStage::Replacing || stage
        == MaterializeStage::Pointing || stage == MaterializeStage::Finishing
}

proof fn lemma_packs(s: MaterializeModel)
    ensures
        ({
            let (after, action) = materialize_packs(s);
            &&& past_packs(after.stage) || after.stage == MaterializeStage::Checking || after.stage
                == MaterializeStage::Stopped
            &&& action !is InstallIncoming
            &&& action !is UpdateRefs
        }),
    decreases s.packs.len() - s.next,
{
    if s.next < s.packs.len() {
        lemma_packs(MaterializeModel { next: s.next + 1, ..s });
    }
}

proof fn lemma_step(s: MaterializeModel, event: EventModel)
    ensures
        ({
            let (after, action) = materialize_step(s, event);
            &&& action is UpdateRefs ==> past_packs(after.stage)
            &&& action matches ActionModel::InstallIncoming(id) ==> s.stage
                == MaterializeStage::Indexing && event is Done && id == s.id
            &&& after.stage == MaterializeStage::Indexing ==> event == EventModel::Checksum(
                Some(after.id),
            )
        }),
{
    reveal(materialize_step);
    lemma_packs(s);
    lemma_packs(MaterializeModel { installed: true, ..s });
    if let EventModel::Replies(replies) = event {
        lemma_replies(replies, gives_batches(s.capabilities));
    }
}

proof fn lemma_replies(replies: Seq<JsonModel>, batched: bool)
    ensures
        replies_bytes(replies, batched) matches Err(action) ==> stops(action),
    decreases replies.len(),
{
    if replies.len() > 0 {
        lemma_replies(replies.drop_last(), batched);
        if let Some(items) = items_field(replies.last(), "ok"@) {
            lemma_batch(items);
        }
    }
}

proof fn lemma_batch(list: Seq<JsonModel>)
    ensures
        batch_bytes(list) matches Err(action) ==> stops(action),
    decreases list.len(),
{
    if list.len() > 0 {
        lemma_batch(list.drop_last());
    }
}

/// The ids of the complete packs in a listing.
pub open spec fn complete_packs(packs: Seq<JsonModel>) -> Seq<Seq<char>>
    decreases packs.len(),
{
    if packs.len() == 0 {
        seq![]
    } else {
        let front = complete_packs(packs.drop_last());
        match text_field(packs.last(), "pack_id"@) {
            Some(id) => if bool_field(packs.last(), "complete"@) == Some(true) {
                front.push(id)
            } else {
                front
            },
            None => front,
        }
    }
}

/// The ids of the packs that are in place after one more event: one that was here and has
/// an index, and one that was installed.
pub open spec fn placed_after(
    s: MaterializeModel,
    placed: Seq<Seq<char>>,
    event: EventModel,
) -> Seq<Seq<char>> {
    match (s.stage, event) {
        (MaterializeStage::Finding, EventModel::Present(true)) => placed.push(s.id),
        (MaterializeStage::Reindexing, EventModel::Done) => placed.push(s.id),
        (MaterializeStage::Installing, EventModel::Done) => placed.push(s.id),
        _ => placed,
    }
}

/// The ids of the packs that a run has seen or put in place.
pub open spec fn placed_packs(
    at: (Seq<char>, Seq<char>),
    pace: PaceModel,
    snapshot: Option<SnapshotModel>,
    events: Seq<EventModel>,
) -> Seq<Seq<char>>
    decreases events.len(),
{
    if events.len() == 0 {
        seq![]
    } else {
        let front = events.drop_last();
        placed_after(
            materialize_run(at, pace, snapshot, front).0,
            placed_packs(at, pace, snapshot, front),
            events.last(),
        )
    }
}

/// The stages in which a pack is being seen to.
pub open spec fn within_pack(stage: MaterializeStage) -> bool {
    stage == MaterializeStage::Checking || stage == MaterializeStage::Finding || stage
        == MaterializeStage::Reindexing || stage == MaterializeStage::Opening || stage
        == MaterializeStage::Fetching || stage == MaterializeStage::Appending || stage
        == MaterializeStage::Sealing || stage == MaterializeStage::Indexing || stage
        == MaterializeStage::Installing
}

/// The packs in place are the complete ones up to the one that is being seen to.
pub open spec fn placed_in_order(s: MaterializeModel, placed: Seq<Seq<char>>) -> bool {
    &&& (s.stage == MaterializeStage::Probing || s.stage == MaterializeStage::Preparing) ==> s.next
        == 0 && placed.len() == 0
    &&& within_pack(s.stage) ==> s.next <= s.packs.len() && complete_packs(
        s.packs.take(s.next as int),
    ) == placed.push(s.id)
    &&& past_packs(s.stage) ==> complete_packs(s.packs) == placed
}

proof fn lemma_packs_placed(s: MaterializeModel, placed: Seq<Seq<char>>)
    requires
        s.next <= s.packs.len(),
        complete_packs(s.packs.take(s.next as int)) == placed,
    ensures
        placed_in_order(materialize_packs(s).0, placed),
    decreases s.packs.len() - s.next,
{
    if s.next < s.packs.len() {
        let n = s.next as int;
        assert(s.packs.take(n + 1).drop_last() =~= s.packs.take(n));
        assert(s.packs.take(n + 1).last() == s.packs[n]);
        if bool_field(s.packs[n], "complete"@) != Some(true) {
            lemma_packs_placed(MaterializeModel { next: s.next + 1, ..s }, placed);
        }
    } else {
        assert(s.packs.take(s.next as int) =~= s.packs);
    }
}

proof fn lemma_placed_step(s: MaterializeModel, placed: Seq<Seq<char>>, event: EventModel)
    requires
        placed_in_order(s, placed),
    ensures
        placed_in_order(materialize_step(s, event).0, placed_after(s, placed, event)),
{
    reveal(materialize_step);
    if s.stage == MaterializeStage::Preparing {
        assert(s.packs.take(0) =~= seq![]);
        assert(placed =~= seq![]);
        lemma_packs_placed(s, placed);
    }
    if within_pack(s.stage) {
        lemma_packs_placed(s, placed.push(s.id));
        lemma_packs_placed(MaterializeModel { installed: true, ..s }, placed.push(s.id));
    }
}

proof fn lemma_placed(
    at: (Seq<char>, Seq<char>),
    pace: PaceModel,
    snapshot: Option<SnapshotModel>,
    events: Seq<EventModel>,
)
    ensures
        placed_in_order(
            materialize_run(at, pace, snapshot, events).0,
            placed_packs(at, pace, snapshot, events),
        ),
    decreases events.len(),
{
    if events.len() > 0 {
        let front = events.drop_last();
        lemma_placed(at, pace, snapshot, front);
        lemma_placed_step(
            materialize_run(at, pace, snapshot, front).0,
            placed_packs(at, pace, snapshot, front),
            events.last(),
        );
    }
}

/// In every run, the local refs are replaced only once every complete pack of the canister
/// is in place.
pub proof fn refs_are_replaced_last(
    at: (Seq<char>, Seq<char>),
    pace: PaceModel,
    snapshot: Option<SnapshotModel>,
    events: Seq<EventModel>,
)
    requires
        materialize_run(at, pace, snapshot, events).1 is UpdateRefs,
    ensures
        placed_packs(at, pace, snapshot, events) == complete_packs(
            materialize_run(at, pace, snapshot, events).0.packs,
        ),
{
    assert(events.len() > 0);
    lemma_step(
        materialize_run(at, pace, snapshot, events.drop_last()).0,
        events.last(),
    );
    lemma_placed(at, pace, snapshot, events);
}

/// In every run, a received pack is put in place only right after its checksum was read and
/// found to be its id.
pub proof fn packs_are_checked_before_they_are_installed(
    at: (Seq<char>, Seq<char>),
    pace: PaceModel,
    snapshot: Option<SnapshotModel>,
    events: Seq<EventModel>,
    id: Seq<char>,
)
    requires
        materialize_run(at, pace, snapshot, events).1 == ActionModel::InstallIncoming(id),
    ensures
        events.len() >= 2,
        events[events.len() - 2] == EventModel::Checksum(Some(id)),
        events[events.len() - 1] == EventModel::Done,
{
    assert(events.len() > 0);
    let front = events.drop_last();
    let s = materialize_run(at, pace, snapshot, front).0;
    lemma_step(s, events.last());
    assert(front.len() > 0);
    let earlier = materialize_run(at, pace, snapshot, front.drop_last()).0;
    lemma_step(earlier, front.last());
}

/// A received pack whose checksum is not its id is thrown away, and the materialization
/// ends in failure after that.
pub proof fn a_bad_pack_is_thrown_away(
    s: MaterializeModel,
    found: Option<Seq<char>>,
    event: EventModel,
)
    requires
        s.stage == MaterializeStage::Sealing,
        found != Some(s.id),
    ensures
        materialize_next(s, EventModel::Checksum(found)).1 == ActionModel::DiscardIncoming(s.id),
        ({
            let after = materialize_next(
                materialize_next(s, EventModel::Checksum(found)).0,
                event,
            );
            after.0.stage == MaterializeStage::Stopped && stops(after.1)
        }),
{
}

/// A materialization that has stopped or ended does nothing any more.
pub proof fn a_stopped_materialization_stays_stopped(s: MaterializeModel, event: EventModel)
    requires
        s.stage == MaterializeStage::Stopped || s.stage == MaterializeStage::Ended,
    ensures
        materialize_next(s, event).0.stage == MaterializeStage::Stopped,
        stops(materialize_next(s, event).1),
{
}

/// The event tells of a call that was not taken.
pub open spec fn tells_of_refusal(event: EventModel) -> bool {
    match event {
        EventModel::Reply(reply) => !takes(reply),
        EventModel::Replies(replies) => !take_all(replies),
        EventModel::Negotiated(_, replies) => !take_all(replies),
        _ => false,
    }
}

proof fn lemma_refused(replies: Seq<JsonModel>, batched: bool)
    requires
        !take_all(replies),
    ensures
        replies_bytes(replies, batched) is Err,
    decreases replies.len(),
{
    let i = choose|i: int| 0 <= i < replies.len() && !takes(#[trigger] replies[i]);
    let front = replies.drop_last();
    if i < front.len() {
        assert(!takes(front[i]));
        lemma_refused(front, batched);
    }
}

/// At any time, an answer that does not take a call stops a materialization.
pub proof fn a_refused_call_stops_the_pull(s: MaterializeModel, event: EventModel)
    requires
        tells_of_refusal(event),
    ensures
        materialize_next(s, event).0.stage == MaterializeStage::Stopped,
        stops(materialize_next(s, event).1),
{
    if let EventModel::Replies(replies) = event {
        lemma_refused(replies, gives_batches(s.capabilities));
        lemma_replies(replies, gives_batches(s.capabilities));
    }
    if let EventModel::Negotiated(_, replies) = event {
        let i = choose|i: int| 0 <= i < replies.len() && !takes(#[trigger] replies[i]);
        if replies.len() == 1 {
            assert(i == 0);
        }
    }
}

/// A pull is past its ref transaction.
spec fn refs_replaced(stage: MaterializeStage) -> bool {
    stage == MaterializeStage::Pointing || stage == MaterializeStage::Finishing || stage
        == MaterializeStage::Ended
}

/// The event at `i` answers a ref transaction.
pub open spec fn answers_transaction(
    at: (Seq<char>, Seq<char>),
    pace: PaceModel,
    snapshot: Option<SnapshotModel>,
    events: Seq<EventModel>,
    i: int,
) -> bool {
    &&& 0 <= i < events.len()
    &&& materialize_run(at, pace, snapshot, events.take(i)).1 is UpdateRefs
    &&& events[i] is Done
}

proof fn lemma_replaced_step(s: MaterializeModel, event: EventModel)
    ensures
        ({
            let (after, action) = materialize_step(s, event);
            &&& refs_replaced(after.stage) ==> refs_replaced(s.stage) || s.stage
                == MaterializeStage::Replacing && event is Done
            &&& after.stage == MaterializeStage::Replacing ==> action is UpdateRefs
            &&& action is Finish ==> after.stage == MaterializeStage::Ended
        }),
{
    reveal(materialize_step);
    lemma_packs(s);
    lemma_packs(MaterializeModel { installed: true, ..s });
    lemma_packs_go_on(s);
    lemma_packs_go_on(MaterializeModel { installed: true, ..s });
    if let EventModel::Replies(replies) = event {
        lemma_replies(replies, gives_batches(s.capabilities));
    }
}

proof fn lemma_packs_go_on(s: MaterializeModel)
    ensures
        !refs_replaced(materialize_packs(s).0.stage),
        materialize_packs(s).0.stage != MaterializeStage::Replacing,
        materialize_packs(s).1 !is Finish,
    decreases s.packs.len() - s.next,
{
    if s.next < s.packs.len() {
        lemma_packs_go_on(MaterializeModel { next: s.next + 1, ..s });
    }
}

proof fn lemma_replaced(
    at: (Seq<char>, Seq<char>),
    pace: PaceModel,
    snapshot: Option<SnapshotModel>,
    events: Seq<EventModel>,
)
    ensures
        refs_replaced(materialize_run(at, pace, snapshot, events).0.stage) ==> exists|i: int|
            #[trigger]
            answers_transaction(at, pace, snapshot, events, i),
        materialize_run(at, pace, snapshot, events).0.stage == MaterializeStage::Replacing
            ==> materialize_run(at, pace, snapshot, events).1 is UpdateRefs,
        materialize_run(at, pace, snapshot, events).1 is Finish ==> refs_replaced(
            materialize_run(at, pace, snapshot, events).0.stage,
        ),
    decreases events.len(),
{
    if events.len() > 0 {
        let front = events.drop_last();
        let s = materialize_run(at, pace, snapshot, front).0;
        lemma_replaced(at, pace, snapshot, front);
        lemma_replaced_step(s, events.last());
        if refs_replaced(materialize_run(at, pace, snapshot, events).0.stage) {
            if refs_replaced(s.stage) {
                let i = choose|i: int| #[trigger]
                    answers_transaction(at, pace, snapshot, front, i);
                assert(front.take(i) =~= events.take(i));
                assert(answers_transaction(at, pace, snapshot, events, i));
            } else {
                let i = front.len() as int;
                assert(events.take(i) =~= front);
                assert(answers_transaction(at, pace, snapshot, events, i));
            }
        }
    }
}

/// In every run, a pull is finished only after its ref transaction was performed.
pub proof fn pulls_finish_only_with_new_refs(
    at: (Seq<char>, Seq<char>),
    pace: PaceModel,
    snapshot: Option<SnapshotModel>,
    events: Seq<EventModel>,
)
    requires
        materialize_run(at, pace, snapshot, events).1 is Finish,
    ensures
        exists|i: int| #[trigger] answers_transaction(at, pace, snapshot, events, i),
{
    lemma_replaced(at, pace, snapshot, events);
}

} // verus!
