//! What a push does, from its first action to its last.
//!
//! A canister that takes every call answers, and git does what it is asked. The laws say
//! which actions the push consists of, and so what it tells the canister.
use vstd::prelude::*;
use vstd::utf8::encode_utf8;

use crate::action::{quoted, ActionModel, CallModel, EventModel};
use crate::browse::{
    browse_all_next, browse_all_start, browse_next, browse_plan, browse_proceed, browse_start,
    closed_batches, object_records, objects_calls, BrowseAllModel, BrowseAllStage, BrowseModel,
    BrowseStage, ObjectStage, ObjectUploadModel,
};
use crate::browse_laws::{
    announcement, batch_of_objects, conclusion, large_objects_are_planned, large_ones,
    object_pieces, object_pieces_are_sent, questions, questions_name_every_object, says_complete,
    worded_object,
};
use crate::chunk::chunks_are_at_multiples;
use crate::json::{items_field, JsonModel};
use crate::objects::{changed_object_arguments, object_ids, objects_in, oids, ObjectModel};
use crate::order::sorted_members;
use crate::pack_laws::{
    is_pack, pack_actions, pack_machine, packs_are_uploaded, takers_reject_nothing,
    takes_every_call,
};
use crate::pack_upload::{pack_start, PackModel, PackStage};
use crate::publish::{publish_next, publish_start, PublishModel, PublishStage, PAGE_SIZE};
use crate::publish_laws::{page_call, transaction_name};
use crate::pull_laws::{listing_call, lists_refs, lists_refs_as_told};
use crate::refs::{change_texts, listed_refs, ref_changes, RefChange};
use crate::talk::{
    replies_to, talk_after, talk_step, talks_go_on, talks_step_on, Machine, Outside, Talk,
};
use crate::text::{lines, lossy, trimmed};
use crate::transport::{
    declared_capabilities_are_usable, offered, packs_of, usable, SnapshotModel,
    TransportCapabilities,
};
use crate::upload::{
    indexed_count, pack_ids, upload_compared, upload_packs, upload_published, upload_start,
    UploadModel, UploadStage,
};
use crate::upload_laws::{all_tell_ids, answers_name_every_missing_object, upload_step};
use crate::wording::{
    all_told_ids, in_quotes, opening, part_alone, run_count, takes, tells_ids, worded_list,
};

verus! {

/// The machine that uploads.
pub open spec fn push_machine() -> Machine<UploadModel> {
    |s: UploadModel, event: EventModel| (upload_step(s, event).0, Some(upload_step(s, event).1))
}

/// The machine that stores objects for browsing.
pub open spec fn browse_machine(at: (Seq<char>, Seq<char>)) -> Machine<BrowseModel> {
    |s: BrowseModel, event: EventModel| browse_next(at, s, event)
}

/// The machine that publishes ref changes.
pub open spec fn publish_machine(at: (Seq<char>, Seq<char>)) -> Machine<PublishModel> {
    |s: PublishModel, event: EventModel| publish_next(at, s, event)
}

/// The canister takes every call, tells ids where it is asked for missing objects, and says
/// of an announced object whether it has it.
pub open spec fn agrees(w: Outside) -> bool {
    &&& takes_every_call(w)
    &&& forall|call: CallModel|
        call.method == "missing_objects"@ ==> tells_ids(#[trigger] (w.answers)(call))
    &&& forall|call: CallModel|
        call.method == "begin_chunked_object"@ ==> says_complete(#[trigger] (w.answers)(call)) is Some
}

proof fn lemma_idle<S>(w: Outside, machine: Machine<S>, t: Talk<S>, n: nat)
    requires
        t.action is None,
    ensures
        talk_after(w, machine, t, n) == t,
    decreases n,
{
    if n > 0 {
        lemma_idle(w, machine, t, (n - 1) as nat);
    }
}

// The storing of objects.

/// The actions that store one large object: it is announced, and unless the canister has it,
/// its bytes are sent and it is concluded.
pub open spec fn object_actions(
    w: Outside,
    at: (Seq<char>, Seq<char>),
    object: ObjectModel,
) -> Seq<ActionModel> {
    seq![ActionModel::Call(announcement(at, object))] + if says_complete(
        (w.answers)(announcement(at, object)),
    ) == Some(true) {
        seq![]
    } else {
        seq![
            ActionModel::Calls(object_pieces(at, object)),
            ActionModel::Call(conclusion(at, object)),
        ]
    }
}

/// The actions that store large objects, one after the other.
pub open spec fn large_actions(
    w: Outside,
    at: (Seq<char>, Seq<char>),
    objects: Seq<ObjectModel>,
) -> Seq<ActionModel>
    decreases objects.len(),
{
    if objects.len() == 0 {
        seq![]
    } else {
        object_actions(w, at, objects[0]) + large_actions(w, at, objects.drop_first())
    }
}

/// The calls that store small objects in batches.
pub open spec fn batch_calls(at: (Seq<char>, Seq<char>), objects: Seq<ObjectModel>) -> Seq<
    CallModel,
> {
    let batches = closed_batches(browse_plan(objects));
    Seq::new(batches.len(), |i: int| batch_of_objects(at, batches[i]))
}

/// The ids that the canister names where it is asked which of `ids` it lacks.
pub open spec fn lacked(
    w: Outside,
    at: (Seq<char>, Seq<char>),
    ids: Seq<Seq<char>>,
    browse_only: Seq<char>,
) -> Seq<Seq<char>> {
    all_told_ids(replies_to(w, questions(at, ids, browse_only)))
}

/// The actions of a storing of objects: the canister is asked which it cannot show, those are
/// read, the large ones are stored one by one and the small ones in batches.
pub open spec fn browse_actions(
    w: Outside,
    at: (Seq<char>, Seq<char>),
    ids: Seq<Seq<char>>,
) -> Seq<ActionModel> {
    let told = lacked(w, at, ids, "true"@);
    let asked = seq![ActionModel::Calls(questions(at, ids, "true"@))];
    if told.len() == 0 {
        asked + seq![ActionModel::Calls(seq![])]
    } else {
        let objects = objects_in(told, (w.printed)(told))->Ok_0;
        asked + seq![ActionModel::ReadObjects(told)] + large_actions(w, at, large_ones(objects))
            + seq![ActionModel::Calls(batch_calls(at, objects))]
    }
}

/// Git prints the objects that the canister cannot show.
pub open spec fn prints_lacked(
    w: Outside,
    at: (Seq<char>, Seq<char>),
    ids: Seq<Seq<char>>,
) -> bool {
    let told = lacked(w, at, ids, "true"@);
    told.len() > 0 ==> objects_in(told, (w.printed)(told)) is Ok
}

proof fn lemma_batch_calls(at: (Seq<char>, Seq<char>), objects: Seq<ObjectModel>)
    ensures
        objects_calls(at, closed_batches(browse_plan(objects))) == batch_calls(at, objects),
{
    let batches = closed_batches(browse_plan(objects));
    assert forall|i: int| 0 <= i < batches.len() implies #[trigger] objects_calls(at, batches)[i]
        == batch_of_objects(at, batches[i]) by {
        assert(object_records(batches[i]) =~= Seq::new(
            batches[i].len(),
            |j: int| worded_object(batches[i][j]),
        ));
    }
    assert(objects_calls(at, batches) =~= batch_calls(at, objects));
}

#[verifier::rlimit(60)]
proof fn lemma_large_steps(
    w: Outside,
    at: (Seq<char>, Seq<char>),
    s: BrowseModel,
    t: Talk<BrowseModel>,
) -> (n: nat)
    requires
        agrees(w),
        (t.s, t.action) == browse_proceed(at, s),
        forall|i: int| 0 <= i < s.large.len() ==> (#[trigger] s.large[i]).payload.len() > 131_072,
    ensures
        n > 0,
        talk_after(w, browse_machine(at), t, n).action is None,
        talk_after(w, browse_machine(at), t, n).log == t.log + large_actions(w, at, s.large)
            + seq![ActionModel::Calls(s.calls)],
    decreases s.large.len(),
{
    let machine = browse_machine(at);
    let a = talk_step(w, machine, t);
    talks_step_on(w, machine, t, 0);
    if s.large.len() == 0 {
        takers_reject_nothing(w, s.calls);
        assert(a.log =~= t.log + large_actions(w, at, s.large) + seq![
            ActionModel::Calls(s.calls),
        ]);
        1
    } else {
        let object = s.large[0];
        let rest = s.large.drop_first();
        assert(object.payload.len() > 131_072);
        assert forall|i: int| 0 <= i < rest.len() implies (#[trigger] rest[i]).payload.len()
            > 131_072 by {
            assert(rest[i] == s.large[i + 1]);
        }
        assert(t.action == Some(ActionModel::Call(announcement(at, object))));
        let reply = (w.answers)(announcement(at, object));
        assert(says_complete(reply) is Some);
        object_pieces_are_sent(at, object);
        if says_complete(reply) == Some(true) {
            let next = BrowseModel {
                upload: Some(
                    ObjectUploadModel { object, stage: ObjectStage::Complete },
                ),
                large: rest,
                stage: BrowseStage::Storing,
                ..s
            };
            assert((a.s, a.action) == browse_proceed(at, next));
            let m = lemma_large_steps(w, at, next, a);
            talks_go_on(w, machine, t, 1, m);
            assert(talk_after(w, machine, a, m).log =~= t.log + large_actions(w, at, s.large)
                + seq![ActionModel::Calls(s.calls)]);
            (m + 1) as nat
        } else {
            let pieces = object_pieces(at, object);
            assert(a.action == Some(ActionModel::Calls(pieces)));
            takers_reject_nothing(w, pieces);
            let b = talk_step(w, machine, a);
            assert(b.action == Some(ActionModel::Call(conclusion(at, object))));
            assert(takes((w.answers)(conclusion(at, object))));
            let c = talk_step(w, machine, b);
            talks_step_on(w, machine, t, 1);
            talks_step_on(w, machine, t, 2);
            let next = BrowseModel {
                upload: Some(
                    ObjectUploadModel { object, stage: ObjectStage::Complete },
                ),
                large: rest,
                stage: BrowseStage::Storing,
                ..s
            };
            assert((c.s, c.action) == browse_proceed(at, next));
            let m = lemma_large_steps(w, at, next, c);
            talks_go_on(w, machine, t, 3, m);
            assert(talk_after(w, machine, c, m).log =~= t.log + large_actions(w, at, s.large)
                + seq![ActionModel::Calls(s.calls)]);
            (m + 3) as nat
        }
    }
}

proof fn lemma_told(
    w: Outside,
    at: (Seq<char>, Seq<char>),
    ids: Seq<Seq<char>>,
    browse_only: Seq<char>,
)
    requires
        agrees(w),
    ensures
        all_tell_ids(replies_to(w, questions(at, ids, browse_only))),
{
    let asked = questions(at, ids, browse_only);
    let replies = replies_to(w, asked);
    assert forall|i: int| 0 <= i < replies.len() implies tells_ids(#[trigger] replies[i]) by {
        assert(asked[i].method == "missing_objects"@);
        assert(tells_ids((w.answers)(asked[i])));
    }
}

/// Objects are stored with a canister that takes every call by exactly the actions of
/// [`browse_actions`].
pub proof fn objects_are_stored(
    w: Outside,
    at: (Seq<char>, Seq<char>),
    ids: Seq<Seq<char>>,
    log: Seq<ActionModel>,
) -> (n: nat)
    requires
        agrees(w),
        prints_lacked(w, at, ids),
    ensures
        ({
            let t = Talk { s: browse_start(at, ids).0, action: Some(browse_start(at, ids).1), log };
            let end = talk_after(w, browse_machine(at), t, n);
            &&& n > 0
            &&& end.action is None
            &&& end.log == log + browse_actions(w, at, ids)
        }),
{
    let machine = browse_machine(at);
    let t = Talk { s: browse_start(at, ids).0, action: Some(browse_start(at, ids).1), log };
    let asked = questions(at, ids, "true"@);
    let told = lacked(w, at, ids, "true"@);
    questions_name_every_object(at, ids);
    lemma_told(w, at, ids, "true"@);
    answers_name_every_missing_object(replies_to(w, asked));
    let a = talk_step(w, machine, t);
    talks_step_on(w, machine, t, 0);
    if told.len() == 0 {
        let m = lemma_large_steps(w, at, t.s, a);
        talks_go_on(w, machine, t, 1, m);
        assert(t.s.calls =~= seq![]);
        assert(talk_after(w, machine, a, m).log =~= log + browse_actions(w, at, ids));
        (m + 1) as nat
    } else {
        assert(a.action == Some(ActionModel::ReadObjects(told)));
        let objects = objects_in(told, (w.printed)(told))->Ok_0;
        let b = talk_step(w, machine, a);
        talks_step_on(w, machine, t, 1);
        lemma_batch_calls(at, objects);
        large_objects_are_planned(objects);
        let filled = BrowseModel {
            calls: objects_calls(at, closed_batches(browse_plan(objects))),
            large: browse_plan(objects).large,
            ..a.s
        };
        assert((b.s, b.action) == browse_proceed(at, filled));
        let m = lemma_large_steps(w, at, filled, b);
        talks_go_on(w, machine, t, 2, m);
        assert(talk_after(w, machine, b, m).log =~= log + browse_actions(w, at, ids));
        (m + 2) as nat
    }
}

// The publication.

/// The call that publishes few changes.
pub open spec fn update_of(at: (Seq<char>, Seq<char>), changes: Seq<Seq<char>>) -> CallModel {
    CallModel {
        method: "update_refs_atomic"@,
        argument: opening(at) + ", "@ + worded_list(changes) + ")"@,
    }
}

/// The actions of a publication: nothing for no changes, one call for up to a hundred, and
/// else a call for each page and one that commits them.
pub open spec fn publish_actions(
    at: (Seq<char>, Seq<char>),
    changes: Seq<Seq<char>>,
) -> Seq<ActionModel> {
    if changes.len() == 0 {
        seq![]
    } else if changes.len() <= 100 {
        seq![ActionModel::Call(update_of(at, changes))]
    } else {
        Seq::new(
            run_count(changes.len(), 100),
            |i: int| ActionModel::Call(page_call(at, changes, i as nat)),
        ) + seq![
            ActionModel::Call(
                part_alone("commit_ref_transaction"@, at, transaction_name(changes)),
            ),
        ]
    }
}

proof fn lemma_page_steps(
    w: Outside,
    at: (Seq<char>, Seq<char>),
    changes: Seq<Seq<char>>,
    t: Talk<PublishModel>,
    k: nat,
) -> (n: nat)
    requires
        takes_every_call(w),
        changes.len() > 100,
        k < run_count(changes.len(), 100),
        t.s.changes == changes,
        t.s.transaction == transaction_name(changes),
        t.s.page == k,
        t.s.stage == PublishStage::Staging,
        t.action == Some(ActionModel::Call(page_call(at, changes, k))),
    ensures
        n > 0,
        talk_after(w, publish_machine(at), t, n).action is None,
        talk_after(w, publish_machine(at), t, n).log == t.log + publish_actions(at, changes).skip(
            k as int,
        ),
    decreases run_count(changes.len(), 100) - k,
{
    let machine = publish_machine(at);
    let pages = run_count(changes.len(), 100);
    let commit = part_alone("commit_ref_transaction"@, at, transaction_name(changes));
    chunks_are_at_multiples(changes, PAGE_SIZE as nat);
    assert(takes((w.answers)(page_call(at, changes, k))));
    let a = talk_step(w, machine, t);
    talks_step_on(w, machine, t, 0);
    let all = publish_actions(at, changes);
    assert(all[k as int] == ActionModel::Call(page_call(at, changes, k)));
    if k + 1 < pages {
        let m = lemma_page_steps(w, at, changes, a, k + 1);
        talks_go_on(w, machine, t, 1, m);
        assert(t.log.push(all[k as int]) + all.skip(k as int + 1) =~= t.log + all.skip(k as int));
        (m + 1) as nat
    } else {
        assert(takes((w.answers)(commit)));
        let b = talk_step(w, machine, a);
        talks_step_on(w, machine, t, 1);
        assert(b.log =~= t.log + all.skip(k as int));
        2
    }
}

/// Ref changes are published on a canister that takes every call by exactly the actions of
/// [`publish_actions`].
pub proof fn changes_are_published(
    w: Outside,
    at: (Seq<char>, Seq<char>),
    changes: Seq<Seq<char>>,
    log: Seq<ActionModel>,
) -> (n: nat)
    requires
        takes_every_call(w),
    ensures
        ({
            let t = Talk {
                s: publish_start(at, changes).0,
                action: publish_start(at, changes).1,
                log,
            };
            let end = talk_after(w, publish_machine(at), t, n);
            &&& end.action is None
            &&& end.log == log + publish_actions(at, changes)
        }),
{
    let machine = publish_machine(at);
    let t = Talk { s: publish_start(at, changes).0, action: publish_start(at, changes).1, log };
    let all = publish_actions(at, changes);
    chunks_are_at_multiples(changes, PAGE_SIZE as nat);
    if changes.len() == 0 {
        assert(log + all =~= log);
        0
    } else if changes.len() <= 100 {
        assert(takes((w.answers)(update_of(at, changes))));
        talks_step_on(w, machine, t, 0);
        assert(talk_step(w, machine, t).log =~= log + all);
        1
    } else {
        let n = lemma_page_steps(w, at, changes, t, 0);
        assert(all.skip(0) =~= all);
        n
    }
}

// The parts of an upload do what they do alone.

proof fn lemma_pack_stuck(
    w: Outside,
    at: (Seq<char>, Seq<char>),
    capabilities: TransportCapabilities,
    remote: Option<usize>,
    t: Talk<PackModel>,
    n: nat,
)
    requires
        t.s.stage == PackStage::Stopped,
        t.action is Some,
    ensures
        talk_after(w, pack_machine(at, capabilities, remote), t, n).action is Some,
    decreases n,
{
    if n > 0 {
        let machine = pack_machine(at, capabilities, remote);
        lemma_pack_stuck(
            w,
            at,
            capabilities,
            remote,
            talk_step(w, machine, t),
            (n - 1) as nat,
        );
    }
}

#[verifier::rlimit(60)]
proof fn lemma_pack_within(
    w: Outside,
    u: Talk<UploadModel>,
    t: Talk<PackModel>,
    n: nat,
) -> (r: (nat, PackModel))
    requires
        u.s.stage == UploadStage::Packs,
        u.s.pack == Some(t.s),
        u.action == t.action,
        u.action is Some,
        u.log == t.log,
        u.s.next < u.s.keep.len(),
        ({
            let machine = pack_machine(
                u.s.at,
                u.s.capabilities,
                indexed_count(u.s.remote, t.s.id),
            );
            talk_after(w, machine, t, n).action is None
        }),
    ensures
        ({
            let machine = pack_machine(
                u.s.at,
                u.s.capabilities,
                indexed_count(u.s.remote, t.s.id),
            );
            let v = talk_after(w, push_machine(), u, r.0);
            let next = upload_packs(UploadModel { next: u.s.next + 1, pack: Some(r.1), ..u.s });
            &&& v.log == talk_after(w, machine, t, n).log
            &&& v.s == next.0
            &&& v.action == Some(next.1)
        }),
    decreases n,
{
    reveal(upload_step);
    let remote = indexed_count(u.s.remote, t.s.id);
    let machine = pack_machine(u.s.at, u.s.capabilities, remote);
    let t1 = talk_step(w, machine, t);
    let u1 = talk_step(w, push_machine(), u);
    talks_step_on(w, push_machine(), u, 0);
    assert(t1.s.id == t.s.id);
    if t1.action is None {
        lemma_idle(w, machine, t1, (n - 1) as nat);
        (1, t1.s)
    } else {
        if t1.s.stage == PackStage::Stopped {
            lemma_pack_stuck(w, u.s.at, u.s.capabilities, remote, t1, (n - 1) as nat);
        }
        let (m, p) = lemma_pack_within(w, u1, t1, (n - 1) as nat);
        talks_go_on(w, push_machine(), u, 1, m);
        ((m + 1) as nat, p)
    }
}

proof fn lemma_browse_stuck(
    w: Outside,
    at: (Seq<char>, Seq<char>),
    t: Talk<BrowseModel>,
    n: nat,
)
    requires
        t.s.stage == BrowseStage::Stopped,
        t.action is Some,
    ensures
        talk_after(w, browse_machine(at), t, n).action is Some,
    decreases n,
{
    if n > 0 {
        lemma_browse_stuck(w, at, talk_step(w, browse_machine(at), t), (n - 1) as nat);
    }
}

proof fn lemma_browse_within(
    w: Outside,
    u: Talk<UploadModel>,
    t: Talk<BrowseModel>,
    n: nat,
) -> (r: (nat, BrowseModel))
    requires
        u.s.stage == UploadStage::Browsing,
        u.s.browse == Some(t.s),
        u.action == t.action,
        u.action is Some,
        u.log == t.log,
        talk_after(w, browse_machine(u.s.at), t, n).action is None,
    ensures
        ({
            let v = talk_after(w, push_machine(), u, r.0);
            &&& v.log == talk_after(w, browse_machine(u.s.at), t, n).log
            &&& v.s == UploadModel { browse: Some(r.1), stage: UploadStage::Browsed, ..u.s }
            &&& v.action == Some(ActionModel::Mark("browse_objects"@))
        }),
    decreases n,
{
    reveal(upload_step);
    let machine = browse_machine(u.s.at);
    let t1 = talk_step(w, machine, t);
    let u1 = talk_step(w, push_machine(), u);
    talks_step_on(w, push_machine(), u, 0);
    if t1.action is None {
        lemma_idle(w, machine, t1, (n - 1) as nat);
        (1, t1.s)
    } else {
        if t1.s.stage == BrowseStage::Stopped {
            lemma_browse_stuck(w, u.s.at, t1, (n - 1) as nat);
        }
        let (m, p) = lemma_browse_within(w, u1, t1, (n - 1) as nat);
        talks_go_on(w, push_machine(), u, 1, m);
        ((m + 1) as nat, p)
    }
}

proof fn lemma_publish_stuck(
    w: Outside,
    at: (Seq<char>, Seq<char>),
    t: Talk<PublishModel>,
    n: nat,
)
    requires
        t.s.stage == PublishStage::Stopped,
        t.action is Some,
    ensures
        talk_after(w, publish_machine(at), t, n).action is Some,
    decreases n,
{
    if n > 0 {
        lemma_publish_stuck(w, at, talk_step(w, publish_machine(at), t), (n - 1) as nat);
    }
}

proof fn lemma_publish_within(
    w: Outside,
    u: Talk<UploadModel>,
    t: Talk<PublishModel>,
    n: nat,
) -> (r: (nat, PublishModel))
    requires
        u.s.stage == UploadStage::Publishing,
        u.s.publish == Some(t.s),
        u.action == t.action,
        u.action is Some,
        u.log == t.log,
        talk_after(w, publish_machine(u.s.at), t, n).action is None,
    ensures
        ({
            let v = talk_after(w, push_machine(), u, r.0);
            let next = upload_published(UploadModel { publish: Some(r.1), ..u.s });
            &&& v.log == talk_after(w, publish_machine(u.s.at), t, n).log
            &&& v.s == next.0
            &&& v.action == Some(next.1)
        }),
    decreases n,
{
    reveal(upload_step);
    let machine = publish_machine(u.s.at);
    let t1 = talk_step(w, machine, t);
    let u1 = talk_step(w, push_machine(), u);
    talks_step_on(w, push_machine(), u, 0);
    if t1.action is None {
        lemma_idle(w, machine, t1, (n - 1) as nat);
        (1, t1.s)
    } else {
        if t1.s.stage == PublishStage::Stopped {
            lemma_publish_stuck(w, u.s.at, t1, (n - 1) as nat);
        }
        let (m, p) = lemma_publish_within(w, u1, t1, (n - 1) as nat);
        talks_go_on(w, push_machine(), u, 1, m);
        ((m + 1) as nat, p)
    }
}

// The upload as a whole.

/// The actions that upload packs, one after the other.
pub open spec fn packs_actions(
    w: Outside,
    at: (Seq<char>, Seq<char>),
    capabilities: TransportCapabilities,
    packs: Seq<(Seq<char>, usize)>,
    ids: Seq<Seq<char>>,
) -> Seq<ActionModel>
    decreases ids.len(),
{
    if ids.len() == 0 {
        seq![]
    } else {
        pack_actions(w, at, capabilities, indexed_count(packs, ids[0]), ids[0]) + packs_actions(
            w,
            at,
            capabilities,
            packs,
            ids.drop_first(),
        )
    }
}

#[verifier::rlimit(60)]
proof fn lemma_packs_steps(w: Outside, s: UploadModel, u: Talk<UploadModel>) -> (r: (nat, UploadModel))
    requires
        takes_every_call(w),
        usable(s.capabilities),
        s.next <= s.keep.len(),
        forall|i: int| 0 <= i < s.keep.len() ==> is_pack(w, #[trigger] s.keep[i]),
        u.s == upload_packs(s).0,
        u.action == Some(upload_packs(s).1),
    ensures
        ({
            let v = talk_after(w, push_machine(), u, r.0);
            &&& v.s == r.1
            &&& r.1 == UploadModel {
                next: r.1.next,
                pack: r.1.pack,
                stage: UploadStage::PacksDone,
                ..s
            }
            &&& v.action == Some(ActionModel::Mark("pack_upload_and_index"@))
            &&& v.log == u.log + packs_actions(
                w,
                s.at,
                s.capabilities,
                s.remote,
                s.keep.skip(s.next as int),
            )
        }),
    decreases s.keep.len() - s.next,
{
    let left = s.keep.skip(s.next as int);
    if s.next >= s.keep.len() {
        assert(u.log + packs_actions(w, s.at, s.capabilities, s.remote, left) =~= u.log);
        (0, u.s)
    } else {
        let id = s.keep[s.next as int];
        let remote = indexed_count(s.remote, id);
        let machine = pack_machine(s.at, s.capabilities, remote);
        let t = Talk { s: pack_start(id).0, action: Some(pack_start(id).1), log: u.log };
        let n = packs_are_uploaded(w, s.at, s.capabilities, remote, id, u.log);
        let (m, p) = lemma_pack_within(w, u, t, n);
        let v = talk_after(w, push_machine(), u, m);
        let next = UploadModel { next: s.next + 1, pack: Some(p), ..u.s };
        let (k, end) = lemma_packs_steps(w, next, v);
        talks_go_on(w, push_machine(), u, m, k);
        assert(left[0] == id);
        assert(left.drop_first() =~= s.keep.skip(s.next as int + 1));
        assert(v.log == u.log + pack_actions(w, s.at, s.capabilities, remote, id));
        assert(talk_after(w, push_machine(), v, k).log =~= u.log + packs_actions(
            w,
            s.at,
            s.capabilities,
            s.remote,
            left,
        ));
        ((m + k) as nat, end)
    }
}

/// A change of a ref, written out.
pub open spec fn worded_change(change: RefChange) -> Seq<char> {
    "record { name = \""@ + change.name + "\"; expected_old = "@ + worded_oid(change.expected_old)
        + "; new = "@ + worded_oid(change.new) + " }"@
}

/// An object id that there may not be, written out.
pub open spec fn worded_oid(oid: Option<Seq<char>>) -> Seq<char> {
    match oid {
        Some(text) => "opt \""@ + text + "\""@,
        None => "null"@,
    }
}

/// What a push compares: the refs and packs of the canister with what git lists.
pub struct Comparison {
    pub expected: Seq<(Seq<char>, Seq<char>)>,
    pub remote: Seq<(Seq<char>, usize)>,
    pub capabilities: TransportCapabilities,
}

/// The local refs.
pub open spec fn desired(w: Outside) -> Seq<(Seq<char>, Seq<char>)> {
    listed_refs(lines(lossy(w.refs)))
}

/// The changes that turn the refs of the canister into the local ones, written out.
pub open spec fn changes(w: Outside, c: Comparison) -> Seq<Seq<char>> {
    let list = ref_changes(c.expected, desired(w));
    Seq::new(list.len(), |i: int| worded_change(list[i]))
}

/// The objects of a list of refs, in order and without repeats.
pub open spec fn tips(refs: Seq<(Seq<char>, Seq<char>)>) -> Seq<Seq<char>> {
    sorted_members(Seq::new(refs.len(), |i: int| refs[i].1))
}

/// The arguments by which git lists what the local refs reach and those of the canister do
/// not.
pub open spec fn new_objects(w: Outside, c: Comparison) -> Seq<Seq<char>> {
    seq!["rev-list"@, "--objects"@] + tips(desired(w)) + if c.expected.len() == 0 {
        seq![]
    } else {
        seq!["--not"@] + tips(c.expected)
    }
}

/// The actions by which the new objects are listed: all objects where git cannot tell the new
/// ones.
pub open spec fn listing_actions(w: Outside, c: Comparison) -> Seq<ActionModel> {
    let arguments = new_objects(w, c);
    if desired(w).len() == 0 {
        seq![]
    } else if (w.listed)(arguments) is Some {
        seq![ActionModel::ListObjects(arguments)]
    } else {
        seq![ActionModel::ListObjects(arguments), ActionModel::ListAllObjects]
    }
}

/// The ids of the new objects.
pub open spec fn candidates(w: Outside, c: Comparison) -> Seq<Seq<char>> {
    if desired(w).len() == 0 {
        seq![]
    } else {
        object_ids(
            lossy(
                match (w.listed)(new_objects(w, c)) {
                    Some(output) => output,
                    None => w.all_listed,
                },
            ),
        )
    }
}

/// The packs on the canister.
pub open spec fn present(c: Comparison) -> Seq<Seq<char>> {
    sorted_members(Seq::new(c.remote.len(), |i: int| c.remote[i].0))
}

/// The canister has so many packs that everything is packed anew.
pub open spec fn compacts(c: Comparison) -> bool {
    present(c).len() + 10 >= c.capabilities.max_retained_packs
}

/// The objects that the canister lacks.
pub open spec fn missing(w: Outside, at: (Seq<char>, Seq<char>), c: Comparison) -> Seq<Seq<char>> {
    lacked(w, at, candidates(w, c), "false"@)
}

/// The id of the pack of the missing objects.
pub open spec fn new_pack(w: Outside, at: (Seq<char>, Seq<char>), c: Comparison) -> Seq<char> {
    trimmed(lossy((w.packed)(missing(w, at, c))))
}

/// The packs that the canister is to have.
pub open spec fn kept(w: Outside, at: (Seq<char>, Seq<char>), c: Comparison) -> Seq<Seq<char>> {
    if compacts(c) {
        sorted_members(w.repacked)
    } else if missing(w, at, c).len() == 0 {
        present(c)
    } else {
        sorted_members(present(c).push(new_pack(w, at, c)))
    }
}

/// The actions that pack what the canister lacks.
pub open spec fn packing_actions(
    w: Outside,
    at: (Seq<char>, Seq<char>),
    c: Comparison,
) -> Seq<ActionModel> {
    if compacts(c) {
        seq![ActionModel::Repack]
    } else if missing(w, at, c).len() == 0 {
        seq![]
    } else {
        seq![ActionModel::PackObjects(missing(w, at, c))]
    }
}

/// The call that makes the canister forget all packs but these.
pub open spec fn pruning(at: (Seq<char>, Seq<char>), keep: Seq<Seq<char>>) -> CallModel {
    CallModel {
        method: "prune_packs"@,
        argument: opening(at) + ", "@ + worded_list(in_quotes(keep)) + ")"@,
    }
}

/// There is nothing to push.
pub open spec fn up_to_date(w: Outside, c: Comparison) -> bool {
    candidates(w, c).len() == 0 && changes(w, c).len() == 0
}

/// The actions of a push from the comparison on.
pub open spec fn push_actions(
    w: Outside,
    at: (Seq<char>, Seq<char>),
    c: Comparison,
) -> Seq<ActionModel> {
    if up_to_date(w, c) {
        seq![ActionModel::ListRefs] + listing_actions(w, c) + seq![
            ActionModel::Mark("up_to_date"@),
        ]
    } else {
        seq![ActionModel::ListRefs] + listing_actions(w, c) + seq![
            ActionModel::Calls(questions(at, candidates(w, c), "false"@)),
            ActionModel::Mark("negotiate"@),
        ] + packing_actions(w, at, c) + packs_actions(
            w,
            at,
            c.capabilities,
            c.remote,
            kept(w, at, c),
        ) + seq![ActionModel::Mark("pack_upload_and_index"@)] + browse_actions(
            w,
            at,
            candidates(w, c),
        ) + seq![ActionModel::Mark("browse_objects"@)] + publish_actions(at, changes(w, c)) + (
        if compacts(c) {
            seq![ActionModel::Call(pruning(at, kept(w, at, c)))]
        } else {
            seq![]
        }) + seq![ActionModel::Mark("publish_and_prune"@)]
    }
}

/// Git gives what a push asks of it: the new pack has an id of forty letters, every pack that
/// is kept is what its id says, and the objects that cannot be shown are printed.
pub open spec fn git_works(w: Outside, at: (Seq<char>, Seq<char>), c: Comparison) -> bool {
    &&& !compacts(c) && missing(w, at, c).len() > 0 ==> encode_utf8(new_pack(w, at, c)).len() == 40
    &&& forall|i: int| 0 <= i < kept(w, at, c).len() ==> is_pack(w, #[trigger] kept(w, at, c)[i])
    &&& prints_lacked(w, at, candidates(w, c))
}

proof fn lemma_changes(w: Outside, c: Comparison)
    ensures
        change_texts(ref_changes(c.expected, desired(w))) == changes(w, c),
        changed_object_arguments(c.expected, desired(w)) == new_objects(w, c),
        sorted_members(pack_ids(c.remote)) == present(c),
{
    assert(change_texts(ref_changes(c.expected, desired(w))) =~= changes(w, c));
    assert(oids(desired(w)) =~= Seq::new(
        desired(w).len(),
        |i: int| desired(w)[i].1,
    ));
    assert(oids(c.expected) =~= Seq::new(
        c.expected.len(),
        |i: int| c.expected[i].1,
    ));
    assert(changed_object_arguments(c.expected, desired(w)) =~= new_objects(w, c));
    assert(pack_ids(c.remote) =~= Seq::new(c.remote.len(), |i: int| c.remote[i].0));
}

/// The upload is about to compare.
spec fn comparing(s: UploadModel, at: (Seq<char>, Seq<char>), c: Comparison) -> bool {
    &&& s.at == at
    &&& s.expected == c.expected
    &&& s.remote == c.remote
    &&& s.capabilities == c.capabilities
    &&& !s.compacted
}

#[verifier::rlimit(60)]
proof fn lemma_list_steps(
    w: Outside,
    at: (Seq<char>, Seq<char>),
    c: Comparison,
    u: Talk<UploadModel>,
) -> (r: (nat, UploadModel))
    requires
        comparing(u.s, at, c),
        u.s.stage == UploadStage::Listing,
        u.action == Some(ActionModel::ListRefs),
    ensures
        ({
            let v = talk_after(w, push_machine(), u, r.0);
            let next = upload_compared(r.1, candidates(w, c));
            &&& v.s == next.0
            &&& v.action == Some(next.1)
            &&& comparing(r.1, at, c)
            &&& r.1.changes == changes(w, c)
            &&& v.log == u.log + seq![ActionModel::ListRefs] + listing_actions(w, c)
        }),
{
    reveal(upload_step);
    lemma_changes(w, c);
    let a = talk_step(w, push_machine(), u);
    talks_step_on(w, push_machine(), u, 0);
    let known = UploadModel { changes: changes(w, c), ..u.s };
    if desired(w).len() == 0 {
        assert(a.log =~= u.log + seq![ActionModel::ListRefs] + listing_actions(w, c));
        (1, known)
    } else {
        let b = talk_step(w, push_machine(), a);
        talks_step_on(w, push_machine(), u, 1);
        if (w.listed)(new_objects(w, c)) is Some {
            assert(b.log =~= u.log + seq![ActionModel::ListRefs] + listing_actions(w, c));
            (2, a.s)
        } else {
            let d = talk_step(w, push_machine(), b);
            talks_step_on(w, push_machine(), u, 2);
            assert(d.log =~= u.log + seq![ActionModel::ListRefs] + listing_actions(w, c));
            (3, b.s)
        }
    }
}

proof fn lemma_ask_steps(
    w: Outside,
    at: (Seq<char>, Seq<char>),
    c: Comparison,
    s: UploadModel,
    u: Talk<UploadModel>,
) -> (r: (nat, UploadModel))
    requires
        agrees(w),
        git_works(w, at, c),
        comparing(s, at, c),
        s.changes == changes(w, c),
        !up_to_date(w, c),
        u.s == upload_compared(s, candidates(w, c)).0,
        u.action == Some(upload_compared(s, candidates(w, c)).1),
    ensures
        ({
            let v = talk_after(w, push_machine(), u, r.0);
            let next = upload_packs(r.1);
            &&& v.s == next.0
            &&& v.action == Some(next.1)
            &&& r.1.at == at
            &&& r.1.remote == c.remote
            &&& r.1.capabilities == c.capabilities
            &&& r.1.changes == changes(w, c)
            &&& r.1.candidates == candidates(w, c)
            &&& r.1.keep == kept(w, at, c)
            &&& r.1.next == 0
            &&& r.1.compacted == compacts(c)
            &&& v.log == u.log + seq![
                ActionModel::Calls(questions(at, candidates(w, c), "false"@)),
                ActionModel::Mark("negotiate"@),
            ] + packing_actions(w, at, c)
        }),
{
    let ids = candidates(w, c);
    let asked = questions(at, ids, "false"@);
    let a = lemma_question_step(w, at, c, s, u);
    let told = seq![ActionModel::Calls(asked), ActionModel::Mark("negotiate"@)];
    let (m, known) = lemma_packing_steps(w, at, c, a);
    talks_go_on(w, push_machine(), u, 1, m);
    let v = talk_after(w, push_machine(), a, m);
    let mark = seq![ActionModel::Mark("negotiate"@)];
    assert(a.log + mark + packing_actions(w, at, c) =~= u.log + told + packing_actions(w, at, c));
    ((m + 1) as nat, known)
}

proof fn lemma_question_step(
    w: Outside,
    at: (Seq<char>, Seq<char>),
    c: Comparison,
    s: UploadModel,
    u: Talk<UploadModel>,
) -> (a: Talk<UploadModel>)
    requires
        agrees(w),
        comparing(s, at, c),
        s.changes == changes(w, c),
        !up_to_date(w, c),
        u.s == upload_compared(s, candidates(w, c)).0,
        u.action == Some(upload_compared(s, candidates(w, c)).1),
    ensures
        a == talk_after(w, push_machine(), u, 1),
        comparing(a.s, at, c),
        a.s.changes == changes(w, c),
        a.s.candidates == candidates(w, c),
        a.s.missing == missing(w, at, c),
        a.s.stage == UploadStage::Negotiated,
        a.action == Some(ActionModel::Mark("negotiate"@)),
        a.log == u.log.push(
            ActionModel::Calls(questions(at, candidates(w, c), "false"@)),
        ),
{
    let ids = candidates(w, c);
    let asked = questions(at, ids, "false"@);
    questions_name_every_object(at, ids);
    lemma_told(w, at, ids, "false"@);
    answers_name_every_missing_object(replies_to(w, asked));
    assert(u.action == Some(ActionModel::Calls(asked)));
    talks_step_on(w, push_machine(), u, 0);
    reveal(upload_step);
    talk_step(w, push_machine(), u)
}

#[verifier::rlimit(60)]
proof fn lemma_packing_steps(
    w: Outside,
    at: (Seq<char>, Seq<char>),
    c: Comparison,
    a: Talk<UploadModel>,
) -> (r: (nat, UploadModel))
    requires
        git_works(w, at, c),
        comparing(a.s, at, c),
        a.s.missing == missing(w, at, c),
        a.s.stage == UploadStage::Negotiated,
        a.action == Some(ActionModel::Mark("negotiate"@)),
    ensures
        ({
            let v = talk_after(w, push_machine(), a, r.0);
            let next = upload_packs(r.1);
            &&& v.s == next.0
            &&& v.action == Some(next.1)
            &&& r.1.at == at
            &&& r.1.remote == c.remote
            &&& r.1.capabilities == c.capabilities
            &&& r.1.changes == a.s.changes
            &&& r.1.candidates == a.s.candidates
            &&& r.1.keep == kept(w, at, c)
            &&& r.1.next == 0
            &&& r.1.compacted == compacts(c)
            &&& v.log == a.log + seq![ActionModel::Mark("negotiate"@)] + packing_actions(w, at, c)
        }),
{
    reveal(upload_step);
    lemma_changes(w, c);
    let mark = seq![ActionModel::Mark("negotiate"@)];
    let b = talk_step(w, push_machine(), a);
    talks_step_on(w, push_machine(), a, 0);
    if !compacts(c) && missing(w, at, c).len() == 0 {
        assert(b.log =~= a.log + mark + packing_actions(w, at, c));
        (1, UploadModel { keep: kept(w, at, c), next: 0, ..a.s })
    } else {
        let d = talk_step(w, push_machine(), b);
        talks_step_on(w, push_machine(), a, 1);
        assert(d.log =~= a.log + mark + packing_actions(w, at, c));
        (2, UploadModel { keep: kept(w, at, c), next: 0, ..b.s })
    }
}

proof fn lemma_browse_steps(w: Outside, u: Talk<UploadModel>) -> (r: (nat, UploadModel))
    requires
        agrees(w),
        prints_lacked(w, u.s.at, u.s.candidates),
        u.s.stage == UploadStage::PacksDone,
        u.action == Some(ActionModel::Mark("pack_upload_and_index"@)),
    ensures
        ({
            let v = talk_after(w, push_machine(), u, r.0);
            &&& v.s == r.1
            &&& r.1 == UploadModel {
                browse: r.1.browse,
                stage: UploadStage::Browsed,
                ..u.s
            }
            &&& v.action == Some(ActionModel::Mark("browse_objects"@))
            &&& v.log == u.log + seq![ActionModel::Mark("pack_upload_and_index"@)]
                + browse_actions(w, u.s.at, u.s.candidates)
        }),
{
    let at = u.s.at;
    let ids = u.s.candidates;
    let a = talk_step(w, push_machine(), u);
    talks_step_on(w, push_machine(), u, 0);
    assert(a.s.stage == UploadStage::Browsing && a.s.browse == Some(browse_start(at, ids).0)
        && a.action == Some(browse_start(at, ids).1)) by {
        reveal(upload_step);
    }
    assert(a.s == UploadModel {
        browse: Some(browse_start(at, ids).0),
        stage: UploadStage::Browsing,
        ..u.s
    }) by {
        reveal(upload_step);
    }
    let t = Talk {
        s: browse_start(at, ids).0,
        action: Some(browse_start(at, ids).1),
        log: a.log,
    };
    let n = objects_are_stored(w, at, ids, a.log);
    let (m, p) = lemma_browse_within(w, a, t, n);
    let v = talk_after(w, push_machine(), a, m);
    talks_go_on(w, push_machine(), u, 1, m);
    assert(v.log =~= u.log + seq![ActionModel::Mark("pack_upload_and_index"@)] + browse_actions(
        w,
        at,
        ids,
    ));
    ((m + 1) as nat, v.s)
}

proof fn lemma_publish_steps(w: Outside, u: Talk<UploadModel>) -> (r: (nat, UploadModel))
    requires
        takes_every_call(w),
        u.s.stage == UploadStage::Browsed,
        u.action == Some(ActionModel::Mark("browse_objects"@)),
    ensures
        ({
            let v = talk_after(w, push_machine(), u, r.0);
            let next = upload_published(r.1);
            &&& v.s == next.0
            &&& v.action == Some(next.1)
            &&& r.1.at == u.s.at
            &&& r.1.keep == u.s.keep
            &&& r.1.compacted == u.s.compacted
            &&& v.log == u.log + seq![ActionModel::Mark("browse_objects"@)] + publish_actions(
                u.s.at,
                u.s.changes,
            )
        }),
{
    let at = u.s.at;
    let list = u.s.changes;
    let a = talk_step(w, push_machine(), u);
    talks_step_on(w, push_machine(), u, 0);
    let start = publish_start(at, list);
    let t = Talk { s: start.0, action: start.1, log: a.log };
    let n = changes_are_published(w, at, list, a.log);
    let known = UploadModel { publish: Some(start.0), ..u.s };
    if start.1 is None {
        assert((a.s, a.action) == (upload_published(known).0, Some(upload_published(known).1))) by {
            reveal(upload_step);
        }
        lemma_idle(w, publish_machine(at), t, n);
        assert(a.log =~= u.log + seq![ActionModel::Mark("browse_objects"@)] + publish_actions(
            at,
            list,
        ));
        (1, known)
    } else {
        assert(a.s == UploadModel { stage: UploadStage::Publishing, ..known } && a.action
            == start.1) by {
            reveal(upload_step);
        }
        let (m, p) = lemma_publish_within(w, a, t, n);
        let v = talk_after(w, push_machine(), a, m);
        talks_go_on(w, push_machine(), u, 1, m);
        assert(v.log =~= u.log + seq![ActionModel::Mark("browse_objects"@)] + publish_actions(
            at,
            list,
        ));
        ((m + 1) as nat, UploadModel { publish: Some(p), ..a.s })
    }
}

proof fn lemma_end_steps(
    w: Outside,
    s: UploadModel,
    u: Talk<UploadModel>,
) -> (n: nat)
    requires
        takes_every_call(w),
        u.s == upload_published(s).0,
        u.action == Some(upload_published(s).1),
    ensures
        ({
            let v = talk_after(w, push_machine(), u, n);
            &&& v.action == Some(ActionModel::Finish)
            &&& v.log == u.log + (if s.compacted {
                seq![ActionModel::Call(pruning(s.at, s.keep))]
            } else {
                seq![]
            }) + seq![ActionModel::Mark("publish_and_prune"@)]
        }),
{
    reveal(upload_step);
    let a = talk_step(w, push_machine(), u);
    talks_step_on(w, push_machine(), u, 0);
    if s.compacted {
        assert(quoted(s.keep) =~= in_quotes(s.keep));
        assert(u.action == Some(ActionModel::Call(pruning(s.at, s.keep))));
        assert(takes((w.answers)(pruning(s.at, s.keep))));
        let b = talk_step(w, push_machine(), a);
        talks_step_on(w, push_machine(), u, 1);
        assert(b.log =~= u.log + seq![ActionModel::Call(pruning(s.at, s.keep))] + seq![
            ActionModel::Mark("publish_and_prune"@),
        ]);
        2
    } else {
        assert(a.log =~= u.log + seq![] + seq![ActionModel::Mark("publish_and_prune"@)]);
        1
    }
}

proof fn lemma_joined(
    log: Seq<ActionModel>,
    p1: Seq<ActionModel>,
    p2: Seq<ActionModel>,
    p3: Seq<ActionModel>,
    p4: Seq<ActionModel>,
)
    ensures
        log + p1 + p2 + p3 + p4 == log + (p1 + p2 + p3 + p4),
{
    assert(log + p1 + p2 + p3 + p4 =~= log + (p1 + p2 + p3 + p4));
}

proof fn lemma_all_joined(
    log: Seq<ActionModel>,
    p1: Seq<ActionModel>,
    p2: Seq<ActionModel>,
    p3: Seq<ActionModel>,
    p4: Seq<ActionModel>,
    p5: Seq<ActionModel>,
    p6: Seq<ActionModel>,
    p7: Seq<ActionModel>,
    p8: Seq<ActionModel>,
    p9: Seq<ActionModel>,
    p10: Seq<ActionModel>,
    p11: Seq<ActionModel>,
)
    ensures
        log + p1 + p2 + p3 + p4 + p5 + p6 + p7 + p8 + p9 + p10 + p11 == log + (p1 + p2 + p3 + p4
            + p5 + p6 + p7 + p8 + p9 + p10 + p11),
{
    let a = p1 + p2 + p3 + p4;
    lemma_joined(log, p1, p2, p3, p4);
    lemma_joined(log, a, p5, p6, p7);
    let b = a + p5 + p6 + p7;
    lemma_joined(log, b, p8, p9, p10);
    let d = b + p8 + p9 + p10;
    assert(log + d + p11 =~= log + (d + p11));
}

proof fn lemma_push(
    w: Outside,
    at: (Seq<char>, Seq<char>),
    c: Comparison,
    u: Talk<UploadModel>,
) -> (n: nat)
    requires
        agrees(w),
        git_works(w, at, c),
        usable(c.capabilities),
        comparing(u.s, at, c),
        u.s.stage == UploadStage::Listing,
        u.action == Some(ActionModel::ListRefs),
    ensures
        ({
            let v = talk_after(w, push_machine(), u, n);
            &&& v.action == Some(ActionModel::Finish)
            &&& v.log == u.log + push_actions(w, at, c)
        }),
{
    let machine = push_machine();
    let (n1, s1) = lemma_list_steps(w, at, c, u);
    let u1 = talk_after(w, machine, u, n1);
    if up_to_date(w, c) {
        let u2 = talk_step(w, machine, u1);
        talks_step_on(w, machine, u, n1);
        assert(u2.action == Some(ActionModel::Finish)) by {
            reveal(upload_step);
        }
        let mark = seq![ActionModel::Mark("up_to_date"@)];
        assert(u2.log =~= u1.log + mark);
        let first = seq![ActionModel::ListRefs];
        assert(u.log + first + listing_actions(w, c) + mark =~= u.log + (first + listing_actions(
            w,
            c,
        ) + mark));
        (n1 + 1) as nat
    } else {
        let m = lemma_push_on(w, at, c, s1, u1);
        talks_go_on(w, machine, u, n1, m);
        lemma_all_joined(
            u.log,
            seq![ActionModel::ListRefs],
            listing_actions(w, c),
            seq![
                ActionModel::Calls(questions(at, candidates(w, c), "false"@)),
                ActionModel::Mark("negotiate"@),
            ],
            packing_actions(w, at, c),
            packs_actions(w, at, c.capabilities, c.remote, kept(w, at, c)),
            seq![ActionModel::Mark("pack_upload_and_index"@)],
            browse_actions(w, at, candidates(w, c)),
            seq![ActionModel::Mark("browse_objects"@)],
            publish_actions(at, changes(w, c)),
            if compacts(c) {
                seq![ActionModel::Call(pruning(at, kept(w, at, c)))]
            } else {
                seq![]
            },
            seq![ActionModel::Mark("publish_and_prune"@)],
        );
        (n1 + m) as nat
    }
}

#[verifier::rlimit(60)]
proof fn lemma_push_on(
    w: Outside,
    at: (Seq<char>, Seq<char>),
    c: Comparison,
    s1: UploadModel,
    u1: Talk<UploadModel>,
) -> (n: nat)
    requires
        agrees(w),
        git_works(w, at, c),
        usable(c.capabilities),
        comparing(s1, at, c),
        s1.changes == changes(w, c),
        !up_to_date(w, c),
        u1.s == upload_compared(s1, candidates(w, c)).0,
        u1.action == Some(upload_compared(s1, candidates(w, c)).1),
    ensures
        ({
            let v = talk_after(w, push_machine(), u1, n);
            &&& v.action == Some(ActionModel::Finish)
            &&& v.log == u1.log + seq![
                ActionModel::Calls(questions(at, candidates(w, c), "false"@)),
                ActionModel::Mark("negotiate"@),
            ] + packing_actions(w, at, c) + packs_actions(
                w,
                at,
                c.capabilities,
                c.remote,
                kept(w, at, c),
            ) + seq![ActionModel::Mark("pack_upload_and_index"@)] + browse_actions(
                w,
                at,
                candidates(w, c),
            ) + seq![ActionModel::Mark("browse_objects"@)] + publish_actions(at, changes(w, c)) + (
            if compacts(c) {
                seq![ActionModel::Call(pruning(at, kept(w, at, c)))]
            } else {
                seq![]
            }) + seq![ActionModel::Mark("publish_and_prune"@)]
        }),
{
    let machine = push_machine();
    let (n2, s2) = lemma_ask_steps(w, at, c, s1, u1);
    let u2 = talk_after(w, machine, u1, n2);
    let (n3, s3) = lemma_packs_steps(w, s2, u2);
    let u3 = talk_after(w, machine, u2, n3);
    assert(s2.keep.skip(0) =~= s2.keep);
    let (n4, s4) = lemma_browse_steps(w, u3);
    let u4 = talk_after(w, machine, u3, n4);
    let (n5, s5) = lemma_publish_steps(w, u4);
    let u5 = talk_after(w, machine, u4, n5);
    let n6 = lemma_end_steps(w, s5, u5);
    talks_go_on(w, machine, u1, n2, n3);
    talks_go_on(w, machine, u1, (n2 + n3) as nat, n4);
    talks_go_on(w, machine, u1, (n2 + n3 + n4) as nat, n5);
    talks_go_on(w, machine, u1, (n2 + n3 + n4 + n5) as nat, n6);
    (n2 + n3 + n4 + n5 + n6) as nat
}

/// The beginning of a push.
pub open spec fn push_start(
    at: (Seq<char>, Seq<char>),
    snapshot: Option<SnapshotModel>,
) -> Talk<UploadModel> {
    let (s, action) = upload_start(at, snapshot);
    Talk { s, action: Some(action), log: seq![] }
}

/// A push with a snapshot at hand compares with it. On a canister that takes every call it
/// consists of exactly the actions of [`push_actions`], and then is done.
pub proof fn pushes_with_a_snapshot_run_through(
    w: Outside,
    at: (Seq<char>, Seq<char>),
    known: SnapshotModel,
)
    requires
        agrees(w),
        usable(known.capabilities),
        git_works(
            w,
            at,
            (Comparison {
                expected: known.refs,
                remote: known.packs,
                capabilities: known.capabilities,
            }),
        ),
    ensures
        exists|n: nat|
            {
                let c = Comparison {
                    expected: known.refs,
                    remote: known.packs,
                    capabilities: known.capabilities,
                };
                let end = #[trigger] talk_after(w, push_machine(), push_start(at, Some(known)), n);
                &&& end.action == Some(ActionModel::Finish)
                &&& end.log == push_actions(w, at, c)
            },
{
    let c = Comparison {
        expected: known.refs,
        remote: known.packs,
        capabilities: known.capabilities,
    };
    let u = push_start(at, Some(known));
    let n = lemma_push(w, at, c, u);
    assert(talk_after(w, push_machine(), u, n).log =~= push_actions(w, at, c));
}

/// A push without a snapshot first asks the canister for its refs, its packs and what its
/// transport offers, and compares with what it is told. On a canister that takes every call
/// it then consists of exactly the actions of [`push_actions`], and is done.
pub proof fn pushes_without_a_snapshot_ask_first(
    w: Outside,
    at: (Seq<char>, Seq<char>),
    refs: Seq<(Seq<char>, Seq<char>)>,
    packs: Seq<JsonModel>,
)
    requires
        agrees(w),
        lists_refs((w.answers)(listing_call("list_refs"@, at)), refs),
        items_field((w.answers)(listing_call("list_packs"@, at)), "ok"@) == Some(packs),
        git_works(
            w,
            at,
            (Comparison {
                expected: refs,
                remote: packs_of(packs),
                capabilities: offered(w.offer),
            }),
        ),
    ensures
        exists|n: nat|
            {
                let c = Comparison {
                    expected: refs,
                    remote: packs_of(packs),
                    capabilities: offered(w.offer),
                };
                let end = #[trigger] talk_after(w, push_machine(), push_start(at, None), n);
                &&& end.action == Some(ActionModel::Finish)
                &&& end.log == seq![
                    ActionModel::Negotiate(
                        seq![listing_call("list_refs"@, at), listing_call("list_packs"@, at)],
                    ),
                ] + push_actions(w, at, c)
            },
{
    let c = Comparison {
        expected: refs,
        remote: packs_of(packs),
        capabilities: offered(w.offer),
    };
    let calls = seq![listing_call("list_refs"@, at), listing_call("list_packs"@, at)];
    lists_refs_as_told((w.answers)(listing_call("list_refs"@, at)), refs);
    let u = push_start(at, None);
    let a = talk_step(w, push_machine(), u);
    talks_step_on(w, push_machine(), u, 0);
    assert(u.action == Some(ActionModel::Negotiate(calls)));
    assert(comparing(a.s, at, c) && a.s.stage == UploadStage::Listing && a.action == Some(
        ActionModel::ListRefs,
    )) by {
        reveal(upload_step);
    }
    assert(usable(c.capabilities)) by {
        if let Some(offer) = w.offer {
            declared_capabilities_are_usable(offer);
        }
    }
    let n = lemma_push(w, at, c, a);
    talks_go_on(w, push_machine(), u, 1, n);
    let end = talk_after(w, push_machine(), u, (n + 1) as nat);
    assert(end.log =~= seq![ActionModel::Negotiate(calls)] + push_actions(w, at, c));
}

/// The machine that stores all objects for browsing.
pub open spec fn index_machine() -> Machine<BrowseAllModel> {
    |s: BrowseAllModel, event: EventModel|
        (browse_all_next(s, event).0, Some(browse_all_next(s, event).1))
}

/// The beginning of an index.
pub open spec fn index_start(at: (Seq<char>, Seq<char>)) -> Talk<BrowseAllModel> {
    let (s, action) = browse_all_start(at);
    Talk { s, action: Some(action), log: seq![] }
}

proof fn lemma_index_within(
    w: Outside,
    u: Talk<BrowseAllModel>,
    t: Talk<BrowseModel>,
    n: nat,
) -> (m: nat)
    requires
        u.s.stage == BrowseAllStage::Storing,
        u.s.browse == Some(t.s),
        u.action == t.action,
        u.action is Some,
        u.log == t.log,
        talk_after(w, browse_machine(u.s.at), t, n).action is None,
    ensures
        ({
            let v = talk_after(w, index_machine(), u, m);
            &&& v.log == talk_after(w, browse_machine(u.s.at), t, n).log
            &&& v.action == Some(ActionModel::Finish)
        }),
    decreases n,
{
    let machine = browse_machine(u.s.at);
    let t1 = talk_step(w, machine, t);
    let u1 = talk_step(w, index_machine(), u);
    talks_step_on(w, index_machine(), u, 0);
    if t1.action is None {
        lemma_idle(w, machine, t1, (n - 1) as nat);
        1
    } else {
        if t1.s.stage == BrowseStage::Stopped {
            lemma_browse_stuck(w, u.s.at, t1, (n - 1) as nat);
        }
        let m = lemma_index_within(w, u1, t1, (n - 1) as nat);
        talks_go_on(w, index_machine(), u, 1, m);
        (m + 1) as nat
    }
}

/// An index of what is browsed lists all objects of the local repository, stores those that
/// the canister cannot show, and is done.
pub proof fn indexing_stores_every_object(w: Outside, at: (Seq<char>, Seq<char>))
    requires
        agrees(w),
        prints_lacked(w, at, object_ids(lossy(w.all_listed))),
    ensures
        exists|n: nat|
            {
                let end = #[trigger] talk_after(w, index_machine(), index_start(at), n);
                &&& end.action == Some(ActionModel::Finish)
                &&& end.log == seq![ActionModel::ListAllObjects] + browse_actions(
                    w,
                    at,
                    object_ids(lossy(w.all_listed)),
                )
            },
{
    let ids = object_ids(lossy(w.all_listed));
    let start = index_start(at);
    let a = talk_step(w, index_machine(), start);
    talks_step_on(w, index_machine(), start, 0);
    let t = Talk { s: browse_start(at, ids).0, action: Some(browse_start(at, ids).1), log: a.log };
    let n = objects_are_stored(w, at, ids, a.log);
    let m = lemma_index_within(w, a, t, n);
    talks_go_on(w, index_machine(), start, 1, m);
    let end = talk_after(w, index_machine(), start, (m + 1) as nat);
    assert(end.log =~= seq![ActionModel::ListAllObjects] + browse_actions(w, at, ids));
}

} // verus!
