//! The publication of ref changes.
//!
//! Few changes go in one atomic call. Many are staged page by page under a transaction
//! id and committed at the end; a rejected page aborts the transaction.
use vstd::prelude::*;
use vstd::utf8::encode_utf8;

use crate::action::{
    accepted, accepts, address, address_text, confused, give_up, maybe_action, part, part_text,
    reject, rejection, stops, vector, vector_text, Action, ActionModel, Call, CallModel, Event,
    EventModel, Repository,
};
use crate::chunk::{chunk_ranges, chunks, chunks_are_bounded, chunks_rejoin, cuts_model, ranges};
use crate::json::{json_text, Json, JsonModel};
use crate::pack::{digest_text, part_call, part_request, sha256};
use crate::text::{decimal, decimal_text, hex, join_texts, joined, text_range, texts};

verus! {

/// The number of changes that one call may carry.
pub const PAGE_SIZE: usize = 100;

/// Where a publication stands: what the last action was for.
#[derive(Clone, Copy, Debug, PartialEq, Eq, Structural)]
pub enum PublishStage {
    Updating,
    Staging,
    Aborting,
    Committing,
    Published,
    Stopped,
}

/// A publication of ref changes.
pub struct Publish {
    pub changes: Vec<String>,
    pub transaction: String,
    pub page: usize,
    pub failure: String,
    pub stage: PublishStage,
}

/// The model of a publication.
pub struct PublishModel {
    pub changes: Seq<Seq<char>>,
    pub transaction: Seq<char>,
    pub page: nat,
    pub failure: Seq<char>,
    pub stage: PublishStage,
}

impl View for Publish {
    type V = PublishModel;

    open spec fn view(&self) -> PublishModel {
        PublishModel {
            changes: texts(self.changes@),
            transaction: self.transaction@,
            page: self.page as nat,
            failure: self.failure@,
            stage: self.stage,
        }
    }
}

/// The id of the transaction that makes `changes`: a digest of all of them.
pub open spec fn transaction_id(changes: Seq<Seq<char>>) -> Seq<char> {
    hex(sha256(encode_utf8(joined(changes, ";"@))))
}

/// The call that makes all changes at once.
pub open spec fn update_call(at: (Seq<char>, Seq<char>), changes: Seq<Seq<char>>) -> CallModel {
    CallModel {
        method: "update_refs_atomic"@,
        argument: address(at) + ", "@ + vector(changes) + ")"@,
    }
}

/// The pages of a list of changes.
pub open spec fn pages(changes: Seq<Seq<char>>) -> Seq<Seq<Seq<char>>> {
    chunks(changes, PAGE_SIZE as nat)
}

/// The call that stages a page.
pub open spec fn stage_call(
    at: (Seq<char>, Seq<char>),
    transaction: Seq<char>,
    changes: Seq<Seq<char>>,
    page: nat,
) -> CallModel {
    CallModel {
        method: "stage_ref_transaction_page"@,
        argument: part(at, transaction) + ", "@ + decimal(pages(changes).len()) + " : nat, "@
            + decimal(page) + " : nat, "@ + vector(pages(changes)[page as int]) + ")"@,
    }
}

/// The beginning of a publication; there is no action where nothing changes.
pub open spec fn publish_start(at: (Seq<char>, Seq<char>), changes: Seq<Seq<char>>) -> (
    PublishModel,
    Option<ActionModel>,
) {
    if changes.len() == 0 {
        (
            PublishModel {
                changes,
                transaction: ""@,
                page: 0,
                failure: ""@,
                stage: PublishStage::Published,
            },
            None,
        )
    } else if changes.len() <= PAGE_SIZE {
        (
            PublishModel {
                changes,
                transaction: ""@,
                page: 0,
                failure: ""@,
                stage: PublishStage::Updating,
            },
            Some(ActionModel::Call(update_call(at, changes))),
        )
    } else {
        let transaction = transaction_id(changes);
        (
            PublishModel {
                changes,
                transaction,
                page: 0,
                failure: ""@,
                stage: PublishStage::Staging,
            },
            Some(ActionModel::Call(stage_call(at, transaction, changes, 0))),
        )
    }
}

/// The same publication at another stage.
pub open spec fn publish_at(s: PublishModel, stage: PublishStage) -> PublishModel {
    PublishModel { stage, ..s }
}

/// The end of a publication without success.
pub open spec fn publish_stop(s: PublishModel, action: ActionModel) -> (
    PublishModel,
    Option<ActionModel>,
) {
    (publish_at(s, PublishStage::Stopped), Some(action))
}

/// After staging a page: the next one, or the commit after the last. A rejection aborts
/// the transaction.
pub open spec fn publish_staged(
    at: (Seq<char>, Seq<char>),
    s: PublishModel,
    reply: JsonModel,
) -> (PublishModel, Option<ActionModel>) {
    if !accepted(reply) {
        (
            PublishModel {
                failure: "ref transaction page rejected: "@ + json_text(reply),
                ..publish_at(s, PublishStage::Aborting)
            },
            Some(ActionModel::Call(part_call("abort_ref_transaction"@, at, s.transaction))),
        )
    } else if s.page + 1 < pages(s.changes).len() {
        (
            PublishModel { page: s.page + 1, ..s },
            Some(
                ActionModel::Call(stage_call(at, s.transaction, s.changes, s.page + 1)),
            ),
        )
    } else {
        (
            publish_at(s, PublishStage::Committing),
            Some(ActionModel::Call(part_call("commit_ref_transaction"@, at, s.transaction))),
        )
    }
}

/// The publication after an event, and the next action; none once all is published.
pub open spec fn publish_next(
    at: (Seq<char>, Seq<char>),
    s: PublishModel,
    event: EventModel,
) -> (PublishModel, Option<ActionModel>) {
    match (s.stage, event) {
        (PublishStage::Updating, EventModel::Reply(reply)) => if accepted(reply) {
            (publish_at(s, PublishStage::Published), None)
        } else {
            publish_stop(s, rejection("atomic ref publication rejected: "@, reply))
        },
        (PublishStage::Staging, EventModel::Reply(reply)) => publish_staged(at, s, reply),
        (PublishStage::Aborting, EventModel::Reply(_)) => publish_stop(
            s,
            ActionModel::Fail(s.failure),
        ),
        (PublishStage::Committing, EventModel::Reply(reply)) => if accepted(reply) {
            (publish_at(s, PublishStage::Published), None)
        } else {
            publish_stop(s, rejection("atomic ref transaction rejected: "@, reply))
        },
        _ => publish_stop(s, confused()),
    }
}

/// The pages hold each change once, in order, and none is empty or too long.
pub proof fn pages_hold_every_change(changes: Seq<Seq<char>>)
    ensures
        pages(changes).flatten() == changes,
        forall|i: int|
            0 <= i < pages(changes).len() ==> 0 < (#[trigger] pages(changes)[i]).len()
                <= PAGE_SIZE,
{
    chunks_rejoin(changes, PAGE_SIZE as nat);
    chunks_are_bounded(changes, PAGE_SIZE as nat);
}

/// A rejected page is answered by aborting the transaction, and whatever comes back, the
/// publication ends in failure after that.
pub proof fn a_rejected_page_aborts_the_transaction(
    at: (Seq<char>, Seq<char>),
    s: PublishModel,
    reply: JsonModel,
    event: EventModel,
)
    requires
        s.stage == PublishStage::Staging,
        !accepted(reply),
    ensures
        publish_next(at, s, EventModel::Reply(reply)).1 == Some(
            ActionModel::Call(part_call("abort_ref_transaction"@, at, s.transaction)),
        ),
        ({
            let after = publish_next(at, publish_next(at, s, EventModel::Reply(reply)).0, event);
            &&& after.0.stage == PublishStage::Stopped
            &&& after.1 matches Some(action) && stops(action)
        }),
{
}

fn stage_request(
    at: &Repository,
    transaction: &str,
    changes: &Vec<String>,
    cuts: &Vec<(usize, usize)>,
    page: usize,
) -> (call: Call)
    requires
        page < cuts@.len(),
        cuts_model(cuts@) == ranges(0, changes@.len(), PAGE_SIZE as nat),
        forall|k: int|
            0 <= k < cuts@.len() ==> (#[trigger] cuts@[k]).0 < cuts@[k].1 <= changes@.len(),
    ensures
        call@ == stage_call(at@, transaction@, texts(changes@), page as nat),
{
    let (from, to) = cuts[page];
    assert(cuts_model(cuts@)[page as int] == (from as nat, to as nat));
    let list = text_range(changes, from, to);
    assert(texts(list@) == pages(texts(changes@))[page as int]);
    assert(pages(texts(changes@)).len() == cuts@.len());
    let mut argument = part_text(at, transaction);
    argument.append(", ");
    argument.append(decimal_text(cuts.len() as u64).as_str());
    argument.append(" : nat, ");
    argument.append(decimal_text(page as u64).as_str());
    argument.append(" : nat, ");
    argument.append(vector_text(&list).as_str());
    argument.append(")");
    Call { method: "stage_ref_transaction_page".to_owned(), argument }
}

impl Publish {
    /// Starts publishing `changes`; there is no action where nothing changes.
    pub fn start(at: &Repository, changes: Vec<String>) -> (r: (Publish, Option<Action>))
        ensures
            (r.0@, maybe_action(r.1)) == publish_start(at@, texts(changes@)),
    {
        let ghost all = texts(changes@);
        assert(all.len() == changes@.len());
        if changes.len() == 0 {
            let publish = Publish {
                changes,
                transaction: "".to_owned(),
                page: 0,
                failure: "".to_owned(),
                stage: PublishStage::Published,
            };
            (publish, None)
        } else if changes.len() <= PAGE_SIZE {
            let mut argument = address_text(at);
            argument.append(", ");
            argument.append(vector_text(&changes).as_str());
            argument.append(")");
            let call = Call { method: "update_refs_atomic".to_owned(), argument };
            let publish = Publish {
                changes,
                transaction: "".to_owned(),
                page: 0,
                failure: "".to_owned(),
                stage: PublishStage::Updating,
            };
            (publish, Some(Action::Call(call)))
        } else {
            let text = join_texts(&changes, ";");
            let transaction = digest_text(text.as_str().as_bytes());
            let cuts = chunk_ranges(changes.len(), PAGE_SIZE);
            proof {
                chunks_are_bounded(all, PAGE_SIZE as nat);
                assert(cuts_model(cuts@).len() == cuts@.len());
            }
            let call = stage_request(at, transaction.as_str(), &changes, &cuts, 0);
            let publish = Publish {
                changes,
                transaction,
                page: 0,
                failure: "".to_owned(),
                stage: PublishStage::Staging,
            };
            (publish, Some(Action::Call(call)))
        }
    }

    fn stop(&mut self, action: Action) -> (r: Option<Action>)
        ensures
            (final(self)@, maybe_action(r)) == publish_stop(old(self)@, action@),
    {
        self.stage = PublishStage::Stopped;
        Some(action)
    }

    fn staged(&mut self, at: &Repository, reply: &Json) -> (r: Option<Action>)
        ensures
            (final(self)@, maybe_action(r)) == publish_staged(at@, old(self)@, reply@),
    {
        if !accepts(reply) {
            let mut failure = "ref transaction page rejected: ".to_owned();
            failure.append(reply.to_text().as_str());
            let call = part_request("abort_ref_transaction", at, self.transaction.as_str());
            self.failure = failure;
            self.stage = PublishStage::Aborting;
            return Some(Action::Call(call));
        }
        let cuts = chunk_ranges(self.changes.len(), PAGE_SIZE);
        assert(cuts_model(cuts@).len() == cuts@.len());
        assert(pages(texts(self.changes@)).len() == cuts@.len());
        if self.page < cuts.len() && self.page + 1 < cuts.len() {
            let call = stage_request(
                at,
                self.transaction.as_str(),
                &self.changes,
                &cuts,
                self.page + 1,
            );
            self.page = self.page + 1;
            Some(Action::Call(call))
        } else {
            let call = part_request("commit_ref_transaction", at, self.transaction.as_str());
            self.stage = PublishStage::Committing;
            Some(Action::Call(call))
        }
    }

    /// Takes the answer to the last action and gives the next one; none once all is
    /// published.
    pub fn step(&mut self, at: &Repository, event: Event) -> (r: Option<Action>)
        ensures
            (final(self)@, maybe_action(r)) == publish_next(at@, old(self)@, event@),
    {
        match (self.stage, event) {
            (PublishStage::Updating, Event::Reply(reply)) => if accepts(&reply) {
                self.stage = PublishStage::Published;
                None
            } else {
                self.stop(reject("atomic ref publication rejected: ", &reply))
            },
            (PublishStage::Staging, Event::Reply(reply)) => self.staged(at, &reply),
            (PublishStage::Aborting, Event::Reply(_)) => {
                let failure = self.failure.clone();
                self.stop(Action::Fail(failure))
            },
            (PublishStage::Committing, Event::Reply(reply)) => if accepts(&reply) {
                self.stage = PublishStage::Published;
                None
            } else {
                self.stop(reject("atomic ref transaction rejected: ", &reply))
            },
            _ => self.stop(give_up()),
        }
    }
}

} // verus!
