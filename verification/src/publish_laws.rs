//! What holds of every publication of ref changes.
use vstd::prelude::*;
use vstd::utf8::encode_utf8;

use crate::action::{ActionModel, CallModel, EventModel};
use crate::chunk::chunks_are_at_multiples;
use crate::json::{json_text, JsonModel};
use crate::pack::sha256;
use crate::publish::{publish_next, publish_start, PublishModel, PublishStage, PAGE_SIZE};
use crate::text::{decimal, hex, joined};
use crate::wording::{
    nth_run, opening, opening_at, part_alone, run_count, take_all, takes, worded_list,
};

verus! {

/// The publication of `changes` after a list of replies, and the action that is then to be
/// taken.
pub open spec fn publish_run(
    at: (Seq<char>, Seq<char>),
    changes: Seq<Seq<char>>,
    replies: Seq<JsonModel>,
) -> (PublishModel, Option<ActionModel>)
    decreases replies.len(),
{
    if replies.len() == 0 {
        publish_start(at, changes)
    } else {
        publish_next(
            at,
            publish_run(at, changes, replies.drop_last()).0,
            EventModel::Reply(replies.last()),
        )
    }
}

/// Where nothing changes, nothing is said.
pub proof fn no_changes_make_no_call(at: (Seq<char>, Seq<char>))
    ensures
        publish_run(at, seq![], seq![]).1 is None,
{
}

/// Up to a hundred changes are published by one call that carries all of them, in order.
/// Where it is taken the publication is done, and where not it fails with the reply.
pub proof fn few_changes_go_in_one_call(
    at: (Seq<char>, Seq<char>),
    changes: Seq<Seq<char>>,
    reply: JsonModel,
)
    requires
        1 <= changes.len() <= 100,
    ensures
        publish_run(at, changes, seq![]).1 == Some(
            ActionModel::Call(
                CallModel {
                    method: "update_refs_atomic"@,
                    argument: opening(at) + ", "@ + worded_list(changes) + ")"@,
                },
            ),
        ),
        publish_run(at, changes, seq![reply]).1 == if takes(reply) {
            None
        } else {
            Some(
                ActionModel::Fail("atomic ref publication rejected: "@ + json_text(reply)),
            )
        },
{
    assert(seq![reply].drop_last() =~= seq![]);
    assert(publish_run(at, changes, seq![reply].drop_last()) == publish_start(at, changes));
}

/// The name of the transaction that makes many changes.
pub open spec fn transaction_name(changes: Seq<Seq<char>>) -> Seq<char> {
    hex(sha256(encode_utf8(joined(changes, ";"@))))
}

/// The call that stages the changes from a hundred times `page` on, a hundred at most.
pub open spec fn page_call(
    at: (Seq<char>, Seq<char>),
    changes: Seq<Seq<char>>,
    page: nat,
) -> CallModel {
    CallModel {
        method: "stage_ref_transaction_page"@,
        argument: opening_at(at, transaction_name(changes)) + ", "@ + decimal(
            run_count(changes.len(), 100),
        ) + " : nat, "@ + decimal(page) + " : nat, "@ + worded_list(nth_run(changes, 100, page))
            + ")"@,
    }
}

proof fn lemma_pages(
    at: (Seq<char>, Seq<char>),
    changes: Seq<Seq<char>>,
    replies: Seq<JsonModel>,
)
    requires
        changes.len() > 100,
        take_all(replies),
        replies.len() <= run_count(changes.len(), 100),
    ensures
        ({
            let (s, action) = publish_run(at, changes, replies);
            let n = run_count(changes.len(), 100);
            &&& s.changes == changes
            &&& s.transaction == transaction_name(changes)
            &&& n >= 2
            &&& replies.len() < n ==> {
                &&& s.stage == PublishStage::Staging
                &&& s.page == replies.len()
                &&& action == Some(ActionModel::Call(page_call(at, changes, replies.len())))
            }
            &&& replies.len() == n ==> {
                &&& s.stage == PublishStage::Committing
                &&& action == Some(
                    ActionModel::Call(
                        part_alone("commit_ref_transaction"@, at, transaction_name(changes)),
                    ),
                )
            }
        }),
    decreases replies.len(),
{
    chunks_are_at_multiples(changes, PAGE_SIZE as nat);
    if replies.len() > 0 {
        let front = replies.drop_last();
        assert forall|i: int| 0 <= i < front.len() implies takes(#[trigger] front[i]) by {
            assert(takes(replies[i]));
        }
        lemma_pages(at, changes, front);
        assert(takes(replies[replies.len() - 1]));
    }
}

/// More than a hundred changes are staged in pages of a hundred, one call after the other,
/// all under the name that the changes give the transaction, and committed once every page
/// is taken. When the commit is taken too, the publication is done.
pub proof fn many_changes_are_staged_and_committed(
    at: (Seq<char>, Seq<char>),
    changes: Seq<Seq<char>>,
    replies: Seq<JsonModel>,
)
    requires
        changes.len() > 100,
        take_all(replies),
        replies.len() <= run_count(changes.len(), 100) + 1,
    ensures
        ({
            let pages = run_count(changes.len(), 100);
            let name = transaction_name(changes);
            publish_run(at, changes, replies).1 == if replies.len() < pages {
                Some(ActionModel::Call(page_call(at, changes, replies.len())))
            } else if replies.len() == pages {
                Some(ActionModel::Call(part_alone("commit_ref_transaction"@, at, name)))
            } else {
                None
            }
        }),
{
    let pages = run_count(changes.len(), 100);
    if replies.len() <= pages {
        lemma_pages(at, changes, replies);
    } else {
        let front = replies.drop_last();
        assert forall|i: int| 0 <= i < front.len() implies takes(#[trigger] front[i]) by {
            assert(takes(replies[i]));
        }
        lemma_pages(at, changes, front);
        assert(takes(replies[replies.len() - 1]));
    }
}

/// A page that is not taken is answered by aborting the transaction, and the publication
/// fails with the reply to that page, whatever is said to the abortion. A commit that is not
/// taken is a failure too.
pub proof fn refused_pages_end_the_publication(
    at: (Seq<char>, Seq<char>),
    changes: Seq<Seq<char>>,
    replies: Seq<JsonModel>,
    refused: JsonModel,
    last: JsonModel,
)
    requires
        changes.len() > 100,
        take_all(replies),
        replies.len() <= run_count(changes.len(), 100),
        !takes(refused),
    ensures
        ({
            let pages = run_count(changes.len(), 100);
            let name = transaction_name(changes);
            if replies.len() < pages {
                &&& publish_run(at, changes, replies.push(refused)).1 == Some(
                    ActionModel::Call(part_alone("abort_ref_transaction"@, at, name)),
                )
                &&& publish_run(at, changes, replies.push(refused).push(last)).1 == Some(
                    ActionModel::Fail("ref transaction page rejected: "@ + json_text(refused)),
                )
            } else {
                publish_run(at, changes, replies.push(refused)).1 == Some(
                    ActionModel::Fail("atomic ref transaction rejected: "@ + json_text(refused)),
                )
            }
        }),
{
    lemma_pages(at, changes, replies);
    assert(replies.push(refused).drop_last() =~= replies);
    assert(replies.push(refused).push(last).drop_last() =~= replies.push(refused));
}

/// Every change is on exactly one page, in order.
pub proof fn pages_carry_every_change_once(changes: Seq<Seq<char>>, i: int)
    requires
        0 <= i < changes.len(),
    ensures
        0 <= i / 100 < run_count(changes.len(), 100),
        nth_run(changes, 100, (i / 100) as nat)[i % 100] == changes[i],
{
    let n = i / 100;
    assert(i == 100 * n + i % 100);
}

} // verus!
