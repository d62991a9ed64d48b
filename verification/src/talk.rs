//! A machine that is answered: its actions are performed one after the other, and each is
//! answered by what there is outside.
use vstd::prelude::*;

use crate::action::{ActionModel, CallModel, EventModel};
use crate::json::JsonModel;

verus! {

/// What there is outside: the answers of a canister and what its transport offers; what git
/// prints for the local refs, for the objects that arguments select, for all objects, and on
/// packing objects; the packs after everything was packed anew; of each pack the number of
/// objects in its index, what git prints on verifying it, and its bytes; and what git prints
/// for a list of objects.
pub struct Outside {
    pub answers: spec_fn(CallModel) -> JsonModel,
    pub offer: Option<JsonModel>,
    pub refs: Seq<u8>,
    pub listed: spec_fn(Seq<Seq<char>>) -> Option<Seq<u8>>,
    pub all_listed: Seq<u8>,
    pub packed: spec_fn(Seq<Seq<char>>) -> Seq<u8>,
    pub repacked: Seq<Seq<char>>,
    pub counts: spec_fn(Seq<char>) -> Option<usize>,
    pub verified: spec_fn(Seq<char>) -> Seq<u8>,
    pub packs: spec_fn(Seq<char>) -> Seq<u8>,
    pub printed: spec_fn(Seq<Seq<char>>) -> Seq<u8>,
}

/// The replies to a list of calls.
pub open spec fn replies_to(w: Outside, calls: Seq<CallModel>) -> Seq<JsonModel> {
    Seq::new(calls.len(), |i: int| (w.answers)(calls[i]))
}

/// What comes of an action.
pub open spec fn answered(w: Outside, action: ActionModel) -> EventModel {
    match action {
        ActionModel::Call(call) => EventModel::Reply((w.answers)(call)),
        ActionModel::Calls(calls) => EventModel::Replies(replies_to(w, calls)),
        ActionModel::Sequence(calls) => EventModel::Replies(replies_to(w, calls)),
        ActionModel::Negotiate(calls) => EventModel::Negotiated(w.offer, replies_to(w, calls)),
        ActionModel::ListRefs => EventModel::Output(w.refs),
        ActionModel::ListObjects(arguments) => EventModel::Listed((w.listed)(arguments)),
        ActionModel::ListAllObjects => EventModel::Output(w.all_listed),
        ActionModel::ReadObjects(ids) => EventModel::Stream((w.printed)(ids), true),
        ActionModel::PackObjects(ids) => EventModel::Output((w.packed)(ids)),
        ActionModel::Repack => EventModel::Names(w.repacked),
        ActionModel::CountObjects(id) => EventModel::Count((w.counts)(id)),
        ActionModel::VerifyPack(id) => EventModel::Output((w.verified)(id)),
        ActionModel::ReadPack(id) => EventModel::Output((w.packs)(id)),
        _ => EventModel::Done,
    }
}

/// A machine, the action that it has come to, and the actions before. There is no action
/// once it is done.
#[verifier::reject_recursive_types(S)]
pub struct Talk<S> {
    pub s: S,
    pub action: Option<ActionModel>,
    pub log: Seq<ActionModel>,
}

/// A machine: the next state and action for a state and an event.
pub type Machine<S> = spec_fn(S, EventModel) -> (S, Option<ActionModel>);

/// The machine after its action was performed and answered.
pub open spec fn talk_step<S>(w: Outside, machine: Machine<S>, t: Talk<S>) -> Talk<S> {
    match t.action {
        None => t,
        Some(action) => {
            let (s, next) = machine(t.s, answered(w, action));
            Talk { s, action: next, log: t.log.push(action) }
        },
    }
}

/// The machine after `n` more actions.
pub open spec fn talk_after<S>(w: Outside, machine: Machine<S>, t: Talk<S>, n: nat) -> Talk<S>
    decreases n,
{
    if n == 0 {
        t
    } else {
        talk_after(w, machine, talk_step(w, machine, t), (n - 1) as nat)
    }
}

/// The actions of two spans of time are those of both together.
pub proof fn talks_go_on<S>(w: Outside, machine: Machine<S>, t: Talk<S>, n: nat, m: nat)
    ensures
        talk_after(w, machine, talk_after(w, machine, t, n), m) == talk_after(
            w,
            machine,
            t,
            n + m,
        ),
    decreases n,
{
    if n > 0 {
        talks_go_on(w, machine, talk_step(w, machine, t), (n - 1) as nat, m);
    }
}

/// One more action after `n`.
pub proof fn talks_step_on<S>(w: Outside, machine: Machine<S>, t: Talk<S>, n: nat)
    ensures
        talk_after(w, machine, t, n + 1) == talk_step(w, machine, talk_after(w, machine, t, n)),
{
    talks_go_on(w, machine, t, n, 1);
    reveal_with_fuel(talk_after, 2);
}

} // verus!
