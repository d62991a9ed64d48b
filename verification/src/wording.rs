//! The calls of a canister, written out as it reads them.
//!
//! The laws of the operations say by these texts what a canister is told.
use vstd::prelude::*;

use crate::action::CallModel;
use crate::json::{field, items_field, text_value, JsonModel};
use crate::text::joined;

verus! {

/// The beginning of the argument of a call on the repository `at.1` of the owner `at.0`.
pub open spec fn opening(at: (Seq<char>, Seq<char>)) -> Seq<char> {
    "(principal \""@ + at.0 + "\", \""@ + at.1 + "\""@
}

/// The beginning of the argument of a call on the part `id` of a repository.
pub open spec fn opening_at(at: (Seq<char>, Seq<char>), id: Seq<char>) -> Seq<char> {
    opening(at) + ", \""@ + id + "\""@
}

/// A list, written out.
pub open spec fn worded_list(items: Seq<Seq<char>>) -> Seq<char> {
    "vec {"@ + joined(items, ";"@) + "}"@
}

/// Texts, each in quotation marks.
pub open spec fn in_quotes(list: Seq<Seq<char>>) -> Seq<Seq<char>> {
    Seq::new(list.len(), |i: int| "\""@ + list[i] + "\""@)
}

/// A call on the part `id` of a repository that says nothing more.
pub open spec fn part_alone(
    method: Seq<char>,
    at: (Seq<char>, Seq<char>),
    id: Seq<char>,
) -> CallModel {
    CallModel { method, argument: opening_at(at, id) + ")"@ }
}

/// The reply takes the call: it has a field `ok`.
pub open spec fn takes(reply: JsonModel) -> bool {
    field(reply, "ok"@) is Some
}

/// Every reply takes its call.
pub open spec fn take_all(replies: Seq<JsonModel>) -> bool {
    forall|i: int| 0 <= i < replies.len() ==> takes(#[trigger] replies[i])
}

/// The reply is a list of texts.
pub open spec fn tells_ids(reply: JsonModel) -> bool {
    match items_field(reply, "ok"@) {
        Some(items) => forall|i: int|
            0 <= i < items.len() ==> (#[trigger] text_value(items[i])) is Some,
        None => false,
    }
}

/// The texts in a reply.
pub open spec fn told_ids(reply: JsonModel) -> Seq<Seq<char>> {
    match items_field(reply, "ok"@) {
        Some(items) => Seq::new(items.len(), |i: int| text_value(items[i])->Some_0),
        None => seq![],
    }
}

/// The texts in a list of replies, one reply after the other.
pub open spec fn all_told_ids(replies: Seq<JsonModel>) -> Seq<Seq<char>> {
    Seq::new(replies.len(), |i: int| told_ids(replies[i])).flatten()
}

/// The members of a list from `n` times `size` on, `size` of them or as many as there are.
pub open spec fn nth_run<A>(list: Seq<A>, size: nat, n: nat) -> Seq<A> {
    list.subrange(
        (n * size) as int,
        if (n + 1) * size <= list.len() {
            ((n + 1) * size) as int
        } else {
            list.len() as int
        },
    )
}

/// The number of runs of `size` members in a list of `len`; the last may be shorter.
pub open spec fn run_count(len: nat, size: nat) -> nat {
    ((len + size - 1) / (size as int)) as nat
}

} // verus!
