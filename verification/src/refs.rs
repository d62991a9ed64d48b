//! Refs: names and the object ids that they point at.
//!
//! Reading them from git and from the canister, and what turns one list of refs
//! into another.
use vstd::prelude::*;

use crate::json::{models_are_memberwise, text_field, Json, JsonModel};
use crate::order::{
    before, increasing, is_member, sorted_members, sorted_members_are_the_members_in_order,
    sorted_unique,
};
use crate::text::{
    cut, cut_text, lines, lossy, lossy_text, maybe_text, same_text, text_lines, texts,
};

verus! {

/// The texts of a list of refs.
pub open spec fn pairs(list: Seq<(String, String)>) -> Seq<(Seq<char>, Seq<char>)> {
    Seq::new(list.len(), |i: int| (list[i].0@, list[i].1@))
}

/// The name and the object id in an entry of a canister's listing.
pub open spec fn ref_of(entry: JsonModel) -> Option<(Seq<char>, Seq<char>)> {
    match (text_field(entry, "name"@), text_field(entry, "oid"@)) {
        (Some(name), Some(oid)) => Some((name, oid)),
        _ => None,
    }
}

/// The refs of a canister's listing, if every entry is one.
pub open spec fn refs_of(entries: Seq<JsonModel>) -> Option<Seq<(Seq<char>, Seq<char>)>> {
    if forall|i: int| 0 <= i < entries.len() ==> (#[trigger] ref_of(entries[i])) is Some {
        Some(Seq::new(entries.len(), |i: int| ref_of(entries[i])->Some_0))
    } else {
        None
    }
}

/// Reads the refs of a canister's listing.
pub fn read_refs(entries: &Vec<Json>) -> (r: Option<Vec<(String, String)>>)
    ensures
        match r {
            Some(refs) => refs_of(Json::models(entries@)) == Some(pairs(refs@)),
            None => refs_of(Json::models(entries@)) is None,
        },
{
    let ghost models = Json::models(entries@);
    proof {
        models_are_memberwise(entries@);
    }
    let mut refs: Vec<(String, String)> = Vec::new();
    let mut i: usize = 0;
    while i < entries.len()
        invariant
            i <= entries@.len(),
            models == Json::models(entries@),
            models == Seq::new(entries@.len(), |k: int| entries@[k]@),
            refs@.len() == i,
            forall|k: int|
                0 <= k < i ==> #[trigger] ref_of(models[k]) == Some((refs@[k].0@, refs@[k].1@)),
        decreases entries.len() - i,
    {
        let entry = &entries[i];
        assert(models[i as int] == entry@);
        match (entry.text_at("name"), entry.text_at("oid")) {
            (Some(name), Some(oid)) => {
                refs.push((name.to_owned(), oid.to_owned()));
                assert(ref_of(models[i as int]) == Some((refs@[i as int].0@, refs@[i as int].1@)));
            },
            _ => {
                assert(ref_of(models[i as int]) is None);
                return None;
            },
        }
        i += 1;
    }
    assert(pairs(refs@) =~= Seq::new(models.len(), |k: int| ref_of(models[k])->Some_0)) by {
        assert forall|k: int| 0 <= k < models.len() implies #[trigger] pairs(refs@)[k] == ref_of(
            models[k],
        )->Some_0 by {}
    }
    Some(refs)
}

/// The refs in a listing of git: a name, a space and an object id on each line. Lines
/// without a space are passed over.
pub open spec fn listed_refs(listing: Seq<Seq<char>>) -> Seq<(Seq<char>, Seq<char>)>
    decreases listing.len(),
{
    if listing.len() == 0 {
        seq![]
    } else {
        let front = listed_refs(listing.drop_last());
        match cut(listing.last(), ' ') {
            Some(entry) => front.push(entry),
            None => front,
        }
    }
}

/// Reads the refs in a listing of git.
pub fn refs_in_listing(listing: &str) -> (refs: Vec<(String, String)>)
    ensures
        pairs(refs@) == listed_refs(lines(listing@)),
{
    let list = text_lines(listing);
    let ghost all = texts(list@);
    let mut refs: Vec<(String, String)> = Vec::new();
    let mut i: usize = 0;
    assert(pairs(refs@) =~= listed_refs(all.take(0)));
    while i < list.len()
        invariant
            i <= list@.len(),
            all == texts(list@),
            pairs(refs@) == listed_refs(all.take(i as int)),
        decreases list.len() - i,
    {
        let ghost done = pairs(refs@);
        assert(all.take(i + 1).drop_last() =~= all.take(i as int));
        assert(all.take(i + 1).last() == list@[i as int]@);
        if let Some((name, oid)) = cut_text(list[i].as_str(), ' ') {
            let ghost entry = (name@, oid@);
            refs.push((name, oid));
            assert(pairs(refs@) =~= done.push(entry));
        }
        i += 1;
    }
    assert(all.take(all.len() as int) =~= all);
    refs
}

/// Reads the refs that git lists.
pub fn local_refs(output: &[u8]) -> (refs: Vec<(String, String)>)
    ensures
        pairs(refs@) == listed_refs(lines(lossy(output@))),
{
    refs_in_listing(lossy_text(output).as_str())
}

/// The object id of the first ref called `name`.
pub open spec fn oid_of(refs: Seq<(Seq<char>, Seq<char>)>, name: Seq<char>) -> Option<Seq<char>>
    decreases refs.len(),
{
    if refs.len() == 0 {
        None
    } else if refs[0].0 == name {
        Some(refs[0].1)
    } else {
        oid_of(refs.drop_first(), name)
    }
}

/// Finds the object id of the first ref called `name`.
fn find_oid<'a>(refs: &'a Vec<(String, String)>, name: &str) -> (r: Option<&'a str>)
    ensures
        maybe_text(r) == oid_of(pairs(refs@), name@),
{
    let ghost all = pairs(refs@);
    let mut i: usize = 0;
    assert(all.skip(0) =~= all);
    while i < refs.len()
        invariant
            i <= refs@.len(),
            all == pairs(refs@),
            oid_of(all, name@) == oid_of(all.skip(i as int), name@),
        decreases refs.len() - i,
    {
        assert(all.skip(i as int).drop_first() =~= all.skip(i + 1));
        assert(all.skip(i as int)[0] == (refs@[i as int].0@, refs@[i as int].1@));
        if same_text(refs[i].0.as_str(), name) {
            return Some(refs[i].1.as_str());
        }
        i += 1;
    }
    None
}

/// A change of one ref: its name, what it points at before, and what it points at after.
pub struct RefChange {
    pub name: Seq<char>,
    pub expected_old: Option<Seq<char>>,
    pub new: Option<Seq<char>>,
}

/// The names of a list of refs.
pub open spec fn names(refs: Seq<(Seq<char>, Seq<char>)>) -> Seq<Seq<char>> {
    Seq::new(refs.len(), |i: int| refs[i].0)
}

/// The change that the ref called `name` undergoes.
pub open spec fn change_of(
    expected: Seq<(Seq<char>, Seq<char>)>,
    desired: Seq<(Seq<char>, Seq<char>)>,
    name: Seq<char>,
) -> RefChange {
    RefChange { name, expected_old: oid_of(expected, name), new: oid_of(desired, name) }
}

/// The changes among the refs called `list`, in that order; refs that stay are left out.
pub open spec fn changes_among(
    expected: Seq<(Seq<char>, Seq<char>)>,
    desired: Seq<(Seq<char>, Seq<char>)>,
    list: Seq<Seq<char>>,
) -> Seq<RefChange>
    decreases list.len(),
{
    if list.len() == 0 {
        seq![]
    } else {
        let front = changes_among(expected, desired, list.drop_last());
        let change = change_of(expected, desired, list.last());
        if change.expected_old == change.new {
            front
        } else {
            front.push(change)
        }
    }
}

/// The changes that turn the refs `expected` into `desired`, ordered by name.
pub open spec fn ref_changes(
    expected: Seq<(Seq<char>, Seq<char>)>,
    desired: Seq<(Seq<char>, Seq<char>)>,
) -> Seq<RefChange> {
    changes_among(expected, desired, sorted_members(names(expected) + names(desired)))
}

/// An optional object id as a Candid argument.
pub open spec fn optional_text(oid: Option<Seq<char>>) -> Seq<char> {
    match oid {
        Some(text) => "opt \""@ + text + "\""@,
        None => "null"@,
    }
}

/// A change as a Candid argument.
pub open spec fn change_text(change: RefChange) -> Seq<char> {
    "record { name = \""@ + change.name + "\"; expected_old = "@ + optional_text(
        change.expected_old,
    ) + "; new = "@ + optional_text(change.new) + " }"@
}

/// The changes as Candid arguments.
pub open spec fn change_texts(changes: Seq<RefChange>) -> Seq<Seq<char>> {
    Seq::new(changes.len(), |i: int| change_text(changes[i]))
}

fn optional_argument(oid: Option<&str>) -> (text: String)
    ensures
        text@ == optional_text(maybe_text(oid)),
{
    match oid {
        Some(value) => {
            let mut text = "opt \"".to_owned();
            text.append(value);
            text.append("\"");
            text
        },
        None => "null".to_owned(),
    }
}

fn same_oid(a: Option<&str>, b: Option<&str>) -> (same: bool)
    ensures
        same == (maybe_text(a) == maybe_text(b)),
{
    match (a, b) {
        (Some(x), Some(y)) => same_text(x, y),
        (None, None) => true,
        _ => false,
    }
}

fn change_argument(name: &str, old_oid: Option<&str>, new_oid: Option<&str>) -> (text: String)
    ensures
        text@ == change_text(
            RefChange { name: name@, expected_old: maybe_text(old_oid), new: maybe_text(new_oid) },
        ),
{
    let mut text = "record { name = \"".to_owned();
    text.append(name);
    text.append("\"; expected_old = ");
    text.append(optional_argument(old_oid).as_str());
    text.append("; new = ");
    text.append(optional_argument(new_oid).as_str());
    text.append(" }");
    text
}

/// Writes the changes that turn the refs `expected` into `desired`.
pub fn candid_ref_changes(
    expected: &Vec<(String, String)>,
    desired: &Vec<(String, String)>,
) -> (changes: Vec<String>)
    ensures
        texts(changes@) == change_texts(ref_changes(pairs(expected@), pairs(desired@))),
{
    let ghost a = pairs(expected@);
    let ghost b = pairs(desired@);
    let mut every: Vec<String> = Vec::new();
    let mut i: usize = 0;
    while i < expected.len()
        invariant
            i <= expected@.len(),
            a == pairs(expected@),
            every@.len() == i,
            forall|k: int| 0 <= k < i ==> #[trigger] every@[k]@ == a[k].0,
        decreases expected.len() - i,
    {
        every.push(expected[i].0.clone());
        i += 1;
    }
    let mut j: usize = 0;
    while j < desired.len()
        invariant
            j <= desired@.len(),
            b == pairs(desired@),
            every@.len() == a.len() + j,
            forall|k: int| 0 <= k < a.len() ==> #[trigger] every@[k]@ == a[k].0,
            forall|k: int| a.len() <= k < a.len() + j ==> #[trigger] every@[k]@ == b[k - a.len()].0,
        decreases desired.len() - j,
    {
        every.push(desired[j].0.clone());
        j += 1;
    }
    assert(texts(every@) =~= names(a) + names(b));
    let list = sorted_unique(&every);
    let ghost all = texts(list@);
    let mut changes: Vec<String> = Vec::new();
    let mut k: usize = 0;
    assert(texts(changes@) =~= change_texts(changes_among(a, b, all.take(0))));
    while k < list.len()
        invariant
            k <= list@.len(),
            all == texts(list@),
            a == pairs(expected@),
            b == pairs(desired@),
            texts(changes@) == change_texts(changes_among(a, b, all.take(k as int))),
        decreases list.len() - k,
    {
        let name = list[k].as_str();
        let ghost front = changes_among(a, b, all.take(k as int));
        let ghost done = texts(changes@);
        assert(all.take(k + 1).drop_last() =~= all.take(k as int));
        assert(all.take(k + 1).last() == name@);
        let old_oid = find_oid(expected, name);
        let new_oid = find_oid(desired, name);
        if !same_oid(old_oid, new_oid) {
            let text = change_argument(name, old_oid, new_oid);
            let ghost t = text@;
            changes.push(text);
            assert(texts(changes@) =~= done.push(t));
            assert(change_texts(front.push(change_of(a, b, name@))) =~= change_texts(front).push(
                t,
            ));
        }
        k += 1;
    }
    assert(all.take(all.len() as int) =~= all);
    changes
}

/// What the ref called `name` points at once `changes` are made to `refs`.
pub open spec fn oid_after(
    changes: Seq<RefChange>,
    refs: Seq<(Seq<char>, Seq<char>)>,
    name: Seq<char>,
) -> Option<Seq<char>>
    decreases changes.len(),
{
    if changes.len() == 0 {
        oid_of(refs, name)
    } else if changes.last().name == name {
        changes.last().new
    } else {
        oid_after(changes.drop_last(), refs, name)
    }
}

proof fn lemma_unnamed(refs: Seq<(Seq<char>, Seq<char>)>, name: Seq<char>)
    requires
        !names(refs).contains(name),
    ensures
        oid_of(refs, name) is None,
    decreases refs.len(),
{
    if refs.len() > 0 {
        assert(names(refs)[0] == refs[0].0);
        let rest = refs.drop_first();
        assert forall|k: int| 0 <= k < rest.len() implies names(rest)[k] != name by {
            assert(names(refs)[k + 1] == rest[k].0);
        }
        lemma_unnamed(rest, name);
    }
}

proof fn lemma_changes_among(
    expected: Seq<(Seq<char>, Seq<char>)>,
    desired: Seq<(Seq<char>, Seq<char>)>,
    list: Seq<Seq<char>>,
    name: Seq<char>,
)
    ensures
        oid_after(changes_among(expected, desired, list), expected, name) == (if list.contains(
            name,
        ) {
            oid_of(desired, name)
        } else {
            oid_of(expected, name)
        }),
    decreases list.len(),
{
    if list.len() > 0 {
        let front = list.drop_last();
        lemma_changes_among(expected, desired, front, name);
        let done = changes_among(expected, desired, front);
        let change = change_of(expected, desired, list.last());
        assert(done.push(change).drop_last() =~= done);
        assert(list[list.len() - 1] == list.last());
        if list.contains(name) {
            let k = choose|k: int| 0 <= k < list.len() && list[k] == name;
            if k < list.len() - 1 {
                assert(front[k] == name);
            }
        }
        if front.contains(name) {
            let k = choose|k: int| 0 <= k < front.len() && front[k] == name;
            assert(list[k] == name);
        }
    }
}

/// Making the changes to the refs `expected` gives the refs `desired`, name by name.
pub proof fn ref_changes_lead_to_the_desired_refs(
    expected: Seq<(Seq<char>, Seq<char>)>,
    desired: Seq<(Seq<char>, Seq<char>)>,
    name: Seq<char>,
)
    ensures
        oid_after(ref_changes(expected, desired), expected, name) == oid_of(desired, name),
{
    let every = names(expected) + names(desired);
    sorted_members_are_the_members_in_order(every);
    lemma_changes_among(expected, desired, sorted_members(every), name);
    assert(sorted_members(every).contains(name) <==> every.contains(name));
    if !every.contains(name) {
        assert forall|k: int| 0 <= k < expected.len() implies names(expected)[k] != name by {
            assert(every[k] == names(expected)[k]);
        }
        assert forall|k: int| 0 <= k < desired.len() implies names(desired)[k] != name by {
            assert(every[expected.len() + k] == names(desired)[k]);
        }
        lemma_unnamed(expected, name);
        lemma_unnamed(desired, name);
    }
}

/// The names of the changed refs.
pub open spec fn changed_names(changes: Seq<RefChange>) -> Seq<Seq<char>> {
    Seq::new(changes.len(), |i: int| changes[i].name)
}

proof fn lemma_changes_are_real(
    expected: Seq<(Seq<char>, Seq<char>)>,
    desired: Seq<(Seq<char>, Seq<char>)>,
    list: Seq<Seq<char>>,
)
    requires
        increasing(list),
    ensures
        increasing(changed_names(changes_among(expected, desired, list))),
        forall|i: int|
            0 <= i < changes_among(expected, desired, list).len() ==> {
                let change = #[trigger] changes_among(expected, desired, list)[i];
                &&& list.contains(change.name)
                &&& change == change_of(expected, desired, change.name)
                &&& change.expected_old != change.new
            },
    decreases list.len(),
{
    if list.len() > 0 {
        let front = list.drop_last();
        lemma_changes_are_real(expected, desired, front);
        let done = changes_among(expected, desired, front);
        let all = changes_among(expected, desired, list);
        assert(list[list.len() - 1] == list.last());
        assert forall|i: int| 0 <= i < done.len() implies list.contains(
            (#[trigger] done[i]).name,
        ) by {
            assert(front.contains(done[i].name));
            let k = choose|k: int| 0 <= k < front.len() && front[k] == done[i].name;
            assert(list[k] == done[i].name);
        }
        assert forall|i: int, j: int|
            0 <= i < j < changed_names(all).len() implies before(
            #[trigger] changed_names(all)[i],
            #[trigger] changed_names(all)[j],
        ) by {
            if j == done.len() {
                assert(changed_names(all)[i] == done[i].name);
                assert(front.contains(done[i].name));
                let k = choose|k: int| 0 <= k < front.len() && front[k] == done[i].name;
                assert(list[k] == done[i].name);
                assert(before(list[k], list[list.len() - 1]));
            } else {
                assert(changed_names(all)[i] == changed_names(done)[i]);
                assert(changed_names(all)[j] == changed_names(done)[j]);
            }
        }
    }
}

/// Each change is of one ref, expects what the ref points at now, and alters it; the
/// changes are ordered by name, and no ref is changed twice.
pub proof fn ref_changes_are_real_and_ordered(
    expected: Seq<(Seq<char>, Seq<char>)>,
    desired: Seq<(Seq<char>, Seq<char>)>,
)
    ensures
        increasing(changed_names(ref_changes(expected, desired))),
        forall|i: int|
            0 <= i < ref_changes(expected, desired).len() ==> {
                let change = #[trigger] ref_changes(expected, desired)[i];
                &&& change.expected_old == oid_of(expected, change.name)
                &&& change.new == oid_of(desired, change.name)
                &&& change.expected_old != change.new
            },
{
    let every = names(expected) + names(desired);
    sorted_members_are_the_members_in_order(every);
    lemma_changes_are_real(expected, desired, sorted_members(every));
}

/// There is nothing to change exactly where every ref points at the same object already.
pub proof fn nothing_changes_between_equal_refs(
    expected: Seq<(Seq<char>, Seq<char>)>,
    desired: Seq<(Seq<char>, Seq<char>)>,
)
    ensures
        ref_changes(expected, desired).len() == 0 <==> forall|name: Seq<char>| #[trigger]
            oid_of(expected, name) == oid_of(desired, name),
{
    let changes = ref_changes(expected, desired);
    if changes.len() == 0 {
        assert forall|name: Seq<char>| #[trigger] oid_of(expected, name) == oid_of(
            desired,
            name,
        ) by {
            ref_changes_lead_to_the_desired_refs(expected, desired, name);
        }
    } else {
        ref_changes_are_real_and_ordered(expected, desired);
        let change = changes[0];
        assert(oid_of(expected, change.name) != oid_of(desired, change.name));
    }
}

/// A command of a ref transaction of git.
pub enum RefCommand {
    Delete(Seq<char>),
    Update(Seq<char>, Seq<char>),
}

/// The line of a command.
pub open spec fn command_line(command: RefCommand) -> Seq<char> {
    match command {
        RefCommand::Delete(name) => "delete "@ + name + "\n"@,
        RefCommand::Update(name, oid) => "update "@ + name + " "@ + oid + "\n"@,
    }
}

/// The lines of a list of commands.
pub open spec fn command_lines(commands: Seq<RefCommand>) -> Seq<char>
    decreases commands.len(),
{
    if commands.len() == 0 {
        seq![]
    } else {
        command_lines(commands.drop_last()) + command_line(commands.last())
    }
}

/// The deletions of the refs in `local` that are not called like one of `kept`.
pub open spec fn deletions(local: Seq<(Seq<char>, Seq<char>)>, kept: Seq<Seq<char>>) -> Seq<
    RefCommand,
>
    decreases local.len(),
{
    if local.len() == 0 {
        seq![]
    } else {
        let front = deletions(local.drop_last(), kept);
        if kept.contains(local.last().0) {
            front
        } else {
            front.push(RefCommand::Delete(local.last().0))
        }
    }
}

/// The updates that set each of `refs`.
pub open spec fn updates(refs: Seq<(Seq<char>, Seq<char>)>) -> Seq<RefCommand> {
    Seq::new(refs.len(), |i: int| RefCommand::Update(refs[i].0, refs[i].1))
}

/// The commands that replace the refs `local` by `remote`.
pub open spec fn replacement(
    local: Seq<(Seq<char>, Seq<char>)>,
    remote: Seq<(Seq<char>, Seq<char>)>,
) -> Seq<RefCommand> {
    deletions(local, names(remote)) + updates(remote)
}

/// The ref transaction that replaces the refs `local` by `remote`, as one atomic script.
pub open spec fn replacement_script(
    local: Seq<(Seq<char>, Seq<char>)>,
    remote: Seq<(Seq<char>, Seq<char>)>,
) -> Seq<char> {
    "start\n"@ + command_lines(replacement(local, remote)) + "prepare\ncommit\n"@
}

/// The refs after a list of commands.
pub open spec fn refs_after(
    commands: Seq<RefCommand>,
    refs: Map<Seq<char>, Seq<char>>,
) -> Map<Seq<char>, Seq<char>>
    decreases commands.len(),
{
    if commands.len() == 0 {
        refs
    } else {
        let before = refs_after(commands.drop_last(), refs);
        match commands.last() {
            RefCommand::Delete(name) => before.remove(name),
            RefCommand::Update(name, oid) => before.insert(name, oid),
        }
    }
}

/// A list of refs as a map; the last of a name counts.
pub open spec fn refs_map(refs: Seq<(Seq<char>, Seq<char>)>) -> Map<Seq<char>, Seq<char>>
    decreases refs.len(),
{
    if refs.len() == 0 {
        Map::empty()
    } else {
        refs_map(refs.drop_last()).insert(refs.last().0, refs.last().1)
    }
}

proof fn lemma_deletions(
    local: Seq<(Seq<char>, Seq<char>)>,
    kept: Seq<Seq<char>>,
    refs: Map<Seq<char>, Seq<char>>,
)
    ensures
        forall|name: Seq<char>| #[trigger]
            refs_after(deletions(local, kept), refs).contains_key(name) <==> refs.contains_key(name)
                && !(names(local).contains(name) && !kept.contains(name)),
    decreases local.len(),
{
    if local.len() > 0 {
        let front = local.drop_last();
        lemma_deletions(front, kept, refs);
        let done = deletions(front, kept);
        let last = local.last().0;
        let command = RefCommand::Delete(last);
        assert(done.push(command).drop_last() =~= done);
        assert forall|name: Seq<char>| #[trigger]
            refs_after(deletions(local, kept), refs).contains_key(name) <==> refs.contains_key(name)
                && !(names(local).contains(name) && !kept.contains(name)) by {
            assert(names(local)[local.len() - 1] == last);
            if names(local).contains(name) {
                let k = choose|k: int| 0 <= k < local.len() && names(local)[k] == name;
                if k < local.len() - 1 {
                    assert(names(front)[k] == name);
                }
            }
            if names(front).contains(name) {
                let k = choose|k: int| 0 <= k < front.len() && names(front)[k] == name;
                assert(names(local)[k] == name);
            }
            assert(refs_after(done, refs).contains_key(name) <==> refs.contains_key(name) && !(
            names(front).contains(name) && !kept.contains(name)));
        }
    } else {
        assert forall|name: Seq<char>| #[trigger]
            refs_after(deletions(local, kept), refs).contains_key(name) <==> refs.contains_key(name)
                && !(names(local).contains(name) && !kept.contains(name)) by {}
    }
}

proof fn lemma_updates(
    prior: Seq<RefCommand>,
    refs: Seq<(Seq<char>, Seq<char>)>,
    start: Map<Seq<char>, Seq<char>>,
)
    ensures
        forall|name: Seq<char>| #[trigger]
            refs_after(prior + updates(refs), start).contains_key(name) <==> (refs_after(
                prior,
                start,
            ).contains_key(name) || refs_map(refs).contains_key(name)),
        forall|name: Seq<char>|
            refs_map(refs).contains_key(name) ==> #[trigger] refs_after(
                prior + updates(refs),
                start,
            )[name] == refs_map(refs)[name],
    decreases refs.len(),
{
    let all = prior + updates(refs);
    if refs.len() > 0 {
        let front = refs.drop_last();
        lemma_updates(prior, front, start);
        assert(all.drop_last() =~= prior + updates(front));
        assert(all.last() == RefCommand::Update(refs.last().0, refs.last().1));
        let before = refs_after(prior + updates(front), start);
        assert(refs_after(all, start) == before.insert(refs.last().0, refs.last().1));
        assert forall|name: Seq<char>| #[trigger]
            refs_after(all, start).contains_key(name) <==> (refs_after(prior, start).contains_key(
                name,
            ) || refs_map(refs).contains_key(name)) by {
            assert(before.contains_key(name) <==> (refs_after(prior, start).contains_key(name)
                || refs_map(front).contains_key(name)));
        }
        assert forall|name: Seq<char>|
            refs_map(refs).contains_key(name) implies #[trigger] refs_after(all, start)[name]
            == refs_map(refs)[name] by {
            if name != refs.last().0 {
                assert(refs_map(front).contains_key(name));
                assert(before[name] == refs_map(front)[name]);
            }
        }
    } else {
        assert(all =~= prior);
    }
}

proof fn lemma_map_names(refs: Seq<(Seq<char>, Seq<char>)>, name: Seq<char>)
    ensures
        refs_map(refs).contains_key(name) <==> names(refs).contains(name),
    decreases refs.len(),
{
    if refs.len() > 0 {
        let front = refs.drop_last();
        lemma_map_names(front, name);
        assert(names(refs)[refs.len() - 1] == refs.last().0);
        if names(refs).contains(name) {
            let k = choose|k: int| 0 <= k < refs.len() && names(refs)[k] == name;
            if k < refs.len() - 1 {
                assert(names(front)[k] == name);
            }
        }
        if names(front).contains(name) {
            let k = choose|k: int| 0 <= k < front.len() && names(front)[k] == name;
            assert(names(refs)[k] == name);
        }
    }
}

/// Replacing leaves the remote refs and nothing else, whatever the local refs were.
pub proof fn replacement_leaves_the_remote_refs(
    local: Seq<(Seq<char>, Seq<char>)>,
    remote: Seq<(Seq<char>, Seq<char>)>,
)
    ensures
        refs_after(replacement(local, remote), refs_map(local)) == refs_map(remote),
{
    let start = refs_map(local);
    let prior = deletions(local, names(remote));
    lemma_deletions(local, names(remote), start);
    lemma_updates(prior, remote, start);
    let end = refs_after(replacement(local, remote), start);
    assert forall|name: Seq<char>| #[trigger] end.contains_key(name) <==> refs_map(
        remote,
    ).contains_key(name) by {
        lemma_map_names(local, name);
        lemma_map_names(remote, name);
        assert(refs_after(prior, start).contains_key(name) <==> start.contains_key(name) && !(
        names(local).contains(name) && !names(remote).contains(name)));
        assert(refs_after(prior + updates(remote), start).contains_key(name) <==> (refs_after(
            prior,
            start,
        ).contains_key(name) || refs_map(remote).contains_key(name)));
    }
    assert(end =~= refs_map(remote));
}

/// Writes the ref transaction that replaces the refs `local` by `remote`.
pub fn replace_local_refs(
    local: &Vec<(String, String)>,
    remote: &Vec<(String, String)>,
) -> (script: String)
    ensures
        script@ == replacement_script(pairs(local@), pairs(remote@)),
{
    let ghost a = pairs(local@);
    let ghost b = pairs(remote@);
    let mut kept: Vec<String> = Vec::new();
    let mut i: usize = 0;
    while i < remote.len()
        invariant
            i <= remote@.len(),
            b == pairs(remote@),
            kept@.len() == i,
            forall|k: int| 0 <= k < i ==> #[trigger] kept@[k]@ == b[k].0,
        decreases remote.len() - i,
    {
        kept.push(remote[i].0.clone());
        i += 1;
    }
    assert(texts(kept@) =~= names(b));
    let sorted = sorted_unique(&kept);
    assert(forall|t: Seq<char>| #[trigger] texts(sorted@).contains(t) <==> names(b).contains(t));
    let mut script = "start\n".to_owned();
    let mut j: usize = 0;
    assert(script@ =~= "start\n"@ + command_lines(deletions(a.take(0), names(b))));
    while j < local.len()
        invariant
            j <= local@.len(),
            a == pairs(local@),
            increasing(texts(sorted@)),
            forall|t: Seq<char>| #[trigger]
                texts(sorted@).contains(t) <==> names(b).contains(t),
            script@ == "start\n"@ + command_lines(deletions(a.take(j as int), names(b))),
        decreases local.len() - j,
    {
        let name = local[j].0.as_str();
        let ghost front = deletions(a.take(j as int), names(b));
        assert(a.take(j + 1).drop_last() =~= a.take(j as int));
        assert(a.take(j + 1).last() == (local@[j as int].0@, local@[j as int].1@));
        if !is_member(&sorted, name) {
            let ghost command = RefCommand::Delete(name@);
            assert(front.push(command).drop_last() =~= front);
            script.append("delete ");
            script.append(name);
            script.append("\n");
            assert(script@ =~= "start\n"@ + (command_lines(front) + command_line(command)));
        }
        j += 1;
    }
    assert(a.take(a.len() as int) =~= a);
    let ghost prior = deletions(a, names(b));
    let mut k: usize = 0;
    assert(prior + updates(b.take(0)) =~= prior);
    while k < remote.len()
        invariant
            k <= remote@.len(),
            b == pairs(remote@),
            script@ == "start\n"@ + command_lines(prior + updates(b.take(k as int))),
        decreases remote.len() - k,
    {
        let ghost front = prior + updates(b.take(k as int));
        let ghost command = RefCommand::Update(b[k as int].0, b[k as int].1);
        assert((prior + updates(b.take(k + 1))).drop_last() =~= front);
        assert((prior + updates(b.take(k + 1))).last() == command);
        script.append("update ");
        script.append(remote[k].0.as_str());
        script.append(" ");
        script.append(remote[k].1.as_str());
        script.append("\n");
        assert(script@ =~= "start\n"@ + (command_lines(front) + command_line(command)));
        k += 1;
    }
    assert(b.take(b.len() as int) =~= b);
    script.append("prepare\ncommit\n");
    script
}

} // verus!
