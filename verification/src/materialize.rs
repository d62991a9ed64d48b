//! The materialization: what a fetch does on the local repository.
//!
//! Every complete pack of the canister that is not here is fetched in chunks, checked
//! against its id, indexed and put in place. Then the local refs are replaced by those of
//! the canister.
use vstd::prelude::*;

use crate::action::{
    call_models, confused, give_up, maybe_document, reject, rejection, Action, ActionModel, Call,
    CallModel, Event, EventModel, Repository,
};
use crate::download::{
    batched_downloads, download_calls, download_requests, gives_batches, read_chunks, replies_bytes,
};
use crate::json::{bool_field, items_field, models_are_memberwise, text_field, Json, JsonModel};
use crate::refs::{
    listed_refs, local_refs, names, pairs, read_refs, refs_of, replace_local_refs,
    replacement_script,
};
use crate::text::{lines, lossy, maybe_string, parse_usize, same_text, unsigned_up_to};
use crate::transport::{
    call_concurrency, concurrency, default_capabilities, maybe_snapshot, offered,
    transport_capabilities, SnapshotModel, TransportCapabilities, TransportSnapshot,
};
use crate::upload::{list_packs, list_packs_call, list_refs, list_refs_call};

verus! {

/// Where a materialization stands: what the last action was for.
#[derive(Clone, Copy, Debug, PartialEq, Eq, Structural)]
pub enum MaterializeStage {
    Probing,
    Preparing,
    Checking,
    Finding,
    Reindexing,
    Opening,
    Fetching,
    Appending,
    Sealing,
    Discarding,
    Indexing,
    Installing,
    FindingAll,
    IndexingAll,
    PacksDone,
    ListingRemote,
    ListingLocal,
    Replacing,
    Pointing,
    Finishing,
    Ended,
    Stopped,
}

/// What decides how many calls run at a time: the processors of the machine, and the
/// number that the user configured.
#[derive(Debug)]
pub struct Pace {
    pub processors: Option<usize>,
    pub configured: Option<String>,
}

/// The model of a pace.
pub struct PaceModel {
    pub processors: Option<usize>,
    pub configured: Option<Seq<char>>,
}

impl View for Pace {
    type V = PaceModel;

    open spec fn view(&self) -> PaceModel {
        PaceModel { processors: self.processors, configured: maybe_string(self.configured) }
    }
}

impl Pace {
    /// The number of calls to run at a time, of `calls` in all.
    pub fn group(&self, calls: usize) -> (size: usize)
        ensures
            size == concurrency(self@.processors, self@.configured, calls),
            1 <= size <= 16,
    {
        match &self.configured {
            Some(text) => call_concurrency(self.processors, Some(text.as_str()), calls),
            None => call_concurrency(self.processors, None, calls),
        }
    }
}

/// A materialization.
pub struct Materialize {
    pub at: Repository,
    pub pace: Pace,
    pub capabilities: TransportCapabilities,
    pub refs: Option<Vec<(String, String)>>,
    pub packs: Vec<Json>,
    pub next: usize,
    pub installed: bool,
    pub id: String,
    pub count: usize,
    pub calls: Vec<Call>,
    pub sent: usize,
    pub stage: MaterializeStage,
}

/// The model of a materialization.
pub struct MaterializeModel {
    pub at: (Seq<char>, Seq<char>),
    pub pace: PaceModel,
    pub capabilities: TransportCapabilities,
    pub refs: Option<Seq<(Seq<char>, Seq<char>)>>,
    pub packs: Seq<JsonModel>,
    pub next: nat,
    pub installed: bool,
    pub id: Seq<char>,
    pub count: nat,
    pub calls: Seq<CallModel>,
    pub sent: nat,
    pub stage: MaterializeStage,
}

/// The model of an optional list of refs.
pub open spec fn maybe_refs(refs: Option<Vec<(String, String)>>) -> Option<
    Seq<(Seq<char>, Seq<char>)>,
> {
    match refs {
        Some(list) => Some(pairs(list@)),
        None => None,
    }
}

impl View for Materialize {
    type V = MaterializeModel;

    open spec fn view(&self) -> MaterializeModel {
        MaterializeModel {
            at: self.at@,
            pace: self.pace@,
            capabilities: self.capabilities,
            refs: maybe_refs(self.refs),
            packs: Json::models(self.packs@),
            next: self.next as nat,
            installed: self.installed,
            id: self.id@,
            count: self.count as nat,
            calls: call_models(self.calls@),
            sent: self.sent as nat,
            stage: self.stage,
        }
    }
}

/// A materialization that has not begun.
pub open spec fn materialize_blank(
    at: (Seq<char>, Seq<char>),
    pace: PaceModel,
) -> MaterializeModel {
    MaterializeModel {
        at,
        pace,
        capabilities: default_capabilities(),
        refs: None,
        packs: seq![],
        next: 0,
        installed: false,
        id: ""@,
        count: 0,
        calls: seq![],
        sent: 0,
        stage: MaterializeStage::Probing,
    }
}

/// The beginning: without a snapshot, the canister is asked for its packs and
/// capabilities.
pub open spec fn materialize_start(
    at: (Seq<char>, Seq<char>),
    pace: PaceModel,
    snapshot: Option<SnapshotModel>,
) -> (MaterializeModel, ActionModel) {
    match snapshot {
        Some(known) => (
            MaterializeModel {
                capabilities: known.capabilities,
                refs: Some(known.refs),
                packs: known.pack_values,
                stage: MaterializeStage::Preparing,
                ..materialize_blank(at, pace)
            },
            ActionModel::PreparePacks,
        ),
        None => (
            materialize_blank(at, pace),
            ActionModel::Negotiate(seq![list_packs_call(at)]),
        ),
    }
}

/// The same materialization at another stage.
pub open spec fn materialize_at(s: MaterializeModel, stage: MaterializeStage) -> MaterializeModel {
    MaterializeModel { stage, ..s }
}

/// The end of a materialization without success.
pub open spec fn materialize_stop(s: MaterializeModel, action: ActionModel) -> (
    MaterializeModel,
    ActionModel,
) {
    (materialize_at(s, MaterializeStage::Stopped), action)
}

/// After probing: the packs of the canister are known.
pub open spec fn materialize_probed(
    s: MaterializeModel,
    offer: Option<JsonModel>,
    replies: Seq<JsonModel>,
) -> (MaterializeModel, ActionModel) {
    if replies.len() != 1 {
        materialize_stop(s, confused())
    } else {
        match items_field(replies[0], "ok"@) {
            None => materialize_stop(s, rejection("pack listing rejected: "@, replies[0])),
            Some(packs) => (
                MaterializeModel {
                    capabilities: offered(offer),
                    packs,
                    stage: MaterializeStage::Preparing,
                    ..s
                },
                ActionModel::PreparePacks,
            ),
        }
    }
}

/// The number of chunks of a pack.
pub open spec fn chunk_count(pack: JsonModel) -> Option<nat> {
    match text_field(pack, "chunk_count"@) {
        Some(text) => unsigned_up_to(text, usize::MAX as nat),
        None => None,
    }
}

/// The next complete pack from the pack `s.next` on, or the end of the packs.
pub open spec fn materialize_packs(s: MaterializeModel) -> (MaterializeModel, ActionModel)
    decreases s.packs.len() - s.next,
{
    if s.next >= s.packs.len() {
        materialize_index_all(s)
    } else {
        let pack = s.packs[s.next as int];
        let rest = MaterializeModel { next: s.next + 1, ..s };
        if bool_field(pack, "complete"@) != Some(true) {
            materialize_packs(rest)
        } else {
            match (text_field(pack, "pack_id"@), chunk_count(pack)) {
                (None, _) => materialize_stop(rest, ActionModel::Abort("a pack has no id"@)),
                (Some(_), None) => materialize_stop(
                    rest,
                    ActionModel::Abort("a pack has no number of chunks"@),
                ),
                (Some(id), Some(count)) => (
                    MaterializeModel {
                        id,
                        count,
                        stage: MaterializeStage::Checking,
                        ..rest
                    },
                    ActionModel::ReadChecksum(id),
                ),
            }
        }
    }
}

/// After checking: a pack that is here is passed over, any other is received.
pub open spec fn materialize_checked(s: MaterializeModel, found: Option<Seq<char>>) -> (
    MaterializeModel,
    ActionModel,
) {
    if found == Some(s.id) {
        (materialize_at(s, MaterializeStage::Finding), ActionModel::FindIndex(s.id))
    } else {
        (
            MaterializeModel {
                calls: download_calls(s.at, s.id, s.count, s.capabilities),
                sent: 0,
                stage: MaterializeStage::Opening,
                ..s
            },
            ActionModel::OpenIncoming(s.id),
        )
    }
}

/// The end of the group of calls that comes next.
pub open spec fn group_end(s: MaterializeModel) -> nat {
    let size = concurrency(s.pace.processors, s.pace.configured, s.calls.len() as usize);
    if s.calls.len() - s.sent <= size {
        s.calls.len()
    } else {
        s.sent + size as nat
    }
}

/// Fetches the next group of chunks, or checks the received pack once it is whole.
pub open spec fn materialize_fetch(s: MaterializeModel) -> (MaterializeModel, ActionModel) {
    if s.sent < s.calls.len() {
        (
            materialize_at(s, MaterializeStage::Fetching),
            ActionModel::Calls(s.calls.subrange(s.sent as int, group_end(s) as int)),
        )
    } else {
        (materialize_at(s, MaterializeStage::Sealing), ActionModel::IncomingChecksum(s.id))
    }
}

/// After fetching a group of chunks: their bytes are appended.
pub open spec fn materialize_fetched(s: MaterializeModel, replies: Seq<JsonModel>) -> (
    MaterializeModel,
    ActionModel,
) {
    match replies_bytes(replies, gives_batches(s.capabilities)) {
        Err(action) => materialize_stop(s, action),
        Ok(bytes) => if s.sent < s.calls.len() {
            (
                MaterializeModel {
                    sent: group_end(s),
                    stage: MaterializeStage::Appending,
                    ..s
                },
                ActionModel::Append(bytes),
            )
        } else {
            materialize_stop(s, confused())
        },
    }
}

/// After receiving a pack: it is indexed if it is what its id says, and thrown away
/// otherwise.
pub open spec fn materialize_sealed(s: MaterializeModel, found: Option<Seq<char>>) -> (
    MaterializeModel,
    ActionModel,
) {
    if found == Some(s.id) {
        (materialize_at(s, MaterializeStage::Indexing), ActionModel::IndexIncoming(s.id))
    } else {
        (materialize_at(s, MaterializeStage::Discarding), ActionModel::DiscardIncoming(s.id))
    }
}

/// After the packs: several packs get an index over all of them, unless there is one and
/// nothing was installed.
pub open spec fn materialize_index_all(s: MaterializeModel) -> (MaterializeModel, ActionModel) {
    if s.packs.len() <= 1 {
        materialize_packs_done(s)
    } else if s.installed {
        (materialize_at(s, MaterializeStage::IndexingAll), ActionModel::WriteMultiPackIndex)
    } else {
        (materialize_at(s, MaterializeStage::FindingAll), ActionModel::FindMultiPackIndex)
    }
}

/// The end of the packs.
pub open spec fn materialize_packs_done(s: MaterializeModel) -> (MaterializeModel, ActionModel) {
    (
        materialize_at(s, MaterializeStage::PacksDone),
        ActionModel::Mark("pack_download_and_verify"@),
    )
}

/// After listing the refs of the canister.
pub open spec fn materialize_listed(s: MaterializeModel, reply: JsonModel) -> (
    MaterializeModel,
    ActionModel,
) {
    match items_field(reply, "ok"@) {
        None => materialize_stop(s, rejection("ref listing rejected: "@, reply)),
        Some(entries) => match refs_of(entries) {
            None => materialize_stop(s, ActionModel::Abort("a ref has no name or no object"@)),
            Some(refs) => (
                MaterializeModel { refs: Some(refs), stage: MaterializeStage::ListingLocal, ..s },
                ActionModel::ListRefs,
            ),
        },
    }
}

/// The branch that `HEAD` points at.
pub open spec fn main_branch() -> Seq<char> {
    "refs/heads/main"@
}

/// The refs that are wanted.
pub open spec fn wanted_refs(s: MaterializeModel) -> Seq<(Seq<char>, Seq<char>)> {
    match s.refs {
        Some(refs) => refs,
        None => seq![],
    }
}

/// The materialization after an event, and the next action.
pub open spec fn materialize_next(s: MaterializeModel, event: EventModel) -> (
    MaterializeModel,
    ActionModel,
) {
    match (s.stage, event) {
        (MaterializeStage::Probing, EventModel::Negotiated(offer, replies)) => materialize_probed(
            s,
            offer,
            replies,
        ),
        (MaterializeStage::Preparing, EventModel::Done) => materialize_packs(s),
        (MaterializeStage::Checking, EventModel::Checksum(found)) => materialize_checked(s, found),
        (MaterializeStage::Finding, EventModel::Present(present)) => if present {
            materialize_packs(s)
        } else {
            (materialize_at(s, MaterializeStage::Reindexing), ActionModel::IndexPack(s.id))
        },
        (MaterializeStage::Reindexing, EventModel::Done) => materialize_packs(s),
        (MaterializeStage::Opening, EventModel::Done) => materialize_fetch(s),
        (MaterializeStage::Fetching, EventModel::Replies(replies)) => materialize_fetched(
            s,
            replies,
        ),
        (MaterializeStage::Appending, EventModel::Done) => materialize_fetch(s),
        (MaterializeStage::Sealing, EventModel::Checksum(found)) => materialize_sealed(s, found),
        (MaterializeStage::Discarding, EventModel::Done) => materialize_stop(
            s,
            ActionModel::Fail("pack checksum mismatch: "@ + s.id),
        ),
        (MaterializeStage::Indexing, EventModel::Done) => (
            materialize_at(s, MaterializeStage::Installing),
            ActionModel::InstallIncoming(s.id),
        ),
        (MaterializeStage::Installing, EventModel::Done) => materialize_packs(
            MaterializeModel { installed: true, ..s },
        ),
        (MaterializeStage::FindingAll, EventModel::Present(present)) => if present {
            materialize_packs_done(s)
        } else {
            (
                materialize_at(s, MaterializeStage::IndexingAll),
                ActionModel::WriteMultiPackIndex,
            )
        },
        (MaterializeStage::IndexingAll, EventModel::Done) => materialize_packs_done(s),
        (MaterializeStage::PacksDone, EventModel::Done) => if s.refs is Some {
            (materialize_at(s, MaterializeStage::ListingLocal), ActionModel::ListRefs)
        } else {
            (
                materialize_at(s, MaterializeStage::ListingRemote),
                ActionModel::Call(list_refs_call(s.at)),
            )
        },
        (MaterializeStage::ListingRemote, EventModel::Reply(reply)) => materialize_listed(
            s,
            reply,
        ),
        (MaterializeStage::ListingLocal, EventModel::Output(output)) => (
            materialize_at(s, MaterializeStage::Replacing),
            ActionModel::UpdateRefs(
                replacement_script(listed_refs(lines(lossy(output))), wanted_refs(s)),
            ),
        ),
        (MaterializeStage::Replacing, EventModel::Done) => if names(wanted_refs(s)).contains(
            main_branch(),
        ) {
            (materialize_at(s, MaterializeStage::Pointing), ActionModel::PointHead)
        } else {
            (materialize_at(s, MaterializeStage::Finishing), ActionModel::Mark("refs"@))
        },
        (MaterializeStage::Pointing, EventModel::Done) => (
            materialize_at(s, MaterializeStage::Finishing),
            ActionModel::Mark("refs"@),
        ),
        (MaterializeStage::Finishing, EventModel::Done) => (
            materialize_at(s, MaterializeStage::Ended),
            ActionModel::Finish,
        ),
        _ => materialize_stop(s, confused()),
    }
}

/// Copies of the calls `calls[from..to]`.
fn call_range(calls: &Vec<Call>, from: usize, to: usize) -> (r: Vec<Call>)
    requires
        from <= to <= calls@.len(),
    ensures
        call_models(r@) == call_models(calls@).subrange(from as int, to as int),
{
    let mut r: Vec<Call> = Vec::new();
    let mut i: usize = from;
    while i < to
        invariant
            from <= i <= to <= calls@.len(),
            r@.len() == i - from,
            forall|k: int| 0 <= k < r@.len() ==> #[trigger] r@[k]@ == calls@[from + k]@,
        decreases to - i,
    {
        r.push(
            Call { method: calls[i].method.clone(), argument: calls[i].argument.clone() },
        );
        i += 1;
    }
    assert(call_models(r@) =~= call_models(calls@).subrange(from as int, to as int));
    r
}

/// Whether one of the refs has this name.
fn has_ref(refs: &Vec<(String, String)>, name: &str) -> (r: bool)
    ensures
        r == names(pairs(refs@)).contains(name@),
{
    let ghost all = names(pairs(refs@));
    let mut i: usize = 0;
    while i < refs.len()
        invariant
            i <= refs@.len(),
            all == names(pairs(refs@)),
            forall|k: int| 0 <= k < i ==> all[k] != name@,
        decreases refs.len() - i,
    {
        assert(all[i as int] == refs@[i as int].0@);
        if same_text(refs[i].0.as_str(), name) {
            return true;
        }
        i += 1;
    }
    false
}

impl Materialize {
    /// Starts a materialization.
    pub fn start(at: Repository, pace: Pace, snapshot: Option<TransportSnapshot>) -> (r: (
        Materialize,
        Action,
    ))
        ensures
            (r.0@, r.1@) == materialize_start(at@, pace@, maybe_snapshot(snapshot)),
    {
        let call = list_packs(&at);
        let mut materialize = Materialize {
            at,
            pace,
            capabilities: TransportCapabilities::default(),
            refs: None,
            packs: Vec::new(),
            next: 0,
            installed: false,
            id: "".to_owned(),
            count: 0,
            calls: Vec::new(),
            sent: 0,
            stage: MaterializeStage::Probing,
        };
        assert(call_models(materialize.calls@) =~= seq![]);
        match snapshot {
            Some(known) => {
                materialize.capabilities = known.capabilities;
                materialize.refs = Some(known.refs);
                materialize.packs = known.pack_values;
                materialize.stage = MaterializeStage::Preparing;
                (materialize, Action::PreparePacks)
            },
            None => {
                let mut calls: Vec<Call> = Vec::new();
                calls.push(call);
                assert(call_models(calls@) =~= seq![list_packs_call(materialize.at@)]);
                (materialize, Action::Negotiate(calls))
            },
        }
    }

    fn stop(&mut self, action: Action) -> (r: Action)
        ensures
            (final(self)@, r@) == materialize_stop(old(self)@, action@),
    {
        self.stage = MaterializeStage::Stopped;
        action
    }

    fn probed(&mut self, offer: Option<Json>, replies: &Vec<Json>) -> (r: Action)
        ensures
            (final(self)@, r@) == materialize_probed(
                old(self)@,
                maybe_document(offer),
                Json::models(replies@),
            ),
    {
        proof {
            models_are_memberwise(replies@);
        }
        if replies.len() != 1 {
            return self.stop(give_up());
        }
        let packs = match replies[0].array_at("ok") {
            None => return self.stop(reject("pack listing rejected: ", &replies[0])),
            Some(packs) => Json::copy_all(packs),
        };
        self.capabilities = transport_capabilities(offer.as_ref());
        self.packs = packs;
        self.stage = MaterializeStage::Preparing;
        Action::PreparePacks
    }

    fn packs(&mut self) -> (r: Action)
        ensures
            (final(self)@, r@) == materialize_packs(old(self)@),
    {
        proof {
            models_are_memberwise(self.packs@);
        }
        let ghost start = self@;
        while self.next < self.packs.len()
            invariant
                Json::models(self.packs@) == Seq::new(
                    self.packs@.len(),
                    |k: int| self.packs@[k]@,
                ),
                start == old(self)@,
                materialize_packs(start) == materialize_packs(self@),
            decreases self.packs.len() - self.next,
        {
            let pack = &self.packs[self.next];
            let ghost model = self@.packs[self.next as int];
            assert(model == pack@);
            let complete = match pack.bool_at("complete") {
                Some(b) => b,
                None => false,
            };
            if complete {
                let id = match pack.text_at("pack_id") {
                    Some(id) => Some(id.to_owned()),
                    None => None,
                };
                let count = match pack.text_at("chunk_count") {
                    Some(text) => parse_usize(text),
                    None => None,
                };
                self.next = self.next + 1;
                return match (id, count) {
                    (None, _) => self.stop(Action::Abort("a pack has no id".to_owned())),
                    (Some(_), None) => self.stop(
                        Action::Abort("a pack has no number of chunks".to_owned()),
                    ),
                    (Some(id), Some(count)) => {
                        let name = id.clone();
                        self.id = id;
                        self.count = count;
                        self.stage = MaterializeStage::Checking;
                        Action::ReadChecksum(name)
                    },
                };
            }
            self.next = self.next + 1;
        }
        self.index_all()
    }

    fn checked(&mut self, found: Option<String>) -> (r: Action)
        ensures
            (final(self)@, r@) == materialize_checked(old(self)@, maybe_string(found)),
    {
        let id = self.id.clone();
        let here = match found {
            Some(text) => same_text(text.as_str(), id.as_str()),
            None => false,
        };
        if here {
            self.stage = MaterializeStage::Finding;
            Action::FindIndex(id)
        } else {
            self.calls = download_requests(&self.at, id.as_str(), self.count, &self.capabilities);
            self.sent = 0;
            self.stage = MaterializeStage::Opening;
            Action::OpenIncoming(id)
        }
    }

    fn group(&self) -> (end: usize)
        requires
            self.sent < self.calls@.len(),
        ensures
            end == group_end(self@),
            self.sent < end <= self.calls@.len(),
    {
        let size = self.pace.group(self.calls.len());
        assert(call_models(self.calls@).len() == self.calls@.len());
        if self.calls.len() - self.sent <= size {
            self.calls.len()
        } else {
            self.sent + size
        }
    }

    fn fetch(&mut self) -> (r: Action)
        ensures
            (final(self)@, r@) == materialize_fetch(old(self)@),
    {
        assert(call_models(self.calls@).len() == self.calls@.len());
        if self.sent < self.calls.len() {
            let end = self.group();
            let calls = call_range(&self.calls, self.sent, end);
            self.stage = MaterializeStage::Fetching;
            Action::Calls(calls)
        } else {
            let id = self.id.clone();
            self.stage = MaterializeStage::Sealing;
            Action::IncomingChecksum(id)
        }
    }

    fn fetched(&mut self, replies: &Vec<Json>) -> (r: Action)
        ensures
            (final(self)@, r@) == materialize_fetched(old(self)@, Json::models(replies@)),
    {
        assert(call_models(self.calls@).len() == self.calls@.len());
        let batched = batched_downloads(&self.capabilities);
        match read_chunks(replies, batched) {
            Err(action) => self.stop(action),
            Ok(bytes) => if self.sent < self.calls.len() {
                let end = self.group();
                self.sent = end;
                self.stage = MaterializeStage::Appending;
                Action::Append(bytes)
            } else {
                self.stop(give_up())
            },
        }
    }

    fn sealed(&mut self, found: Option<String>) -> (r: Action)
        ensures
            (final(self)@, r@) == materialize_sealed(old(self)@, maybe_string(found)),
    {
        let id = self.id.clone();
        let whole = match found {
            Some(text) => same_text(text.as_str(), id.as_str()),
            None => false,
        };
        if whole {
            self.stage = MaterializeStage::Indexing;
            Action::IndexIncoming(id)
        } else {
            self.stage = MaterializeStage::Discarding;
            Action::DiscardIncoming(id)
        }
    }

    fn index_all(&mut self) -> (r: Action)
        ensures
            (final(self)@, r@) == materialize_index_all(old(self)@),
    {
        proof {
            models_are_memberwise(self.packs@);
        }
        if self.packs.len() <= 1 {
            self.packs_done()
        } else if self.installed {
            self.stage = MaterializeStage::IndexingAll;
            Action::WriteMultiPackIndex
        } else {
            self.stage = MaterializeStage::FindingAll;
            Action::FindMultiPackIndex
        }
    }

    fn packs_done(&mut self) -> (r: Action)
        ensures
            (final(self)@, r@) == materialize_packs_done(old(self)@),
    {
        self.stage = MaterializeStage::PacksDone;
        Action::Mark("pack_download_and_verify".to_owned())
    }

    fn listed(&mut self, reply: &Json) -> (r: Action)
        ensures
            (final(self)@, r@) == materialize_listed(old(self)@, reply@),
    {
        match reply.array_at("ok") {
            None => self.stop(reject("ref listing rejected: ", reply)),
            Some(entries) => match read_refs(entries) {
                None => self.stop(Action::Abort("a ref has no name or no object".to_owned())),
                Some(refs) => {
                    self.refs = Some(refs);
                    self.stage = MaterializeStage::ListingLocal;
                    Action::ListRefs
                },
            },
        }
    }

    fn replace(&mut self, output: &[u8]) -> (r: Action)
        ensures
            (final(self)@, r@) == (
                materialize_at(old(self)@, MaterializeStage::Replacing),
                ActionModel::UpdateRefs(
                    replacement_script(
                        listed_refs(lines(lossy(output@))),
                        wanted_refs(old(self)@),
                    ),
                ),
            ),
    {
        let local = local_refs(output);
        let script = match &self.refs {
            Some(refs) => replace_local_refs(&local, refs),
            None => {
                let none: Vec<(String, String)> = Vec::new();
                assert(pairs(none@) =~= seq![]);
                replace_local_refs(&local, &none)
            },
        };
        self.stage = MaterializeStage::Replacing;
        Action::UpdateRefs(script)
    }

    fn has_main(&self) -> (r: bool)
        ensures
            r == names(wanted_refs(self@)).contains(main_branch()),
    {
        match &self.refs {
            Some(refs) => has_ref(refs, "refs/heads/main"),
            None => false,
        }
    }

    /// Takes the answer to the last action and gives the next one.
    pub fn step(&mut self, event: Event) -> (r: Action)
        ensures
            (final(self)@, r@) == materialize_next(old(self)@, event@),
    {
        match (self.stage, event) {
            (MaterializeStage::Probing, Event::Negotiated(offer, replies)) => self.probed(
                offer,
                &replies,
            ),
            (MaterializeStage::Preparing, Event::Done) => self.packs(),
            (MaterializeStage::Checking, Event::Checksum(found)) => self.checked(found),
            (MaterializeStage::Finding, Event::Present(present)) => if present {
                self.packs()
            } else {
                let id = self.id.clone();
                self.stage = MaterializeStage::Reindexing;
                Action::IndexPack(id)
            },
            (MaterializeStage::Reindexing, Event::Done) => self.packs(),
            (MaterializeStage::Opening, Event::Done) => self.fetch(),
            (MaterializeStage::Fetching, Event::Replies(replies)) => self.fetched(&replies),
            (MaterializeStage::Appending, Event::Done) => self.fetch(),
            (MaterializeStage::Sealing, Event::Checksum(found)) => self.sealed(found),
            (MaterializeStage::Discarding, Event::Done) => {
                let mut message = "pack checksum mismatch: ".to_owned();
                message.append(self.id.as_str());
                self.stop(Action::Fail(message))
            },
            (MaterializeStage::Indexing, Event::Done) => {
                let id = self.id.clone();
                self.stage = MaterializeStage::Installing;
                Action::InstallIncoming(id)
            },
            (MaterializeStage::Installing, Event::Done) => {
                self.installed = true;
                self.packs()
            },
            (MaterializeStage::FindingAll, Event::Present(present)) => if present {
                self.packs_done()
            } else {
                self.stage = MaterializeStage::IndexingAll;
                Action::WriteMultiPackIndex
            },
            (MaterializeStage::IndexingAll, Event::Done) => self.packs_done(),
            (MaterializeStage::PacksDone, Event::Done) => if self.refs.is_some() {
                self.stage = MaterializeStage::ListingLocal;
                Action::ListRefs
            } else {
                let call = list_refs(&self.at);
                self.stage = MaterializeStage::ListingRemote;
                Action::Call(call)
            },
            (MaterializeStage::ListingRemote, Event::Reply(reply)) => self.listed(&reply),
            (MaterializeStage::ListingLocal, Event::Output(output)) => self.replace(
                output.as_slice(),
            ),
            (MaterializeStage::Replacing, Event::Done) => if self.has_main() {
                self.stage = MaterializeStage::Pointing;
                Action::PointHead
            } else {
                self.stage = MaterializeStage::Finishing;
                Action::Mark("refs".to_owned())
            },
            (MaterializeStage::Pointing, Event::Done) => {
                self.stage = MaterializeStage::Finishing;
                Action::Mark("refs".to_owned())
            },
            (MaterializeStage::Finishing, Event::Done) => {
                self.stage = MaterializeStage::Ended;
                Action::Finish
            },
            _ => self.stop(give_up()),
        }
    }
}

} // verus!
