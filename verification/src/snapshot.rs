//! How an operation comes by a snapshot of its repository.
//!
//! A push takes the one that its session stored, or asks the canister. A pull asks the
//! canister, and stores what it gets for the session. The canister is asked by the direct
//! transport only, and what it answers is cached.
use vstd::prelude::*;

use crate::agent::{is_switched_on, switched_on};
use crate::json::{bool_field, field, json_bytes, json_document, text_field, Json, JsonModel};
use crate::operation::Operation;
use crate::text::{maybe_string, maybe_text};
use crate::transport::{
    generation, known_generation, maybe_bytes, maybe_snapshot, session_document, session_name,
    session_snapshot, snapshot_answer, snapshot_argument, snapshot_of, snapshot_question,
    store_session_snapshot, take_session_snapshot, transport_snapshot, usable, valid_session,
    SnapshotModel, TransportSnapshot,
};

verus! {

/// The canister is asked what its transport offers, and for snapshots: there is an agent,
/// and the direct transport is not switched off.
pub open spec fn asks(disabled: Option<Seq<char>>, agent: bool) -> bool {
    !switched_on(disabled) && agent
}

/// Whether the canister is asked for snapshots and for what its transport offers.
pub fn asks_for_snapshot(disabled: Option<&str>, agent: bool) -> (r: bool)
    ensures
        r == (!switched_on(maybe_text(disabled)) && agent),
{
    !is_switched_on(disabled) && agent
}

/// What to do next for a snapshot.
#[derive(Debug)]
pub enum SnapshotAction {
    /// Read what the session stored, and remove it.
    TakeSession,
    /// Read what was cached.
    ReadCache,
    /// Ask the canister for its snapshot, with this argument.
    Ask(String),
    /// Cache these bytes.
    WriteCache(Vec<u8>),
    /// Store these bytes for the session.
    StoreSession(Vec<u8>),
    /// This is the snapshot.
    Finish(Option<TransportSnapshot>),
}

/// The model of an action.
pub enum SnapshotStep {
    TakeSession,
    ReadCache,
    Ask(Seq<char>),
    WriteCache(Seq<u8>),
    StoreSession(Seq<u8>),
    Finish(Option<SnapshotModel>),
}

impl View for SnapshotAction {
    type V = SnapshotStep;

    open spec fn view(&self) -> SnapshotStep {
        match *self {
            SnapshotAction::TakeSession => SnapshotStep::TakeSession,
            SnapshotAction::ReadCache => SnapshotStep::ReadCache,
            SnapshotAction::Ask(argument) => SnapshotStep::Ask(argument@),
            SnapshotAction::WriteCache(bytes) => SnapshotStep::WriteCache(bytes@),
            SnapshotAction::StoreSession(bytes) => SnapshotStep::StoreSession(bytes@),
            SnapshotAction::Finish(snapshot) => SnapshotStep::Finish(maybe_snapshot(snapshot)),
        }
    }
}

/// What came of an action.
#[derive(Debug)]
pub enum SnapshotEvent {
    /// What a file holds, if it can be read.
    Found(Option<Vec<u8>>),
    /// The reply of the canister, if it gave one.
    Reply(Option<Json>),
    /// What was to be written is done with.
    Written,
}

/// The model of an event.
pub enum SnapshotNews {
    Found(Option<Seq<u8>>),
    Reply(Option<JsonModel>),
    Written,
}

/// The model of an optional document.
pub open spec fn maybe_document(document: Option<Json>) -> Option<JsonModel> {
    match document {
        Some(value) => Some(value@),
        None => None,
    }
}

impl View for SnapshotEvent {
    type V = SnapshotNews;

    open spec fn view(&self) -> SnapshotNews {
        match *self {
            SnapshotEvent::Found(bytes) => SnapshotNews::Found(maybe_bytes(bytes)),
            SnapshotEvent::Reply(reply) => SnapshotNews::Reply(maybe_document(reply)),
            SnapshotEvent::Written => SnapshotNews::Written,
        }
    }
}

/// How far the search for a snapshot has come.
#[derive(Debug)]
pub enum SnapshotStage {
    /// The session is looked at.
    Session,
    /// The cache is read.
    Cache,
    /// The canister is asked; this is what was cached.
    Question(Option<Json>),
    /// The answer is cached; this is the snapshot in it.
    Caching(Option<TransportSnapshot>),
    /// The snapshot is stored for the session.
    Storing(TransportSnapshot),
    /// The search is over.
    Finished,
}

/// The model of a stage.
pub enum StageModel {
    Session,
    Cache,
    Question(Option<JsonModel>),
    Caching(Option<SnapshotModel>),
    Storing(SnapshotModel),
    Finished,
}

impl View for SnapshotStage {
    type V = StageModel;

    open spec fn view(&self) -> StageModel {
        match *self {
            SnapshotStage::Session => StageModel::Session,
            SnapshotStage::Cache => StageModel::Cache,
            SnapshotStage::Question(cached) => StageModel::Question(maybe_document(cached)),
            SnapshotStage::Caching(snapshot) => StageModel::Caching(maybe_snapshot(snapshot)),
            SnapshotStage::Storing(snapshot) => StageModel::Storing(snapshot@),
            SnapshotStage::Finished => StageModel::Finished,
        }
    }
}

/// The search for a snapshot.
#[derive(Debug)]
pub struct SnapshotSearch {
    pub operation: Operation,
    pub owner: String,
    pub repository: String,
    pub asks: bool,
    pub session: Option<String>,
    pub stage: SnapshotStage,
}

/// What a search goes by: the operation, the repository, whether the canister is asked, and
/// the session, if there is one.
pub struct Terms {
    pub operation: Operation,
    pub owner: Seq<char>,
    pub repository: Seq<char>,
    pub asks: bool,
    pub session: Option<Seq<char>>,
}

/// The model of a search.
pub struct SearchModel {
    pub terms: Terms,
    pub stage: StageModel,
}

impl View for SnapshotSearch {
    type V = SearchModel;

    open spec fn view(&self) -> SearchModel {
        SearchModel {
            terms: Terms {
                operation: self.operation,
                owner: self.owner@,
                repository: self.repository@,
                asks: self.asks,
                session: maybe_string(self.session),
            },
            stage: self.stage@,
        }
    }
}

/// The session in a variable: one with a name that can be.
pub open spec fn named_session(session: Option<Seq<char>>) -> Option<Seq<char>> {
    match session {
        Some(name) => if session_name(name) {
            Some(name)
        } else {
            None
        },
        None => None,
    }
}

/// The document in bytes that were read.
pub open spec fn found_document(bytes: Option<Seq<u8>>) -> Option<JsonModel> {
    match bytes {
        Some(b) => match json_document(b) {
            Ok(document) => Some(document),
            Err(_) => None,
        },
        None => None,
    }
}

/// The search ends with a snapshot; a pull stores it for its session first.
pub open spec fn search_ends(terms: Terms, snapshot: Option<SnapshotModel>) -> (
    SearchModel,
    SnapshotStep,
) {
    match (terms.operation, terms.session, snapshot) {
        (Operation::Materialize, Some(session), Some(s)) => (
            SearchModel { terms, stage: StageModel::Storing(s) },
            SnapshotStep::StoreSession(json_bytes(session_document(session, s.raw))),
        ),
        _ => (
            SearchModel { terms, stage: StageModel::Finished },
            SnapshotStep::Finish(snapshot),
        ),
    }
}

/// The search turns to the canister.
pub open spec fn search_asks(terms: Terms) -> (SearchModel, SnapshotStep) {
    if terms.asks {
        (SearchModel { terms, stage: StageModel::Cache }, SnapshotStep::ReadCache)
    } else {
        search_ends(terms, None)
    }
}

/// The search begins: a push looks at its session first, a pull asks the canister, and
/// nothing else wants a snapshot.
pub open spec fn search_begins(terms: Terms) -> (SearchModel, SnapshotStep) {
    match terms.operation {
        Operation::Upload => if terms.session is Some {
            (SearchModel { terms, stage: StageModel::Session }, SnapshotStep::TakeSession)
        } else {
            search_asks(terms)
        },
        Operation::Materialize => search_asks(terms),
        Operation::IndexBrowse => search_ends(terms, None),
    }
}

/// The bytes that an event tells of.
pub open spec fn news_bytes(news: SnapshotNews) -> Option<Seq<u8>> {
    match news {
        SnapshotNews::Found(bytes) => bytes,
        _ => None,
    }
}

/// The reply that an event tells of.
pub open spec fn news_reply(news: SnapshotNews) -> Option<JsonModel> {
    match news {
        SnapshotNews::Reply(reply) => reply,
        _ => None,
    }
}

/// What the session stored, as an event tells of it.
pub open spec fn stored_snapshot(
    session: Option<Seq<char>>,
    bytes: Option<Seq<u8>>,
) -> Option<SnapshotModel> {
    match (session, bytes) {
        (Some(name), Some(b)) => session_snapshot(b, name),
        _ => None,
    }
}

/// The canister's answer is made use of.
pub open spec fn search_answered(
    terms: Terms,
    cached: Option<JsonModel>,
    reply: Option<JsonModel>,
) -> (SearchModel, SnapshotStep) {
    match reply {
        None => search_ends(terms, None),
        Some(value) => {
            let (bytes, snapshot) = snapshot_answer(value, cached);
            match bytes {
                Some(b) => (
                    SearchModel { terms, stage: StageModel::Caching(snapshot) },
                    SnapshotStep::WriteCache(b),
                ),
                None => search_ends(terms, snapshot),
            }
        },
    }
}

/// The next state and action of a search.
pub open spec fn search_next(search: SearchModel, news: SnapshotNews) -> (
    SearchModel,
    SnapshotStep,
) {
    let terms = search.terms;
    match search.stage {
        StageModel::Session => match stored_snapshot(terms.session, news_bytes(news)) {
            Some(snapshot) => search_ends(terms, Some(snapshot)),
            None => search_asks(terms),
        },
        StageModel::Cache => {
            let cached = found_document(news_bytes(news));
            (
                SearchModel { terms, stage: StageModel::Question(cached) },
                SnapshotStep::Ask(
                    snapshot_question(terms.owner, terms.repository, known_generation(cached)),
                ),
            )
        },
        StageModel::Question(cached) => search_answered(terms, cached, news_reply(news)),
        StageModel::Caching(snapshot) => search_ends(terms, snapshot),
        StageModel::Storing(snapshot) => (
            SearchModel { terms, stage: StageModel::Finished },
            SnapshotStep::Finish(Some(snapshot)),
        ),
        StageModel::Finished => (search, SnapshotStep::Finish(None)),
    }
}

/// The limits in a snapshot are usable.
pub open spec fn usable_snapshot(snapshot: Option<SnapshotModel>) -> bool {
    snapshot matches Some(s) ==> usable(s.capabilities)
}

/// The limits in the snapshots that a search holds are usable.
pub open spec fn search_usable(search: SearchModel) -> bool {
    match search.stage {
        StageModel::Caching(snapshot) => usable_snapshot(snapshot),
        StageModel::Storing(snapshot) => usable(snapshot.capabilities),
        _ => true,
    }
}

/// The limits in the snapshot that a search ends with are usable.
pub open spec fn step_usable(step: SnapshotStep) -> bool {
    step matches SnapshotStep::Finish(snapshot) ==> usable_snapshot(snapshot)
}

impl SnapshotEvent {
    fn bytes(self) -> (r: Option<Vec<u8>>)
        ensures
            maybe_bytes(r) == news_bytes(self@),
    {
        match self {
            SnapshotEvent::Found(bytes) => bytes,
            _ => None,
        }
    }

    fn reply(self) -> (r: Option<Json>)
        ensures
            maybe_document(r) == news_reply(self@),
    {
        match self {
            SnapshotEvent::Reply(reply) => reply,
            _ => None,
        }
    }
}

fn parse_found(bytes: Option<Vec<u8>>) -> (r: Option<Json>)
    ensures
        maybe_document(r) == found_document(maybe_bytes(bytes)),
{
    match bytes {
        Some(b) => match Json::parse(b.as_slice()) {
            Ok(document) => Some(document),
            Err(_) => None,
        },
        None => None,
    }
}

impl SnapshotSearch {
    /// Begins the search of an operation. `disabled` is the switch that turns the direct
    /// transport off, and `session` the name of the session, both as the environment has
    /// them.
    pub fn start(
        operation: Operation,
        owner: &str,
        repository: &str,
        disabled: Option<&str>,
        agent: bool,
        session: Option<String>,
    ) -> (r: (SnapshotSearch, SnapshotAction))
        ensures
            (r.0@, r.1@) == search_begins(
                (Terms {
                    operation,
                    owner: owner@,
                    repository: repository@,
                    asks: asks(maybe_text(disabled), agent),
                    session: named_session(maybe_string(session)),
                }),
            ),
            search_usable(r.0@),
            step_usable(r.1@),
    {
        let session = match session {
            Some(name) => if valid_session(name.as_str()) {
                Some(name)
            } else {
                None
            },
            None => None,
        };
        let mut search = SnapshotSearch {
            operation,
            owner: owner.to_owned(),
            repository: repository.to_owned(),
            asks: asks_for_snapshot(disabled, agent),
            session,
            stage: SnapshotStage::Finished,
        };
        let action = match operation {
            Operation::Upload => if search.session.is_some() {
                search.stage = SnapshotStage::Session;
                SnapshotAction::TakeSession
            } else {
                search.ask()
            },
            Operation::Materialize => search.ask(),
            Operation::IndexBrowse => search.end(None),
        };
        (search, action)
    }

    fn end(&mut self, snapshot: Option<TransportSnapshot>) -> (r: SnapshotAction)
        requires
            usable_snapshot(maybe_snapshot(snapshot)),
        ensures
            (final(self)@, r@) == search_ends(old(self)@.terms, maybe_snapshot(snapshot)),
            search_usable(final(self)@),
            step_usable(r@),
    {
        match (&self.session, snapshot) {
            (Some(session), Some(s)) => if self.operation == Operation::Materialize {
                let bytes = store_session_snapshot(session.as_str(), &s);
                self.stage = SnapshotStage::Storing(s);
                SnapshotAction::StoreSession(bytes)
            } else {
                self.stage = SnapshotStage::Finished;
                SnapshotAction::Finish(Some(s))
            },
            (_, snapshot) => {
                self.stage = SnapshotStage::Finished;
                SnapshotAction::Finish(snapshot)
            },
        }
    }

    fn ask(&mut self) -> (r: SnapshotAction)
        ensures
            (final(self)@, r@) == search_asks(old(self)@.terms),
            search_usable(final(self)@),
            step_usable(r@),
    {
        if self.asks {
            self.stage = SnapshotStage::Cache;
            SnapshotAction::ReadCache
        } else {
            self.end(None)
        }
    }

    fn answered(&mut self, cached: Option<Json>, reply: Option<Json>) -> (r: SnapshotAction)
        ensures
            (final(self)@, r@) == search_answered(
                old(self)@.terms,
                maybe_document(cached),
                maybe_document(reply),
            ),
            search_usable(final(self)@),
            step_usable(r@),
    {
        match reply {
            None => self.end(None),
            Some(value) => {
                let (bytes, snapshot) = transport_snapshot(&value, cached.as_ref());
                match bytes {
                    Some(b) => {
                        self.stage = SnapshotStage::Caching(snapshot);
                        SnapshotAction::WriteCache(b)
                    },
                    None => self.end(snapshot),
                }
            },
        }
    }

    /// Takes an event, and gives the next action.
    pub fn step(&mut self, event: SnapshotEvent) -> (r: SnapshotAction)
        requires
            search_usable(old(self)@),
        ensures
            (final(self)@, r@) == search_next(old(self)@, event@),
            search_usable(final(self)@),
            step_usable(r@),
    {
        let mut stage = SnapshotStage::Finished;
        std::mem::swap(&mut self.stage, &mut stage);
        match stage {
            SnapshotStage::Session => {
                let stored = match (&self.session, event.bytes()) {
                    (Some(session), Some(bytes)) => take_session_snapshot(
                        bytes.as_slice(),
                        session.as_str(),
                    ),
                    _ => None,
                };
                if stored.is_some() {
                    self.end(stored)
                } else {
                    self.ask()
                }
            },
            SnapshotStage::Cache => {
                let cached = parse_found(event.bytes());
                let argument = snapshot_argument(
                    self.owner.as_str(),
                    self.repository.as_str(),
                    cached.as_ref(),
                );
                self.stage = SnapshotStage::Question(cached);
                SnapshotAction::Ask(argument)
            },
            SnapshotStage::Question(cached) => self.answered(cached, event.reply()),
            SnapshotStage::Caching(snapshot) => self.end(snapshot),
            SnapshotStage::Storing(snapshot) => SnapshotAction::Finish(Some(snapshot)),
            SnapshotStage::Finished => SnapshotAction::Finish(None),
        }
    }
}

/// What a search meets: the bytes that the session stored, the bytes that were cached, and
/// the reply of the canister.
pub struct Surroundings {
    pub session: Option<Seq<u8>>,
    pub cache: Option<Seq<u8>>,
    pub reply: Option<JsonModel>,
}

/// What comes of an action.
pub open spec fn outcome_of(at: Surroundings, step: SnapshotStep) -> SnapshotNews {
    match step {
        SnapshotStep::TakeSession => SnapshotNews::Found(at.session),
        SnapshotStep::ReadCache => SnapshotNews::Found(at.cache),
        SnapshotStep::Ask(_) => SnapshotNews::Reply(at.reply),
        _ => SnapshotNews::Written,
    }
}

/// The actions of a search from some point on, `most` of them at most, up to the one that
/// ends it.
pub open spec fn steps_from(
    at: Surroundings,
    search: SearchModel,
    step: SnapshotStep,
    most: nat,
) -> Seq<SnapshotStep>
    decreases most,
{
    if most == 0 {
        seq![]
    } else if step is Finish {
        seq![step]
    } else {
        let (next, action) = search_next(search, outcome_of(at, step));
        seq![step] + steps_from(at, next, action, (most - 1) as nat)
    }
}

/// The actions of a search.
pub open spec fn search_steps(at: Surroundings, terms: Terms) -> Seq<SnapshotStep> {
    let (search, step) = search_begins(terms);
    steps_from(at, search, step, 6)
}

/// The actions by which the canister is asked: nothing where it is not asked. The question
/// tells the generation that was cached, and an answer with news is cached.
pub open spec fn canister_steps(at: Surroundings, terms: Terms) -> Seq<SnapshotStep> {
    if !terms.asks {
        seq![]
    } else {
        let cached = found_document(at.cache);
        let asked = seq![
            SnapshotStep::ReadCache,
            SnapshotStep::Ask(
                snapshot_question(terms.owner, terms.repository, known_generation(cached)),
            ),
        ];
        match at.reply {
            Some(reply) => match snapshot_answer(reply, cached).0 {
                Some(bytes) => asked.push(SnapshotStep::WriteCache(bytes)),
                None => asked,
            },
            None => asked,
        }
    }
}

/// The snapshot that the canister gives, if it is asked and gives one.
pub open spec fn canister_snapshot(at: Surroundings, terms: Terms) -> Option<SnapshotModel> {
    match at.reply {
        Some(reply) => if terms.asks {
            snapshot_answer(reply, found_document(at.cache)).1
        } else {
            None
        },
        None => None,
    }
}

/// The actions by which a search ends: a pull stores the snapshot that it has for its
/// session.
pub open spec fn last_steps(terms: Terms, snapshot: Option<SnapshotModel>) -> Seq<SnapshotStep> {
    match (terms.operation, terms.session, snapshot) {
        (Operation::Materialize, Some(session), Some(s)) => seq![
            SnapshotStep::StoreSession(json_bytes(session_document(session, s.raw))),
            SnapshotStep::Finish(snapshot),
        ],
        _ => seq![SnapshotStep::Finish(snapshot)],
    }
}

proof fn lemma_search_ends(
    at: Surroundings,
    terms: Terms,
    snapshot: Option<SnapshotModel>,
    most: nat,
)
    requires
        most >= 2,
    ensures
        ({
            let (search, step) = search_ends(terms, snapshot);
            steps_from(at, search, step, most) == last_steps(terms, snapshot)
        }),
{
    reveal_with_fuel(steps_from, 3);
    let (search, step) = search_ends(terms, snapshot);
    assert(steps_from(at, search, step, most) =~= last_steps(terms, snapshot));
}

proof fn lemma_search_asks(at: Surroundings, terms: Terms, most: nat)
    requires
        most >= 5,
    ensures
        ({
            let (search, step) = search_asks(terms);
            steps_from(at, search, step, most) == canister_steps(at, terms) + last_steps(
                terms,
                canister_snapshot(at, terms),
            )
        }),
{
    let (search, step) = search_asks(terms);
    let end = last_steps(terms, canister_snapshot(at, terms));
    if !terms.asks {
        lemma_search_ends(at, terms, None, most);
        assert(canister_steps(at, terms) + end =~= end);
    } else {
        let (second, ask) = search_next(search, outcome_of(at, step));
        let (third, step3) = search_next(second, outcome_of(at, ask));
        let rest = steps_from(at, third, step3, (most - 2) as nat);
        assert(steps_from(at, second, ask, (most - 1) as nat) == seq![ask] + rest);
        assert(steps_from(at, search, step, most) =~= seq![step, ask] + rest);
        if step3 is WriteCache {
            let snapshot = canister_snapshot(at, terms);
            lemma_search_ends(at, terms, snapshot, (most - 3) as nat);
            assert(rest == seq![step3] + end);
            assert(seq![step, ask] + rest =~= seq![step, ask].push(step3) + end);
            assert(canister_steps(at, terms) =~= seq![step, ask].push(step3));
        } else {
            lemma_search_ends(at, terms, canister_snapshot(at, terms), (most - 2) as nat);
            assert(canister_steps(at, terms) =~= seq![step, ask]);
        }
    }
}

/// A push looks at its session first. What the session stored is the snapshot, and the
/// canister is not called; otherwise the canister is asked.
pub proof fn pushes_prefer_the_session(at: Surroundings, terms: Terms)
    requires
        terms.operation == Operation::Upload,
    ensures
        search_steps(at, terms) == match (
            terms.session,
            stored_snapshot(terms.session, at.session),
        ) {
            (None, _) => canister_steps(at, terms) + seq![
                SnapshotStep::Finish(canister_snapshot(at, terms)),
            ],
            (Some(_), Some(snapshot)) => seq![
                SnapshotStep::TakeSession,
                SnapshotStep::Finish(Some(snapshot)),
            ],
            (Some(_), None) => seq![SnapshotStep::TakeSession] + (canister_steps(at, terms) + seq![
                SnapshotStep::Finish(canister_snapshot(at, terms)),
            ]),
        },
{
    lemma_search_asks(at, terms, 6);
    lemma_search_asks(at, terms, 5);
    if terms.session is Some {
        let stored = stored_snapshot(terms.session, at.session);
        lemma_search_ends(at, terms, stored, 5);
        if stored is Some {
            assert(search_steps(at, terms) =~= seq![
                SnapshotStep::TakeSession,
                SnapshotStep::Finish(stored),
            ]);
        }
    }
}

/// A pull asks the canister, never its session, and stores the snapshot that it gets for
/// its session.
pub proof fn pulls_store_the_snapshot(at: Surroundings, terms: Terms)
    requires
        terms.operation == Operation::Materialize,
    ensures
        search_steps(at, terms) == canister_steps(at, terms) + match (
            terms.session,
            canister_snapshot(at, terms),
        ) {
            (Some(session), Some(snapshot)) => seq![
                SnapshotStep::StoreSession(json_bytes(session_document(session, snapshot.raw))),
                SnapshotStep::Finish(Some(snapshot)),
            ],
            (_, snapshot) => seq![SnapshotStep::Finish(snapshot)],
        },
{
    lemma_search_asks(at, terms, 6);
}

/// An index of what is browsed goes by no snapshot.
pub proof fn indexing_wants_no_snapshot(at: Surroundings, terms: Terms)
    requires
        terms.operation == Operation::IndexBrowse,
    ensures
        search_steps(at, terms) == seq![SnapshotStep::Finish(None)],
{
    reveal_with_fuel(steps_from, 2);
    assert(search_steps(at, terms) =~= seq![SnapshotStep::Finish(None)]);
}

/// With the direct transport switched off, or without an agent, the canister is not called,
/// nothing is cached, and it gives no snapshot. Otherwise it is asked once: the question has
/// the generation that was cached where that is 64 hexadecimal digits, and `null` where not.
/// A call that fails and a reply without `ok` give no snapshot; a reply that nothing changed
/// gives the snapshot in the cache, if there is one; neither touches the cache. Any other
/// reply is the snapshot, and becomes the cache.
pub proof fn the_canister_gives_snapshots(
    at: Surroundings,
    terms: Terms,
    disabled: Option<Seq<char>>,
    agent: bool,
)
    requires
        terms.asks == asks(disabled, agent),
    ensures
        disabled == Some("1"@) || !agent ==> {
            &&& canister_steps(at, terms) == Seq::<SnapshotStep>::empty()
            &&& canister_snapshot(at, terms) is None
        },
        disabled != Some("1"@) && agent ==> {
            let cached = found_document(at.cache);
            let known = match cached {
                Some(document) => match text_field(document, "generation"@) {
                    Some(text) => if generation(text) {
                        "opt \""@ + text + "\""@
                    } else {
                        "null"@
                    },
                    None => "null"@,
                },
                None => "null"@,
            };
            let argument = "(principal \""@ + terms.owner + "\", \""@ + terms.repository
                + "\", "@ + known + ")"@;
            let asked = seq![SnapshotStep::ReadCache, SnapshotStep::Ask(argument)];
            let answer = match at.reply {
                Some(reply) => field(reply, "ok"@),
                None => None,
            };
            match answer {
                None => {
                    &&& canister_steps(at, terms) == asked
                    &&& canister_snapshot(at, terms) is None
                },
                Some(value) => if bool_field(value, "unchanged"@) == Some(true) {
                    &&& canister_steps(at, terms) == asked
                    &&& canister_snapshot(at, terms) == match cached {
                        Some(document) => snapshot_of(document),
                        None => None,
                    }
                } else {
                    &&& canister_steps(at, terms) == asked.push(
                        SnapshotStep::WriteCache(json_bytes(value)),
                    )
                    &&& canister_snapshot(at, terms) == snapshot_of(value)
                },
            }
        },
{
}

} // verus!
