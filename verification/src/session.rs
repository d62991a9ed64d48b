//! A session of the remote helper, from the address that git gives to the end of the
//! service that git asks for.
use vstd::prelude::*;

use crate::helper::{
    answer_command, choose_data_root, choose_directory, data_root, directory, granted,
    helper_answer, is_public, listing_needs_password, pack_command, password_backed_identity,
    public_repository, query_arguments, query_models, query_request, repository_path,
    repository_place, sync_from_canister, sync_to_canister, Access, HelperAction, HelperModel,
    PackCommand, PackCommandModel, QueryArgument, QueryModel, Settings, SettingsModel, SyncTarget,
};
use crate::remote::{
    host_refusal, parse_remote, remote_of, resolution, resolve_repository, validate_host,
    PRODUCTION_HOST,
};
use crate::text::{maybe_string, same_text};

verus! {

/// What the user has configured, from the environment and from git.
#[derive(Debug)]
pub struct Situation {
    pub host: Option<String>,
    pub data_dir: Option<String>,
    pub configured_data_dir: Option<String>,
    pub directory: Option<String>,
    pub configured_directory: Option<String>,
    pub canister: Option<String>,
    pub caller: Option<String>,
    pub password_file: bool,
    pub settings: Settings,
}

/// The model of a situation.
pub struct SituationModel {
    pub host: Option<Seq<char>>,
    pub data_dir: Option<Seq<char>>,
    pub configured_data_dir: Option<Seq<char>>,
    pub directory: Option<Seq<char>>,
    pub configured_directory: Option<Seq<char>>,
    pub canister: Option<Seq<char>>,
    pub caller: Option<Seq<char>>,
    pub password_file: bool,
    pub settings: SettingsModel,
}

impl View for Situation {
    type V = SituationModel;

    open spec fn view(&self) -> SituationModel {
        SituationModel {
            host: maybe_string(self.host),
            data_dir: maybe_string(self.data_dir),
            configured_data_dir: maybe_string(self.configured_data_dir),
            directory: maybe_string(self.directory),
            configured_directory: maybe_string(self.configured_directory),
            canister: maybe_string(self.canister),
            caller: maybe_string(self.caller),
            password_file: self.password_file,
            settings: self.settings@,
        }
    }
}

/// What a session asks for. The comment on each variant names the event that answers it.
#[derive(Debug)]
pub enum SessionAction {
    /// List the identities of the command line client: `Output`.
    ListIdentities,
    /// Ask the user for a password and keep it in a file: `Done`.
    AskPassword,
    /// Run the command line client with these arguments: `Output`.
    Query(Vec<QueryArgument>),
    /// Run the program that synchronizes packs: `Finished`.
    Synchronize(PackCommand),
    /// See whether there is a repository at this place: `Present`.
    FindRepository(String),
    /// Ask git whether the repository at this place is public: `Output`.
    AskPublic(String),
    /// Read a command of git: `Line`.
    ReadCommand,
    /// Print this: `Done`.
    Print(String),
    /// Run this service on the repository at this place: `Finished`.
    Serve(String, String),
    /// End as the service did.
    Exit,
    /// End well.
    Stop,
    /// Fail with this message.
    Fail(String),
}

/// The model of an action.
pub enum SessionActionModel {
    ListIdentities,
    AskPassword,
    Query(Seq<QueryModel>),
    Synchronize(PackCommandModel),
    FindRepository(Seq<char>),
    AskPublic(Seq<char>),
    ReadCommand,
    Print(Seq<char>),
    Serve(Seq<char>, Seq<char>),
    Exit,
    Stop,
    Fail(Seq<char>),
}

impl View for SessionAction {
    type V = SessionActionModel;

    open spec fn view(&self) -> SessionActionModel {
        match *self {
            SessionAction::ListIdentities => SessionActionModel::ListIdentities,
            SessionAction::AskPassword => SessionActionModel::AskPassword,
            SessionAction::Query(arguments) => SessionActionModel::Query(query_models(arguments@)),
            SessionAction::Synchronize(command) => SessionActionModel::Synchronize(command@),
            SessionAction::FindRepository(path) => SessionActionModel::FindRepository(path@),
            SessionAction::AskPublic(path) => SessionActionModel::AskPublic(path@),
            SessionAction::ReadCommand => SessionActionModel::ReadCommand,
            SessionAction::Print(text) => SessionActionModel::Print(text@),
            SessionAction::Serve(service, path) => SessionActionModel::Serve(service@, path@),
            SessionAction::Exit => SessionActionModel::Exit,
            SessionAction::Stop => SessionActionModel::Stop,
            SessionAction::Fail(message) => SessionActionModel::Fail(message@),
        }
    }
}

/// The answer to an action. The output of a command comes with whether it succeeded; a
/// line that there is not is the end of the input.
#[derive(Debug)]
pub enum SessionEvent {
    Done,
    Output(bool, Vec<u8>),
    Finished(bool),
    Present(bool),
    Line(Option<String>),
}

/// The model of an event.
pub enum SessionEventModel {
    Done,
    Output(bool, Seq<u8>),
    Finished(bool),
    Present(bool),
    Line(Option<Seq<char>>),
}

impl View for SessionEvent {
    type V = SessionEventModel;

    open spec fn view(&self) -> SessionEventModel {
        match *self {
            SessionEvent::Done => SessionEventModel::Done,
            SessionEvent::Output(success, output) => SessionEventModel::Output(success, output@),
            SessionEvent::Finished(success) => SessionEventModel::Finished(success),
            SessionEvent::Present(present) => SessionEventModel::Present(present),
            SessionEvent::Line(line) => SessionEventModel::Line(maybe_string(line)),
        }
    }
}

/// Where a session stands: what the last action was for.
#[derive(Clone, Copy, Debug, PartialEq, Eq, Structural)]
pub enum SessionStage {
    Unlocking,
    Asking,
    Resolving,
    Receiving,
    Finding,
    Checking,
    Reading,
    Printing,
    Serving,
    Sending,
    Ended,
}

/// A session.
pub struct Session {
    pub situation: Situation,
    pub namespace: String,
    pub repository: String,
    pub production: bool,
    pub owner: String,
    pub canister: Option<String>,
    pub storage: String,
    pub path: String,
    pub access: Access,
    pub upload: bool,
    pub stage: SessionStage,
}

/// The model of a session.
pub struct SessionModel {
    pub situation: SituationModel,
    pub namespace: Seq<char>,
    pub repository: Seq<char>,
    pub production: bool,
    pub owner: Seq<char>,
    pub canister: Option<Seq<char>>,
    pub storage: Seq<char>,
    pub path: Seq<char>,
    pub access: Access,
    pub upload: bool,
    pub stage: SessionStage,
}

impl View for Session {
    type V = SessionModel;

    open spec fn view(&self) -> SessionModel {
        SessionModel {
            situation: self.situation@,
            namespace: self.namespace@,
            repository: self.repository@,
            production: self.production,
            owner: self.owner@,
            canister: maybe_string(self.canister),
            storage: self.storage@,
            path: self.path@,
            access: self.access,
            upload: self.upload,
            stage: self.stage,
        }
    }
}

/// A session that has not begun.
pub open spec fn session_blank(situation: SituationModel) -> SessionModel {
    SessionModel {
        situation,
        namespace: ""@,
        repository: ""@,
        production: false,
        owner: ""@,
        canister: None,
        storage: ""@,
        path: ""@,
        access: Access { on_canister: false, owner: false, public: false },
        upload: false,
        stage: SessionStage::Ended,
    }
}

/// The same session at another stage.
pub open spec fn session_at(s: SessionModel, stage: SessionStage) -> SessionModel {
    SessionModel { stage, ..s }
}

/// The end of a session in failure.
pub open spec fn session_fail(s: SessionModel, message: Seq<char>) -> (
    SessionModel,
    SessionActionModel,
) {
    (session_at(s, SessionStage::Ended), SessionActionModel::Fail(message))
}

/// The beginning of a session: the address is read and its host is checked, and unless a
/// password is at hand the identities are listed.
pub open spec fn session_start(url: Seq<char>, situation: SituationModel) -> (
    SessionModel,
    SessionActionModel,
) {
    let blank = session_blank(situation);
    match remote_of(url) {
        Err(message) => session_fail(blank, message),
        Ok((host, namespace, repository)) => {
            let known = SessionModel {
                namespace,
                repository,
                production: host == Some(PRODUCTION_HOST@),
                ..blank
            };
            match host_refusal(host, situation.host) {
                Some(message) => session_fail(known, message),
                None => if situation.password_file {
                    session_resolve(known)
                } else {
                    (
                        session_at(known, SessionStage::Unlocking),
                        SessionActionModel::ListIdentities,
                    )
                },
            }
        },
    }
}

/// The directory of the session.
pub open spec fn session_directory(s: SessionModel) -> Option<Seq<char>> {
    directory(
        s.situation.directory,
        s.production,
        s.situation.data_dir is Some,
        s.situation.configured_directory,
    )
}

/// Asks the directory for the repository, where there is a directory.
pub open spec fn session_resolve(s: SessionModel) -> (SessionModel, SessionActionModel) {
    match session_directory(s) {
        Some(directory) => (
            session_at(s, SessionStage::Resolving),
            SessionActionModel::Query(
                query_arguments(
                    s.namespace,
                    s.repository,
                    directory,
                    s.situation.settings,
                    s.production,
                    s.situation.password_file,
                ),
            ),
        ),
        None => session_receive(
            SessionModel {
                owner: s.namespace,
                canister: s.situation.canister,
                storage: s.repository,
                ..s
            },
        ),
    }
}

/// The canister, the owner, the name and the place of the repository of a session.
pub open spec fn session_target(s: SessionModel, canister: Seq<char>) -> Seq<Seq<char>> {
    seq![canister, s.owner, s.storage, s.path]
}

/// Brings the local repository up to its canister, where there is one.
pub open spec fn session_receive(s: SessionModel) -> (SessionModel, SessionActionModel) {
    let root = data_root(
        s.situation.data_dir,
        s.production,
        s.situation.configured_data_dir,
    );
    match repository_place(root, s.namespace, s.repository) {
        Err(message) => session_fail(s, message),
        Ok(path) => {
            let known = SessionModel { path, ..s };
            match s.canister {
                Some(canister) => (
                    session_at(known, SessionStage::Receiving),
                    SessionActionModel::Synchronize(
                        pack_command(
                            "materialize"@,
                            session_target(known, canister),
                            s.situation.settings,
                            s.production,
                            s.situation.password_file,
                            "repository not found"@,
                        ),
                    ),
                ),
                None => session_find(known),
            }
        },
    }
}

/// Looks for the local repository.
pub open spec fn session_find(s: SessionModel) -> (SessionModel, SessionActionModel) {
    (session_at(s, SessionStage::Finding), SessionActionModel::FindRepository(s.path))
}

/// Takes up a command of git.
pub open spec fn session_command(s: SessionModel, line: Option<Seq<char>>) -> (
    SessionModel,
    SessionActionModel,
) {
    match helper_answer(s.access, line) {
        HelperModel::Print(text) => (
            session_at(s, SessionStage::Printing),
            SessionActionModel::Print(text),
        ),
        HelperModel::Serve(service, upload) => (
            SessionModel { upload, ..session_at(s, SessionStage::Serving) },
            SessionActionModel::Serve(service, s.path),
        ),
        HelperModel::Stop => (session_at(s, SessionStage::Ended), SessionActionModel::Stop),
        HelperModel::Fail(message) => session_fail(s, message),
    }
}

/// After a service: a push is uploaded to the canister.
pub open spec fn session_served(s: SessionModel, success: bool) -> (
    SessionModel,
    SessionActionModel,
) {
    match s.canister {
        Some(canister) => if success && s.upload {
            (
                session_at(s, SessionStage::Sending),
                SessionActionModel::Synchronize(
                    pack_command(
                        "upload"@,
                        session_target(s, canister),
                        s.situation.settings,
                        s.production,
                        s.situation.password_file,
                        "canister rejected push"@,
                    ),
                ),
            )
        } else {
            (session_at(s, SessionStage::Ended), SessionActionModel::Exit)
        },
        None => (session_at(s, SessionStage::Ended), SessionActionModel::Exit),
    }
}

/// The same session with a password at hand.
pub open spec fn session_unlocked(s: SessionModel) -> SessionModel {
    SessionModel { situation: SituationModel { password_file: true, ..s.situation }, ..s }
}

/// The message for an event that does not answer the action.
pub open spec fn session_confused(s: SessionModel) -> (SessionModel, SessionActionModel) {
    session_fail(s, "the event does not answer the action"@)
}

/// The session after an event, and the next action.
pub open spec fn session_next(s: SessionModel, event: SessionEventModel) -> (
    SessionModel,
    SessionActionModel,
) {
    match (s.stage, event) {
        (SessionStage::Unlocking, SessionEventModel::Output(success, output)) =>
            if listing_needs_password(success, output, s.situation.settings.identity) {
                (session_at(s, SessionStage::Asking), SessionActionModel::AskPassword)
            } else {
                session_resolve(s)
            },
        (SessionStage::Asking, SessionEventModel::Done) => session_resolve(session_unlocked(s)),
        (SessionStage::Resolving, SessionEventModel::Output(success, output)) => match resolution(
            success,
            output,
        ) {
            Err(message) => session_fail(s, message),
            Ok((owner, shard, storage)) => session_receive(
                SessionModel { owner, canister: Some(shard), storage, ..s },
            ),
        },
        (SessionStage::Receiving, SessionEventModel::Finished(success)) => if success {
            session_find(s)
        } else {
            session_fail(s, "repository not found"@)
        },
        (SessionStage::Finding, SessionEventModel::Present(present)) => if present {
            (session_at(s, SessionStage::Checking), SessionActionModel::AskPublic(s.path))
        } else {
            session_fail(s, "repository does not exist: "@ + s.path)
        },
        (SessionStage::Checking, SessionEventModel::Output(success, output)) => (
            SessionModel {
                access: Access {
                    on_canister: s.canister is Some,
                    owner: s.situation.caller == Some(s.owner),
                    public: public_repository(success, output),
                },
                ..session_at(s, SessionStage::Reading)
            },
            SessionActionModel::ReadCommand,
        ),
        (SessionStage::Reading, SessionEventModel::Line(line)) => session_command(s, line),
        (SessionStage::Printing, SessionEventModel::Done) => (
            session_at(s, SessionStage::Reading),
            SessionActionModel::ReadCommand,
        ),
        (SessionStage::Serving, SessionEventModel::Finished(success)) => session_served(
            s,
            success,
        ),
        (SessionStage::Sending, SessionEventModel::Finished(success)) => if success {
            (session_at(s, SessionStage::Ended), SessionActionModel::Exit)
        } else {
            session_fail(s, "canister rejected push"@)
        },
        _ => session_confused(s),
    }
}

fn copy_option(text: &Option<String>) -> (r: Option<String>)
    ensures
        maybe_string(r) == maybe_string(*text),
{
    match text {
        Some(t) => Some(t.clone()),
        None => None,
    }
}

impl Session {
    /// Starts a session for the address `url`.
    pub fn start(url: &str, situation: Situation) -> (r: (Session, SessionAction))
        ensures
            (r.0@, r.1@) == session_start(url@, situation@),
    {
        let mut session = Session {
            situation,
            namespace: "".to_owned(),
            repository: "".to_owned(),
            production: false,
            owner: "".to_owned(),
            canister: None,
            storage: "".to_owned(),
            path: "".to_owned(),
            access: Access { on_canister: false, owner: false, public: false },
            upload: false,
            stage: SessionStage::Ended,
        };
        match parse_remote(url) {
            Err(message) => {
                let action = session.fail(message);
                (session, action)
            },
            Ok((host, namespace, repository)) => {
                session.namespace = namespace.to_owned();
                session.repository = repository.to_owned();
                session.production = match host {
                    Some(name) => same_text(name, PRODUCTION_HOST),
                    None => false,
                };
                let own = match &session.situation.host {
                    Some(own) => Some(own.as_str()),
                    None => None,
                };
                let checked = validate_host(host, own);
                let action = match checked {
                    Err(message) => session.fail(message),
                    Ok(_) => if session.situation.password_file {
                        session.resolve()
                    } else {
                        session.stage = SessionStage::Unlocking;
                        SessionAction::ListIdentities
                    },
                };
                (session, action)
            },
        }
    }

    fn fail(&mut self, message: String) -> (r: SessionAction)
        ensures
            (final(self)@, r@) == session_fail(old(self)@, message@),
    {
        self.stage = SessionStage::Ended;
        SessionAction::Fail(message)
    }

    fn resolve(&mut self) -> (r: SessionAction)
        ensures
            (final(self)@, r@) == session_resolve(old(self)@),
    {
        let chosen = choose_directory(
            copy_option(&self.situation.directory),
            self.production,
            self.situation.data_dir.is_some(),
            copy_option(&self.situation.configured_directory),
        );
        match chosen {
            Some(directory) => {
                let arguments = query_request(
                    self.namespace.as_str(),
                    self.repository.as_str(),
                    directory.as_str(),
                    &self.situation.settings,
                    self.production,
                    self.situation.password_file,
                );
                self.stage = SessionStage::Resolving;
                SessionAction::Query(arguments)
            },
            None => {
                self.owner = self.namespace.clone();
                self.canister = copy_option(&self.situation.canister);
                self.storage = self.repository.clone();
                self.receive()
            },
        }
    }

    fn target(&self, canister: &str) -> (target: SyncTarget)
        ensures
            target@ == session_target(self@, canister@),
    {
        SyncTarget {
            canister: canister.to_owned(),
            owner: self.owner.clone(),
            repository: self.storage.clone(),
            path: self.path.clone(),
        }
    }

    fn receive(&mut self) -> (r: SessionAction)
        ensures
            (final(self)@, r@) == session_receive(old(self)@),
    {
        let root = choose_data_root(
            copy_option(&self.situation.data_dir),
            self.production,
            copy_option(&self.situation.configured_data_dir),
        );
        let path = match repository_path(
            root.as_str(),
            self.namespace.as_str(),
            self.repository.as_str(),
        ) {
            Err(message) => return self.fail(message),
            Ok(path) => path,
        };
        self.path = path;
        match copy_option(&self.canister) {
            Some(canister) => {
                let command = sync_from_canister(
                    &self.target(canister.as_str()),
                    &self.situation.settings,
                    self.production,
                    self.situation.password_file,
                );
                self.stage = SessionStage::Receiving;
                SessionAction::Synchronize(command)
            },
            None => self.find(),
        }
    }

    fn find(&mut self) -> (r: SessionAction)
        ensures
            (final(self)@, r@) == session_find(old(self)@),
    {
        let path = self.path.clone();
        self.stage = SessionStage::Finding;
        SessionAction::FindRepository(path)
    }

    fn command(&mut self, line: Option<String>) -> (r: SessionAction)
        ensures
            (final(self)@, r@) == session_command(old(self)@, maybe_string(line)),
    {
        let answer = match &line {
            Some(text) => answer_command(self.access, Some(text.as_str())),
            None => answer_command(self.access, None),
        };
        match answer {
            HelperAction::Print(text) => {
                self.stage = SessionStage::Printing;
                SessionAction::Print(text)
            },
            HelperAction::Serve(service, upload) => {
                let path = self.path.clone();
                self.upload = upload;
                self.stage = SessionStage::Serving;
                SessionAction::Serve(service, path)
            },
            HelperAction::Stop => {
                self.stage = SessionStage::Ended;
                SessionAction::Stop
            },
            HelperAction::Fail(message) => self.fail(message),
        }
    }

    fn served(&mut self, success: bool) -> (r: SessionAction)
        ensures
            (final(self)@, r@) == session_served(old(self)@, success),
    {
        if success && self.upload {
            if let Some(canister) = copy_option(&self.canister) {
                let command = sync_to_canister(
                    &self.target(canister.as_str()),
                    &self.situation.settings,
                    self.production,
                    self.situation.password_file,
                );
                self.stage = SessionStage::Sending;
                return SessionAction::Synchronize(command);
            }
        }
        self.stage = SessionStage::Ended;
        SessionAction::Exit
    }

    fn needs_password(&self, success: bool, output: &[u8]) -> (r: bool)
        ensures
            r == listing_needs_password(success, output@, self@.situation.settings.identity),
    {
        match &self.situation.settings.identity {
            Some(identity) => password_backed_identity(success, output, Some(identity.as_str())),
            None => password_backed_identity(success, output, None),
        }
    }

    fn is_owner(&self) -> (r: bool)
        ensures
            r == (self@.situation.caller == Some(self@.owner)),
    {
        match &self.situation.caller {
            Some(caller) => same_text(caller.as_str(), self.owner.as_str()),
            None => false,
        }
    }

    /// Takes the answer to the last action and gives the next one.
    pub fn step(&mut self, event: SessionEvent) -> (r: SessionAction)
        ensures
            (final(self)@, r@) == session_next(old(self)@, event@),
    {
        match (self.stage, event) {
            (SessionStage::Unlocking, SessionEvent::Output(success, output)) =>
                if self.needs_password(success, output.as_slice()) {
                    self.stage = SessionStage::Asking;
                    SessionAction::AskPassword
                } else {
                    self.resolve()
                },
            (SessionStage::Asking, SessionEvent::Done) => {
                self.situation.password_file = true;
                self.resolve()
            },
            (SessionStage::Resolving, SessionEvent::Output(success, output)) =>
                match resolve_repository(success, output.as_slice()) {
                    Err(message) => self.fail(message),
                    Ok((owner, shard, storage)) => {
                        self.owner = owner;
                        self.canister = Some(shard);
                        self.storage = storage;
                        self.receive()
                    },
                },
            (SessionStage::Receiving, SessionEvent::Finished(success)) => if success {
                self.find()
            } else {
                self.fail("repository not found".to_owned())
            },
            (SessionStage::Finding, SessionEvent::Present(present)) => if present {
                let path = self.path.clone();
                self.stage = SessionStage::Checking;
                SessionAction::AskPublic(path)
            } else {
                let mut message = "repository does not exist: ".to_owned();
                message.append(self.path.as_str());
                self.fail(message)
            },
            (SessionStage::Checking, SessionEvent::Output(success, output)) => {
                let access = Access {
                    on_canister: self.canister.is_some(),
                    owner: self.is_owner(),
                    public: is_public(success, output.as_slice()),
                };
                self.access = access;
                self.stage = SessionStage::Reading;
                SessionAction::ReadCommand
            },
            (SessionStage::Reading, SessionEvent::Line(line)) => self.command(line),
            (SessionStage::Printing, SessionEvent::Done) => {
                self.stage = SessionStage::Reading;
                SessionAction::ReadCommand
            },
            (SessionStage::Serving, SessionEvent::Finished(success)) => self.served(success),
            (SessionStage::Sending, SessionEvent::Finished(success)) => if success {
                self.stage = SessionStage::Ended;
                SessionAction::Exit
            } else {
                self.fail("canister rejected push".to_owned())
            },
            _ => self.fail("the event does not answer the action".to_owned()),
        }
    }
}

/// One step of a session, as [`session_next`] gives it.
#[verifier::opaque]
pub open spec fn session_step(s: SessionModel, event: SessionEventModel) -> (
    SessionModel,
    SessionActionModel,
) {
    session_next(s, event)
}

/// The session after a list of events, and the action that is then to be taken.
pub open spec fn session_run(
    url: Seq<char>,
    situation: SituationModel,
    events: Seq<SessionEventModel>,
) -> (SessionModel, SessionActionModel)
    decreases events.len(),
{
    if events.len() == 0 {
        session_start(url, situation)
    } else {
        session_step(session_run(url, situation, events.drop_last()).0, events.last())
    }
}

/// The stages in which the local repository is up to date.
pub open spec fn past_receiving(stage: SessionStage) -> bool {
    stage == SessionStage::Finding || stage == SessionStage::Checking || past_checking(stage)
}

/// The stages in which it is known who may use the repository.
pub open spec fn past_checking(stage: SessionStage) -> bool {
    stage == SessionStage::Reading || stage == SessionStage::Printing || stage
        == SessionStage::Serving || stage == SessionStage::Sending
}

/// What holds of a session at any time.
pub open spec fn session_sound(
    s: SessionModel,
    action: SessionActionModel,
    events: Seq<SessionEventModel>,
) -> bool {
    &&& past_receiving(s.stage) && s.canister is Some ==> events.contains(
        SessionEventModel::Finished(true),
    )
    &&& past_checking(s.stage) ==> s.access.on_canister == (s.canister is Some)
    &&& past_checking(s.stage) ==> s.access.owner == (s.situation.caller == Some(s.owner))
    &&& action matches SessionActionModel::Serve(service, path) ==> {
        &&& s.stage == SessionStage::Serving
        &&& path == s.path
        &&& granted(s.access, service == "git-upload-pack"@)
    }
}

proof fn lemma_contains_earlier(events: Seq<SessionEventModel>, event: SessionEventModel)
    requires
        events.len() > 0,
        events.drop_last().contains(event),
    ensures
        events.contains(event),
{
    let front = events.drop_last();
    let i = choose|i: int| 0 <= i < front.len() && front[i] == event;
    assert(events[i] == event);
}

proof fn lemma_session_step(
    s: SessionModel,
    action: SessionActionModel,
    front: Seq<SessionEventModel>,
    event: SessionEventModel,
)
    requires
        session_sound(s, action, front),
    ensures
        session_sound(session_step(s, event).0, session_step(s, event).1, front.push(event)),
{
    reveal(session_step);
    reveal_strlit("git-upload-pack");
    reveal_strlit("git-receive-pack");
    assert("git-upload-pack"@.len() == 15);
    assert("git-receive-pack"@.len() == 16);
    let events = front.push(event);
    assert(events.drop_last() =~= front);
    if front.contains(SessionEventModel::Finished(true)) {
        lemma_contains_earlier(events, SessionEventModel::Finished(true));
    }
    assert(events[events.len() - 1] == event);
}

proof fn lemma_session(
    url: Seq<char>,
    situation: SituationModel,
    events: Seq<SessionEventModel>,
)
    ensures
        session_sound(
            session_run(url, situation, events).0,
            session_run(url, situation, events).1,
            events,
        ),
    decreases events.len(),
{
    if events.len() > 0 {
        let front = events.drop_last();
        lemma_session(url, situation, front);
        lemma_session_step(
            session_run(url, situation, front).0,
            session_run(url, situation, front).1,
            front,
            events.last(),
        );
        assert(front.push(events.last()) =~= events);
    }
}

/// In every session, a repository without a canister is served to its owner, and for
/// reading to anyone if it is public; to nobody else.
pub proof fn strangers_are_not_served(
    url: Seq<char>,
    situation: SituationModel,
    events: Seq<SessionEventModel>,
    service: Seq<char>,
    path: Seq<char>,
)
    requires
        session_run(url, situation, events).1 == SessionActionModel::Serve(service, path),
    ensures
        ({
            let s = session_run(url, situation, events).0;
            ||| s.canister is Some
            ||| s.situation.caller == Some(s.owner)
            ||| service == "git-upload-pack"@ && s.access.public
        }),
{
    lemma_session(url, situation, events);
}

/// In every session, a repository on a canister is served only once it was brought up to
/// date.
pub proof fn repositories_are_brought_up_to_date_first(
    url: Seq<char>,
    situation: SituationModel,
    events: Seq<SessionEventModel>,
)
    requires
        session_run(url, situation, events).1 is Serve,
        session_run(url, situation, events).0.canister is Some,
    ensures
        events.contains(SessionEventModel::Finished(true)),
{
    lemma_session(url, situation, events);
}

} // verus!
