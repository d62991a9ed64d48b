//! What holds of every session as a whole: which repository it is about, from the address
//! to the upload.
use vstd::prelude::*;

use crate::helper::{
    data_root, directory, listing_needs_password, named_entry, needs_password, pack_environment,
    project_of, public_repository, repository_place, Access, PackCommandModel, QueryModel,
    SettingsModel,
};
use crate::json::{items_field, json_document, text_field, JsonModel};
use crate::remote::{host_refusal, remote_of, resolution};
use crate::session::{
    session_next, session_receive, session_run, session_step, SessionActionModel, SessionEventModel,
    SessionModel, SessionStage, SituationModel,
};
use crate::text::{lossy, trimmed};

verus! {

/// The action that the event at `i` answers.
pub open spec fn action_at(
    url: Seq<char>,
    situation: SituationModel,
    events: Seq<SessionEventModel>,
    i: int,
) -> SessionActionModel {
    session_run(url, situation, events.take(i)).1
}

/// The event at `i` is the answer of the directory that this repository of this owner is on
/// this canister.
pub open spec fn directory_tells(
    url: Seq<char>,
    situation: SituationModel,
    events: Seq<SessionEventModel>,
    i: int,
    owner: Seq<char>,
    canister: Seq<char>,
    storage: Seq<char>,
) -> bool {
    &&& 0 <= i < events.len()
    &&& action_at(url, situation, events, i) is Query
    &&& events[i] matches SessionEventModel::Output(success, output) && success && resolution(
        true,
        output,
    ) == Ok::<(Seq<char>, Seq<char>, Seq<char>), Seq<char>>((owner, canister, storage))
}

/// No directory was asked in the session so far.
pub open spec fn no_directory(
    url: Seq<char>,
    situation: SituationModel,
    events: Seq<SessionEventModel>,
) -> bool {
    forall|i: int|
        0 <= i <= events.len() ==> (#[trigger] action_at(url, situation, events, i)) !is Query
}

/// Where the repository of a session is: where the directory said; or, where none was asked,
/// on the canister of the environment, under the names in the address.
pub open spec fn is_found(
    url: Seq<char>,
    situation: SituationModel,
    events: Seq<SessionEventModel>,
    owner: Seq<char>,
    canister: Seq<char>,
    storage: Seq<char>,
) -> bool {
    ||| exists|i: int| #[trigger]
        directory_tells(url, situation, events, i, owner, canister, storage)
    ||| {
        &&& no_directory(url, situation, events)
        &&& situation.canister == Some(canister)
        &&& remote_of(url) matches Ok((_, namespace, repository)) && owner == namespace && storage
            == repository
    }
}

/// The action at `i` brought this repository up to date, and succeeded.
pub open spec fn was_received(
    url: Seq<char>,
    situation: SituationModel,
    events: Seq<SessionEventModel>,
    i: int,
    target: Seq<Seq<char>>,
) -> bool {
    &&& 0 <= i < events.len()
    &&& action_at(url, situation, events, i) matches SessionActionModel::Synchronize(command)
        && command.arguments == seq!["materialize"@] + target
    &&& events[i] == SessionEventModel::Finished(true)
}

/// The stages before the repository is known.
spec fn fresh(stage: SessionStage) -> bool {
    stage == SessionStage::Unlocking || stage == SessionStage::Asking
}

/// The stages in which it is known where the repository is.
spec fn known(stage: SessionStage) -> bool {
    stage == SessionStage::Receiving || stage == SessionStage::Finding || stage
        == SessionStage::Checking || stage == SessionStage::Reading || stage
        == SessionStage::Printing || stage == SessionStage::Serving || stage
        == SessionStage::Sending
}

/// What a session would synchronize.
spec fn target(s: SessionModel) -> Seq<Seq<char>> {
    seq![s.canister->Some_0, s.owner, s.storage, s.path]
}

spec fn synchronizes(action: SessionActionModel, arguments: Seq<Seq<char>>) -> bool {
    action matches SessionActionModel::Synchronize(command) && command.arguments == arguments
}

/// What stage and action have to do with one another.
spec fn fits(s: SessionModel, action: SessionActionModel) -> bool {
    &&& action is Query <==> s.stage == SessionStage::Resolving
    &&& action is Synchronize ==> s.stage == SessionStage::Receiving || s.stage
        == SessionStage::Sending
    &&& s.stage == SessionStage::Receiving ==> s.canister is Some && synchronizes(
        action,
        seq!["materialize"@] + target(s),
    )
    &&& s.stage == SessionStage::Sending ==> s.canister is Some && synchronizes(
        action,
        seq!["upload"@] + target(s),
    )
}

/// Without a directory, the repository is where the environment and the address say.
spec fn found_directly(s: SessionModel) -> bool {
    &&& s.canister == s.situation.canister
    &&& s.owner == s.namespace
    &&& s.storage == s.repository
    &&& s.stage == SessionStage::Receiving || s.canister is None
}

spec fn step_facts(s: SessionModel, event: SessionEventModel) -> bool {
    let (after, next) = session_next(s, event);
    &&& fits(after, next)
    &&& after.stage != SessionStage::Ended ==> {
        &&& s.stage != SessionStage::Ended
        &&& after.namespace == s.namespace
        &&& after.repository == s.repository
        &&& after.situation.canister == s.situation.canister
    }
    &&& fresh(after.stage) || after.stage == SessionStage::Resolving ==> fresh(s.stage)
    &&& known(after.stage) ==> {
        &&& fresh(s.stage) ==> found_directly(after)
        &&& s.stage == SessionStage::Resolving ==> {
            &&& after.stage == SessionStage::Receiving
            &&& event matches SessionEventModel::Output(success, output) && success && resolution(
                true,
                output,
            ) == Ok::<(Seq<char>, Seq<char>, Seq<char>), Seq<char>>(
                (after.owner, after.canister->Some_0, after.storage),
            )
        }
        &&& known(s.stage) ==> {
            &&& after.canister == s.canister
            &&& after.owner == s.owner
            &&& after.storage == s.storage
            &&& after.path == s.path
            &&& after.stage != SessionStage::Receiving
            &&& s.stage == SessionStage::Receiving ==> event == SessionEventModel::Finished(true)
        }
    }
}

proof fn lemma_step_facts(s: SessionModel, event: SessionEventModel)
    ensures
        step_facts(s, event),
{
}

spec fn traced(
    url: Seq<char>,
    situation: SituationModel,
    s: SessionModel,
    action: SessionActionModel,
    events: Seq<SessionEventModel>,
) -> bool {
    &&& fits(s, action)
    &&& s.stage != SessionStage::Ended ==> {
        &&& remote_of(url) matches Ok((_, namespace, repository)) && s.namespace == namespace
            && s.repository == repository
        &&& s.situation.canister == situation.canister
    }
    &&& fresh(s.stage) ==> no_directory(url, situation, events)
    &&& known(s.stage) && s.canister is Some ==> {
        &&& is_found(url, situation, events, s.owner, s.canister->Some_0, s.storage)
        &&& s.stage != SessionStage::Receiving ==> exists|i: int| #[trigger]
            was_received(url, situation, events, i, target(s))
    }
}

proof fn lemma_earlier(
    url: Seq<char>,
    situation: SituationModel,
    front: Seq<SessionEventModel>,
    event: SessionEventModel,
)
    ensures
        forall|i: int|
            0 <= i <= front.len() ==> #[trigger] action_at(url, situation, front.push(event), i)
                == action_at(url, situation, front, i),
        action_at(url, situation, front.push(event), front.len() as int) == session_run(
            url,
            situation,
            front,
        ).1,
        action_at(url, situation, front.push(event), front.len() as int + 1) == session_run(
            url,
            situation,
            front.push(event),
        ).1,
        session_run(url, situation, front.push(event)) == session_step(
            session_run(url, situation, front).0,
            event,
        ),
{
    let events = front.push(event);
    assert forall|i: int| 0 <= i <= front.len() implies #[trigger] action_at(
        url,
        situation,
        events,
        i,
    ) == action_at(url, situation, front, i) by {
        assert(events.take(i) =~= front.take(i));
    }
    assert(events.take(front.len() as int) =~= front);
    assert(events.take(front.len() as int + 1) =~= events);
    assert(events.drop_last() =~= front);
}

proof fn lemma_found_later(
    url: Seq<char>,
    situation: SituationModel,
    front: Seq<SessionEventModel>,
    event: SessionEventModel,
    owner: Seq<char>,
    canister: Seq<char>,
    storage: Seq<char>,
)
    requires
        is_found(url, situation, front, owner, canister, storage),
        session_run(url, situation, front.push(event)).1 !is Query,
    ensures
        is_found(url, situation, front.push(event), owner, canister, storage),
{
    lemma_earlier(url, situation, front, event);
    let events = front.push(event);
    if exists|i: int| #[trigger]
        directory_tells(url, situation, front, i, owner, canister, storage) {
        let i = choose|i: int| #[trigger]
            directory_tells(url, situation, front, i, owner, canister, storage);
        assert(events[i] == front[i]);
        assert(directory_tells(url, situation, events, i, owner, canister, storage));
    } else {
        lemma_still_none(url, situation, front, event);
    }
}

proof fn lemma_still_none(
    url: Seq<char>,
    situation: SituationModel,
    front: Seq<SessionEventModel>,
    event: SessionEventModel,
)
    requires
        no_directory(url, situation, front),
        session_run(url, situation, front.push(event)).1 !is Query,
    ensures
        no_directory(url, situation, front.push(event)),
{
    lemma_earlier(url, situation, front, event);
    let events = front.push(event);
    assert forall|i: int| 0 <= i <= events.len() implies (#[trigger] action_at(
        url,
        situation,
        events,
        i,
    )) !is Query by {
        if i <= front.len() {
            assert(action_at(url, situation, front, i) !is Query);
        }
    }
}

proof fn lemma_received_later(
    url: Seq<char>,
    situation: SituationModel,
    front: Seq<SessionEventModel>,
    event: SessionEventModel,
    target: Seq<Seq<char>>,
)
    requires
        exists|i: int| #[trigger] was_received(url, situation, front, i, target),
    ensures
        exists|i: int| #[trigger] was_received(url, situation, front.push(event), i, target),
{
    lemma_earlier(url, situation, front, event);
    let i = choose|i: int| #[trigger] was_received(url, situation, front, i, target);
    assert(front.push(event)[i] == front[i]);
    assert(was_received(url, situation, front.push(event), i, target));
}

#[verifier::rlimit(60)]
proof fn lemma_traced_step(
    url: Seq<char>,
    situation: SituationModel,
    front: Seq<SessionEventModel>,
    event: SessionEventModel,
)
    requires
        traced(
            url,
            situation,
            session_run(url, situation, front).0,
            session_run(url, situation, front).1,
            front,
        ),
    ensures
        traced(
            url,
            situation,
            session_run(url, situation, front.push(event)).0,
            session_run(url, situation, front.push(event)).1,
            front.push(event),
        ),
{
    let events = front.push(event);
    let (s, action) = session_run(url, situation, front);
    let (after, next) = session_run(url, situation, events);
    lemma_earlier(url, situation, front, event);
    lemma_step_facts(s, event);
    assert((after, next) == session_next(s, event)) by {
        reveal(session_step);
    }
    let n = front.len() as int;
    assert(events[n] == event);
    if fresh(after.stage) {
        lemma_still_none(url, situation, front, event);
    }
    if known(after.stage) && after.canister is Some {
        let c = after.canister->Some_0;
        if s.stage == SessionStage::Resolving {
            assert(directory_tells(url, situation, events, n, after.owner, c, after.storage));
        } else if fresh(s.stage) {
            lemma_still_none(url, situation, front, event);
        } else {
            lemma_found_later(url, situation, front, event, s.owner, c, s.storage);
            if s.stage == SessionStage::Receiving {
                assert(was_received(url, situation, events, n, target(after)));
            } else {
                lemma_received_later(url, situation, front, event, target(s));
            }
        }
    }
}

proof fn lemma_traced(
    url: Seq<char>,
    situation: SituationModel,
    events: Seq<SessionEventModel>,
)
    ensures
        traced(
            url,
            situation,
            session_run(url, situation, events).0,
            session_run(url, situation, events).1,
            events,
        ),
    decreases events.len(),
{
    if events.len() == 0 {
        assert(events.take(0) =~= events);
        assert(action_at(url, situation, events, 0) == session_run(url, situation, events).1);
    } else {
        let front = events.drop_last();
        lemma_traced(url, situation, front);
        lemma_traced_step(url, situation, front, events.last());
        assert(front.push(events.last()) =~= events);
    }
}

/// In every session, a repository is synchronized where it is: on the canister, of the owner
/// and under the name that the directory answered; or, where no directory was asked, on the
/// canister of the environment under the names in the address. A command either brings the
/// local repository up to date or uploads it.
pub proof fn repositories_are_synchronized_where_they_are(
    url: Seq<char>,
    situation: SituationModel,
    events: Seq<SessionEventModel>,
    command: PackCommandModel,
)
    requires
        session_run(url, situation, events).1 == SessionActionModel::Synchronize(command),
    ensures
        command.arguments.len() == 5,
        command.arguments[0] == "materialize"@ || command.arguments[0] == "upload"@,
        is_found(
            url,
            situation,
            events,
            command.arguments[2],
            command.arguments[1],
            command.arguments[3],
        ),
{
    lemma_traced(url, situation, events);
}

/// In every session, the upload after a push goes to the same canister, owner, repository
/// and local place as the one that was brought up to date before, with success.
pub proof fn pushes_go_where_the_repository_came_from(
    url: Seq<char>,
    situation: SituationModel,
    events: Seq<SessionEventModel>,
    command: PackCommandModel,
)
    requires
        session_run(url, situation, events).1 == SessionActionModel::Synchronize(command),
        command.arguments[0] == "upload"@,
    ensures
        exists|i: int| #[trigger]
            was_received(url, situation, events, i, command.arguments.skip(1)),
{
    lemma_traced(url, situation, events);
    reveal_strlit("materialize");
    reveal_strlit("upload");
    assert("materialize"@.len() == 11);
    assert("upload"@.len() == 6);
    let s = session_run(url, situation, events).0;
    assert(command.arguments.skip(1) =~= target(s));
}

/// The answer to a question about the identities, and what follows it: nothing where a
/// password is at hand; the listing where none is needed; and else the password too.
pub open spec fn unlocking(
    situation: SituationModel,
    success: bool,
    listing: Seq<u8>,
) -> Seq<SessionEventModel> {
    if situation.password_file {
        seq![]
    } else if listing_needs_password(success, listing, situation.settings.identity) {
        seq![SessionEventModel::Output(success, listing), SessionEventModel::Done]
    } else {
        seq![SessionEventModel::Output(success, listing)]
    }
}

/// Whether a password is at hand after that.
pub open spec fn unlocked(situation: SituationModel, success: bool, listing: Seq<u8>) -> bool {
    situation.password_file || listing_needs_password(
        success,
        listing,
        situation.settings.identity,
    )
}

/// An option of the client with its value, where there is one.
pub open spec fn with_option(name: Seq<char>, value: Option<Seq<char>>) -> Seq<QueryModel> {
    match value {
        Some(text) => seq![QueryModel::Text(name), QueryModel::Text(text)],
        None => seq![],
    }
}

/// The question for a repository, written out.
pub open spec fn worded_query(
    directory: Seq<char>,
    namespace: Seq<char>,
    repository: Seq<char>,
    settings: SettingsModel,
    production: bool,
    password: bool,
) -> Seq<QueryModel> {
    seq![
        QueryModel::Text("canister"@),
        QueryModel::Text("call"@),
        QueryModel::Text(directory),
        QueryModel::Text("resolve_repository"@),
        QueryModel::Text("(\""@ + namespace + "\", \""@ + repository + "\")"@),
    ] + with_option("--identity"@, settings.identity) + (if password {
        seq![QueryModel::Text("--identity-password-file"@), QueryModel::PasswordFile]
    } else {
        seq![]
    }) + (if production {
        with_option("--network"@, Some("ic"@))
    } else if settings.network is Some {
        with_option("--network"@, settings.network) + with_option(
            "--root-key"@,
            settings.root_key,
        )
    } else {
        with_option("--project-root-override"@, settings.project_root)
    })
}

/// A run of the bridge on a repository.
pub open spec fn bridge_run(
    operation: Seq<char>,
    target: Seq<Seq<char>>,
    situation: SituationModel,
    production: bool,
    password: bool,
    refusal: Seq<char>,
) -> PackCommandModel {
    PackCommandModel {
        arguments: seq![operation] + target,
        directory: project_of(situation.settings, production),
        environment: pack_environment(situation.settings, production, password),
        refusal,
    }
}

proof fn lemma_push(
    url: Seq<char>,
    situation: SituationModel,
    events: Seq<SessionEventModel>,
    event: SessionEventModel,
)
    ensures
        session_run(url, situation, events.push(event)) == session_next(
            session_run(url, situation, events).0,
            event,
        ),
{
    assert(events.push(event).drop_last() =~= events);
    reveal(session_step);
}

/// A session begins with the address: one that is none, or whose host is refused, is a
/// failure with the reason. Then the identities are listed, unless a password is at hand, and
/// the password is asked for where it is needed. After that the directory, if there is one,
/// is asked for the repository in the address.
pub proof fn sessions_ask_the_directory(
    url: Seq<char>,
    situation: SituationModel,
    success: bool,
    listing: Seq<u8>,
)
    ensures
        match remote_of(url) {
            Err(message) => session_run(url, situation, seq![]).1 == SessionActionModel::Fail(
                message,
            ),
            Ok((host, namespace, repository)) => match host_refusal(host, situation.host) {
                Some(message) => session_run(url, situation, seq![]).1
                    == SessionActionModel::Fail(message),
                None => {
                    let production = host == Some("infinigit.com"@);
                    let password = unlocked(situation, success, listing);
                    let ready = session_run(url, situation, unlocking(situation, success, listing));
                    &&& !situation.password_file ==> session_run(url, situation, seq![]).1
                        == SessionActionModel::ListIdentities
                    &&& !situation.password_file && password ==> session_run(
                        url,
                        situation,
                        seq![SessionEventModel::Output(success, listing)],
                    ).1 == SessionActionModel::AskPassword
                    &&& directory(
                        situation.directory,
                        production,
                        situation.data_dir is Some,
                        situation.configured_directory,
                    ) matches Some(directory) ==> ready.1 == SessionActionModel::Query(
                        worded_query(
                            directory,
                            namespace,
                            repository,
                            situation.settings,
                            production,
                            password,
                        ),
                    )
                },
            },
        },
{
    let first = SessionEventModel::Output(success, listing);
    lemma_push(url, situation, seq![], first);
    lemma_push(url, situation, seq![first], SessionEventModel::Done);
    assert(seq![].push(first) =~= seq![first]);
    assert(seq![first].push(SessionEventModel::Done) =~= seq![first, SessionEventModel::Done]);
}

/// Once the directory has answered, the local repository is brought up to date from the
/// canister that it named, is looked for, and is served; after a push that succeeded it is
/// uploaded to that canister, and the session ends well when that has succeeded too.
#[verifier::rlimit(60)]
pub proof fn sessions_on_a_canister_run_through(
    url: Seq<char>,
    situation: SituationModel,
    success: bool,
    listing: Seq<u8>,
    answer: Seq<u8>,
    public: bool,
    output: Seq<u8>,
)
    requires
        remote_of(url) is Ok,
        host_refusal(remote_of(url)->Ok_0.0, situation.host) is None,
        directory(
            situation.directory,
            remote_of(url)->Ok_0.0 == Some("infinigit.com"@),
            situation.data_dir is Some,
            situation.configured_directory,
        ) is Some,
        resolution(true, answer) is Ok,
    ensures
        ({
            let (host, namespace, repository) = remote_of(url)->Ok_0;
            let production = host == Some("infinigit.com"@);
            let password = unlocked(situation, success, listing);
            let (owner, canister, storage) = resolution(true, answer)->Ok_0;
            let root = data_root(situation.data_dir, production, situation.configured_data_dir);
            let asked = unlocking(situation, success, listing);
            let found = asked.push(SessionEventModel::Output(true, answer));
            let received = found.push(SessionEventModel::Finished(true));
            let present = received.push(SessionEventModel::Present(true));
            let checked = present.push(SessionEventModel::Output(public, output));
            let pushed = checked.push(SessionEventModel::Line(Some("connect git-receive-pack"@)));
            let pulled = checked.push(SessionEventModel::Line(Some("connect git-upload-pack"@)));
            let fine = SessionEventModel::Finished(true);
            let bad = SessionEventModel::Finished(false);
            match repository_place(root, namespace, repository) {
                Err(message) => session_run(url, situation, found).1 == SessionActionModel::Fail(
                    message,
                ),
                Ok(path) => {
                    let target = seq![canister, owner, storage, path];
                    &&& session_run(url, situation, found).1 == SessionActionModel::Synchronize(
                        bridge_run(
                            "materialize"@,
                            target,
                            situation,
                            production,
                            password,
                            "repository not found"@,
                        ),
                    )
                    &&& session_run(url, situation, found.push(bad)).1 == SessionActionModel::Fail(
                        "repository not found"@,
                    )
                    &&& session_run(url, situation, received).1
                        == SessionActionModel::FindRepository(path)
                    &&& session_run(
                        url,
                        situation,
                        received.push(SessionEventModel::Present(false)),
                    ).1 == SessionActionModel::Fail("repository does not exist: "@ + path)
                    &&& session_run(url, situation, present).1 == SessionActionModel::AskPublic(
                        path,
                    )
                    &&& session_run(url, situation, checked).1 == SessionActionModel::ReadCommand
                    &&& session_run(url, situation, pulled).1 == SessionActionModel::Serve(
                        "git-upload-pack"@,
                        path,
                    )
                    &&& session_run(url, situation, pulled.push(fine)).1
                        == SessionActionModel::Exit
                    &&& session_run(url, situation, pushed).1 == SessionActionModel::Serve(
                        "git-receive-pack"@,
                        path,
                    )
                    &&& session_run(url, situation, pushed.push(bad)).1 == SessionActionModel::Exit
                    &&& session_run(url, situation, pushed.push(fine)).1
                        == SessionActionModel::Synchronize(
                        bridge_run(
                            "upload"@,
                            target,
                            situation,
                            production,
                            password,
                            "canister rejected push"@,
                        ),
                    )
                    &&& session_run(url, situation, pushed.push(fine).push(fine)).1
                        == SessionActionModel::Exit
                    &&& session_run(url, situation, pushed.push(fine).push(bad)).1
                        == SessionActionModel::Fail("canister rejected push"@)
                },
            }
        }),
{
    let asked = unlocking(situation, success, listing);
    let found = asked.push(SessionEventModel::Output(true, answer));
    let received = found.push(SessionEventModel::Finished(true));
    let present = received.push(SessionEventModel::Present(true));
    let checked = present.push(SessionEventModel::Output(public, output));
    let push = SessionEventModel::Line(Some("connect git-receive-pack"@));
    let pull = SessionEventModel::Line(Some("connect git-upload-pack"@));
    let fine = SessionEventModel::Finished(true);
    let bad = SessionEventModel::Finished(false);
    lemma_ready(url, situation, success, listing);
    lemma_push(url, situation, asked, SessionEventModel::Output(true, answer));
    lemma_push(url, situation, found, fine);
    lemma_push(url, situation, found, bad);
    lemma_push(url, situation, received, SessionEventModel::Present(true));
    lemma_push(url, situation, received, SessionEventModel::Present(false));
    lemma_push(url, situation, present, SessionEventModel::Output(public, output));
    lemma_push(url, situation, checked, push);
    lemma_push(url, situation, checked, pull);
    lemma_push(url, situation, checked.push(pull), fine);
    lemma_push(url, situation, checked.push(push), fine);
    lemma_push(url, situation, checked.push(push), bad);
    lemma_push(url, situation, checked.push(push).push(fine), fine);
    lemma_push(url, situation, checked.push(push).push(fine), bad);
    lemma_commands();
}

proof fn lemma_commands()
    ensures
        "connect git-receive-pack"@ != "connect git-upload-pack"@,
        "connect git-receive-pack"@ != "capabilities"@,
        "connect git-upload-pack"@ != "capabilities"@,
        "connect git-receive-pack"@ != ""@,
        "connect git-upload-pack"@ != ""@,
{
    reveal_strlit("connect git-receive-pack");
    reveal_strlit("connect git-upload-pack");
    reveal_strlit("capabilities");
    reveal_strlit("");
    assert("connect git-receive-pack"@.len() == 24);
    assert("connect git-upload-pack"@.len() == 23);
    assert("capabilities"@.len() == 12);
    assert(""@.len() == 0);
}

/// The session is ready to find its repository.
spec fn ready(
    s: SessionModel,
    url: Seq<char>,
    situation: SituationModel,
    password: bool,
) -> bool {
    let (host, namespace, repository) = remote_of(url)->Ok_0;
    &&& s.stage == SessionStage::Resolving
    &&& s.namespace == namespace
    &&& s.repository == repository
    &&& s.production == (host == Some("infinigit.com"@))
    &&& s.situation == SituationModel { password_file: password, ..situation }
}

proof fn lemma_ready(
    url: Seq<char>,
    situation: SituationModel,
    success: bool,
    listing: Seq<u8>,
)
    requires
        remote_of(url) is Ok,
        host_refusal(remote_of(url)->Ok_0.0, situation.host) is None,
        directory(
            situation.directory,
            remote_of(url)->Ok_0.0 == Some("infinigit.com"@),
            situation.data_dir is Some,
            situation.configured_directory,
        ) is Some,
    ensures
        ready(
            session_run(url, situation, unlocking(situation, success, listing)).0,
            url,
            situation,
            unlocked(situation, success, listing),
        ),
{
    let first = SessionEventModel::Output(success, listing);
    lemma_push(url, situation, seq![], first);
    lemma_push(url, situation, seq![first], SessionEventModel::Done);
    assert(seq![].push(first) =~= seq![first]);
    assert(seq![first].push(SessionEventModel::Done) =~= seq![first, SessionEventModel::Done]);
}

/// Without a directory, the repository of the address is the one below the root of the
/// repositories. Where the environment names a canister, it is brought up to date from there
/// and a push is uploaded; where not, it is served as it is: to its owner, and for reading to
/// anyone if it is public.
#[verifier::rlimit(60)]
pub proof fn sessions_without_a_directory_run_through(
    url: Seq<char>,
    situation: SituationModel,
    success: bool,
    listing: Seq<u8>,
    public: bool,
    output: Seq<u8>,
)
    requires
        remote_of(url) is Ok,
        host_refusal(remote_of(url)->Ok_0.0, situation.host) is None,
        directory(
            situation.directory,
            remote_of(url)->Ok_0.0 == Some("infinigit.com"@),
            situation.data_dir is Some,
            situation.configured_directory,
        ) is None,
    ensures
        ({
            let (host, namespace, repository) = remote_of(url)->Ok_0;
            let production = host == Some("infinigit.com"@);
            let password = unlocked(situation, success, listing);
            let root = data_root(situation.data_dir, production, situation.configured_data_dir);
            let start = unlocking(situation, success, listing);
            let fine = SessionEventModel::Finished(true);
            let looked = if situation.canister is Some {
                start.push(fine)
            } else {
                start
            };
            let present = looked.push(SessionEventModel::Present(true));
            let checked = present.push(SessionEventModel::Output(public, output));
            let pushed = checked.push(SessionEventModel::Line(Some("connect git-receive-pack"@)));
            let pulled = checked.push(SessionEventModel::Line(Some("connect git-upload-pack"@)));
            match repository_place(root, namespace, repository) {
                Err(message) => session_run(url, situation, start).1 == SessionActionModel::Fail(
                    message,
                ),
                Ok(path) => {
                    let owner = situation.caller == Some(namespace);
                    let read = public && trimmed(lossy(output)) == "true"@;
                    let hidden = SessionActionModel::Fail("repository not found"@);
                    &&& session_run(url, situation, looked).1
                        == SessionActionModel::FindRepository(path)
                    &&& session_run(url, situation, present).1 == SessionActionModel::AskPublic(
                        path,
                    )
                    &&& session_run(url, situation, checked).1 == SessionActionModel::ReadCommand
                    &&& match situation.canister {
                        Some(canister) => {
                            let target = seq![canister, namespace, repository, path];
                            &&& session_run(url, situation, start).1
                                == SessionActionModel::Synchronize(
                                bridge_run(
                                    "materialize"@,
                                    target,
                                    situation,
                                    production,
                                    password,
                                    "repository not found"@,
                                ),
                            )
                            &&& session_run(url, situation, pushed).1 == SessionActionModel::Serve(
                                "git-receive-pack"@,
                                path,
                            )
                            &&& session_run(url, situation, pushed.push(fine)).1
                                == SessionActionModel::Synchronize(
                                bridge_run(
                                    "upload"@,
                                    target,
                                    situation,
                                    production,
                                    password,
                                    "canister rejected push"@,
                                ),
                            )
                        },
                        None => {
                            &&& session_run(url, situation, pushed).1 == if owner {
                                SessionActionModel::Serve("git-receive-pack"@, path)
                            } else {
                                hidden
                            }
                            &&& session_run(url, situation, pulled).1 == if owner || read {
                                SessionActionModel::Serve("git-upload-pack"@, path)
                            } else {
                                hidden
                            }
                            &&& owner ==> session_run(url, situation, pushed.push(fine)).1
                                == SessionActionModel::Exit
                        },
                    }
                },
            }
        }),
{
    let first = SessionEventModel::Output(success, listing);
    lemma_push(url, situation, seq![], first);
    lemma_push(url, situation, seq![first], SessionEventModel::Done);
    assert(seq![].push(first) =~= seq![first]);
    assert(seq![first].push(SessionEventModel::Done) =~= seq![first, SessionEventModel::Done]);
    let start = unlocking(situation, success, listing);
    let fine = SessionEventModel::Finished(true);
    let looked = if situation.canister is Some {
        start.push(fine)
    } else {
        start
    };
    let present = looked.push(SessionEventModel::Present(true));
    let checked = present.push(SessionEventModel::Output(public, output));
    let push = SessionEventModel::Line(Some("connect git-receive-pack"@));
    let pull = SessionEventModel::Line(Some("connect git-upload-pack"@));
    lemma_started(url, situation, success, listing);
    lemma_push(url, situation, start, fine);
    lemma_push(url, situation, looked, SessionEventModel::Present(true));
    lemma_push(url, situation, present, SessionEventModel::Output(public, output));
    lemma_push(url, situation, checked, push);
    lemma_push(url, situation, checked, pull);
    lemma_push(url, situation, checked.push(push), fine);
    lemma_commands();
}

proof fn lemma_started(
    url: Seq<char>,
    situation: SituationModel,
    success: bool,
    listing: Seq<u8>,
)
    requires
        remote_of(url) is Ok,
        host_refusal(remote_of(url)->Ok_0.0, situation.host) is None,
        directory(
            situation.directory,
            remote_of(url)->Ok_0.0 == Some("infinigit.com"@),
            situation.data_dir is Some,
            situation.configured_directory,
        ) is None,
    ensures
        ({
            let (host, namespace, repository) = remote_of(url)->Ok_0;
            let known = SessionModel {
                situation: SituationModel {
                    password_file: unlocked(situation, success, listing),
                    ..situation
                },
                namespace,
                repository,
                production: host == Some("infinigit.com"@),
                owner: namespace,
                canister: situation.canister,
                storage: repository,
                path: ""@,
                access: Access { on_canister: false, owner: false, public: false },
                upload: false,
                stage: SessionStage::Ended,
            };
            let run = session_run(url, situation, unlocking(situation, success, listing));
            let expected = session_receive(SessionModel { stage: run.0.stage, ..known });
            &&& run.1 == expected.1
            &&& run.0 == SessionModel { stage: run.0.stage, ..expected.0 }
            &&& run.0.stage == expected.0.stage
        }),
{
    let first = SessionEventModel::Output(success, listing);
    lemma_push(url, situation, seq![], first);
    lemma_push(url, situation, seq![first], SessionEventModel::Done);
    assert(seq![].push(first) =~= seq![first]);
    assert(seq![first].push(SessionEventModel::Done) =~= seq![first, SessionEventModel::Done]);
}

/// The identity in question is the selected one, or else the default of the listing; and a
/// password is needed exactly where the first entry of that name is kept under one.
pub proof fn passwords_are_needed_where_kept(
    listing: JsonModel,
    entries: Seq<JsonModel>,
    selected: Option<Seq<char>>,
    name: Seq<char>,
    i: int,
)
    requires
        items_field(listing, "identities"@) == Some(entries),
        selected == Some(name) || selected is None && text_field(listing, "default_identity"@)
            == Some(name),
        0 <= i < entries.len(),
        text_field(entries[i], "name"@) == Some(name),
        forall|k: int|
            0 <= k < i ==> text_field(#[trigger] entries[k], "name"@) != Some(name),
    ensures
        needs_password(listing, selected) == (text_field(entries[i], "format"@) == Some(
            "password"@,
        )),
{
    lemma_named(entries, name, i);
}

proof fn lemma_named(entries: Seq<JsonModel>, name: Seq<char>, i: int)
    requires
        0 <= i < entries.len(),
        text_field(entries[i], "name"@) == Some(name),
        forall|k: int|
            0 <= k < i ==> text_field(#[trigger] entries[k], "name"@) != Some(name),
    ensures
        named_entry(entries, Some(name)) == Some(entries[i]),
    decreases i,
{
    if i > 0 {
        assert(text_field(entries[0], "name"@) != Some(name));
        let rest = entries.drop_first();
        assert forall|k: int| 0 <= k < i - 1 implies text_field(#[trigger] rest[k], "name"@)
            != Some(name) by {
            assert(rest[k] == entries[k + 1]);
        }
        lemma_named(rest, name, i - 1);
    }
}

/// A listing of identities that failed or is no document asks for no password; any other asks
/// for what its document says.
pub proof fn only_listings_ask_for_passwords(
    output: Seq<u8>,
    selected: Option<Seq<char>>,
    any: bool,
)
    ensures
        !listing_needs_password(false, output, selected),
        json_document(output) is Err ==> !listing_needs_password(any, output, selected),
        json_document(output) matches Ok(listing) ==> listing_needs_password(true, output, selected)
            == needs_password(listing, selected),
{
}

/// The bridge runs in the project of the settings; for a production remote in none.
pub proof fn the_bridge_runs_in_the_project(settings: SettingsModel)
    ensures
        project_of(settings, false) == settings.project_root,
        project_of(settings, true) is None,
{
}

/// A repository is public where git says `true`, and it was asked with success.
pub proof fn git_says_what_is_public(success: bool, output: Seq<u8>)
    ensures
        public_repository(success, output) <==> success && trimmed(lossy(output)) == "true"@,
{
}

/// A session that reads commands answers a question for its capabilities and reads on, ends
/// well where there are no more, and fails on what it does not know.
pub proof fn sessions_answer_commands(s: SessionModel, line: Seq<char>)
    requires
        s.stage == SessionStage::Reading,
    ensures
        ({
            let asked = session_next(s, SessionEventModel::Line(Some("capabilities"@)));
            &&& asked.1 == SessionActionModel::Print("connect\n\n"@)
            &&& session_next(asked.0, SessionEventModel::Done) == (
                s,
                SessionActionModel::ReadCommand,
            )
        }),
        session_next(s, SessionEventModel::Line(None)).1 == SessionActionModel::Stop,
        session_next(s, SessionEventModel::Line(Some(""@))).1 == SessionActionModel::Stop,
        line != "capabilities"@ && line != ""@ && line != "connect git-upload-pack"@ && line
            != "connect git-receive-pack"@ ==> session_next(
            s,
            SessionEventModel::Line(Some(line)),
        ).1 == SessionActionModel::Fail("unsupported remote-helper command: "@ + line),
{
    lemma_commands();
    reveal_strlit("capabilities");
    reveal_strlit("");
    assert("capabilities"@.len() == 12);
    assert(""@.len() == 0);
}

} // verus!
