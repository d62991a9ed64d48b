//! Addresses, the directory, and sessions of the remote helper.
use git_remote_igit::helper::{
    answer_command, choose_data_root, choose_directory, is_public, pack_bridge,
    password_backed_identity, password_backed_identity_json, query_request, repository_path,
    sync_from_canister, sync_to_canister, Access, EnvChange, HelperAction, PackBridge,
    QueryArgument, Settings, SyncTarget,
};
use git_remote_igit::json::Json;
use git_remote_igit::remote::{
    candid_principal_field, candid_text_field, parse_remote, resolve_repository, valid_atom,
    validate_host, PRODUCTION_DIRECTORY, PRODUCTION_HOST,
};
use git_remote_igit::session::{Session, SessionAction, SessionEvent, Situation};

fn settings() -> Settings {
    Settings { icp: None, identity: None, network: None, root_key: None, project_root: None }
}

fn situation() -> Situation {
    Situation {
        host: None,
        data_dir: Some("/data".into()),
        configured_data_dir: None,
        directory: None,
        configured_directory: Some("unused".into()),
        canister: None,
        caller: None,
        password_file: true,
        settings: settings(),
    }
}

#[test]
fn detects_only_the_selected_password_backed_identity() {
    let identities = Json::parse(
        b"{\"default_identity\": \"secure\", \"identities\": [\
          { \"name\": \"plain\", \"format\": \"plaintext\" },\
          { \"name\": \"secure\", \"format\": \"password\" }]}",
    )
    .unwrap();
    assert!(password_backed_identity_json(&identities, None));
    assert!(password_backed_identity_json(&identities, Some("secure")));
    assert!(!password_backed_identity_json(&identities, Some("plain")));
    assert!(!password_backed_identity_json(&identities, Some("missing")));
}

#[test]
fn unreadable_identity_listings_ask_for_no_password() {
    let listing = b"{\"identities\":[{\"name\":\"a\",\"format\":\"password\"}]}";
    assert!(password_backed_identity(true, listing, Some("a")));
    assert!(!password_backed_identity(false, listing, Some("a")));
    assert!(!password_backed_identity(true, b"?", Some("a")));
    assert!(!password_backed_identity(true, listing, None));
    assert!(password_backed_identity(true, b"{\"identities\":[{\"format\":\"password\"}]}", None));
}

#[test]
fn parses_supported_urls_and_rejects_anonymous_identity() {
    assert_eq!(
        parse_remote("igit://aaaaa-aa/demo").unwrap(),
        (None, "aaaaa-aa", "demo")
    );
    assert_eq!(
        parse_remote("igit://localhost/alice/demo").unwrap(),
        (Some("localhost"), "alice", "demo")
    );
    assert!(parse_remote("https://aaaaa-aa/demo").is_err());
    assert!(parse_remote("igit://2vxsx-fae/demo").is_err());
    assert!(parse_remote("igit://aaaaa-aa/../escape").is_err());
    assert!(parse_remote("infinigit://aaaaa-aa/demo").is_err());
}

#[test]
fn says_what_is_wrong_with_an_address() {
    let fails = |url: &str| parse_remote(url).unwrap_err();
    assert_eq!(
        fails("https://x/y"),
        "remote must use igit://<host>/<username>/<repository>"
    );
    assert_eq!(fails("igit://x"), "remote must contain a host, username, and repository");
    assert_eq!(fails("igit://-/./a/b"), "remote must contain a host, username, and repository");
    assert_eq!(fails("igit://.bad/a/b"), "remote must contain a host, username, and repository");
    assert_eq!(fails("igit://2vxsx-fae/demo"), "a valid InfiniGit username is required");
    assert_eq!(fails("igit::/demo"), "a valid InfiniGit username is required");
    assert_eq!(fails("igit://alice/"), "invalid repository name");
    assert_eq!(parse_remote("igit::alice/demo").unwrap(), (None, "alice", "demo"));
    assert!(valid_atom("a.b-c_9") && !valid_atom("a.") && !valid_atom("é") && !valid_atom(""));
    assert!(valid_atom(&"a".repeat(128)) && !valid_atom(&"a".repeat(129)));
}

#[test]
fn parses_directory_principals_and_rejects_missing_fields() {
    let response = "owner = principal \"aaaaa-aa\"; shard = principal \"rrkah-fqaaa-aaaaa-aaaaq-cai\"; storage_id = \"igit-r-7\"";
    assert_eq!(
        candid_principal_field(response, "owner").as_deref(),
        Some("aaaaa-aa")
    );
    assert_eq!(
        candid_principal_field(response, "shard").as_deref(),
        Some("rrkah-fqaaa-aaaaa-aaaaq-cai")
    );
    assert_eq!(candid_principal_field(response, "missing"), None);
    assert_eq!(
        candid_text_field(response, "storage_id").as_deref(),
        Some("igit-r-7")
    );
    assert_eq!(
        candid_text_field("storage_id = \"bad/value\"", "storage_id"),
        None
    );
}

#[test]
fn says_what_is_wrong_with_a_directory_answer() {
    let fails = |output: &[u8]| resolve_repository(true, output).unwrap_err();
    assert_eq!(resolve_repository(false, b"").unwrap_err(), "repository not found");
    assert_eq!(fails(b"\xff"), "invalid directory response");
    assert_eq!(fails(b"(variant { err = \"no\" })"), "repository not found");
    assert_eq!(fails(b"()"), "invalid directory owner");
    assert_eq!(fails(b"owner = principal \"\""), "invalid directory owner");
    assert_eq!(fails(b"owner = principal \"a\""), "invalid directory shard");
    assert_eq!(
        fails(b"owner = principal \"a\"; shard = principal \"b\""),
        "invalid directory storage ID"
    );
    assert_eq!(
        resolve_repository(
            true,
            b"owner = principal \"a\"; shard = principal \"b\"; storage_id = \"c\""
        ),
        Ok(("a".to_string(), "b".to_string(), "c".to_string()))
    );
}

#[test]
fn host_validation_accepts_configured_and_legacy_urls_but_rejects_other_installations() {
    assert!(validate_host(Some("localhost"), Some("localhost")).is_ok());
    assert!(validate_host(Some(PRODUCTION_HOST), Some("localhost")).is_ok());
    assert!(validate_host(None, Some("localhost")).is_ok());
    assert!(validate_host(Some("git.example"), None).is_ok());
    assert_eq!(
        validate_host(Some("other.example"), Some("git.example")),
        Err("unknown InfiniGit host: other.example".into())
    );
}

#[test]
fn repositories_have_their_place() {
    assert_eq!(repository_path("/data", "alice", "demo"), Ok("/data/alice/demo.git".to_string()));
    assert_eq!(repository_path("data/", "alice", "demo"), Ok("data/alice/demo.git".to_string()));
    assert_eq!(repository_path("", "alice", "demo"), Ok("alice/demo.git".to_string()));
    assert_eq!(repository_path("/data", "/alice", "demo"), Ok("/alice/demo.git".to_string()));
    for root in ["..", "/data/..", "../data", "a/../b"] {
        assert_eq!(
            repository_path(root, "alice", "demo"),
            Err("INFINIGIT_DATA_DIR cannot contain '..'".to_string())
        );
    }
    assert!(repository_path("/data/..hidden", "alice", "demo").is_ok());
}

#[test]
fn configuration_yields_to_the_environment_and_to_production() {
    let text = |t: &str| Some(t.to_string());
    assert_eq!(choose_directory(text("env"), true, false, text("git")), text("env"));
    assert_eq!(choose_directory(None, true, true, text("git")), text(PRODUCTION_DIRECTORY));
    assert_eq!(choose_directory(None, false, false, text("git")), text("git"));
    assert_eq!(choose_directory(None, false, true, text("git")), None);
    assert_eq!(choose_data_root(text("env"), true, text("git")), "env");
    assert_eq!(choose_data_root(None, false, text("git")), "git");
    assert_eq!(choose_data_root(None, true, text("git")), ".infinigit/repositories");
    assert_eq!(choose_data_root(None, false, None), ".infinigit/repositories");
    assert!(matches!(pack_bridge(true, false, text("p")), PackBridge::Environment));
    assert!(matches!(pack_bridge(false, false, text("p")), PackBridge::Configured(p) if p == "p"));
    assert!(matches!(pack_bridge(false, true, text("p")), PackBridge::Sibling));
    assert!(matches!(pack_bridge(false, false, None), PackBridge::Sibling));
}

fn flat(list: &[QueryArgument]) -> Vec<&str> {
    list.iter()
        .map(|argument| match argument {
            QueryArgument::Text(text) => text.as_str(),
            QueryArgument::PasswordFile => "<password file>",
        })
        .collect()
}

#[test]
fn directory_queries_choose_their_network() {
    let mut own = settings();
    own.identity = Some("me".into());
    own.network = Some("local".into());
    own.root_key = Some("key".into());
    own.project_root = Some("/project".into());
    assert_eq!(
        flat(&query_request("alice", "demo", "dir", &own, true, true)),
        [
            "canister", "call", "dir", "resolve_repository", "(\"alice\", \"demo\")",
            "--identity", "me", "--identity-password-file", "<password file>", "--network", "ic",
        ]
    );
    assert_eq!(
        flat(&query_request("alice", "demo", "dir", &own, false, false))[7..],
        ["--network", "local", "--root-key", "key"]
    );
    own.network = None;
    assert_eq!(
        flat(&query_request("alice", "demo", "dir", &own, false, false))[7..],
        ["--project-root-override", "/project"]
    );
}

fn changes(list: &[EnvChange]) -> Vec<String> {
    list.iter()
        .map(|change| match change {
            EnvChange::Assign(name, value) => format!("{name}={value}"),
            EnvChange::AssignPasswordFile(name) => format!("{name}=<password file>"),
            EnvChange::Remove(name) => format!("-{name}"),
        })
        .collect()
}

#[test]
fn synchronization_runs_in_the_right_environment() {
    let target = SyncTarget {
        canister: "c".into(),
        owner: "o".into(),
        repository: "r".into(),
        path: "/p".into(),
    };
    let own = Settings {
        icp: Some("icp2".into()),
        identity: Some("me".into()),
        network: Some("local".into()),
        root_key: Some("key".into()),
        project_root: Some("/project".into()),
    };
    let command = sync_from_canister(&target, &own, false, true);
    assert_eq!(command.arguments, ["materialize", "c", "o", "r", "/p"]);
    assert_eq!(command.directory.as_deref(), Some("/project"));
    assert_eq!(command.refusal, "repository not found");
    assert_eq!(
        changes(&command.environment),
        [
            "INFINIGIT_PROJECT_ROOT=/project", "INFINIGIT_ICP_BIN=icp2", "INFINIGIT_NETWORK=local",
            "INFINIGIT_ROOT_KEY=key", "INFINIGIT_IDENTITY=me",
            "INFINIGIT_IDENTITY_PASSWORD_FILE=<password file>",
        ]
    );
    let command = sync_to_canister(&target, &own, true, false);
    assert_eq!(command.arguments, ["upload", "c", "o", "r", "/p"]);
    assert_eq!(command.directory, None);
    assert_eq!(command.refusal, "canister rejected push");
    assert_eq!(
        changes(&command.environment),
        [
            "INFINIGIT_ICP_BIN=icp2", "INFINIGIT_NETWORK=ic", "-INFINIGIT_ROOT_KEY",
            "INFINIGIT_IDENTITY=me",
        ]
    );
    assert!(changes(&sync_to_canister(&target, &settings(), false, false).environment).is_empty());
}

#[test]
fn private_repositories_are_hidden_and_public_ones_are_readable() {
    let stranger = Access { on_canister: false, owner: false, public: false };
    let hidden = |access: Access, line: &str| match answer_command(access, Some(line)) {
        HelperAction::Fail(message) => message == "repository not found",
        _ => false,
    };
    assert!(hidden(stranger, "connect git-upload-pack"));
    assert!(hidden(stranger, "connect git-receive-pack"));
    let reader = Access { public: true, ..stranger };
    assert!(matches!(
        answer_command(reader, Some("connect git-upload-pack")),
        HelperAction::Serve(service, false) if service == "git-upload-pack"
    ));
    assert!(hidden(reader, "connect git-receive-pack"));
    let owner = Access { owner: true, ..stranger };
    assert!(matches!(
        answer_command(owner, Some("connect git-receive-pack")),
        HelperAction::Serve(service, false) if service == "git-receive-pack"
    ));
    let remote = Access { on_canister: true, ..stranger };
    assert!(matches!(
        answer_command(remote, Some("connect git-receive-pack")),
        HelperAction::Serve(_, true)
    ));
    assert!(matches!(
        answer_command(remote, Some("connect git-upload-pack")),
        HelperAction::Serve(_, false)
    ));
    assert!(matches!(
        answer_command(stranger, Some("capabilities")),
        HelperAction::Print(text) if text == "connect\n\n"
    ));
    assert!(matches!(answer_command(stranger, Some("")), HelperAction::Stop));
    assert!(matches!(answer_command(stranger, None), HelperAction::Stop));
    assert!(matches!(
        answer_command(stranger, Some("push x")),
        HelperAction::Fail(message) if message == "unsupported remote-helper command: push x"
    ));
    assert!(is_public(true, b" true\n") && !is_public(false, b"true") && !is_public(true, b"false"));
}

#[test]
fn direct_sessions_serve_the_owner() {
    let mut own = situation();
    own.caller = Some("aaaaa-aa".into());
    let (mut session, action) = Session::start("igit://aaaaa-aa/demo", own);
    assert!(matches!(
        action,
        SessionAction::FindRepository(path) if path == "/data/aaaaa-aa/demo.git"
    ));
    assert!(matches!(session.step(SessionEvent::Present(true)), SessionAction::AskPublic(_)));
    assert!(matches!(
        session.step(SessionEvent::Output(false, Vec::new())),
        SessionAction::ReadCommand
    ));
    assert!(matches!(
        session.step(SessionEvent::Line(Some("capabilities".into()))),
        SessionAction::Print(text) if text == "connect\n\n"
    ));
    assert!(matches!(session.step(SessionEvent::Done), SessionAction::ReadCommand));
    assert!(matches!(
        session.step(SessionEvent::Line(Some("connect git-receive-pack".into()))),
        SessionAction::Serve(service, path)
            if service == "git-receive-pack" && path == "/data/aaaaa-aa/demo.git"
    ));
    assert!(matches!(session.step(SessionEvent::Finished(true)), SessionAction::Exit));
}

#[test]
fn direct_sessions_hide_private_repositories() {
    let (mut session, _) = Session::start("igit://aaaaa-aa/demo", situation());
    session.step(SessionEvent::Present(true));
    session.step(SessionEvent::Output(true, b"false\n".to_vec()));
    assert!(matches!(
        session.step(SessionEvent::Line(Some("connect git-upload-pack".into()))),
        SessionAction::Fail(message) if message == "repository not found"
    ));
    let (mut session, _) = Session::start("igit://aaaaa-aa/demo", situation());
    assert!(matches!(
        session.step(SessionEvent::Present(false)),
        SessionAction::Fail(message)
            if message == "repository does not exist: /data/aaaaa-aa/demo.git"
    ));
}

#[test]
fn resolved_sessions_synchronize_around_a_push() {
    let mut own = situation();
    own.password_file = false;
    own.directory = Some("directory-id".into());
    let (mut session, action) = Session::start("igit://localhost/alice-dev/demo", own);
    assert!(matches!(action, SessionAction::ListIdentities));
    let listing = b"{\"default_identity\":\"a\",\"identities\":[{\"name\":\"a\",\"format\":\"password\"}]}";
    assert!(matches!(
        session.step(SessionEvent::Output(true, listing.to_vec())),
        SessionAction::AskPassword
    ));
    match session.step(SessionEvent::Done) {
        SessionAction::Query(arguments) => assert_eq!(
            flat(&arguments),
            [
                "canister", "call", "directory-id", "resolve_repository",
                "(\"alice-dev\", \"demo\")", "--identity-password-file", "<password file>",
            ]
        ),
        other => panic!("{other:?}"),
    }
    let answer = b"owner = principal \"aaaaa-aa\"; shard = principal \"s\"; storage_id = \"id-7\"";
    match session.step(SessionEvent::Output(true, answer.to_vec())) {
        SessionAction::Synchronize(command) => assert_eq!(
            command.arguments,
            ["materialize", "s", "aaaaa-aa", "id-7", "/data/alice-dev/demo.git"]
        ),
        other => panic!("{other:?}"),
    }
    assert!(matches!(session.step(SessionEvent::Finished(true)), SessionAction::FindRepository(_)));
    session.step(SessionEvent::Present(true));
    session.step(SessionEvent::Output(false, Vec::new()));
    assert!(matches!(
        session.step(SessionEvent::Line(Some("connect git-receive-pack".into()))),
        SessionAction::Serve(_, _)
    ));
    match session.step(SessionEvent::Finished(true)) {
        SessionAction::Synchronize(command) => assert_eq!(command.arguments[0], "upload"),
        other => panic!("{other:?}"),
    }
    assert!(matches!(
        session.step(SessionEvent::Finished(false)),
        SessionAction::Fail(message) if message == "canister rejected push"
    ));
}

#[test]
fn production_sessions_query_the_production_directory() {
    let mut own = situation();
    own.data_dir = None;
    own.configured_data_dir = Some("/own".into());
    own.host = Some("git.example".into());
    let (_, action) = Session::start("igit://infinigit.com/alice/demo", own);
    match action {
        SessionAction::Query(arguments) => {
            let list = flat(&arguments);
            assert_eq!(list[2], PRODUCTION_DIRECTORY);
            assert_eq!(list[7..], ["--network", "ic"]);
        }
        other => panic!("{other:?}"),
    }
}

#[test]
fn sessions_refuse_other_hosts_and_bad_addresses() {
    let mut own = situation();
    own.host = Some("git.example".into());
    let (_, action) = Session::start("igit://other.example/a/b", own);
    assert!(matches!(
        action,
        SessionAction::Fail(message) if message == "unknown InfiniGit host: other.example"
    ));
    let (mut session, action) = Session::start("http://x", situation());
    assert!(matches!(action, SessionAction::Fail(_)));
    assert!(matches!(session.step(SessionEvent::Done), SessionAction::Fail(_)));
    let mut own = situation();
    own.directory = Some("d".into());
    let (mut session, _) = Session::start("igit://a/b", own);
    assert!(matches!(
        session.step(SessionEvent::Output(false, Vec::new())),
        SessionAction::Fail(message) if message == "repository not found"
    ));
}
