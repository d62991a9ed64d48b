//! How operations come by snapshots.
use git_remote_igit::json::Json;
use git_remote_igit::operation::Operation;
use git_remote_igit::snapshot::{
    asks_for_snapshot, SnapshotAction, SnapshotEvent, SnapshotSearch,
};

const GENERATION: &str = "0123456789abcdef0123456789abcdef0123456789abcdef0123456789ABCDEF";

fn document(generation: &str, unchanged: bool) -> String {
    format!(
        "{{\"generation\":\"{generation}\",\"unchanged\":{unchanged},\
         \"refs\":[{{\"name\":\"refs/heads/main\",\"oid\":\"{generation}\"}}],\
         \"packs\":[],\"capabilities\":{{\"version\":2}}}}"
    )
}

fn json(text: &str) -> Json {
    Json::parse(text.as_bytes()).unwrap()
}

fn same_document(bytes: &[u8], text: &str) -> bool {
    Json::parse(bytes).unwrap().to_text() == json(text).to_text()
}

struct World {
    session: Option<String>,
    cache: Option<String>,
    reply: Option<String>,
}

const EMPTY: World = World { session: None, cache: None, reply: None };

/// Runs a search, and writes down what it does.
fn run(
    operation: Operation,
    disabled: Option<&str>,
    agent: bool,
    session: Option<&str>,
    world: &mut World,
) -> Vec<String> {
    let (mut search, mut action) = SnapshotSearch::start(
        operation,
        "aaaaa-aa",
        "demo",
        disabled,
        agent,
        session.map(String::from),
    );
    let mut log = Vec::new();
    loop {
        let event = match action {
            SnapshotAction::TakeSession => {
                log.push("take".to_owned());
                SnapshotEvent::Found(world.session.take().map(String::into_bytes))
            }
            SnapshotAction::ReadCache => {
                log.push("read".to_owned());
                SnapshotEvent::Found(world.cache.clone().map(String::into_bytes))
            }
            SnapshotAction::Ask(argument) => {
                log.push(argument);
                SnapshotEvent::Reply(world.reply.as_ref().map(|text| json(text)))
            }
            SnapshotAction::WriteCache(bytes) => {
                log.push("cache".to_owned());
                world.cache = Some(String::from_utf8(bytes).unwrap());
                SnapshotEvent::Written
            }
            SnapshotAction::StoreSession(bytes) => {
                log.push("store".to_owned());
                world.session = Some(String::from_utf8(bytes).unwrap());
                SnapshotEvent::Written
            }
            SnapshotAction::Finish(snapshot) => {
                log.push(match snapshot {
                    Some(known) => format!("found {}", known.refs[0].1),
                    None => "nothing".to_owned(),
                });
                return log;
            }
        };
        action = search.step(event);
    }
}

#[test]
fn snapshots_are_asked_for_with_an_agent_only() {
    assert!(asks_for_snapshot(None, true));
    assert!(asks_for_snapshot(Some("0"), true));
    assert!(asks_for_snapshot(Some(""), true));
    assert!(!asks_for_snapshot(Some("1"), true));
    assert!(!asks_for_snapshot(None, false));
    assert!(!asks_for_snapshot(Some("1"), false));
}

#[test]
fn a_switched_off_transport_makes_no_call() {
    for (disabled, agent) in [(Some("1"), true), (None, false)] {
        let mut world = World {
            cache: Some(document(GENERATION, false)),
            reply: Some(format!("{{\"ok\":{}}}", document("new", false))),
            ..EMPTY
        };
        assert_eq!(run(Operation::Upload, disabled, agent, None, &mut world), ["nothing"]);
        assert_eq!(
            run(Operation::Materialize, disabled, agent, Some("s-1"), &mut world),
            ["nothing"]
        );
        assert_eq!(
            run(Operation::Upload, disabled, agent, Some("s-1"), &mut world),
            ["take", "nothing"]
        );
        assert_eq!(world.cache.unwrap(), document(GENERATION, false));
    }
}

#[test]
fn a_push_takes_what_its_pull_stored() {
    let mut world = World {
        reply: Some(format!("{{\"ok\":{}}}", document("new", false))),
        ..EMPTY
    };
    let ask = "(principal \"aaaaa-aa\", \"demo\", null)";
    assert_eq!(
        run(Operation::Materialize, None, true, Some("s-1"), &mut world),
        ["read", ask, "cache", "store", "found new"]
    );
    assert!(same_document(world.cache.as_ref().unwrap().as_bytes(), &document("new", false)));
    assert!(same_document(
        world.session.as_ref().unwrap().as_bytes(),
        &format!("{{\"session\":\"s-1\",\"snapshot\":{}}}", document("new", false))
    ));
    assert_eq!(
        run(Operation::Upload, None, true, Some("s-1"), &mut world),
        ["take", "found new"]
    );
    assert!(world.session.is_none());
    assert_eq!(
        run(Operation::Upload, None, true, Some("s-1"), &mut world),
        ["take", "read", ask, "cache", "found new"]
    );
}

#[test]
fn sessions_with_other_names_are_passed_over() {
    let mut world = World { reply: None, ..EMPTY };
    let ask = "(principal \"aaaaa-aa\", \"demo\", null)";
    let stored = format!("{{\"session\":\"other\",\"snapshot\":{}}}", document("old", false));
    world.session = Some(stored.clone());
    assert_eq!(
        run(Operation::Upload, None, true, Some("s-1"), &mut world),
        ["take", "read", ask, "nothing"]
    );
    world.session = Some(stored.clone());
    for session in [None, Some(""), Some("no name")] {
        assert_eq!(
            run(Operation::Upload, None, true, session, &mut world),
            ["read", ask, "nothing"]
        );
    }
    assert_eq!(world.session, Some(stored));
    world.reply = Some(format!("{{\"ok\":{}}}", document("new", false)));
    assert_eq!(
        run(Operation::Materialize, None, true, Some("a b"), &mut world),
        ["read", ask, "cache", "found new"]
    );
}

#[test]
fn what_did_not_change_comes_from_the_cache() {
    let ask = format!("(principal \"aaaaa-aa\", \"demo\", opt \"{GENERATION}\")");
    let mut world = World {
        cache: Some(document(GENERATION, false)),
        reply: Some(format!("{{\"ok\":{}}}", document("", true))),
        ..EMPTY
    };
    assert_eq!(
        run(Operation::Upload, None, true, None, &mut world),
        ["read", &ask, &format!("found {GENERATION}")]
    );
    assert_eq!(world.cache.as_deref(), Some(document(GENERATION, false).as_str()));
    world.cache = None;
    let unknown = "(principal \"aaaaa-aa\", \"demo\", null)";
    assert_eq!(
        run(Operation::Upload, None, true, None, &mut world),
        ["read", unknown, "nothing"]
    );
    assert!(world.cache.is_none());
    for cache in ["not json", "[]", "{\"generation\":\"12\"}"] {
        world.cache = Some(cache.to_owned());
        assert_eq!(
            run(Operation::Upload, None, true, None, &mut world),
            ["read", unknown, "nothing"]
        );
    }
}

#[test]
fn rejected_questions_touch_nothing() {
    let unknown = "(principal \"aaaaa-aa\", \"demo\", null)";
    for reply in [None, Some("{\"err\":\"no\"}".to_owned())] {
        let mut world = World { reply, ..EMPTY };
        assert_eq!(
            run(Operation::Materialize, None, true, Some("s-1"), &mut world),
            ["read", unknown, "nothing"]
        );
        assert!(world.cache.is_none() && world.session.is_none());
    }
    let mut world = World { reply: Some("{\"ok\":{\"refs\":[]}}".to_owned()), ..EMPTY };
    assert_eq!(
        run(Operation::Materialize, None, true, Some("s-1"), &mut world),
        ["read", unknown, "cache", "nothing"]
    );
    assert_eq!(world.cache.as_deref(), Some("{\"refs\":[]}"));
}

#[test]
fn an_index_goes_by_no_snapshot() {
    let mut world = World { session: Some("x".into()), ..EMPTY };
    assert_eq!(run(Operation::IndexBrowse, None, true, Some("s-1"), &mut world), ["nothing"]);
    assert!(world.session.is_some());
}
