//! Runs of the operations, with a scripted canister and repository.
use git_remote_igit::action::{Action, Call, Event, Repository};
use git_remote_igit::browse::{
    index_browse_object, index_browse_objects, plan_objects, BrowseAll, BATCH_OBJECTS,
    INLINE_OBJECT_LIMIT,
};
use git_remote_igit::candid::candid_blob;
use git_remote_igit::download::{download_requests, read_chunks};
use git_remote_igit::json::Json;
use git_remote_igit::materialize::{Materialize, Pace};
use git_remote_igit::objects::{missing_objects, read_missing, GitObject};
use git_remote_igit::operation::{read_order, Job, Operation};
use git_remote_igit::pack::{chunk_requests, digest_text, pack_id};
use git_remote_igit::publish::Publish;
use git_remote_igit::transport::{
    parse_transport_snapshot, TransportCapabilities, TransportSnapshot, CHUNK_SIZE,
};
use git_remote_igit::upload::Upload;

fn json(text: &str) -> Json {
    Json::parse(text.as_bytes()).unwrap()
}

fn ok() -> Json {
    json("{\"ok\":null}")
}

fn err() -> Json {
    json("{\"err\":\"no\"}")
}

fn at() -> Repository {
    Repository { owner: "o".into(), name: "r".into() }
}

fn pace() -> Pace {
    Pace { processors: Some(1), configured: Some("2".into()) }
}

fn call(action: Action) -> Call {
    match action {
        Action::Call(call) => call,
        other => panic!("{other:?}"),
    }
}

fn calls(action: Action) -> Vec<Call> {
    match action {
        Action::Calls(calls) => calls,
        other => panic!("{other:?}"),
    }
}

fn failure(action: Action) -> String {
    match action {
        Action::Fail(message) => message,
        other => panic!("{other:?}"),
    }
}

fn mark(action: Action) -> String {
    match action {
        Action::Mark(phase) => phase,
        other => panic!("{other:?}"),
    }
}

fn accept_all(calls: &[Call]) -> Event {
    Event::Replies(calls.iter().map(|_| ok()).collect())
}

fn snapshot(version: usize, refs: &str, packs: &str) -> TransportSnapshot {
    parse_transport_snapshot(&json(&format!(
        "{{\"capabilities\":{{\"version\":{version},\"max_chunk_batch_items\":4,\
         \"max_download_batch_items\":2,\"max_pack_index_batch_items\":1}},\
         \"refs\":[{refs}],\"packs\":[{packs}]}}"
    )))
    .unwrap()
}

fn a_pack() -> (Vec<u8>, String) {
    let mut bytes = vec![9u8; 30];
    bytes.extend(1u8..=20);
    let id = pack_id(&bytes);
    (bytes, id)
}

fn oid(n: u8) -> String {
    format!("{n:02x}").repeat(20)
}

#[test]
fn an_upload_without_changes_ends_early() {
    let refs = format!("{{\"name\":\"refs/heads/main\",\"oid\":\"{}\"}}", oid(1));
    let (mut upload, action) = Upload::start(at(), Some(snapshot(2, &refs, "")));
    assert!(matches!(action, Action::ListRefs));
    let listing = format!("refs/heads/main {}\n", oid(1));
    match upload.step(Event::Output(listing.into_bytes())) {
        Action::ListObjects(arguments) => assert_eq!(
            arguments,
            ["rev-list".to_string(), "--objects".into(), oid(1), "--not".into(), oid(1)]
        ),
        other => panic!("{other:?}"),
    }
    let action = upload.step(Event::Listed(Some(Vec::new())));
    assert_eq!(mark(action), "up_to_date");
    assert!(matches!(upload.step(Event::Done), Action::Finish));
    assert!(matches!(upload.step(Event::Done), Action::Abort(_)));
}

#[test]
fn an_upload_publishes_refs_after_packs_and_objects() {
    let (bytes, id) = a_pack();
    let (mut upload, action) = Upload::start(at(), Some(snapshot(2, "", "")));
    assert!(matches!(action, Action::ListRefs));
    let listing = format!("refs/heads/main {}\n", oid(2));
    upload.step(Event::Output(listing.into_bytes()));
    let asked = calls(upload.step(Event::Listed(Some(format!("{}\n", oid(2)).into_bytes()))));
    assert_eq!(asked.len(), 1);
    assert_eq!(asked[0].method, "missing_objects");
    assert_eq!(
        asked[0].argument,
        format!("(principal \"o\", \"r\", vec {{\"{}\"}}, false)", oid(2))
    );
    let missing = json(&format!("{{\"ok\":[\"{}\"]}}", oid(2)));
    assert_eq!(mark(upload.step(Event::Replies(vec![missing.copy()]))), "negotiate");
    assert!(matches!(upload.step(Event::Done), Action::PackObjects(ids) if ids == [oid(2)]));
    assert!(matches!(
        upload.step(Event::Output(format!("{id}\n").into_bytes())),
        Action::CountObjects(name) if name == id
    ));
    assert!(matches!(upload.step(Event::Count(Some(2))), Action::VerifyPack(name) if name == id));
    let verified = format!("{} commit 30 20 12\n{} blob 7 9 32\n", oid(2), oid(3));
    assert!(matches!(
        upload.step(Event::Output(verified.into_bytes())),
        Action::ReadPack(name) if name == id
    ));
    let begin = call(upload.step(Event::Output(bytes.clone())));
    assert_eq!(begin.method, "begin_pack");
    assert_eq!(begin.argument, format!("(principal \"o\", \"r\", \"{id}\", 50, {CHUNK_SIZE})"));
    let chunks = calls(upload.step(Event::Reply(err())));
    assert_eq!(chunks.len(), 1);
    assert_eq!(chunks[0].method, "put_pack_chunks");
    assert_eq!(
        chunks[0].argument,
        format!(
            "(principal \"o\", \"r\", \"{id}\", vec {{record {{ index = 0; digest = \"{}\"; payload = {} }}}})",
            digest_text(&bytes),
            candid_blob(&bytes)
        )
    );
    let finalize = call(upload.step(accept_all(&chunks)));
    assert_eq!(finalize.method, "finalize_pack");
    assert_eq!(call(upload.step(Event::Reply(ok()))).method, "list_pack_objects");
    let first = call(upload.step(Event::Reply(json("{\"ok\":[]}"))));
    assert_eq!(first.method, "index_pack_objects_batch_v2");
    assert_eq!(
        first.argument,
        format!(
            "(principal \"o\", \"r\", \"{id}\", vec {{record {{ oid = \"{}\"; kind = variant {{ \"commit\" }}; size = 30 }}}}, true)",
            oid(2)
        )
    );
    let rest = calls(upload.step(Event::Reply(ok())));
    assert_eq!(rest.len(), 1);
    assert!(rest[0].argument.ends_with(", false)"));
    assert_eq!(mark(upload.step(accept_all(&rest))), "pack_upload_and_index");
    let asked = calls(upload.step(Event::Done));
    assert!(asked[0].argument.ends_with(", true)"));
    assert!(matches!(
        upload.step(Event::Replies(vec![missing])),
        Action::ReadObjects(ids) if ids == [oid(2)]
    ));
    let stream = format!("{} commit 2\nhi\n", oid(2));
    let stored = calls(upload.step(Event::Stream(stream.into_bytes(), true)));
    assert_eq!(stored[0].method, "put_objects_batch");
    assert_eq!(
        stored[0].argument,
        format!(
            "(principal \"o\", \"r\", vec {{record {{ oid = \"{}\"; git_object = record {{ kind = variant {{ \"commit\" }}; payload = vec {{104;105}} }} }}}})",
            oid(2)
        )
    );
    assert_eq!(mark(upload.step(accept_all(&stored))), "browse_objects");
    let update = call(upload.step(Event::Done));
    assert_eq!(update.method, "update_refs_atomic");
    assert_eq!(
        update.argument,
        format!(
            "(principal \"o\", \"r\", vec {{record {{ name = \"refs/heads/main\"; expected_old = null; new = opt \"{}\" }}}})",
            oid(2)
        )
    );
    assert_eq!(mark(upload.step(Event::Reply(ok()))), "publish_and_prune");
    assert!(matches!(upload.step(Event::Done), Action::Finish));
}

#[test]
fn an_upload_without_a_snapshot_negotiates() {
    let (mut upload, action) = Upload::start(at(), None);
    match action {
        Action::Negotiate(calls) => {
            assert_eq!(calls.len(), 2);
            assert_eq!(calls[0].method, "list_refs");
            assert_eq!(calls[0].argument, "(principal \"o\", \"r\")");
            assert_eq!(calls[1].method, "list_packs");
        }
        other => panic!("{other:?}"),
    }
    let replies = vec![json("{\"ok\":[]}"), json("{\"ok\":[{\"pack_id\":\"p\"}]}")];
    assert!(matches!(
        upload.step(Event::Negotiated(Some(json("{\"version\":2}")), replies)),
        Action::ListRefs
    ));
    assert_eq!(upload.capabilities.version, 2);
    assert_eq!(upload.remote, vec![("p".to_string(), 0)]);
    let refused = |replies: Vec<Json>| {
        let (mut upload, _) = Upload::start(at(), None);
        failure(upload.step(Event::Negotiated(None, replies)))
    };
    assert_eq!(refused(vec![err(), ok()]), "ref listing rejected: {\"err\":\"no\"}");
    assert_eq!(refused(vec![json("{\"ok\":[1]}"), ok()]), "ref negotiation panicked");
    assert_eq!(
        refused(vec![json("{\"ok\":[]}"), err()]),
        "pack listing rejected: {\"err\":\"no\"}"
    );
}

fn upload_to_packs(version: usize, packs: &str) -> (Upload, Action) {
    let (mut upload, _) = Upload::start(at(), Some(snapshot(version, "", packs)));
    upload.step(Event::Output(format!("refs/heads/main {}\n", oid(2)).into_bytes()));
    upload.step(Event::Listed(Some(format!("{}\n", oid(2)).into_bytes())));
    upload.step(Event::Replies(vec![json("{\"ok\":[]}")]));
    let action = upload.step(Event::Done);
    (upload, action)
}

#[test]
fn indexed_packs_are_passed_over() {
    let pack = "{\"pack_id\":\"p\",\"indexed_objects\":\"3\"}";
    let (mut upload, action) = upload_to_packs(1, pack);
    assert!(matches!(action, Action::CountObjects(id) if id == "p"));
    assert_eq!(mark(upload.step(Event::Count(Some(3)))), "pack_upload_and_index");
    let (mut upload, _) = upload_to_packs(1, pack);
    assert!(matches!(upload.step(Event::Count(Some(4))), Action::VerifyPack(_)));
    let (mut upload, _) = upload_to_packs(1, pack);
    assert!(matches!(upload.step(Event::Count(None)), Action::VerifyPack(_)));
}

#[test]
fn packs_are_checked_before_they_are_sent() {
    let pack = "{\"pack_id\":\"p\"}";
    let (mut upload, _) = upload_to_packs(1, pack);
    upload.step(Event::Count(None));
    upload.step(Event::Output(Vec::new()));
    assert_eq!(
        failure(upload.step(Event::Output(vec![0; 20]))),
        "local pack checksum mismatch: p"
    );
    let (mut upload, _) = upload_to_packs(1, pack);
    upload.step(Event::Count(None));
    upload.step(Event::Output(Vec::new()));
    assert!(matches!(upload.step(Event::Output(vec![0; 19])), Action::Abort(_)));
}

#[test]
fn old_transports_index_in_sequence() {
    let (bytes, id) = a_pack();
    let pack = format!("{{\"pack_id\":\"{id}\"}}");
    let (mut upload, _) = upload_to_packs(1, &pack);
    upload.step(Event::Count(None));
    let verified = format!("{} commit 30 20 12\n{} blob 7 9 32\n", oid(2), oid(3));
    upload.step(Event::Output(verified.into_bytes()));
    upload.step(Event::Output(bytes));
    let listed = call(upload.step(Event::Reply(json("{\"ok\":{\"complete\":true}}"))));
    assert_eq!(listed.method, "list_pack_objects");
    let known = json(&format!("{{\"ok\":[\"{}\",7]}}", oid(3)));
    match upload.step(Event::Reply(known)) {
        Action::Sequence(calls) => {
            assert_eq!(calls.len(), 1);
            assert_eq!(calls[0].method, "index_pack_objects_batch");
            assert!(calls[0].argument.contains(&oid(2)) && calls[0].argument.ends_with(", false)"));
        }
        other => panic!("{other:?}"),
    }
    assert_eq!(
        failure(upload.step(Event::Replies(vec![err()]))),
        "pack index batch rejected: {\"err\":\"no\"}"
    );
}

#[test]
fn many_packs_are_compacted_and_pruned() {
    let (bytes, id) = a_pack();
    let packs: Vec<String> = (0..90).map(|n| format!("{{\"pack_id\":\"p{n}\"}}")).collect();
    let (mut upload, action) = upload_to_packs(2, &packs.join(","));
    assert!(matches!(action, Action::Repack));
    assert!(matches!(
        upload.step(Event::Names(vec![id.clone(), id.clone()])),
        Action::CountObjects(name) if name == id
    ));
    upload.step(Event::Count(None));
    upload.step(Event::Output(Vec::new()));
    upload.step(Event::Output(bytes));
    upload.step(Event::Reply(json("{\"ok\":{\"complete\":true}}")));
    let none = calls(upload.step(Event::Reply(json("{\"ok\":[]}"))));
    assert!(none.is_empty());
    assert_eq!(mark(upload.step(Event::Replies(Vec::new()))), "pack_upload_and_index");
    upload.step(Event::Done);
    let stored = calls(upload.step(Event::Replies(vec![json("{\"ok\":[]}")])));
    assert!(stored.is_empty());
    upload.step(Event::Replies(Vec::new()));
    assert_eq!(call(upload.step(Event::Done)).method, "update_refs_atomic");
    let prune = call(upload.step(Event::Reply(ok())));
    assert_eq!(prune.method, "prune_packs");
    assert_eq!(prune.argument, format!("(principal \"o\", \"r\", vec {{\"{id}\"}})"));
    assert_eq!(
        failure(upload.step(Event::Reply(err()))),
        "obsolete pack pruning rejected: {\"err\":\"no\"}"
    );
}

#[test]
fn rejections_end_an_upload() {
    let (mut upload, _) = Upload::start(at(), Some(snapshot(2, "", "")));
    upload.step(Event::Output(format!("refs/heads/main {}\n", oid(2)).into_bytes()));
    assert!(matches!(upload.step(Event::Listed(None)), Action::ListAllObjects));
    upload.step(Event::Output(format!("{}\n", oid(2)).into_bytes()));
    assert_eq!(
        failure(upload.step(Event::Replies(vec![err()]))),
        "object negotiation rejected: {\"err\":\"no\"}"
    );
    let (mut upload, _) = Upload::start(at(), Some(snapshot(2, "", "")));
    upload.step(Event::Output(format!("refs/heads/main {}\n", oid(2)).into_bytes()));
    upload.step(Event::Listed(Some(format!("{}\n", oid(2)).into_bytes())));
    upload.step(Event::Replies(vec![json(&format!("{{\"ok\":[\"{}\"]}}", oid(2)))]));
    upload.step(Event::Done);
    assert_eq!(
        failure(upload.step(Event::Output(b"short\n".to_vec()))),
        "git pack-objects returned an invalid pack id"
    );
    assert!(matches!(upload.step(Event::Done), Action::Abort(_)));
}

#[test]
fn deleting_every_ref_needs_no_objects() {
    let refs = format!("{{\"name\":\"refs/heads/main\",\"oid\":\"{}\"}}", oid(1));
    let (mut upload, _) = Upload::start(at(), Some(snapshot(2, &refs, "")));
    let asked = calls(upload.step(Event::Output(Vec::new())));
    assert!(asked.is_empty());
    assert_eq!(mark(upload.step(Event::Replies(Vec::new()))), "negotiate");
    assert_eq!(mark(upload.step(Event::Done)), "pack_upload_and_index");
}

#[test]
fn missing_objects_are_asked_for_in_batches() {
    let ids: Vec<String> = (0..501).map(|n| format!("{n}")).collect();
    let questions = missing_objects(&at(), &ids, true);
    assert_eq!(questions.len(), 2);
    assert_eq!(questions[1].argument, "(principal \"o\", \"r\", vec {\"500\"}, true)");
    let replies = vec![json("{\"ok\":[\"b\",\"a\"]}"), json("{\"ok\":[\"c\"]}")];
    assert_eq!(read_missing(&replies).unwrap(), ["b", "a", "c"]);
    assert!(matches!(read_missing(&vec![json("{\"ok\":[1]}")]), Err(Action::Abort(_))));
}

#[test]
fn packs_travel_in_chunks() {
    let bytes: Vec<u8> = (0..3 * CHUNK_SIZE + 7).map(|n| n as u8).collect();
    let mut capabilities = TransportCapabilities::default();
    let single = chunk_requests(&at(), "p", &bytes, &capabilities);
    assert_eq!(single.len(), 4);
    assert!(single.iter().all(|call| call.method == "put_pack_chunk"));
    assert_eq!(
        single[3].argument,
        format!(
            "(principal \"o\", \"r\", \"p\", 3, \"{}\", {})",
            digest_text(&bytes[3 * CHUNK_SIZE..]),
            candid_blob(&bytes[3 * CHUNK_SIZE..])
        )
    );
    capabilities.version = 2;
    capabilities.max_chunk_batch_items = 3;
    capabilities.max_chunk_batch_bytes = 2 * CHUNK_SIZE + 1;
    let batched = chunk_requests(&at(), "p", &bytes, &capabilities);
    let sizes: Vec<usize> =
        batched.iter().map(|call| call.argument.matches("record {").count()).collect();
    assert_eq!(sizes, [2, 2]);
    assert!(batched[1].argument.starts_with(
        "(principal \"o\", \"r\", \"p\", vec {record { index = 2; digest = \""
    ));
}

#[test]
fn few_changes_are_published_at_once() {
    let (_, action) = Publish::start(&at(), Vec::new());
    assert!(action.is_none());
    let changes: Vec<String> = (0..100).map(|n| format!("c{n}")).collect();
    let (mut publish, action) = Publish::start(&at(), changes);
    assert_eq!(call(action.unwrap()).method, "update_refs_atomic");
    assert!(publish.step(&at(), Event::Reply(ok())).is_none());
    let (mut publish, _) = Publish::start(&at(), vec!["c".into()]);
    assert_eq!(
        failure(publish.step(&at(), Event::Reply(err())).unwrap()),
        "atomic ref publication rejected: {\"err\":\"no\"}"
    );
}

#[test]
fn many_changes_are_published_as_a_transaction() {
    let changes: Vec<String> = (0..201).map(|n| format!("c{n}")).collect();
    let id = digest_text(changes.join(";").as_bytes());
    let (mut publish, action) = Publish::start(&at(), changes.clone());
    let first = call(action.unwrap());
    assert_eq!(first.method, "stage_ref_transaction_page");
    assert!(first
        .argument
        .starts_with(&format!("(principal \"o\", \"r\", \"{id}\", 3 : nat, 0 : nat, vec {{c0;c1;")));
    call(publish.step(&at(), Event::Reply(ok())).unwrap());
    let last = call(publish.step(&at(), Event::Reply(ok())).unwrap());
    assert_eq!(
        last.argument,
        format!("(principal \"o\", \"r\", \"{id}\", 3 : nat, 2 : nat, vec {{c200}})")
    );
    let commit = call(publish.step(&at(), Event::Reply(ok())).unwrap());
    assert_eq!(commit.method, "commit_ref_transaction");
    assert_eq!(commit.argument, format!("(principal \"o\", \"r\", \"{id}\")"));
    assert_eq!(
        failure(publish.step(&at(), Event::Reply(err())).unwrap()),
        "atomic ref transaction rejected: {\"err\":\"no\"}"
    );
    let (mut publish, _) = Publish::start(&at(), changes);
    let abort = call(publish.step(&at(), Event::Reply(err())).unwrap());
    assert_eq!(abort.method, "abort_ref_transaction");
    assert_eq!(
        failure(publish.step(&at(), Event::Reply(ok())).unwrap()),
        "ref transaction page rejected: {\"err\":\"no\"}"
    );
}

fn object(n: u8, size: usize) -> GitObject {
    GitObject { oid: oid(n), kind: "blob".into(), payload: vec![n; size] }
}

#[test]
fn objects_are_batched_by_number_and_weight() {
    let many = (0..=BATCH_OBJECTS).map(|n| object(n as u8, 1)).collect();
    let (batches, large) = plan_objects(&at(), many);
    let sizes: Vec<usize> =
        batches.iter().map(|call| call.argument.matches("git_object").count()).collect();
    assert_eq!(sizes, [100, 1]);
    assert!(large.is_empty());
    let heavy = (0..11).map(|n| object(n, INLINE_OBJECT_LIMIT)).collect();
    let (batches, _) = plan_objects(&at(), heavy);
    let sizes: Vec<usize> =
        batches.iter().map(|call| call.argument.matches("git_object").count()).collect();
    assert_eq!(sizes, [9, 2]);
    let mixed = vec![object(1, 1), object(2, INLINE_OBJECT_LIMIT + 1), object(3, 1)];
    let (batches, large) = plan_objects(&at(), mixed);
    assert_eq!(batches.len(), 2);
    assert_eq!(large.len(), 1);
    assert_eq!(large[0].oid, oid(2));
    assert!(plan_objects(&at(), Vec::new()).0.is_empty());
}

#[test]
fn large_objects_travel_one_by_one() {
    let (mut browse, action) = index_browse_objects(&at(), &vec![oid(1)]);
    assert_eq!(calls(action).len(), 1);
    let missing = json(&format!("{{\"ok\":[\"{}\",\"{}\"]}}", oid(1), oid(2)));
    browse.step(&at(), Event::Replies(vec![missing]));
    let size = INLINE_OBJECT_LIMIT + 1;
    let mut stream = format!("{} blob {size}\n", oid(1)).into_bytes();
    stream.extend(vec![7; size]);
    stream.extend(format!("\n{} tree 1\nx\n", oid(2)).into_bytes());
    let begin = call(browse.step(&at(), Event::Stream(stream, true)).unwrap());
    assert_eq!(begin.method, "begin_chunked_object");
    assert_eq!(
        begin.argument,
        format!(
            "(principal \"o\", \"r\", \"{}\", variant {{ \"blob\" }}, {size}, {CHUNK_SIZE})",
            oid(1)
        )
    );
    let chunks = calls(
        browse.step(&at(), Event::Reply(json("{\"ok\":{\"complete\":false}}"))).unwrap(),
    );
    assert_eq!(chunks.len(), 1);
    assert_eq!(chunks[0].method, "put_object_chunk");
    let finalize = call(browse.step(&at(), accept_all(&chunks)).unwrap());
    assert_eq!(finalize.method, "finalize_chunked_object");
    let batches = calls(browse.step(&at(), Event::Reply(ok())).unwrap());
    assert_eq!(batches.len(), 1);
    assert!(batches[0].argument.contains("\"tree\""));
    assert_eq!(
        failure(browse.step(&at(), Event::Replies(vec![err()])).unwrap()),
        "browse object batch rejected: {\"err\":\"no\"}"
    );
}

#[test]
fn failed_reads_end_the_storing() {
    let start = || {
        let (mut browse, _) = index_browse_objects(&at(), &vec![oid(1)]);
        browse.step(&at(), Event::Replies(vec![json(&format!("{{\"ok\":[\"{}\"]}}", oid(1)))]));
        browse
    };
    let stream = format!("{} blob 1\nx\n", oid(1)).into_bytes();
    assert_eq!(
        failure(start().step(&at(), Event::Stream(stream, false)).unwrap()),
        "git cat-file batch failed"
    );
    assert_eq!(
        failure(start().step(&at(), Event::Stream(Vec::new(), false)).unwrap()),
        format!("invalid git cat-file response for {}: ", oid(1))
    );
    assert!(matches!(start().step(&at(), Event::Done), Some(Action::Abort(_))));
}

#[test]
fn single_objects_are_stored_by_size() {
    let (mut upload, action) = index_browse_object(&at(), object(1, 2));
    let put = call(action);
    assert_eq!(put.method, "put_object");
    assert_eq!(
        put.argument,
        format!("(principal \"o\", \"r\", \"{}\", variant {{ \"blob\" }}, vec {{1;1}})", oid(1))
    );
    assert_eq!(
        failure(upload.step(&at(), Event::Reply(err())).unwrap()),
        "browse object indexing rejected: {\"err\":\"no\"}"
    );
    let large = || index_browse_object(&at(), object(1, INLINE_OBJECT_LIMIT + 1)).0;
    assert!(large().step(&at(), Event::Reply(json("{\"ok\":{\"complete\":true}}"))).is_none());
    assert_eq!(
        failure(large().step(&at(), Event::Reply(ok())).unwrap()),
        "chunked browse object rejected: {\"ok\":null}"
    );
    let mut upload = large();
    upload.step(&at(), Event::Reply(json("{\"ok\":{\"complete\":false}}")));
    assert_eq!(
        failure(upload.step(&at(), Event::Replies(vec![err()])).unwrap()),
        "browse object chunk upload rejected: {\"err\":\"no\"}"
    );
    let mut upload = large();
    upload.step(&at(), Event::Reply(json("{\"ok\":{\"complete\":false}}")));
    upload.step(&at(), Event::Replies(vec![ok()]));
    assert_eq!(
        failure(upload.step(&at(), Event::Reply(err())).unwrap()),
        "chunked browse object finalization rejected: {\"err\":\"no\"}"
    );
}

#[test]
fn all_objects_can_be_stored() {
    let (mut all, action) = BrowseAll::start(at());
    assert!(matches!(action, Action::ListAllObjects));
    let asked = calls(all.step(Event::Output(b"bb\naa\n".to_vec())));
    assert_eq!(asked[0].argument, "(principal \"o\", \"r\", vec {\"aa\";\"bb\"}, true)");
    let stored = calls(all.step(Event::Replies(vec![json("{\"ok\":[]}")])));
    assert!(stored.is_empty());
    assert!(matches!(all.step(Event::Replies(Vec::new())), Action::Finish));
}

fn blob(bytes: &[u8]) -> Json {
    json(&format!("{bytes:?}"))
}

#[test]
fn chunks_are_put_together_again() {
    let single = vec![
        Json::Object(vec![("ok".into(), blob(&[1, 2]))]),
        Json::Object(vec![("ok".into(), blob(&[255]))]),
    ];
    assert_eq!(read_chunks(&single, false).unwrap(), [1, 2, 255]);
    let batched = vec![json("{\"ok\":[[1,2],[3]]}"), json("{\"ok\":[[260]]}")];
    assert_eq!(read_chunks(&batched, true).unwrap(), [1, 2, 3, 4]);
    assert_eq!(
        failure(read_chunks(&vec![err()], false).unwrap_err()),
        "chunk download rejected: {\"err\":\"no\"}"
    );
    assert_eq!(failure(read_chunks(&single, true).unwrap_err()), "invalid chunk batch response");
    assert!(matches!(
        read_chunks(&vec![json("{\"ok\":[\"x\"]}")], false),
        Err(Action::Abort(_))
    ));
    let mut capabilities = TransportCapabilities::default();
    let calls = download_requests(&at(), "p", 3, &capabilities);
    assert_eq!(calls.len(), 3);
    assert_eq!(calls[2].method, "get_pack_chunk");
    assert_eq!(calls[2].argument, "(principal \"o\", \"r\", \"p\", 2)");
    capabilities.version = 2;
    capabilities.max_download_batch_items = 2;
    let calls = download_requests(&at(), "p", 3, &capabilities);
    assert_eq!(calls.len(), 2);
    assert_eq!(calls[0].method, "get_pack_chunks");
    assert_eq!(calls[0].argument, "(principal \"o\", \"r\", \"p\", vec {0;1})");
    assert_eq!(calls[1].argument, "(principal \"o\", \"r\", \"p\", vec {2})");
}

#[test]
fn a_materialization_installs_packs_and_replaces_refs() {
    let refs = format!("{{\"name\":\"refs/heads/main\",\"oid\":\"{}\"}}", oid(1));
    let packs = "{\"complete\":true,\"pack_id\":\"here\",\"chunk_count\":\"1\"},\
                 {\"complete\":false},\
                 {\"complete\":true,\"pack_id\":\"new\",\"chunk_count\":\"5\"}";
    let (mut pull, action) = Materialize::start(at(), pace(), Some(snapshot(2, &refs, packs)));
    assert!(matches!(action, Action::PreparePacks));
    assert!(matches!(pull.step(Event::Done), Action::ReadChecksum(id) if id == "here"));
    assert!(matches!(
        pull.step(Event::Checksum(Some("here".into()))),
        Action::FindIndex(id) if id == "here"
    ));
    assert!(matches!(pull.step(Event::Present(false)), Action::IndexPack(id) if id == "here"));
    assert!(matches!(pull.step(Event::Done), Action::ReadChecksum(id) if id == "new"));
    assert!(matches!(pull.step(Event::Checksum(None)), Action::OpenIncoming(id) if id == "new"));
    let group = calls(pull.step(Event::Done));
    assert_eq!(group.len(), 2);
    assert_eq!(group[1].argument, "(principal \"o\", \"r\", \"new\", vec {2;3})");
    let replies = vec![json("{\"ok\":[[1],[2]]}"), json("{\"ok\":[[3],[4]]}")];
    assert!(matches!(pull.step(Event::Replies(replies)), Action::Append(b) if b == [1, 2, 3, 4]));
    let group = calls(pull.step(Event::Done));
    assert_eq!(group.len(), 1);
    assert!(matches!(
        pull.step(Event::Replies(vec![json("{\"ok\":[[5]]}")])),
        Action::Append(b) if b == [5]
    ));
    assert!(matches!(pull.step(Event::Done), Action::IncomingChecksum(id) if id == "new"));
    assert!(matches!(
        pull.step(Event::Checksum(Some("new".into()))),
        Action::IndexIncoming(_)
    ));
    assert!(matches!(pull.step(Event::Done), Action::InstallIncoming(id) if id == "new"));
    assert!(matches!(pull.step(Event::Done), Action::WriteMultiPackIndex));
    assert_eq!(mark(pull.step(Event::Done)), "pack_download_and_verify");
    assert!(matches!(pull.step(Event::Done), Action::ListRefs));
    let script = format!("start\ndelete refs/tags/x\nupdate refs/heads/main {}\nprepare\ncommit\n", oid(1));
    assert!(matches!(
        pull.step(Event::Output(b"refs/tags/x 99\n".to_vec())),
        Action::UpdateRefs(text) if text == script
    ));
    assert!(matches!(pull.step(Event::Done), Action::PointHead));
    assert_eq!(mark(pull.step(Event::Done)), "refs");
    assert!(matches!(pull.step(Event::Done), Action::Finish));
}

#[test]
fn a_bad_download_is_thrown_away() {
    let packs = "{\"complete\":true,\"pack_id\":\"new\",\"chunk_count\":\"0\"}";
    let (mut pull, _) = Materialize::start(at(), pace(), Some(snapshot(1, "", packs)));
    pull.step(Event::Done);
    pull.step(Event::Checksum(Some("other".into())));
    assert!(matches!(pull.step(Event::Done), Action::IncomingChecksum(_)));
    assert!(matches!(
        pull.step(Event::Checksum(Some("other".into()))),
        Action::DiscardIncoming(id) if id == "new"
    ));
    assert_eq!(failure(pull.step(Event::Done)), "pack checksum mismatch: new");
}

#[test]
fn a_materialization_without_a_snapshot_probes() {
    let (mut pull, action) = Materialize::start(at(), pace(), None);
    assert!(matches!(action, Action::Negotiate(calls) if calls.len() == 1));
    assert!(matches!(
        pull.step(Event::Negotiated(None, vec![json("{\"ok\":[]}")])),
        Action::PreparePacks
    ));
    assert_eq!(mark(pull.step(Event::Done)), "pack_download_and_verify");
    assert_eq!(call(pull.step(Event::Done)).method, "list_refs");
    assert!(matches!(
        pull.step(Event::Reply(json("{\"ok\":[{\"name\":\"a\",\"oid\":\"1\"}]}"))),
        Action::ListRefs
    ));
    assert!(matches!(
        pull.step(Event::Output(Vec::new())),
        Action::UpdateRefs(text) if text == "start\nupdate a 1\nprepare\ncommit\n"
    ));
    assert_eq!(mark(pull.step(Event::Done)), "refs");
    let (mut pull, _) = Materialize::start(at(), pace(), None);
    assert_eq!(
        failure(pull.step(Event::Negotiated(None, vec![err()]))),
        "pack listing rejected: {\"err\":\"no\"}"
    );
    let (mut pull, _) = Materialize::start(at(), pace(), None);
    pull.step(Event::Negotiated(None, vec![json("{\"ok\":[]}")]));
    pull.step(Event::Done);
    pull.step(Event::Done);
    assert_eq!(
        failure(pull.step(Event::Reply(err()))),
        "ref listing rejected: {\"err\":\"no\"}"
    );
}

#[test]
fn malformed_packs_abort_a_materialization() {
    for packs in ["{\"complete\":true}", "{\"complete\":true,\"pack_id\":\"p\",\"chunk_count\":\"1_0\"}"] {
        let (mut pull, _) = Materialize::start(at(), pace(), Some(snapshot(1, "", packs)));
        assert!(matches!(pull.step(Event::Done), Action::Abort(_)));
    }
    let two = "{\"complete\":false},{\"complete\":false}";
    let (mut pull, _) = Materialize::start(at(), pace(), Some(snapshot(1, "", two)));
    assert!(matches!(pull.step(Event::Done), Action::FindMultiPackIndex));
    assert_eq!(mark(pull.step(Event::Present(true))), "pack_download_and_verify");
}

#[test]
fn orders_are_read_from_arguments() {
    let order = |list: &[&str]| read_order(&list.iter().map(|t| t.to_string()).collect());
    let good = order(&["x", "index-browse", "c", "o", "r", "/d"]).unwrap();
    assert_eq!(good.operation, Operation::IndexBrowse);
    assert_eq!((good.canister.as_str(), good.at.owner.as_str()), ("c", "o"));
    assert_eq!((good.at.name.as_str(), good.git_dir.as_str()), ("r", "/d"));
    assert_eq!(order(&["x", "upload", "c", "o", "r", "d"]).unwrap().operation, Operation::Upload);
    assert!(order(&["x", "upload"]).unwrap_err().starts_with("usage: infinigit-pack "));
    assert_eq!(
        order(&["x", "sync", "c", "o", "r", "d"]).unwrap_err(),
        "operation must be upload, materialize, or index-browse"
    );
    let (mut job, action) = Job::start(Operation::IndexBrowse, at(), pace(), None);
    assert!(matches!(action, Action::ListAllObjects));
    assert!(matches!(job.step(Event::Done), Action::Abort(_)));
    let (_, action) = Job::start(Operation::Upload, at(), pace(), None);
    assert!(matches!(action, Action::Negotiate(_)));
    let (_, action) = Job::start(Operation::Materialize, at(), pace(), Some(snapshot(1, "", "")));
    assert!(matches!(action, Action::PreparePacks));
}
