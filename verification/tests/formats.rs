//! Texts, documents and the formats that travel.
use candid_parser::{check_prog, IDLProg, TypeEnv};
use git_remote_igit::agent::{
    agent_network, argument_file_name, call_request, call_route, CanisterIds, CliArgument,
    CliSettings, Route,
};
use git_remote_igit::browse::{should_inline_object, INLINE_OBJECT_LIMIT};
use git_remote_igit::candid::{candid_blob, candid_json, Candid, CandidLabel, PACK_DID};
use git_remote_igit::chunk::chunk_ranges;
use git_remote_igit::idl::{
    decode_reply, document_of_values, prepare_call, read_candid_reply, read_envelope,
    read_printed_reply, reply_of_parsed, request_of_form,
};
use git_remote_igit::json::{Json, JsonNumber};
use git_remote_igit::objects::{
    all_object_ids, changed_object_ids, ids_in_listing, read_git_objects, read_object_header,
};
use git_remote_igit::order::{is_member, sorted_unique, text_before};
use git_remote_igit::pack::{
    digest_text, metadata_in_listing, pack_id, pack_id_from_file, pack_index_object_count,
    pack_object_metadata,
};
use git_remote_igit::refs::{
    candid_ref_changes, local_refs, read_refs, refs_in_listing, replace_local_refs,
};
use git_remote_igit::text::{
    cut_text, decimal_text, hex_text, join_texts, parse_u64, parse_usize, same_text, split_text,
    text_lines, text_words, trim_text, without_char,
};
use git_remote_igit::transport::{
    call_concurrency, capabilities_from_value, json_usize, parse_transport_snapshot,
    read_session_snapshot, snapshot_argument, store_session_snapshot, take_session_snapshot, transport_capabilities,
    transport_snapshot, valid_session, TransportCapabilities, TransportTimer, CHUNK_SIZE,
};

fn json(text: &str) -> Json {
    Json::parse(text.as_bytes()).unwrap()
}

fn strings(list: &[&str]) -> Vec<String> {
    list.iter().map(|t| t.to_string()).collect()
}

fn refs(list: &[(&str, &str)]) -> Vec<(String, String)> {
    list.iter().map(|(a, b)| (a.to_string(), b.to_string())).collect()
}

#[test]
fn candid_blob_is_deterministic() {
    assert_eq!(candid_blob(&[0, 1, 255]), "vec {0;1;255}");
}

#[test]
fn blobs_of_different_bytes_differ() {
    assert_eq!(candid_blob(&[]), "vec {}");
    assert_ne!(candid_blob(&[1, 2]), candid_blob(&[12]));
    assert_ne!(candid_blob(&[0]), candid_blob(&[]));
}

#[test]
fn reads_trailing_git_pack_checksum() {
    let mut bytes = vec![1, 2, 3];
    bytes.extend(0u8..20);
    assert_eq!(pack_id(&bytes), "000102030405060708090a0b0c0d0e0f10111213");
    assert_eq!(pack_id_from_file(&bytes).unwrap(), pack_id(&bytes));
    assert_eq!(pack_id_from_file(&bytes[3..]).unwrap(), pack_id(&bytes));
}

#[test]
fn short_packs_have_no_checksum() {
    assert_eq!(
        pack_id_from_file(&[7; 19]),
        Err("pack is shorter than its checksum".to_string())
    );
    assert_eq!(pack_id(&[255; 20]).len(), 40);
    assert_eq!(pack_id(&[0xab; 20]), "ab".repeat(20));
    assert_ne!(pack_id(&[0xab; 20]), pack_id(&[0xac; 20]));
    assert_eq!(pack_id(&[0xab; 20]), pack_id(&[[1; 20], [0xab; 20]].concat()));
}

#[test]
fn selects_inline_and_chunked_object_boundaries() {
    assert!(should_inline_object(INLINE_OBJECT_LIMIT));
    assert!(!should_inline_object(INLINE_OBJECT_LIMIT + 1));
}

#[test]
fn batches_binary_git_object_reads_and_atomically_replaces_refs() {
    let first_oid = "11".repeat(20);
    let second_oid = "22".repeat(20);
    let mut stream = format!("{first_oid} blob 3\n").into_bytes();
    stream.extend([0, b'\n', 255]);
    stream.push(b'\n');
    stream.extend(format!("{second_oid} blob 7\n").into_bytes());
    stream.extend(b"second\n");
    stream.push(b'\n');
    let ids = vec![first_oid.clone(), second_oid.clone()];
    let objects = read_git_objects(&ids, &stream).unwrap();
    assert_eq!(objects.len(), 2);
    assert_eq!(objects[0].oid, first_oid);
    assert_eq!(objects[0].kind, "blob");
    assert_eq!(objects[0].payload, vec![0, b'\n', 255]);
    assert_eq!(objects[1].oid, second_oid);
    assert_eq!(objects[1].kind, "blob");
    assert_eq!(objects[1].payload, b"second\n".to_vec());

    let nothing = Vec::new();
    let main = vec![("refs/tags/main".to_string(), first_oid.clone())];
    assert_eq!(
        replace_local_refs(&nothing, &main),
        format!("start\nupdate refs/tags/main {first_oid}\nprepare\ncommit\n")
    );
    let next = vec![("refs/tags/next".to_string(), second_oid.clone())];
    let local = local_refs(format!("refs/tags/main {first_oid}\n").as_bytes());
    assert_eq!(local, main);
    assert_eq!(
        replace_local_refs(&local, &next),
        format!("start\ndelete refs/tags/main\nupdate refs/tags/next {second_oid}\nprepare\ncommit\n")
    );
    assert_eq!(
        local_refs(format!("refs/tags/next {second_oid}\n").as_bytes()),
        vec![("refs/tags/next".to_string(), second_oid)]
    );
}

#[test]
fn emits_only_changed_ref_operations_including_deletions() {
    let expected = vec![
        ("refs/heads/main".into(), "11".repeat(20)),
        ("refs/heads/old".into(), "22".repeat(20)),
    ];
    let desired = vec![
        ("refs/heads/main".into(), "11".repeat(20)),
        ("refs/heads/new".into(), "33".repeat(20)),
    ];
    let changes = candid_ref_changes(&expected, &desired);
    let changes = changes.join(";");
    assert!(!changes.contains("refs/heads/main"));
    assert!(changes.contains("refs/heads/old") && changes.contains("new = null"));
    assert!(changes.contains("refs/heads/new") && changes.contains("expected_old = null"));
}

#[test]
fn ref_changes_are_ordered_by_name_and_carry_both_sides() {
    let expected = refs(&[("b", "1"), ("a", "2"), ("c", "3")]);
    let desired = refs(&[("c", "3"), ("a", "9"), ("0", "4")]);
    assert_eq!(
        candid_ref_changes(&expected, &desired),
        vec![
            "record { name = \"0\"; expected_old = null; new = opt \"4\" }".to_string(),
            "record { name = \"a\"; expected_old = opt \"2\"; new = opt \"9\" }".to_string(),
            "record { name = \"b\"; expected_old = opt \"1\"; new = null }".to_string(),
        ]
    );
    assert!(candid_ref_changes(&expected, &expected).is_empty());
}

#[test]
fn embedded_agent_contract_covers_every_transport_call() {
    let ast = PACK_DID.parse::<IDLProg>().unwrap();
    let mut env = TypeEnv::new();
    let actor = check_prog(&mut env, &ast).unwrap().unwrap();
    for method in [
        "list_refs",
        "list_packs",
        "missing_objects",
        "begin_pack",
        "put_pack_chunk",
        "transport_capabilities",
        "transport_snapshot",
        "put_pack_chunks",
        "finalize_pack",
        "list_pack_objects",
        "index_pack_objects_batch",
        "index_pack_objects_batch_v2",
        "put_objects_batch",
        "update_refs_atomic",
        "stage_ref_transaction_page",
        "commit_ref_transaction",
        "abort_ref_transaction",
        "prune_packs",
        "get_pack_chunk",
        "get_pack_chunks",
        "begin_chunked_object",
        "put_object_chunk",
        "finalize_chunked_object",
    ] {
        assert!(env.get_method(&actor, method).is_ok(), "missing {method}");
    }
}

#[test]
fn cat_file_streams_are_checked() {
    let ids = strings(&["aa"]);
    let fails = |stream: &[u8]| read_git_objects(&ids, stream).map(|_| ()).unwrap_err();
    assert_eq!(fails(b""), "invalid git cat-file response for aa: ");
    assert_eq!(fails(b"aa missing\n"), "invalid git cat-file response for aa: aa missing\n");
    assert_eq!(fails(b"bb blob 1\nx\n"), "invalid git cat-file response for aa: bb blob 1\n");
    assert_eq!(fails(b"aa missing 1\n"), "invalid git cat-file response for aa: aa missing 1\n");
    assert_eq!(fails(b"aa note 1\nx\n"), "unsupported browse object type: note");
    assert_eq!(fails(b"aa blob -1\nx\n"), "invalid git object size: -1");
    assert_eq!(
        fails(b"aa blob 4\nxyz"),
        "cannot read git object: failed to fill whole buffer"
    );
    assert_eq!(
        fails(b"aa blob 3\nxyz"),
        "cannot read git object terminator: failed to fill whole buffer"
    );
    assert_eq!(fails(b"aa blob 2\nxyz"), "invalid git cat-file object terminator");
    assert_eq!(
        fails(b"aa \xff 2\nxy\n"),
        "cannot read git cat-file header: stream did not contain valid UTF-8"
    );
    assert!(read_git_objects(&Vec::new(), b"left over").unwrap().is_empty());
    assert_eq!(read_object_header("aa", "aa tree 12\n"), Ok(("tree".to_string(), 12)));
}

#[test]
fn object_listings_are_sorted_without_repeats() {
    let listing = b"bb src/main.rs\naa\n\nbb\ncc \xff\n";
    assert_eq!(all_object_ids(listing), strings(&["aa", "bb", "cc"]));
    assert_eq!(ids_in_listing("z\r\na b c\n"), strings(&["a", "z"]));
}

#[test]
fn changed_objects_are_selected_by_both_sides() {
    let expected = refs(&[("x", "22"), ("y", "11"), ("z", "22")]);
    let desired = refs(&[("x", "44"), ("y", "33")]);
    assert_eq!(
        changed_object_ids(&expected, &desired),
        strings(&["rev-list", "--objects", "33", "44", "--not", "11", "22"])
    );
    assert_eq!(
        changed_object_ids(&Vec::new(), &desired),
        strings(&["rev-list", "--objects", "33", "44"])
    );
}

#[test]
fn pack_listings_keep_only_objects() {
    let oid = "0a".repeat(20);
    let listing = format!(
        "{oid} blob   12 20 100\n{oid} ofs 1 2 3\nxyz blob 1 2 3\n{oid} tree huge\nnon delta: 3 objects\n"
    );
    let objects = metadata_in_listing(&listing);
    assert_eq!(objects.len(), 1);
    assert_eq!(objects[0].oid, oid);
    assert_eq!(objects[0].kind, "blob");
    assert_eq!(objects[0].size, 12);
    assert_eq!(pack_object_metadata(listing.as_bytes()).len(), 1);
}

#[test]
fn pack_index_counts_come_from_the_fan_out_table() {
    let mut plain = vec![0u8; 1024];
    plain[1022] = 1;
    plain[1023] = 2;
    assert_eq!(pack_index_object_count(&plain), Some(258));
    let mut current = vec![255, b't', b'O', b'c', 0, 0, 0, 2];
    current.extend(vec![0u8; 1024]);
    current[1028] = 1;
    assert_eq!(pack_index_object_count(&current), Some(0x100_0000));
    assert_eq!(pack_index_object_count(&current[..1031]), None);
    assert_eq!(pack_index_object_count(&plain[..7]), None);
}

#[test]
fn digests_are_those_of_sha256() {
    assert_eq!(
        digest_text(b"abc"),
        "ba7816bf8f01cfea414140de5dae2223b00361a396177a9cb410ff61f20015ad"
    );
    assert_ne!(digest_text(b""), digest_text(b"\0"));
}

#[test]
fn ref_listings_of_git_are_read_line_by_line() {
    assert_eq!(
        refs_in_listing("refs/heads/a 11\nbroken\nrefs/heads/b 22 33\n"),
        refs(&[("refs/heads/a", "11"), ("refs/heads/b", "22 33")])
    );
    assert_eq!(local_refs(b"refs/\xff 11\n"), refs(&[("refs/\u{fffd}", "11")]));
}

#[test]
fn ref_listings_of_the_canister_need_every_field() {
    let good = json("[{\"name\":\"a\",\"oid\":\"1\"},{\"name\":\"b\",\"oid\":\"2\"}]");
    assert_eq!(read_refs(good.as_array().unwrap()), Some(refs(&[("a", "1"), ("b", "2")])));
    let bad = json("[{\"name\":\"a\",\"oid\":\"1\"},{\"name\":\"b\"}]");
    assert_eq!(read_refs(bad.as_array().unwrap()), None);
}

#[test]
fn text_helpers_follow_std() {
    for text in ["", "a", "a b", " a  b\tc\n", "x\r\ny\r\n\nz\r", "\u{3000}é\u{85}ü "] {
        assert_eq!(text_words(text), text.split_whitespace().map(str::to_owned).collect::<Vec<_>>());
        assert_eq!(text_lines(text), text.lines().map(str::to_owned).collect::<Vec<_>>());
        assert_eq!(trim_text(text), text.trim());
        assert_eq!(split_text(text, ' '), text.split(' ').map(str::to_owned).collect::<Vec<_>>());
        assert_eq!(
            cut_text(text, ' '),
            text.split_once(' ').map(|(a, b)| (a.to_owned(), b.to_owned()))
        );
        assert_eq!(without_char(text, 'a'), text.replace('a', ""));
    }
    for text in ["", "+", "+7", "-1", "18446744073709551615", "18446744073709551616", "1_0", "007"] {
        assert_eq!(parse_u64(text), text.parse::<u64>().ok());
        assert_eq!(parse_usize(text), text.parse::<usize>().ok());
    }
    for n in [0u64, 9, 10, 1234567890, u64::MAX] {
        assert_eq!(decimal_text(n), n.to_string());
    }
    assert_eq!(hex_text(&[0, 171, 255]), "00abff");
    assert_eq!(join_texts(&strings(&["a", "b", "c"]), ", "), "a, b, c");
    assert!(same_text("é", "é") && !same_text("a", "b"));
}

#[test]
fn texts_are_ordered_like_strings() {
    let list = strings(&["b", "a", "é", "z", "a", "", "ab"]);
    let mut expected = list.clone();
    expected.sort();
    expected.dedup();
    let sorted = sorted_unique(&list);
    assert_eq!(sorted, expected);
    assert!(is_member(&sorted, "ab") && !is_member(&sorted, "abc"));
    for a in &list {
        for b in &list {
            assert_eq!(text_before(a, b), a < b);
        }
    }
}

#[test]
fn runs_cover_a_list() {
    assert_eq!(chunk_ranges(7, 3), vec![(0, 3), (3, 6), (6, 7)]);
    assert_eq!(chunk_ranges(6, 3), vec![(0, 3), (3, 6)]);
    assert!(chunk_ranges(0, 3).is_empty());
}

#[test]
fn documents_are_read_and_written() {
    let text = "{\"a\":[1,-2,2.5,true,null],\"b\":\"x\"}";
    let document = json(text);
    assert_eq!(document.to_text(), text);
    assert_eq!(document.to_bytes(), text.as_bytes());
    assert_eq!(document.copy().to_text(), text);
    let items = document.array_at("a").unwrap();
    assert_eq!(items[0].as_u64(), Some(1));
    assert_eq!(items[1].as_u64(), None);
    assert_eq!(items[2].as_u64(), None);
    assert_eq!(items[3].as_bool(), Some(true));
    assert_eq!(document.text_at("b"), Some("x"));
    assert_eq!(document.text_at("c"), None);
    assert!(document.get("a").is_some() && items[0].get("a").is_none());
    assert!(Json::parse(b"{").is_err());
    let twice = Json::Object(vec![
        ("k".to_string(), Json::Bool(false)),
        ("k".to_string(), Json::Number(JsonNumber::Unsigned(7))),
    ]);
    assert_eq!(twice.get("k").unwrap().as_u64(), Some(7));
    assert_eq!(twice.to_text(), "{\"k\":7}");
}

#[test]
fn candid_values_become_documents() {
    let value = Candid::Record(vec![
        (CandidLabel::Named("size".into()), Candid::Nat("1_000".into())),
        (CandidLabel::Id(7), Candid::Opt(Box::new(Candid::Blob(vec![1, 2])))),
        (CandidLabel::Unnamed(8), Candid::Int16(-3)),
    ]);
    assert_eq!(candid_json(&value).to_text(), "{\"7\":[1,2],\"8\":\"-3\",\"size\":\"1_000\"}");
    assert_eq!(candid_json(&Candid::Int8(-5)).to_text(), "-5");
    assert_eq!(candid_json(&Candid::Absent).to_text(), "null");
}

#[test]
fn printed_replies_are_read() {
    let reply = read_candid_reply(
        "(variant { ok = record { name = \"x\"; n = 12 : nat; b = blob \"\\01\\ff\"; o = opt true } })",
    )
    .unwrap();
    let ok = reply.get("ok").unwrap();
    assert_eq!(ok.text_at("name"), Some("x"));
    assert_eq!(json_usize(ok, "n"), Some(12));
    assert_eq!(ok.get("b").unwrap().to_text(), "[1,255]");
    assert_eq!(ok.bool_at("o"), Some(true));
    assert_eq!(read_candid_reply("()").unwrap().to_text(), "null");
    assert_eq!(read_candid_reply("(principal \"aaaaa-aa\", 3)").unwrap().to_text(), "\"aaaaa-aa\"");
    assert_eq!(
        read_candid_reply("(1 : int8, 2)").unwrap().to_text(),
        "1"
    );
    assert!(read_candid_reply("(").unwrap_err().starts_with("invalid Candid response: "));
    assert_eq!(
        read_printed_reply(b"{\"response_candid\":\"(vec { \\\"a\\\" })\"}").unwrap().to_text(),
        "[\"a\"]"
    );
    assert_eq!(
        read_printed_reply(b"{\"other\":1}").unwrap_err(),
        "icp-cli returned no Candid response: {\"other\":1}"
    );
    assert!(read_printed_reply(b"nothing").unwrap_err().starts_with("invalid icp-cli JSON: "));
    assert_eq!(read_envelope(&json("{\"response_candid\":\"()\"}")), Ok("()"));
}

#[test]
fn calls_are_encoded_by_the_contract() {
    let owner = "aaaaa-aa";
    let query = prepare_call(PACK_DID, "list_refs", &format!("(principal \"{owner}\", \"r\")")).unwrap();
    assert!(query.query);
    assert_eq!(&query.bytes[..4], b"DIDL");
    let update = prepare_call(
        PACK_DID,
        "finalize_pack",
        &format!("(principal \"{owner}\", \"r\", \"p\")"),
    )
    .unwrap();
    assert!(!update.query);
    assert_ne!(query.bytes, update.bytes);
    assert!(prepare_call(PACK_DID, "no_such_method", "()").is_err());
    assert!(prepare_call(PACK_DID, "list_refs", "(").is_err());
    assert_eq!(
        prepare_call("type T = nat;", "list_refs", "()").unwrap_err(),
        "Candid contract has no service actor"
    );
    assert_eq!(
        request_of_form(Ok(None)).unwrap_err(),
        "Candid contract has no service actor"
    );
    let request = request_of_form(Ok(Some((true, vec![1])))).unwrap();
    assert!(request.query);
    assert_eq!(request.bytes, vec![1]);
    assert_eq!(request_of_form(Err("no stack".to_owned())).unwrap_err(), "no stack");
}

#[test]
fn a_broken_contract_gives_the_error_of_its_parser() {
    let error = prepare_call("service : {", "list_refs", "()").unwrap_err();
    assert!(error.starts_with("Candid parser error: "));
    assert_eq!(prepare_call("service : {", "put_ref", "(").unwrap_err(), error);
    assert_eq!(decode_reply("service : {", "list_refs", b"DIDL").unwrap_err(), error);
}

#[test]
fn calls_need_a_value_for_each_parameter() {
    let pair = "service : { pair : (nat, text) -> () }";
    assert!(prepare_call(pair, "pair", "(1, \"a\")").is_ok());
    assert_eq!(
        prepare_call(pair, "pair", "(1)").unwrap_err(),
        "wrong number of argument values"
    );
}

#[test]
fn options_in_replies_are_decoded() {
    let echo = "service : { m : (record { a : opt nat; b : opt text }) -> (record { a : opt nat; b : opt text }) query }";
    let request = prepare_call(echo, "m", "(record { a = opt 5; b = null })").unwrap();
    let reply = decode_reply(echo, "m", &request.bytes).unwrap();
    assert_eq!(reply.to_text(), "{\"a\":\"5\",\"b\":null}");
    assert!(decode_reply(echo, "m", &request.bytes[..4]).is_err());
    assert!(decode_reply(echo, "other", &request.bytes).is_err());
}

#[test]
fn typed_values_become_documents() {
    assert_eq!(read_candid_reply("(vec {} : vec nat8)").unwrap().to_text(), "[]");
    assert_eq!(
        read_candid_reply("(vec { 7; 0 } : vec nat8)").unwrap().to_text(),
        read_candid_reply("(blob \"\\07\\00\")").unwrap().to_text()
    );
    assert!(read_candid_reply("(300 : nat8)").unwrap_err().starts_with("invalid Candid response: "));
    assert_eq!(reply_of_parsed(Ok(vec![])).unwrap().to_text(), "null");
    assert_eq!(
        reply_of_parsed(Err("broken".to_owned())).unwrap_err(),
        "invalid Candid response: broken"
    );
}

#[test]
fn replies_are_decoded_by_the_contract() {
    let echo = "service : { echo : (record { a : nat; b : vec nat8 }) -> (record { a : nat; b : vec nat8 }) query }";
    let request = prepare_call(echo, "echo", "(record { a = 1200; b = blob \"\\00\\07\" })").unwrap();
    let reply = decode_reply(echo, "echo", &request.bytes).unwrap();
    assert_eq!(json_usize(&reply, "a"), Some(1200));
    assert_eq!(reply.get("b").unwrap().to_text(), "[0,7]");
    assert_eq!(
        document_of_values(Ok(None)).unwrap_err(),
        "Candid contract has no service actor",
    );
    assert_eq!(document_of_values(Ok(Some(vec![]))).unwrap().to_text(), "null");
    assert_eq!(document_of_values(Err("no stack".to_owned())).unwrap_err(), "no stack");
    assert!(decode_reply(echo, "echo", b"no Candid").is_err());
    assert_eq!(
        decode_reply("type T = nat;", "echo", b"").unwrap_err(),
        "Candid contract has no service actor"
    );
}

#[test]
fn capabilities_stay_within_their_limits() {
    let none = capabilities_from_value(&json("{}"));
    assert_eq!(none, TransportCapabilities::default());
    let wild = capabilities_from_value(&json(
        "{\"version\":\"2\",\"max_chunk_batch_items\":\"1_000\",\"max_chunk_batch_bytes\":9,\
         \"max_pack_index_batch_items\":0,\"max_download_batch_items\":99,\
         \"max_retained_packs\":\"100_000\",\"packed_object_reads\":true}",
    ));
    assert_eq!(wild.version, 2);
    assert_eq!(wild.max_chunk_batch_items, 16);
    assert_eq!(wild.max_chunk_batch_bytes, CHUNK_SIZE);
    assert_eq!(wild.max_pack_index_batch_items, 1);
    assert_eq!(wild.max_download_batch_items, 3);
    assert_eq!(wild.max_retained_packs, 1000);
    assert!(wild.packed_object_reads && !wild.streaming_pack_downloads);
    assert_eq!(transport_capabilities(None), TransportCapabilities::default());
    assert_eq!(transport_capabilities(Some(&json("{\"version\":3}"))).version, 3);
}

#[test]
fn numbers_may_be_grouped() {
    let document = json("{\"a\":5,\"b\":\"1_234\",\"c\":\"x\",\"d\":-1,\"e\":\"\"}");
    assert_eq!(json_usize(&document, "a"), Some(5));
    assert_eq!(json_usize(&document, "b"), Some(1234));
    assert_eq!(json_usize(&document, "c"), None);
    assert_eq!(json_usize(&document, "d"), None);
    assert_eq!(json_usize(&document, "e"), None);
    assert_eq!(json_usize(&document, "f"), None);
}

const SNAPSHOT: &str = "{\"capabilities\":{\"version\":\"2\"},\"generation\":\"g\",\
    \"packs\":[{\"indexed_objects\":\"3\",\"pack_id\":\"p\"},{\"other\":1}],\
    \"refs\":[{\"name\":\"refs/heads/main\",\"oid\":\"11\"}],\"unchanged\":false}";

#[test]
fn snapshots_are_read() {
    let snapshot = parse_transport_snapshot(&json(SNAPSHOT)).unwrap();
    assert_eq!(snapshot.capabilities.version, 2);
    assert_eq!(snapshot.refs, refs(&[("refs/heads/main", "11")]));
    assert_eq!(snapshot.packs, vec![("p".to_string(), 3)]);
    assert_eq!(snapshot.pack_values.len(), 2);
    assert_eq!(snapshot.raw.to_text(), SNAPSHOT);
    assert!(parse_transport_snapshot(&json("{\"refs\":[],\"packs\":[]}")).is_none());
    assert!(parse_transport_snapshot(&json("{\"refs\":[1],\"packs\":[],\"capabilities\":{}}")).is_none());
}

#[test]
fn snapshot_questions_name_the_known_generation() {
    let known = "0123456789abcdefABCDEF0123456789abcdef0123456789abcdef0123456789";
    let cached = json(&format!("{{\"generation\":\"{known}\"}}"));
    assert_eq!(
        snapshot_argument("o", "r", Some(&cached)),
        format!("(principal \"o\", \"r\", opt \"{known}\")")
    );
    assert_eq!(snapshot_argument("o", "r", None), "(principal \"o\", \"r\", null)");
    assert_eq!(
        snapshot_argument("o", "r", Some(&json("{\"generation\":\"zz\"}"))),
        "(principal \"o\", \"r\", null)"
    );
}

#[test]
fn snapshot_answers_may_stand_for_the_cached_one() {
    let fresh = json(&format!("{{\"ok\":{SNAPSHOT}}}"));
    let (stored, snapshot) = transport_snapshot(&fresh, None);
    assert_eq!(stored.as_deref(), Some(SNAPSHOT.as_bytes()));
    assert_eq!(snapshot.unwrap().raw.to_text(), SNAPSHOT);
    let unchanged = json("{\"ok\":{\"unchanged\":true}}");
    let cached = json(SNAPSHOT);
    let (stored, snapshot) = transport_snapshot(&unchanged, Some(&cached));
    assert!(stored.is_none());
    assert_eq!(snapshot.unwrap().raw.to_text(), SNAPSHOT);
    assert!(transport_snapshot(&unchanged, None).1.is_none());
    let (stored, snapshot) = transport_snapshot(&json("{\"err\":\"no\"}"), Some(&cached));
    assert!(stored.is_none() && snapshot.is_none());
}

#[test]
fn sessions_read_back_their_own_snapshot() {
    let snapshot = parse_transport_snapshot(&json(SNAPSHOT)).unwrap();
    let bytes = store_session_snapshot("s-1", &snapshot);
    assert_eq!(take_session_snapshot(&bytes, "s-1").unwrap().raw.to_text(), SNAPSHOT);
    assert!(take_session_snapshot(&bytes, "s-2").is_none());
    assert!(take_session_snapshot(b"broken", "s-1").is_none());
    let stored = json(&format!("{{\"session\":\"a\",\"snapshot\":{SNAPSHOT}}}"));
    assert!(read_session_snapshot(&stored, "a").is_some());
    assert!(read_session_snapshot(&stored, "b").is_none());
    assert!(valid_session("s-1") && !valid_session("") && !valid_session("a/b"));
}

#[test]
fn calls_run_in_bounded_groups() {
    assert_eq!(call_concurrency(Some(8), None, 100), 12);
    assert_eq!(call_concurrency(Some(1), None, 100), 4);
    assert_eq!(call_concurrency(None, None, 100), 8);
    assert_eq!(call_concurrency(Some(usize::MAX), None, 3), 3);
    assert_eq!(call_concurrency(Some(8), None, 0), 1);
    assert_eq!(call_concurrency(Some(8), Some("100"), 2), 16);
    assert_eq!(call_concurrency(Some(8), Some("0"), 2), 1);
    assert_eq!(call_concurrency(Some(8), Some("many"), 2), 2);
}

#[test]
fn timers_report_phases() {
    let mut timer = TransportTimer::new("push", 1_000_000);
    assert_eq!(timer.mark("a", 5_000_000, false), None);
    assert_eq!(
        timer.mark("b", 6_500_000, true).as_deref(),
        Some("infinigit transport: operation=push phase=b phase_ms=5 total_ms=5")
    );
    assert_eq!(
        timer.mark("c", 8_000_000, true).as_deref(),
        Some("infinigit transport: operation=push phase=c phase_ms=1 total_ms=7")
    );
}

#[test]
fn agents_need_an_address() {
    assert_eq!(agent_network(Some("http://x"), Some("ic")).as_deref(), Some("http://x"));
    assert_eq!(agent_network(None, Some("ic")).as_deref(), Some("https://icp-api.io"));
    assert_eq!(
        agent_network(None, Some("http://127.0.0.1:8000")).as_deref(),
        Some("http://127.0.0.1:8000")
    );
    assert_eq!(agent_network(None, Some("local")), None);
    assert_eq!(agent_network(None, None), None);
}

#[test]
fn canisters_are_known_by_principal_or_by_name() {
    let mut ids = CanisterIds::new();
    assert_eq!(ids.canister_principal("aaaaa-aa"), Some(Vec::new()));
    let shard = ids.canister_principal("rrkah-fqaaa-aaaaa-aaaaq-cai").unwrap();
    assert_eq!(shard, vec![0, 0, 0, 0, 0, 0, 0, 1, 1, 1]);
    assert_eq!(ids.canister_principal("shard"), None);
    assert_eq!(
        ids.learn("shard", Some(b"{\"id\":\"rrkah-fqaaa-aaaaa-aaaaq-cai\"}")),
        Ok(shard.clone())
    );
    assert_eq!(ids.known("shard"), Some(shard.clone()));
    assert_eq!(ids.known("aaaaa-aa"), None);
    assert_eq!(ids.canister_principal("shard"), Some(shard));
    assert_eq!(
        ids.learn("other", None),
        Err("cannot resolve canister name other".to_string())
    );
    assert_eq!(
        ids.learn("other", Some(b"{}")),
        Err("canister status returned no id for other".to_string())
    );
    assert!(ids.learn("other", Some(b"?")).is_err());
    assert!(ids.learn("other", Some(b"{\"id\":\"?\"}")).is_err());
    assert_eq!(ids.canister_principal("other"), None);
}

fn flat(list: &[CliArgument]) -> Vec<String> {
    list.iter()
        .map(|argument| match argument {
            CliArgument::Text(text) => text.clone(),
            other => format!("{other:?}"),
        })
        .collect()
}

#[test]
fn client_calls_carry_what_the_environment_gives() {
    let nothing = CliSettings {
        contract: false,
        identity: false,
        password_file: false,
        network: false,
        root_key: true,
        project_root: true,
    };
    assert_eq!(
        flat(&call_request("c", "m", nothing)),
        strings(&[
            "canister", "call", "c", "m", "--args-file", "ArgumentFile", "--json",
            "--project-root-override", "ProjectRoot",
        ])
    );
    let everything = CliSettings {
        contract: true,
        identity: true,
        password_file: true,
        network: true,
        root_key: true,
        project_root: true,
    };
    assert_eq!(
        flat(&call_request("c", "m", everything))[7..],
        strings(&[
            "--candid", "Contract", "--identity", "Identity", "--identity-password-file",
            "PasswordFile", "--network", "Network", "--root-key", "RootKey",
        ])
    );
    assert_eq!(argument_file_name(12, 3), "infinigit-candid-12-3.did");
    assert_eq!(call_route(true, Some("1")), Route::Agent);
    assert_eq!(call_route(false, Some("1")), Route::Refused);
    assert_eq!(call_route(false, Some("yes")), Route::Client);
    assert_eq!(call_route(false, None), Route::Client);
}
