//! Keys, and the setup of agents that sign with them.
use git_remote_igit::agent::{AgentAction, AgentEvent, AgentSetup};
use git_remote_igit::candid::PACK_DID;
use git_remote_igit::candid_scan::{
    check_arguments, check_contract, check_decoding, check_values,
};
use git_remote_igit::idl::{decode_reply, prepare_call, read_candid_reply};
use git_remote_igit::key::{cut_short, load_key, KeyKind};
use ic_agent::identity::{BasicIdentity, Prime256v1Identity, Secp256k1Identity};
use ic_agent::Identity;

/// Base64 with padding.
fn base64(bytes: &[u8]) -> String {
    let alphabet = b"ABCDEFGHIJKLMNOPQRSTUVWXYZabcdefghijklmnopqrstuvwxyz0123456789+/";
    let mut text = String::new();
    for group in bytes.chunks(3) {
        let mut bits: usize = 0;
        for i in 0..3 {
            bits = bits * 256 + usize::from(*group.get(i).unwrap_or(&0));
        }
        for i in 0..4 {
            if i <= group.len() {
                text.push(char::from(alphabet[(bits >> (18 - 6 * i)) & 63]));
            } else {
                text.push('=');
            }
        }
    }
    text
}

fn section(tag: &str, contents: &[u8]) -> String {
    format!("-----BEGIN {tag}-----\n{}\n-----END {tag}-----\n", base64(contents))
}

/// The numbers that the test keys are.
fn number() -> [u8; 32] {
    [1; 32]
}

fn curve_key() -> String {
    let mut der = vec![0x30, 0x25, 0x02, 0x01, 0x01, 0x04, 0x20];
    der.extend(number());
    section("EC PRIVATE KEY", &der)
}

fn prime_key() -> String {
    let curve = [0x06, 0x08, 0x2a, 0x86, 0x48, 0xce, 0x3d, 0x03, 0x01, 0x07];
    section("EC PARAMETERS", &curve) + &curve_key()
}

fn edwards_der() -> Vec<u8> {
    let mut der = vec![
        0x30, 0x2e, 0x02, 0x01, 0x00, 0x30, 0x05, 0x06, 0x03, 0x2b, 0x65, 0x70, 0x04, 0x22, 0x04,
        0x20,
    ];
    der.extend(number());
    der
}

fn edwards_key() -> String {
    section("PRIVATE KEY", &edwards_der())
}

/// A container with a constructed public key that ends too soon.
fn short_key() -> String {
    section(
        "PRIVATE KEY",
        &[
            0x30, 0x12, 0x02, 0x01, 0x01, 0x30, 0x05, 0x06, 0x03, 0x2b, 0x65, 0x70, 0x04, 0x02,
            0x04, 0x00, 0xa1, 0x02, 0x00, 0x01,
        ],
    )
}

#[test]
fn keys_are_loaded_by_the_first_kind_that_reads_them() {
    let (kind, sender) = load_key(curve_key().as_bytes()).unwrap();
    assert_eq!(kind, KeyKind::Secp256k1);
    let expected = Secp256k1Identity::from_pem(curve_key()).unwrap().sender().unwrap();
    assert_eq!(sender, Some(expected.to_text()));

    let (kind, sender) = load_key(prime_key().as_bytes()).unwrap();
    assert_eq!(kind, KeyKind::Prime256v1);
    let expected = Prime256v1Identity::from_pem(prime_key()).unwrap().sender().unwrap();
    assert_eq!(sender, Some(expected.to_text()));

    let (kind, sender) = load_key(edwards_key().as_bytes()).unwrap();
    assert_eq!(kind, KeyKind::Ed25519);
    let expected = BasicIdentity::from_pem(edwards_key()).unwrap().sender().unwrap();
    assert_eq!(sender, Some(expected.to_text()));

    assert_eq!(load_key(b"pem"), None);
    assert_eq!(load_key(section("PRIVATE KEY", b"nothing").as_bytes()), None);
}

#[test]
fn containers_that_end_too_soon_are_told_apart() {
    assert!(cut_short(short_key().as_bytes()));
    assert_eq!(load_key(short_key().as_bytes()), None);
    assert!(cut_short(short_key().replace('\n', "\r\n ").as_bytes()));
    assert!(!cut_short(edwards_key().as_bytes()));
    assert!(!cut_short(curve_key().as_bytes()));
    assert!(!cut_short(b""));
    assert!(!cut_short(b"-----BEGIN x-----"));
    let mut key = edwards_der();
    key[16] = 0xa1;
    key[47] = 0xa1;
    let pem = section("PRIVATE KEY", &key);
    assert!(!cut_short(pem.as_bytes()));
    assert_eq!(load_key(pem.as_bytes()).unwrap().0, KeyKind::Ed25519);
    let mut old = edwards_der();
    old[1] = 0x53;
    old[4] = 1;
    old.extend([0xa1, 0x23, 0x03, 0x21, 0x00]);
    old.extend([7; 32]);
    let pem = section("PRIVATE KEY", &old);
    assert!(!cut_short(pem.as_bytes()));
    assert_eq!(load_key(pem.as_bytes()), load_key(edwards_key().as_bytes()));
}

fn arguments(action: AgentAction) -> Vec<String> {
    match action {
        AgentAction::Run(arguments) => arguments,
        other => panic!("{other:?}"),
    }
}

fn output(text: &str) -> AgentEvent {
    AgentEvent::Output(Some(text.as_bytes().to_vec()))
}

fn principal_of(pem: &str) -> String {
    load_key(pem.as_bytes()).unwrap().1.unwrap()
}

#[test]
fn agents_are_set_up_as_the_confirmed_principal() {
    let pem = edwards_key();
    let (mut setup, action) = AgentSetup::start(Some("http://x".into()), None, Some("/pw".into()));
    assert_eq!(arguments(action), ["identity", "default"]);
    let action = setup.step(output(" alice\n"));
    assert_eq!(
        arguments(action),
        ["identity", "export", "alice", "--password-file", "/pw"]
    );
    let action = setup.step(output(&pem));
    assert_eq!(arguments(action), ["identity", "principal", "--identity", "alice"]);
    let action = setup.step(output(&format!("{}\n", principal_of(&pem))));
    assert!(matches!(
        action,
        AgentAction::Connect(network, KeyKind::Ed25519, key)
            if network == "http://x" && key == pem.as_bytes()
    ));
    assert!(matches!(setup.step(AgentEvent::Connected(true)), AgentAction::FetchRootKey));
    assert!(matches!(setup.step(AgentEvent::RootKey(true)), AgentAction::Ready));
    assert!(matches!(setup.step(AgentEvent::RootKey(false)), AgentAction::Ready));
    assert!(matches!(setup.step(output("again")), AgentAction::Ready));
}

#[test]
fn production_agents_trust_no_other_root_key() {
    let pem = curve_key();
    let (mut setup, _) =
        AgentSetup::start(Some("https://icp-api.io".into()), Some("alice".into()), None);
    setup.step(output(&pem));
    let action = setup.step(output(&principal_of(&pem)));
    assert!(matches!(action, AgentAction::Connect(_, KeyKind::Secp256k1, _)));
    assert!(matches!(setup.step(AgentEvent::Connected(true)), AgentAction::Ready));
}

#[test]
fn agents_are_unavailable_where_anything_is_amiss() {
    let (_, action) = AgentSetup::start(None, Some("alice".into()), None);
    assert!(matches!(action, AgentAction::Unavailable));
    let start = || AgentSetup::start(Some("http://x".into()), Some("alice".into()), None);
    let (mut setup, action) = start();
    assert_eq!(arguments(action), ["identity", "export", "alice"]);
    assert!(matches!(setup.step(AgentEvent::Output(None)), AgentAction::Unavailable));
    assert!(matches!(setup.step(output(&curve_key())), AgentAction::Unavailable));
    let (mut setup, _) = start();
    assert!(matches!(setup.step(output("pem")), AgentAction::Unavailable));
    let (mut setup, _) = start();
    assert!(matches!(setup.step(output(&short_key())), AgentAction::Unavailable));
    let (mut setup, _) = start();
    setup.step(output(&curve_key()));
    assert!(matches!(setup.step(output("2vxsx-fae")), AgentAction::Unavailable));
    let (mut setup, _) = start();
    setup.step(output(&curve_key()));
    setup.step(output(&principal_of(&curve_key())));
    assert!(matches!(setup.step(AgentEvent::Connected(false)), AgentAction::Unavailable));
    let (mut setup, _) = start();
    setup.step(output(&curve_key()));
    setup.step(output(&principal_of(&curve_key())));
    setup.step(AgentEvent::Connected(true));
    assert!(matches!(setup.step(AgentEvent::RootKey(false)), AgentAction::Unavailable));
    let (mut setup, _) = AgentSetup::start(Some("http://x".into()), None, None);
    assert!(matches!(setup.step(output(" \n")), AgentAction::Unavailable));
}

#[test]
fn texts_that_would_stop_the_parser_are_told_apart() {
    let comments = format!("({}/* */1)", "// \n".repeat(100_000));
    let deep_record = format!("({}1{})", "record {".repeat(200), "}".repeat(200));
    let deep_option = format!("({}1)", "opt ".repeat(100_000));
    let shallow_option = format!("({}1)", "opt ".repeat(100));
    let commented = format!("({}1)", "/* 0X1 */ // \n".repeat(100));
    let wide = format!("({})", "opt opt record { a = 1 }, ".repeat(1000));
    let deep_type = format!("(null : {}nat)", "opt ".repeat(200));
    for text in [
        "(0X1)",
        "(vec { 1; 0Xff : nat })",
        "(-0XA)",
        "(record { 4294967295 = 1 })",
        "(record { 0xffff_ffff = 1; 2 })",
        "(record { 4_294_967_294 = 1; 2 })",
        "(record { 1 } : record { 4294967295 : nat })",
        "(record { \"\\41\" = 1; 4294967295 = 1 })",
        "(/* \" */ 0X1)",
        "(// \"\n 0X1)",
        "(/* /* */ \" */ 0X1)",
        "(vec{1:nat8;2}:text)",
        "(opt vec { (1 : nat8); 2 : nat16 } : text)",
        "(record { a = vec { 1 : nat8; \"x\" }; b = 1 } : nat)",
        "() \"\\ff\"",
        "(1 \"\\c3\\28\")",
        "(\"a\" : \"\\80\")",
        "(variant { a = 0X1 })",
        "(record { 0X1; 2 })",
        "(record { a = -0XF_f })",
        "(service \"aaaaa-aa\" \"\\ff\")",
        comments.as_str(),
        deep_record.as_str(),
        deep_option.as_str(),
        deep_type.as_str(),
        "(((0X0)))",
    ] {
        assert!(!check_values(text), "{text}");
        assert_eq!(
            read_candid_reply(text).unwrap_err(),
            "invalid Candid response: the Candid text cannot be read"
        );
    }
    for text in [
        "()",
        "(0x1F, 10, _0X1)",
        "(\"0X1\", \"a\\\"0X1\", blob \"\\00X1\")",
        "(/* 0X1 */ 1)",
        "(1 // 0X1\n)",
        "(/** 0X1 **/ 1)",
        "(record { a = 4294967295 : nat; 4294967296 : nat; 4294967295 : nat })",
        "(vec { 4294967295 : nat })",
        "(variant { ok = record { size = 4294967290; pack_id = \"p\" } })",
        "(record { \"\\41\" = 1 })",
        "(record { 4294967294 = 1 })",
        "(1.0X1)",
        "(00X1)",
        "(vec { 1 : nat8; 2 })",
        "(vec { 1 : nat8; 2 : nat8 } : text)",
        "(vec { 1; 2 : nat8 } : text)",
        "(vec { (1 : nat8); (((2 : nat8))) } : text)",
        "(blob \"\\ff\\00\")",
        "(\"\\ff\")",
        "(record { \"\\ff\" = opt \"\\c3\\28\" })",
        "(\"\\c3\\bc\\u{fc}\", \"\\u{d7ff}\")",
        "(0X1 2)",
        "(1 : record { 0X1 : nat })",
        "(func \"aaaaa-aa\".\"\\ff\")",
        commented.as_str(),
        shallow_option.as_str(),
        wide.as_str(),
    ] {
        assert!(check_values(text), "{text}");
    }
    assert_eq!(
        read_candid_reply("(record { \"\\41\" = 1 })").unwrap().to_text(),
        "{\"A\":\"1\"}"
    );
    assert_eq!(
        read_candid_reply("(vec { 1 : nat8; 2 })").unwrap().to_text(),
        "[1,\"2\"]"
    );
    for (text, part) in [
        ("(1.0X1)", "X1"),
        ("(\"\\ff\")", "Not valid unicode text"),
        ("(vec { 1 : nat8; 2 : nat8 } : text)", "cannot be of type text"),
        ("(1 : text)", "can not be of type text"),
        ("(record { 0X1 = 2 })", "field id out of u32 range"),
        ("(variant { 0X1 })", "field id out of u32 range"),
        ("(1 : record { 0X1 : nat })", "field id out of u32 range"),
        ("(0X1 2)", "Unrecognized token"),
        ("(0X1 = 2)", "Unrecognized token"),
        ("(principal \"\\ff\")", "Not valid unicode text"),
        ("(func \"aaaaa-aa\".\"\\ff\")", "Not valid unicode text"),
        ("(record { \"\\ff\" = 1 })", "Not valid unicode text"),
        ("(record { a = opt \"\\ff\" })", "Not valid unicode text"),
        ("(variant { \"\\ff\" })", "Not valid unicode text"),
        ("(record { 4294967296 = 1 })", "field id out of u32 range"),
    ] {
        assert!(check_values(text), "{text}");
        let message = read_candid_reply(text).unwrap_err();
        assert!(message.starts_with("invalid Candid response: Candid parser error: "));
        assert!(message.contains(part), "{message}");
    }
    assert!(!check_arguments("(vec { 1 : nat8; 2 })"));
    assert!(check_arguments("(vec { 1 : nat8; 2 : nat8 })"));
    assert!(check_arguments("(vec { 1; 2 : nat8 })"));
    assert_eq!(
        read_candid_reply("(vec { \"0X1\" })").unwrap().to_text(),
        "[\"0X1\"]"
    );
    assert_eq!(
        read_candid_reply("(record { 4294967295 : nat; 7 })").unwrap().to_text(),
        "{\"0\":\"4_294_967_295\",\"1\":\"7\"}"
    );
    assert_eq!(read_candid_reply("(/** 0X1 **/ 1)").unwrap().to_text(), "\"1\"");
}

#[test]
fn contracts_that_would_stop_the_program_are_told_apart() {
    assert!(check_contract(PACK_DID));
    assert!(check_decoding(PACK_DID));
    let label = "service : { m : (record { 4294967295 : nat }) -> () }";
    let near = "type R = record { 4294967294 : nat; text }; service : { m : (R) -> () }";
    let text = "service : { m : () -> () } \"\\ff\"";
    let deep = format!("type T = {}nat; service : {{ m : () -> () }}", "vec ".repeat(200));
    let many = format!("{}service : {{ m : () -> () }}", "type T = nat;".repeat(5000));
    let comments = format!("{}service : {{ m : () -> () }}", "//\n".repeat(100_000));
    for contract in [label, near, text, deep.as_str(), many.as_str(), comments.as_str()] {
        assert!(!check_contract(contract));
        assert_eq!(
            prepare_call(contract, "m", "()").unwrap_err(),
            "the Candid contract cannot be read"
        );
        assert_eq!(
            decode_reply(contract, "m", b"DIDL").unwrap_err(),
            "the Candid contract cannot be read"
        );
    }
    for comma in [
        "service:{m:()->(variant{\"a,b\":nat})}",
        "service:{m:()->(variant{ok; \"a\\2cb\"})}",
        "service:{m:()->(variant{\"a\\u{2c}b\"})}",
    ] {
        assert!(check_contract(comma) && !check_decoding(comma), "{comma}");
        assert_eq!(prepare_call(comma, "m", "()").unwrap().bytes, b"DIDL\0\0");
        assert_eq!(
            decode_reply(comma, "m", b"DIDL\0\0").unwrap_err(),
            "the Candid contract cannot be read"
        );
    }
    for text in ["import \"\\ff\";", "service : { \"\\ff\" : () -> () }"] {
        assert!(check_contract(text), "{text}");
        let message = prepare_call(text, "m", "()").unwrap_err();
        assert!(message.contains("Not valid unicode text"), "{message}");
    }
    let chain: String = (0..200)
        .map(|i| format!("type T{i} = record {{ T{} }};", i + 1))
        .collect();
    let chain = format!("{chain} type T200 = opt nat; service : {{ m : (opt T0) -> () }}");
    assert!(prepare_call(&chain, "m", "(null)").is_ok());
    assert!(check_decoding("service : { m : (record { \"a,b\" : nat }) -> (nat, text) }"));
    assert!(check_decoding("service : { \"a,b\" : () -> (variant { a : nat; b }) }"));
    assert!(check_contract("// a, b\nservice : { m : () -> (variant { \"a b\" : nat }) }"));
    assert_eq!(
        prepare_call("service : { m : (nat) -> () }", "m", "(0X1)").unwrap_err(),
        "the Candid text cannot be read"
    );
    let argument = "(principal \"aaaaa-aa\", vec { 1 : nat8; 2 })";
    assert_eq!(
        prepare_call("service : { m : (principal, text) -> () }", "m", argument).unwrap_err(),
        "the Candid text cannot be read"
    );
}

fn blob_text(length: usize) -> String {
    format!("(blob \"{}\")", "a".repeat(length))
}

#[test]
fn replies_that_take_too_long_are_given_up() {
    let contract = "service : { m : () -> (); n : () -> (vec null) }";
    let nulls = |length: &[u8]| {
        let mut bytes = b"DIDL\x01\x6d\x7f\x01\x00".to_vec();
        bytes.extend_from_slice(length);
        bytes
    };
    let endless = nulls(&[0x80, 0x80, 0x80, 0x80, 0x80, 0x80, 0x80, 0x80, 0x40]);
    for method in ["m", "n"] {
        let message = decode_reply(contract, method, &endless).unwrap_err();
        assert!(message.starts_with("input: 4449444c016d7f0100"), "{message}");
    }
    assert_eq!(decode_reply(contract, "m", &nulls(&[3])).unwrap().to_text(), "null");
    assert_eq!(
        decode_reply(contract, "n", &nulls(&[3])).unwrap().to_text(),
        "[null,null,null]"
    );
    let long = prepare_call("service : { m : (blob) -> () }", "m", &blob_text(3_000_000)).unwrap();
    let document = decode_reply("service : { m : () -> (blob) }", "m", &long.bytes).unwrap();
    assert!(document.to_text().starts_with("[97,97,97"));
}
