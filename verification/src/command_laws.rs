//! What the command line client and the bridge are told.
use vstd::prelude::*;
use vstd::utf8::{decode_utf8, valid_utf8};

use crate::agent::{
    agent_address, argument_file, call_arguments, canister_id, network_options, principal_bytes,
    printed_text, printed_value, route, setup_run, status_arguments, status_principal,
    AgentActionModel, AgentEventModel, CliModel, CliSettings, Route,
};
use crate::helper::{
    data_root, directory, env_network, env_with, helper_answer, pack_environment, project_of,
    repository_place, Access, EnvModel, HelperModel, SettingsModel,
};
use crate::json::{json_document, text_field};
use crate::key::{ed25519_key, is_cut_short, loaded_key, prime256v1_key, secp256k1_key, KeyKind};
use crate::text::{
    decimal, first_occurrence, is_digit, joined, joined_resplits, numerals_are_digits,
    numerals_are_read_back, occurs_at, pieces, trimmed,
};

verus! {

/// An option with its value, where there is one.
pub open spec fn option_of(present: bool, name: Seq<char>, value: CliModel) -> Seq<CliModel> {
    if present {
        seq![CliModel::Text(name), value]
    } else {
        seq![]
    }
}

/// A call by the command line client names the canister, the method and the file with the
/// argument, asks for JSON, and passes on what the environment gives: the contract, the
/// identity and its password, and the network with its root key, or else the project.
pub proof fn calls_are_passed_on(
    canister: Seq<char>,
    method: Seq<char>,
    settings: CliSettings,
)
    ensures
        call_arguments(canister, method, settings) == seq![
            CliModel::Text("canister"@),
            CliModel::Text("call"@),
            CliModel::Text(canister),
            CliModel::Text(method),
            CliModel::Text("--args-file"@),
            CliModel::ArgumentFile,
            CliModel::Text("--json"@),
        ] + option_of(settings.contract, "--candid"@, CliModel::Contract) + option_of(
            settings.identity,
            "--identity"@,
            CliModel::Identity,
        ) + option_of(settings.password_file, "--identity-password-file"@, CliModel::PasswordFile)
            + (option_of(settings.network, "--network"@, CliModel::Network) + option_of(
            settings.network && settings.root_key,
            "--root-key"@,
            CliModel::RootKey,
        ) + option_of(
            !settings.network && settings.project_root,
            "--project-root-override"@,
            CliModel::ProjectRoot,
        )),
{
    let options = option_of(settings.network, "--network"@, CliModel::Network) + option_of(
        settings.network && settings.root_key,
        "--root-key"@,
        CliModel::RootKey,
    ) + option_of(
        !settings.network && settings.project_root,
        "--project-root-override"@,
        CliModel::ProjectRoot,
    );
    assert(network_options(settings) =~= options);
}

/// Calls of different processes, or of one process at different times, keep their arguments
/// in files of different names.
pub proof fn argument_files_are_told_apart(
    process: u32,
    sequence: u64,
    other: u32,
    later: u64,
)
    requires
        argument_file(process, sequence) == argument_file(other, later),
    ensures
        process == other,
        sequence == later,
{
    let a = seq![decimal(process as nat), decimal(sequence as nat)];
    let b = seq![decimal(other as nat), decimal(later as nat)];
    lemma_middle(process, sequence);
    lemma_middle(other, later);
    let head = "infinigit-candid-"@;
    let tail = ".did"@;
    let x = joined(a, seq!['-']);
    let y = joined(b, seq!['-']);
    assert(head + x + tail == head + y + tail);
    assert((head + x + tail).len() == (head + y + tail).len());
    assert(x =~= (head + x + tail).subrange(head.len() as int, (head.len() + x.len()) as int));
    assert(y =~= (head + y + tail).subrange(head.len() as int, (head.len() + y.len()) as int));
    assert(x == y);
    lemma_numerals_split(process, sequence);
    lemma_numerals_split(other, later);
    assert(a == b);
    assert(a[0] == b[0] && a[1] == b[1]);
    numerals_are_read_back(process as nat, u64::MAX as nat);
    numerals_are_read_back(other as nat, u64::MAX as nat);
    numerals_are_read_back(sequence as nat, u64::MAX as nat);
    numerals_are_read_back(later as nat, u64::MAX as nat);
}

proof fn lemma_middle(process: u32, sequence: u64)
    ensures
        argument_file(process, sequence) == "infinigit-candid-"@ + joined(
            seq![decimal(process as nat), decimal(sequence as nat)],
            seq!['-'],
        ) + ".did"@,
{
    reveal_strlit("-");
    let list = seq![decimal(process as nat), decimal(sequence as nat)];
    assert("-"@ =~= seq!['-']);
    assert(list.drop_last() =~= seq![decimal(process as nat)]);
    assert(joined(list.drop_last(), seq!['-']) == decimal(process as nat));
    assert(joined(list, seq!['-']) == decimal(process as nat) + seq!['-'] + decimal(
        sequence as nat,
    ));
    assert(argument_file(process, sequence) =~= "infinigit-candid-"@ + joined(list, seq!['-'])
        + ".did"@);
}

proof fn lemma_numerals_split(process: u32, sequence: u64)
    ensures
        pieces(
            joined(seq![decimal(process as nat), decimal(sequence as nat)], seq!['-']),
            '-',
        ) == seq![decimal(process as nat), decimal(sequence as nat)],
{
    let list = seq![decimal(process as nat), decimal(sequence as nat)];
    numerals_are_digits(process as nat);
    numerals_are_digits(sequence as nat);
    assert forall|i: int| 0 <= i < list.len() implies !(#[trigger] list[i]).contains('-') by {
        if list[i].contains('-') {
            let k = choose|k: int| 0 <= k < list[i].len() && list[i][k] == '-';
            assert(is_digit(list[i][k]));
        }
    }
    joined_resplits(list, '-');
}

/// A call goes by the agent where there is one. Without one it goes by the client, unless an
/// agent is required.
pub proof fn calls_go_by_the_agent(required: Option<Seq<char>>)
    ensures
        route(true, required) == Route::Agent,
        required == Some("1"@) ==> route(false, required) == Route::Refused,
        required != Some("1"@) ==> route(false, required) == Route::Client,
{
}

/// An agent connects to the address that is given; without one, to that of production where
/// the network is `ic`, and to the network where it is an address.
pub proof fn agents_connect_to(
    url: Seq<char>,
    network: Option<Seq<char>>,
    name: Seq<char>,
    host: Seq<char>,
)
    ensures
        agent_address(Some(url), network) == Some(url),
        agent_address(None, Some("ic"@)) == Some("https://icp-api.io"@),
        agent_address(None, None) is None,
        ({
            let address = name + "://"@ + host;
            address != "ic"@ ==> agent_address(None, Some(address)) == Some(address)
        }),
{
    let address = name + "://"@ + host;
    reveal_strlit("://");
    let n = name.len() as int;
    assert(address.subrange(n, n + 3) =~= "://"@);
    assert(occurs_at(address, "://"@, n));
    lemma_some_occurrence(address, "://"@, 0, n);
}

proof fn lemma_some_occurrence(s: Seq<char>, pattern: Seq<char>, from: int, at: int)
    requires
        0 <= from <= at,
        at + pattern.len() <= s.len(),
        occurs_at(s, pattern, at),
    ensures
        first_occurrence(s, pattern, from) is Some,
    decreases at - from,
{
    if !occurs_at(s, pattern, from) {
        lemma_some_occurrence(s, pattern, from + 1, at);
    }
}

/// The key in an export is of the first kind that reads it: secp256k1, then prime256v1, then
/// Ed25519.
pub proof fn keys_are_of_the_first_kind_that_reads_them(pem: Seq<u8>)
    ensures
        secp256k1_key(pem) matches Some(sender) ==> loaded_key(pem) == Some(
            (KeyKind::Secp256k1, sender),
        ),
        secp256k1_key(pem) is None ==> (prime256v1_key(pem) matches Some(sender) ==> loaded_key(pem)
            == Some((KeyKind::Prime256v1, sender))),
        secp256k1_key(pem) is None && prime256v1_key(pem) is None && !is_cut_short(pem) ==> (
        ed25519_key(pem) matches Some(sender) ==> loaded_key(pem) == Some(
            (KeyKind::Ed25519, sender),
        )),
        secp256k1_key(pem) is None && prime256v1_key(pem) is None && (is_cut_short(pem)
            || ed25519_key(pem) is None) ==> loaded_key(pem) is None,
{
}

/// The setup of an agent asks the client for its default identity unless one is named, for
/// the key of the identity, with the file of its password where there is one, and for its
/// principal; then an agent is made for the address with that key.
pub proof fn setups_ask_the_client(
    address: Seq<char>,
    name: Option<Seq<char>>,
    password_file: Option<Seq<char>>,
    answer: Seq<u8>,
    pem: Seq<u8>,
    output: Seq<u8>,
)
    requires
        name is None ==> printed_value(answer) is Some,
        loaded_key(pem) matches Some((_, Some(principal))) && printed_text(output) == Some(
            principal,
        ),
    ensures
        ({
            let identity = match name {
                Some(text) => text,
                None => printed_value(answer)->Some_0,
            };
            let named = match name {
                Some(_) => seq![],
                None => seq![AgentEventModel::Output(Some(answer))],
            };
            let exported = named.push(AgentEventModel::Output(Some(pem)));
            let confirmed = exported.push(AgentEventModel::Output(Some(output)));
            let at = |events: Seq<AgentEventModel>|
                setup_run(Some(address), name, password_file, events).1;
            &&& name is None ==> at(seq![]) == AgentActionModel::Run(
                seq!["identity"@, "default"@],
            )
            &&& at(named) == AgentActionModel::Run(
                seq!["identity"@, "export"@, identity] + match password_file {
                    Some(path) => seq!["--password-file"@, path],
                    None => seq![],
                },
            )
            &&& at(exported) == AgentActionModel::Run(
                seq!["identity"@, "principal"@, "--identity"@, identity],
            )
            &&& at(confirmed) == AgentActionModel::Connect(address, loaded_key(pem)->Some_0.0, pem)
        }),
        setup_run(None, name, password_file, seq![]).1 == AgentActionModel::Unavailable,
{
    let identity = match name {
        Some(text) => text,
        None => printed_value(answer)->Some_0,
    };
    let none = Seq::<AgentEventModel>::empty();
    let named = match name {
        Some(_) => seq![],
        None => seq![AgentEventModel::Output(Some(answer))],
    };
    let exported = named.push(AgentEventModel::Output(Some(pem)));
    let confirmed = exported.push(AgentEventModel::Output(Some(output)));
    if name is None {
        assert(named.drop_last() =~= none);
        assert(setup_run(Some(address), name, password_file, named.drop_last()) == setup_run(
            Some(address),
            name,
            password_file,
            none,
        ));
    }
    assert(exported.drop_last() =~= named);
    assert(confirmed.drop_last() =~= exported);
    let plain = seq!["identity"@, "export"@, identity];
    assert(plain + Seq::<Seq<char>>::empty() =~= plain);
    let a = setup_run(Some(address), name, password_file, named);
    assert(a.1 == AgentActionModel::Run(
        plain + match password_file {
            Some(path) => seq!["--password-file"@, path],
            None => seq![],
        },
    ));
    let b = setup_run(Some(address), name, password_file, exported);
    assert(b.1 == AgentActionModel::Run(
        seq!["identity"@, "principal"@, "--identity"@, identity],
    ));
}

/// The status of a canister is asked for by its name.
pub proof fn canisters_are_asked_by_name(canister: Seq<char>)
    ensures
        status_arguments(canister) == seq!["canister"@, "status"@, canister, "--json"@],
{
}

/// The environment of the bridge, as far as it is changed for a run: the values for a name,
/// in order.
pub open spec fn values_for(changes: Seq<EnvModel>, name: Seq<char>) -> Seq<Option<Seq<char>>>
    decreases changes.len(),
{
    if changes.len() == 0 {
        seq![]
    } else {
        let front = values_for(changes.drop_last(), name);
        match changes.last() {
            EnvModel::Assign(n, value) => if n == name {
                front.push(Some(value))
            } else {
                front
            },
            EnvModel::Remove(n) => if n == name {
                front.push(None)
            } else {
                front
            },
            EnvModel::AssignPasswordFile(_) => front,
        }
    }
}

/// A value, where there is one.
pub open spec fn at_most(value: Option<Seq<char>>) -> Seq<Option<Seq<char>>> {
    match value {
        Some(text) => seq![Some(text)],
        None => seq![],
    }
}

proof fn lemma_values_add(a: Seq<EnvModel>, b: Seq<EnvModel>, name: Seq<char>)
    ensures
        values_for(a + b, name) == values_for(a, name) + values_for(b, name),
    decreases b.len(),
{
    if b.len() == 0 {
        assert(a + b =~= a);
        assert(values_for(a, name) + values_for(b, name) =~= values_for(a, name));
    } else {
        lemma_values_add(a, b.drop_last(), name);
        assert((a + b).drop_last() =~= a + b.drop_last());
        assert(values_for(a + b, name) =~= values_for(a, name) + values_for(b, name));
    }
}

proof fn lemma_one_value(change: EnvModel, name: Seq<char>)
    ensures
        values_for(seq![change], name) == (match change {
            EnvModel::Assign(n, value) => if n == name {
                seq![Some(value)]
            } else {
                seq![]
            },
            EnvModel::Remove(n) => if n == name {
                seq![None]
            } else {
                seq![]
            },
            EnvModel::AssignPasswordFile(_) => seq![],
        }),
{
    assert(seq![change].drop_last() =~= seq![]);
    assert(values_for(seq![], name) =~= seq![]);
    assert(values_for(seq![change], name) =~= (match change {
        EnvModel::Assign(n, value) => if n == name {
            seq![Some(value)]
        } else {
            seq![]
        },
        EnvModel::Remove(n) => if n == name {
            seq![None]
        } else {
            seq![]
        },
        EnvModel::AssignPasswordFile(_) => seq![],
    }));
}

proof fn lemma_env_with(variable: Seq<char>, value: Option<Seq<char>>, name: Seq<char>)
    ensures
        values_for(env_with(variable, value), name) == if variable == name {
            at_most(value)
        } else {
            seq![]
        },
{
    match value {
        Some(text) => lemma_one_value(EnvModel::Assign(variable, text), name),
        None => {
            assert(values_for(seq![], name) =~= seq![]);
        },
    }
}

proof fn lemma_variables()
    ensures
        "INFINIGIT_NETWORK"@ != "INFINIGIT_ROOT_KEY"@,
        "INFINIGIT_NETWORK"@ != "INFINIGIT_PROJECT_ROOT"@,
        "INFINIGIT_NETWORK"@ != "INFINIGIT_ICP_BIN"@,
        "INFINIGIT_NETWORK"@ != "INFINIGIT_IDENTITY"@,
        "INFINIGIT_ROOT_KEY"@ != "INFINIGIT_PROJECT_ROOT"@,
        "INFINIGIT_ROOT_KEY"@ != "INFINIGIT_ICP_BIN"@,
        "INFINIGIT_ROOT_KEY"@ != "INFINIGIT_IDENTITY"@,
        "INFINIGIT_PROJECT_ROOT"@ != "INFINIGIT_ICP_BIN"@,
        "INFINIGIT_PROJECT_ROOT"@ != "INFINIGIT_IDENTITY"@,
        "INFINIGIT_ICP_BIN"@ != "INFINIGIT_IDENTITY"@,
{
    reveal_strlit("INFINIGIT_NETWORK");
    reveal_strlit("INFINIGIT_ROOT_KEY");
    reveal_strlit("INFINIGIT_PROJECT_ROOT");
    reveal_strlit("INFINIGIT_ICP_BIN");
    reveal_strlit("INFINIGIT_IDENTITY");
    assert("INFINIGIT_NETWORK"@.len() == 17);
    assert("INFINIGIT_ICP_BIN"@.len() == 17);
    assert("INFINIGIT_ROOT_KEY"@.len() == 18);
    assert("INFINIGIT_IDENTITY"@.len() == 18);
    assert("INFINIGIT_PROJECT_ROOT"@.len() == 22);
    assert("INFINIGIT_NETWORK"@[10] == 'N');
    assert("INFINIGIT_ICP_BIN"@[10] == 'I');
    assert("INFINIGIT_ROOT_KEY"@[10] == 'R');
    assert("INFINIGIT_IDENTITY"@[10] == 'I');
}

/// The bridge gets the settings of the session by its environment, each under its own name:
/// the program of the client and the identity always; the project, and the network with its
/// root key, outside production; and in production the production network and no root key.
pub proof fn settings_are_passed_on(
    settings: SettingsModel,
    production: bool,
    password: bool,
)
    ensures
        ({
            let changes = pack_environment(settings, production, password);
            let network = settings.network is Some;
            &&& values_for(changes, "INFINIGIT_ICP_BIN"@) == at_most(settings.icp)
            &&& values_for(changes, "INFINIGIT_IDENTITY"@) == at_most(settings.identity)
            &&& values_for(changes, "INFINIGIT_PROJECT_ROOT"@) == if production {
                seq![]
            } else {
                at_most(settings.project_root)
            }
            &&& values_for(changes, "INFINIGIT_NETWORK"@) == if production {
                seq![Some("ic"@)]
            } else {
                at_most(settings.network)
            }
            &&& values_for(changes, "INFINIGIT_ROOT_KEY"@) == if production {
                seq![None]
            } else if network {
                at_most(settings.root_key)
            } else {
                seq![]
            }
            &&& changes.contains(
                EnvModel::AssignPasswordFile("INFINIGIT_IDENTITY_PASSWORD_FILE"@),
            ) == password
        }),
{
    lemma_variables();
    lemma_environment(settings, production, password, "INFINIGIT_ICP_BIN"@);
    lemma_environment(settings, production, password, "INFINIGIT_IDENTITY"@);
    lemma_environment(settings, production, password, "INFINIGIT_PROJECT_ROOT"@);
    lemma_environment(settings, production, password, "INFINIGIT_NETWORK"@);
    lemma_environment(settings, production, password, "INFINIGIT_ROOT_KEY"@);
    let changes = pack_environment(settings, production, password);
    let file = EnvModel::AssignPasswordFile("INFINIGIT_IDENTITY_PASSWORD_FILE"@);
    if password {
        assert(changes[changes.len() - 1] == file);
    }
}

spec fn network_values(
    settings: SettingsModel,
    production: bool,
    name: Seq<char>,
) -> Seq<Option<Seq<char>>> {
    if name == "INFINIGIT_NETWORK"@ {
        if production {
            seq![Some("ic"@)]
        } else {
            at_most(settings.network)
        }
    } else if name == "INFINIGIT_ROOT_KEY"@ {
        if production {
            seq![None]
        } else if settings.network is Some {
            at_most(settings.root_key)
        } else {
            seq![]
        }
    } else {
        seq![]
    }
}

proof fn lemma_network(settings: SettingsModel, production: bool, name: Seq<char>)
    ensures
        values_for(env_network(settings, production), name) == network_values(
            settings,
            production,
            name,
        ),
{
    lemma_variables();
    if production {
        let one = EnvModel::Assign("INFINIGIT_NETWORK"@, "ic"@);
        let two = EnvModel::Remove("INFINIGIT_ROOT_KEY"@);
        lemma_values_add(seq![one], seq![two], name);
        assert(seq![one] + seq![two] =~= seq![one, two]);
        lemma_one_value(one, name);
        lemma_one_value(two, name);
        assert(values_for(seq![one, two], name) =~= network_values(settings, production, name));
    } else if settings.network is Some {
        let one = env_with("INFINIGIT_NETWORK"@, settings.network);
        let two = env_with("INFINIGIT_ROOT_KEY"@, settings.root_key);
        lemma_values_add(one, two, name);
        lemma_env_with("INFINIGIT_NETWORK"@, settings.network, name);
        lemma_env_with("INFINIGIT_ROOT_KEY"@, settings.root_key, name);
        assert(values_for(one + two, name) =~= network_values(settings, production, name));
    } else {
        assert(values_for(seq![], name) =~= network_values(settings, production, name));
    }
}

proof fn lemma_environment(
    settings: SettingsModel,
    production: bool,
    password: bool,
    name: Seq<char>,
)
    ensures
        values_for(pack_environment(settings, production, password), name) == (if name
            == "INFINIGIT_PROJECT_ROOT"@ && !production {
            at_most(settings.project_root)
        } else {
            seq![]
        }) + (if name == "INFINIGIT_ICP_BIN"@ {
            at_most(settings.icp)
        } else {
            seq![]
        }) + network_values(settings, production, name) + (if name == "INFINIGIT_IDENTITY"@ {
            at_most(settings.identity)
        } else {
            seq![]
        }),
        values_for(pack_environment(settings, production, password), name) == if name
            == "INFINIGIT_PROJECT_ROOT"@ {
            if production {
                seq![]
            } else {
                at_most(settings.project_root)
            }
        } else if name == "INFINIGIT_ICP_BIN"@ {
            at_most(settings.icp)
        } else if name == "INFINIGIT_IDENTITY"@ {
            at_most(settings.identity)
        } else {
            network_values(settings, production, name)
        },
{
    lemma_variables();
    let project = project_of(settings, production);
    let p1 = env_with("INFINIGIT_PROJECT_ROOT"@, project);
    let p2 = env_with("INFINIGIT_ICP_BIN"@, settings.icp);
    let p3 = env_network(settings, production);
    let p4 = env_with("INFINIGIT_IDENTITY"@, settings.identity);
    let file = EnvModel::AssignPasswordFile("INFINIGIT_IDENTITY_PASSWORD_FILE"@);
    let p5 = if password {
        seq![file]
    } else {
        seq![]
    };
    lemma_values_add(p1, p2, name);
    lemma_values_add(p1 + p2, p3, name);
    lemma_values_add(p1 + p2 + p3, p4, name);
    lemma_values_add(p1 + p2 + p3 + p4, p5, name);
    lemma_env_with("INFINIGIT_PROJECT_ROOT"@, project, name);
    lemma_env_with("INFINIGIT_ICP_BIN"@, settings.icp, name);
    lemma_network(settings, production, name);
    lemma_env_with("INFINIGIT_IDENTITY"@, settings.identity, name);
    lemma_one_value(file, name);
    assert(values_for(seq![], name) =~= seq![]);
    let v1 = values_for(p1, name);
    let v2 = values_for(p2, name);
    let v3 = values_for(p3, name);
    let v4 = values_for(p4, name);
    assert(values_for(p5, name) =~= seq![]);
    assert(v1 + v2 + v3 + v4 + values_for(p5, name) =~= v1 + v2 + v3 + v4);
    let none = Seq::<Option<Seq<char>>>::empty();
    assert(v1 + v2 + v3 + v4 =~= if name == "INFINIGIT_PROJECT_ROOT"@ {
        v1
    } else if name == "INFINIGIT_ICP_BIN"@ {
        v2
    } else if name == "INFINIGIT_IDENTITY"@ {
        v4
    } else {
        v3
    });
}

/// The directory is that of the environment; without one, that of production for a production
/// remote; and else the configured one, unless the data directory is given.
pub proof fn the_environment_chooses_the_directory(
    own: Seq<char>,
    configured: Option<Seq<char>>,
    production: bool,
    given: bool,
)
    ensures
        directory(Some(own), production, given, configured) == Some(own),
        directory(None, true, given, configured) == Some("vc3gg-2qaaa-aaaae-qklda-cai"@),
        directory(None, false, false, configured) == configured,
        directory(None, false, true, configured) is None,
{
}

/// Repositories lie in the directory of the environment; without one, in the configured one,
/// unless the remote is a production one; and else in their place below the home.
pub proof fn the_environment_chooses_the_place(
    own: Seq<char>,
    configured: Seq<char>,
    production: bool,
    any: Option<Seq<char>>,
)
    ensures
        data_root(Some(own), production, any) == own,
        data_root(None, false, Some(configured)) == configured,
        data_root(None, true, any) == ".infinigit/repositories"@,
        data_root(None, production, None) == ".infinigit/repositories"@,
{
}

/// The place of a repository is the root, the namespace and the name with `.git` behind it.
/// A root that leads upwards is refused.
pub proof fn repositories_have_their_place(
    root: Seq<char>,
    namespace: Seq<char>,
    name: Seq<char>,
)
    requires
        root.len() > 0,
        root.last() != '/',
        namespace.len() > 0,
        namespace[0] != '/',
        namespace.last() != '/',
        name.len() > 0,
        name[0] != '/',
    ensures
        pieces(root, '/').contains(".."@) ==> repository_place(root, namespace, name) is Err,
        !pieces(root, '/').contains(".."@) ==> repository_place(root, namespace, name) == Ok::<
            Seq<char>,
            Seq<char>,
        >(root + "/"@ + namespace + "/"@ + (name + ".git"@)),
{
    let joined = root + "/"@ + namespace;
    assert(joined.last() == namespace.last());
    assert((name + ".git"@)[0] == name[0]);
}

/// Commands of git are answered: `capabilities` by what there is, the two services where they
/// are granted, and the end of the commands by the end of the session. Anything else fails.
pub proof fn commands_are_answered(access: Access, line: Seq<char>)
    ensures
        helper_answer(access, Some("capabilities"@)) == HelperModel::Print("connect\n\n"@),
        helper_answer(access, Some(""@)) == HelperModel::Stop,
        helper_answer(access, None) == HelperModel::Stop,
        access.on_canister || access.owner || access.public ==> helper_answer(
            access,
            Some("connect git-upload-pack"@),
        ) == HelperModel::Serve("git-upload-pack"@, false),
        access.on_canister || access.owner ==> helper_answer(
            access,
            Some("connect git-receive-pack"@),
        ) == HelperModel::Serve("git-receive-pack"@, access.on_canister),
        !access.on_canister && !access.owner ==> helper_answer(
            access,
            Some("connect git-receive-pack"@),
        ) == HelperModel::Fail("repository not found"@),
        !access.on_canister && !access.owner && !access.public ==> helper_answer(
            access,
            Some("connect git-upload-pack"@),
        ) == HelperModel::Fail("repository not found"@),
        line != "capabilities"@ && line != ""@ && line != "connect git-upload-pack"@ && line
            != "connect git-receive-pack"@ ==> helper_answer(access, Some(line))
            == HelperModel::Fail("unsupported remote-helper command: "@ + line),
{
    reveal_strlit("capabilities");
    reveal_strlit("");
    reveal_strlit("connect git-upload-pack");
    reveal_strlit("connect git-receive-pack");
    assert("capabilities"@.len() == 12);
    assert(""@.len() == 0);
    assert("connect git-upload-pack"@.len() == 23);
    assert("connect git-receive-pack"@.len() == 24);
}

/// A canister that is given by its principal is that one, whatever is known; any other is the
/// one that was learnt last under the name, and none where nothing was learnt.
pub proof fn canisters_are_known_by_principal_or_name(
    entries: Seq<(Seq<char>, Seq<u8>)>,
    canister: Seq<char>,
    other: Seq<char>,
    bytes: Seq<u8>,
)
    ensures
        principal_bytes(canister) matches Ok(own) ==> canister_id(entries, canister) == Some(own),
        principal_bytes(canister) is Err ==> canister_id(seq![], canister) is None,
        principal_bytes(canister) is Err && other != canister ==> canister_id(
            entries.push((other, bytes)),
            canister,
        ) == canister_id(entries, canister),
        principal_bytes(canister) is Err ==> canister_id(
            entries.push((canister, bytes)),
            canister,
        ) == Some(bytes),
{
    assert(entries.push((other, bytes)).drop_last() =~= entries);
}

/// The principal of a canister is that of the id in its status. There is none where the
/// command failed, or printed no document, or one without an id.
pub proof fn the_status_tells_the_principal(canister: Seq<char>, output: Seq<u8>, id: Seq<char>)
    ensures
        status_principal(canister, None) is Err,
        json_document(output) is Err ==> status_principal(canister, Some(output)) is Err,
        json_document(output) matches Ok(status) ==> {
            &&& text_field(status, "id"@) is None ==> status_principal(
                canister,
                Some(output),
            ) is Err
            &&& text_field(status, "id"@) == Some(id) ==> status_principal(canister, Some(output))
                == principal_bytes(id)
        },
{
}

/// What a command printed is its text without the white space around it; a blank value is
/// none, and so is what is no text.
pub proof fn printed_values_are_trimmed(output: Seq<u8>)
    ensures
        valid_utf8(output) ==> printed_text(output) == Some(trimmed(decode_utf8(output))),
        !valid_utf8(output) ==> printed_text(output) is None && printed_value(output) is None,
        valid_utf8(output) && trimmed(decode_utf8(output)).len() > 0 ==> printed_value(output)
            == Some(trimmed(decode_utf8(output))),
        valid_utf8(output) && trimmed(decode_utf8(output)).len() == 0 ==> printed_value(
            output,
        ) is None,
{
}

} // verus!
