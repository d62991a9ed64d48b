//! How the canister is called: by an agent of this process where one can be set up, and
//! by the command line client `icp` otherwise.
use candid_parser::candid::Principal;
use vstd::prelude::*;
use vstd::utf8::{decode_utf8, valid_utf8};

use crate::json::{json_document, text_field, Json, JsonModel};
use crate::key::{load_key, loaded_key, KeyKind};
use crate::text::{
    contains_text, decimal, decimal_text, first_occurrence, maybe_string, maybe_text, same_text,
    texts, trim_text, trimmed, utf8_text,
};
use crate::transport::maybe_bytes;

verus! {

/// Address of the production network.
pub const PRODUCTION_URL: &'static str = "https://icp-api.io";

/// A switch is on where its value is `1`.
pub open spec fn switched_on(value: Option<Seq<char>>) -> bool {
    value == Some("1"@)
}

/// Whether a switch is on.
pub fn is_switched_on(value: Option<&str>) -> (on: bool)
    ensures
        on == switched_on(maybe_text(value)),
{
    match value {
        Some(text) => same_text(text, "1"),
        None => false,
    }
}

/// The address that an agent connects to: the one that is given, that of the production
/// network, or the network itself where it is an address.
pub open spec fn agent_address(url: Option<Seq<char>>, network: Option<Seq<char>>) -> Option<
    Seq<char>,
> {
    match url {
        Some(text) => Some(text),
        None => match network {
            Some(name) => if name == "ic"@ {
                Some(PRODUCTION_URL@)
            } else if first_occurrence(name, "://"@, 0) is Some {
                Some(name)
            } else {
                None
            },
            None => None,
        },
    }
}

/// Chooses the address that an agent connects to.
pub fn agent_network(url: Option<&str>, network: Option<&str>) -> (r: Option<String>)
    ensures
        maybe_string(r) == agent_address(maybe_text(url), maybe_text(network)),
{
    match url {
        Some(text) => Some(text.to_owned()),
        None => match network {
            Some(name) => if same_text(name, "ic") {
                Some(PRODUCTION_URL.to_owned())
            } else if contains_text(name, "://") {
                Some(name.to_owned())
            } else {
                None
            },
            None => None,
        },
    }
}

/// The trimmed text of what a command printed, if it is text.
pub open spec fn printed_text(output: Seq<u8>) -> Option<Seq<char>> {
    if valid_utf8(output) {
        Some(trimmed(decode_utf8(output)))
    } else {
        None
    }
}

/// Reads what a command printed.
pub fn read_printed(output: &[u8]) -> (r: Option<String>)
    ensures
        maybe_string(r) == printed_text(output@),
{
    match utf8_text(output) {
        Some(text) => Some(trim_text(text.as_str())),
        None => None,
    }
}

/// The value that a command printed, if it is text and not blank.
pub open spec fn printed_value(output: Seq<u8>) -> Option<Seq<char>> {
    match printed_text(output) {
        Some(text) => if text.len() == 0 {
            None
        } else {
            Some(text)
        },
        None => None,
    }
}

/// Reads the value that a command printed.
pub fn read_value(output: &[u8]) -> (r: Option<String>)
    ensures
        maybe_string(r) == printed_value(output@),
{
    match read_printed(output) {
        Some(text) => if text.as_str().is_empty() {
            None
        } else {
            Some(text)
        },
        None => None,
    }
}

/// Where the setup of an agent stands: what the last action was for.
#[derive(Clone, Copy, Debug, PartialEq, Eq, Structural)]
pub enum AgentStage {
    Naming,
    Exporting,
    Confirming,
    Connecting,
    Fetching,
    Ready,
    Unavailable,
}

/// The setup of an agent.
pub struct AgentSetup {
    pub network: String,
    pub identity: String,
    pub password_file: Option<String>,
    pub kind: KeyKind,
    pub pem: Vec<u8>,
    pub sender: Option<String>,
    pub stage: AgentStage,
}

/// The model of the setup of an agent.
pub struct SetupModel {
    pub network: Seq<char>,
    pub identity: Seq<char>,
    pub password_file: Option<Seq<char>>,
    pub kind: KeyKind,
    pub pem: Seq<u8>,
    pub sender: Option<Seq<char>>,
    pub stage: AgentStage,
}

impl View for AgentSetup {
    type V = SetupModel;

    open spec fn view(&self) -> SetupModel {
        SetupModel {
            network: self.network@,
            identity: self.identity@,
            password_file: maybe_string(self.password_file),
            kind: self.kind,
            pem: self.pem@,
            sender: maybe_string(self.sender),
            stage: self.stage,
        }
    }
}

/// What the setup of an agent asks for. The comment on each variant names the event that
/// answers it.
#[derive(Debug)]
pub enum AgentAction {
    /// Run the command line client with these arguments: `Output`.
    Run(Vec<String>),
    /// Make an agent for this address that signs with the key of this kind in this PEM:
    /// `Connected`.
    Connect(String, KeyKind, Vec<u8>),
    /// Fetch the root key of the network: `RootKey`.
    FetchRootKey,
    /// The agent is ready.
    Ready,
    /// There is no agent.
    Unavailable,
}

/// The model of an action.
pub enum AgentActionModel {
    Run(Seq<Seq<char>>),
    Connect(Seq<char>, KeyKind, Seq<u8>),
    FetchRootKey,
    Ready,
    Unavailable,
}

impl View for AgentAction {
    type V = AgentActionModel;

    open spec fn view(&self) -> AgentActionModel {
        match *self {
            AgentAction::Run(arguments) => AgentActionModel::Run(texts(arguments@)),
            AgentAction::Connect(network, kind, pem) => AgentActionModel::Connect(
                network@,
                kind,
                pem@,
            ),
            AgentAction::FetchRootKey => AgentActionModel::FetchRootKey,
            AgentAction::Ready => AgentActionModel::Ready,
            AgentAction::Unavailable => AgentActionModel::Unavailable,
        }
    }
}

/// The answer to an action. A command that failed has no output.
#[derive(Debug)]
pub enum AgentEvent {
    Output(Option<Vec<u8>>),
    Connected(bool),
    RootKey(bool),
}

/// The model of an event.
pub enum AgentEventModel {
    Output(Option<Seq<u8>>),
    Connected(bool),
    RootKey(bool),
}

impl View for AgentEvent {
    type V = AgentEventModel;

    open spec fn view(&self) -> AgentEventModel {
        match *self {
            AgentEvent::Output(output) => AgentEventModel::Output(maybe_bytes(output)),
            AgentEvent::Connected(connected) => AgentEventModel::Connected(connected),
            AgentEvent::RootKey(fetched) => AgentEventModel::RootKey(fetched),
        }
    }
}

/// The arguments that export an identity.
pub open spec fn export_arguments(
    identity: Seq<char>,
    password_file: Option<Seq<char>>,
) -> Seq<Seq<char>> {
    let plain = seq!["identity"@, "export"@, identity];
    match password_file {
        Some(path) => plain + seq!["--password-file"@, path],
        None => plain,
    }
}

/// The arguments that tell the principal of an identity.
pub open spec fn principal_arguments(identity: Seq<char>) -> Seq<Seq<char>> {
    seq!["identity"@, "principal"@, "--identity"@, identity]
}

/// The setup that found no agent.
pub open spec fn no_agent(s: SetupModel) -> (SetupModel, AgentActionModel) {
    (SetupModel { stage: AgentStage::Unavailable, ..s }, AgentActionModel::Unavailable)
}

/// The setup of an agent that is ready.
pub open spec fn agent_ready(s: SetupModel) -> (SetupModel, AgentActionModel) {
    (SetupModel { stage: AgentStage::Ready, ..s }, AgentActionModel::Ready)
}

/// Exports the identity.
pub open spec fn setup_export(s: SetupModel) -> (SetupModel, AgentActionModel) {
    (
        SetupModel { stage: AgentStage::Exporting, ..s },
        AgentActionModel::Run(export_arguments(s.identity, s.password_file)),
    )
}

/// The beginning: without an address there is no agent, and without a named identity the
/// client is asked for its default.
pub open spec fn setup_start(
    address: Option<Seq<char>>,
    identity: Option<Seq<char>>,
    password_file: Option<Seq<char>>,
) -> (SetupModel, AgentActionModel) {
    let blank = SetupModel {
        network: ""@,
        identity: ""@,
        password_file,
        kind: KeyKind::Secp256k1,
        pem: seq![],
        sender: None,
        stage: AgentStage::Naming,
    };
    match address {
        None => no_agent(blank),
        Some(network) => match identity {
            Some(name) => setup_export(SetupModel { network, identity: name, ..blank }),
            None => (
                SetupModel { network, ..blank },
                AgentActionModel::Run(seq!["identity"@, "default"@]),
            ),
        },
    }
}

/// After exporting: the key is loaded, and the client is asked for the principal.
pub open spec fn setup_exported(s: SetupModel, pem: Seq<u8>) -> (SetupModel, AgentActionModel) {
    match loaded_key(pem) {
        Some((kind, sender)) => (
            SetupModel { kind, pem, sender, stage: AgentStage::Confirming, ..s },
            AgentActionModel::Run(principal_arguments(s.identity)),
        ),
        None => no_agent(s),
    }
}

/// After confirming: an agent is made if the key has the principal that the client names.
pub open spec fn setup_confirmed(s: SetupModel, output: Seq<u8>) -> (
    SetupModel,
    AgentActionModel,
) {
    if printed_text(output) is Some && printed_text(output) == s.sender {
        (
            SetupModel { stage: AgentStage::Connecting, ..s },
            AgentActionModel::Connect(s.network, s.kind, s.pem),
        )
    } else {
        no_agent(s)
    }
}

/// After connecting: outside production the root key of the network is fetched.
pub open spec fn setup_connected(s: SetupModel) -> (SetupModel, AgentActionModel) {
    if s.network == PRODUCTION_URL@ {
        agent_ready(s)
    } else {
        (SetupModel { stage: AgentStage::Fetching, ..s }, AgentActionModel::FetchRootKey)
    }
}

/// The setup after an event, and the next action.
pub open spec fn setup_next(s: SetupModel, event: AgentEventModel) -> (
    SetupModel,
    AgentActionModel,
) {
    match (s.stage, event) {
        (AgentStage::Naming, AgentEventModel::Output(Some(output))) => match printed_value(
            output,
        ) {
            Some(identity) => setup_export(SetupModel { identity, ..s }),
            None => no_agent(s),
        },
        (AgentStage::Exporting, AgentEventModel::Output(Some(pem))) => setup_exported(s, pem),
        (AgentStage::Confirming, AgentEventModel::Output(Some(output))) => setup_confirmed(
            s,
            output,
        ),
        (AgentStage::Connecting, AgentEventModel::Connected(true)) => setup_connected(s),
        (AgentStage::Fetching, AgentEventModel::RootKey(true)) => agent_ready(s),
        (AgentStage::Ready, _) => agent_ready(s),
        _ => no_agent(s),
    }
}

/// The setup after a list of events, and the action that is then to be taken.
pub open spec fn setup_run(
    address: Option<Seq<char>>,
    identity: Option<Seq<char>>,
    password_file: Option<Seq<char>>,
    events: Seq<AgentEventModel>,
) -> (SetupModel, AgentActionModel)
    decreases events.len(),
{
    if events.len() == 0 {
        setup_start(address, identity, password_file)
    } else {
        setup_next(
            setup_run(address, identity, password_file, events.drop_last()).0,
            events.last(),
        )
    }
}

/// The number of events before the one that brings the exported key.
pub open spec fn export_index(identity: Option<Seq<char>>) -> int {
    if identity is Some {
        0
    } else {
        1
    }
}

/// The name of the identity: the one that is given, or the default that the client told.
pub open spec fn chosen_identity(
    identity: Option<Seq<char>>,
    events: Seq<AgentEventModel>,
) -> Option<Seq<char>> {
    match identity {
        Some(name) => Some(name),
        None => match events[0] {
            AgentEventModel::Output(Some(output)) => printed_value(output),
            _ => None,
        },
    }
}

/// The events of a setup confirm this key: it was exported, and the client names its
/// principal.
pub open spec fn is_confirmed(
    identity: Option<Seq<char>>,
    events: Seq<AgentEventModel>,
    kind: KeyKind,
    pem: Seq<u8>,
) -> bool {
    let at = export_index(identity);
    &&& events.len() >= at + 2
    &&& events[at] == AgentEventModel::Output(Some(pem))
    &&& events[at + 1] matches AgentEventModel::Output(Some(output))
    &&& printed_text(output) matches Some(principal)
    &&& loaded_key(pem) == Some((kind, Some(principal)))
}

/// In every run, an agent is ready only where there is an address, the exported key was
/// loaded and has the principal that the client names for the identity, an agent was made
/// for that address with that key, and, outside production, the root key of the network was
/// fetched.
pub proof fn agents_act_as_the_confirmed_principal(
    address: Option<Seq<char>>,
    identity: Option<Seq<char>>,
    password_file: Option<Seq<char>>,
    events: Seq<AgentEventModel>,
)
    requires
        setup_run(address, identity, password_file, events).1 == AgentActionModel::Ready,
    ensures
        ({
            let s = setup_run(address, identity, password_file, events).0;
            let at = export_index(identity);
            let asked = |n: int| setup_run(address, identity, password_file, events.take(n)).1;
            &&& address == Some(s.network)
            &&& chosen_identity(identity, events) == Some(s.identity)
            &&& is_confirmed(identity, events, s.kind, s.pem)
            &&& events.len() >= at + 3
            &&& events[at + 2] == AgentEventModel::Connected(true)
            &&& asked(at) == AgentActionModel::Run(export_arguments(s.identity, password_file))
            &&& asked(at + 1) == AgentActionModel::Run(principal_arguments(s.identity))
            &&& asked(at + 2) == AgentActionModel::Connect(s.network, s.kind, s.pem)
            &&& s.network != PRODUCTION_URL@ ==> {
                &&& events.len() >= at + 4
                &&& events[at + 3] == AgentEventModel::RootKey(true)
                &&& asked(at + 3) == AgentActionModel::FetchRootKey
            }
        }),
{
    lemma_setup(address, identity, password_file, events);
}

/// A setup that has come to its end gives the same answer ever after, whatever happens, and
/// asks for nothing more.
pub proof fn settled_agents_stay_settled(s: SetupModel, event: AgentEventModel)
    requires
        s.stage == AgentStage::Ready || s.stage == AgentStage::Unavailable,
    ensures
        setup_next(s, event).0 == s,
        setup_next(s, event).1 == (if s.stage == AgentStage::Ready {
            AgentActionModel::Ready
        } else {
            AgentActionModel::Unavailable
        }),
{
}

/// A named identity whose exported key has the principal that the client names gets an
/// agent, where one can be made and, outside production, the root key can be fetched.
pub proof fn confirmed_principals_get_an_agent(
    network: Seq<char>,
    name: Seq<char>,
    password_file: Option<Seq<char>>,
    pem: Seq<u8>,
    output: Seq<u8>,
)
    requires
        loaded_key(pem) matches Some((_, Some(principal))) && printed_text(output) == Some(
            principal,
        ),
    ensures
        ({
            let events = seq![
                AgentEventModel::Output(Some(pem)),
                AgentEventModel::Output(Some(output)),
                AgentEventModel::Connected(true),
            ];
            let made = setup_run(Some(network), Some(name), password_file, events).1;
            let fetched = setup_run(
                Some(network),
                Some(name),
                password_file,
                events.push(AgentEventModel::RootKey(true)),
            ).1;
            &&& network == PRODUCTION_URL@ ==> made == AgentActionModel::Ready
            &&& network != PRODUCTION_URL@ ==> made == AgentActionModel::FetchRootKey
            &&& fetched == AgentActionModel::Ready
        }),
{
    let none = Seq::<AgentEventModel>::empty();
    let first = none.push(AgentEventModel::Output(Some(pem)));
    let second = first.push(AgentEventModel::Output(Some(output)));
    let third = second.push(AgentEventModel::Connected(true));
    let fourth = third.push(AgentEventModel::RootKey(true));
    assert(first.drop_last() =~= none);
    assert(second.drop_last() =~= first);
    assert(third.drop_last() =~= second);
    assert(fourth.drop_last() =~= third);
    assert(seq![
        AgentEventModel::Output(Some(pem)),
        AgentEventModel::Output(Some(output)),
        AgentEventModel::Connected(true),
    ] =~= third);
    let s = setup_run(Some(network), Some(name), password_file, none).0;
    let exported = setup_run(Some(network), Some(name), password_file, first).0;
    assert(exported == setup_exported(s, pem).0);
    let confirmed = setup_run(Some(network), Some(name), password_file, second).0;
    assert(confirmed == setup_confirmed(exported, output).0);
}

proof fn lemma_setup(
    address: Option<Seq<char>>,
    identity: Option<Seq<char>>,
    password_file: Option<Seq<char>>,
    events: Seq<AgentEventModel>,
)
    ensures
        ({
            let (s, action) = setup_run(address, identity, password_file, events);
            let at = export_index(identity);
            let asked = |n: int| setup_run(address, identity, password_file, events.take(n)).1;
            let named = s.stage != AgentStage::Naming && s.stage != AgentStage::Unavailable;
            let loaded = named && s.stage != AgentStage::Exporting;
            let confirmed = loaded && s.stage != AgentStage::Confirming;
            let connected = confirmed && s.stage != AgentStage::Connecting;
            &&& (action == AgentActionModel::Ready) == (s.stage == AgentStage::Ready)
            &&& s.password_file == password_file
            &&& s.stage != AgentStage::Unavailable ==> address == Some(s.network)
            &&& s.stage == AgentStage::Naming ==> events.len() == 0 && identity is None
            &&& named ==> {
                &&& events.len() >= at
                &&& chosen_identity(identity, events) == Some(s.identity)
                &&& asked(at) == AgentActionModel::Run(export_arguments(s.identity, password_file))
            }
            &&& s.stage == AgentStage::Exporting ==> events.len() == at
            &&& loaded ==> {
                &&& events.len() >= at + 1
                &&& events[at] == AgentEventModel::Output(Some(s.pem))
                &&& loaded_key(s.pem) == Some((s.kind, s.sender))
                &&& asked(at + 1) == AgentActionModel::Run(principal_arguments(s.identity))
            }
            &&& s.stage == AgentStage::Confirming ==> events.len() == at + 1
            &&& confirmed ==> {
                &&& is_confirmed(identity, events, s.kind, s.pem)
                &&& asked(at + 2) == AgentActionModel::Connect(s.network, s.kind, s.pem)
            }
            &&& s.stage == AgentStage::Connecting ==> events.len() == at + 2
            &&& connected ==> {
                &&& events.len() >= at + 3
                &&& events[at + 2] == AgentEventModel::Connected(true)
                &&& s.network != PRODUCTION_URL@ ==> asked(at + 3)
                    == AgentActionModel::FetchRootKey
            }
            &&& s.stage == AgentStage::Fetching ==> events.len() == at + 3
            &&& s.stage == AgentStage::Ready && s.network != PRODUCTION_URL@ ==> {
                &&& events.len() >= at + 4
                &&& events[at + 3] == AgentEventModel::RootKey(true)
            }
        }),
    decreases events.len(),
{
    let at = export_index(identity);
    assert(events.take(events.len() as int) =~= events);
    if events.len() > 0 {
        let front = events.drop_last();
        lemma_setup(address, identity, password_file, front);
        assert forall|n: int| 0 <= n <= front.len() implies #[trigger] front.take(n)
            == events.take(n) by {
            assert(front.take(n) =~= events.take(n));
        }
        let before = setup_run(address, identity, password_file, front).0;
        assert(before.stage != AgentStage::Naming && before.stage != AgentStage::Unavailable
            ==> front.take(at) == events.take(at));
        if front.len() >= at + 1 {
            assert(front.take(at + 1) == events.take(at + 1));
        }
        if front.len() >= at + 2 {
            assert(front.take(at + 2) == events.take(at + 2));
        }
        if front.len() >= at + 3 {
            assert(front.take(at + 3) == events.take(at + 3));
        }
    }
}

fn export_request(identity: &str, password_file: Option<&str>) -> (arguments: Vec<String>)
    ensures
        texts(arguments@) == export_arguments(identity@, maybe_text(password_file)),
{
    let mut arguments: Vec<String> = Vec::new();
    arguments.push("identity".to_owned());
    arguments.push("export".to_owned());
    arguments.push(identity.to_owned());
    if let Some(path) = password_file {
        arguments.push("--password-file".to_owned());
        arguments.push(path.to_owned());
    }
    assert(texts(arguments@) =~= export_arguments(identity@, maybe_text(password_file)));
    arguments
}

impl AgentSetup {
    /// Starts the setup of an agent for the address that was chosen.
    pub fn start(
        address: Option<String>,
        identity: Option<String>,
        password_file: Option<String>,
    ) -> (r: (AgentSetup, AgentAction))
        ensures
            (r.0@, r.1@) == setup_start(
                maybe_string(address),
                maybe_string(identity),
                maybe_string(password_file),
            ),
    {
        let mut setup = AgentSetup {
            network: "".to_owned(),
            identity: "".to_owned(),
            password_file,
            kind: KeyKind::Secp256k1,
            pem: Vec::new(),
            sender: None,
            stage: AgentStage::Naming,
        };
        assert(setup.pem@ =~= seq![]);
        match address {
            None => {
                let action = setup.unavailable();
                (setup, action)
            },
            Some(network) => {
                setup.network = network;
                match identity {
                    Some(name) => {
                        setup.identity = name;
                        let action = setup.export();
                        (setup, action)
                    },
                    None => {
                        let mut arguments: Vec<String> = Vec::new();
                        arguments.push("identity".to_owned());
                        arguments.push("default".to_owned());
                        assert(texts(arguments@) =~= seq!["identity"@, "default"@]);
                        (setup, AgentAction::Run(arguments))
                    },
                }
            },
        }
    }

    fn unavailable(&mut self) -> (r: AgentAction)
        ensures
            (final(self)@, r@) == no_agent(old(self)@),
    {
        self.stage = AgentStage::Unavailable;
        AgentAction::Unavailable
    }

    fn ready(&mut self) -> (r: AgentAction)
        ensures
            (final(self)@, r@) == agent_ready(old(self)@),
    {
        self.stage = AgentStage::Ready;
        AgentAction::Ready
    }

    fn export(&mut self) -> (r: AgentAction)
        ensures
            (final(self)@, r@) == setup_export(old(self)@),
    {
        let arguments = match &self.password_file {
            Some(path) => export_request(self.identity.as_str(), Some(path.as_str())),
            None => export_request(self.identity.as_str(), None),
        };
        self.stage = AgentStage::Exporting;
        AgentAction::Run(arguments)
    }

    fn exported(&mut self, pem: Vec<u8>) -> (r: AgentAction)
        ensures
            (final(self)@, r@) == setup_exported(old(self)@, pem@),
    {
        match load_key(pem.as_slice()) {
            Some((kind, sender)) => {
                let mut arguments: Vec<String> = Vec::new();
                arguments.push("identity".to_owned());
                arguments.push("principal".to_owned());
                arguments.push("--identity".to_owned());
                arguments.push(self.identity.clone());
                assert(texts(arguments@) =~= principal_arguments(self.identity@));
                self.kind = kind;
                self.pem = pem;
                self.sender = sender;
                self.stage = AgentStage::Confirming;
                AgentAction::Run(arguments)
            },
            None => self.unavailable(),
        }
    }

    fn confirmed(&mut self, output: &[u8]) -> (r: AgentAction)
        ensures
            (final(self)@, r@) == setup_confirmed(old(self)@, output@),
    {
        let same = match (read_printed(output), &self.sender) {
            (Some(expected), Some(sender)) => same_text(expected.as_str(), sender.as_str()),
            _ => false,
        };
        if same {
            self.stage = AgentStage::Connecting;
            AgentAction::Connect(self.network.clone(), self.kind, self.pem.clone())
        } else {
            self.unavailable()
        }
    }

    fn connected(&mut self) -> (r: AgentAction)
        ensures
            (final(self)@, r@) == setup_connected(old(self)@),
    {
        if same_text(self.network.as_str(), PRODUCTION_URL) {
            self.ready()
        } else {
            self.stage = AgentStage::Fetching;
            AgentAction::FetchRootKey
        }
    }

    /// Takes the answer to the last action and gives the next one.
    pub fn step(&mut self, event: AgentEvent) -> (r: AgentAction)
        ensures
            (final(self)@, r@) == setup_next(old(self)@, event@),
    {
        match (self.stage, event) {
            (AgentStage::Naming, AgentEvent::Output(Some(output))) => match read_value(
                output.as_slice(),
            ) {
                Some(identity) => {
                    self.identity = identity;
                    self.export()
                },
                None => self.unavailable(),
            },
            (AgentStage::Exporting, AgentEvent::Output(Some(pem))) => self.exported(pem),
            (AgentStage::Confirming, AgentEvent::Output(Some(output))) => self.confirmed(
                output.as_slice(),
            ),
            (AgentStage::Connecting, AgentEvent::Connected(true)) => self.connected(),
            (AgentStage::Fetching, AgentEvent::RootKey(true)) => self.ready(),
            (AgentStage::Ready, _) => self.ready(),
            _ => self.unavailable(),
        }
    }
}

/// What `Principal::from_text` reads: the bytes of a principal, or the text of the error.
pub uninterp spec fn principal_bytes(text: Seq<char>) -> Result<Seq<u8>, Seq<char>>;

/// Calls `Principal::from_text`, whose result depends on the text alone.
#[verifier::external_body]
fn principal_from_text(text: &str) -> (r: Result<Vec<u8>, String>)
    ensures
        match r {
            Ok(bytes) => principal_bytes(text@) == Ok::<Seq<u8>, Seq<char>>(bytes@),
            Err(message) => principal_bytes(text@) == Err::<Seq<u8>, Seq<char>>(message@),
        },
{
    let principal = Principal::from_text(text).map_err(|error| error.to_string())?;
    Ok(principal.as_slice().to_vec())
}

/// The principals of canisters that are known by name.
#[derive(Debug)]
pub struct CanisterIds {
    pub entries: Vec<(String, Vec<u8>)>,
}

/// The principal of the canister `name` in a list; the last entry counts.
pub open spec fn known_id(entries: Seq<(Seq<char>, Seq<u8>)>, name: Seq<char>) -> Option<Seq<u8>>
    decreases entries.len(),
{
    if entries.len() == 0 {
        None
    } else if entries.last().0 == name {
        Some(entries.last().1)
    } else {
        known_id(entries.drop_last(), name)
    }
}

impl View for CanisterIds {
    type V = Seq<(Seq<char>, Seq<u8>)>;

    open spec fn view(&self) -> Seq<(Seq<char>, Seq<u8>)> {
        Seq::new(self.entries@.len(), |i: int| (self.entries@[i].0@, self.entries@[i].1@))
    }
}

/// The principal of a canister that is given by its principal, or by a name that is known.
pub open spec fn canister_id(
    entries: Seq<(Seq<char>, Seq<u8>)>,
    canister: Seq<char>,
) -> Option<Seq<u8>> {
    match principal_bytes(canister) {
        Ok(bytes) => Some(bytes),
        Err(_) => known_id(entries, canister),
    }
}

/// The arguments that tell the status of a canister.
pub open spec fn status_arguments(canister: Seq<char>) -> Seq<Seq<char>> {
    seq!["canister"@, "status"@, canister, "--json"@]
}

/// The id in the status of a canister.
pub open spec fn status_id(canister: Seq<char>, status: JsonModel) -> Result<
    Seq<char>,
    Seq<char>,
> {
    match text_field(status, "id"@) {
        Some(id) => Ok(id),
        None => Err("canister status returned no id for "@ + canister),
    }
}

/// The principal of a canister as its status tells it. A command that failed has no
/// output.
pub open spec fn status_principal(canister: Seq<char>, output: Option<Seq<u8>>) -> Result<
    Seq<u8>,
    Seq<char>,
> {
    match output {
        None => Err("cannot resolve canister name "@ + canister),
        Some(bytes) => match json_document(bytes) {
            Err(message) => Err(message),
            Ok(status) => match status_id(canister, status) {
                Err(message) => Err(message),
                Ok(id) => principal_bytes(id),
            },
        },
    }
}

/// Writes the arguments that tell the status of a canister.
pub fn status_request(canister: &str) -> (arguments: Vec<String>)
    ensures
        texts(arguments@) == status_arguments(canister@),
{
    let mut arguments: Vec<String> = Vec::new();
    arguments.push("canister".to_owned());
    arguments.push("status".to_owned());
    arguments.push(canister.to_owned());
    arguments.push("--json".to_owned());
    assert(texts(arguments@) =~= status_arguments(canister@));
    arguments
}

/// Reads the id in the status of a canister.
pub fn read_status_id(canister: &str, status: &Json) -> (r: Result<String, String>)
    ensures
        match r {
            Ok(id) => status_id(canister@, status@) == Ok::<Seq<char>, Seq<char>>(id@),
            Err(message) => status_id(canister@, status@) == Err::<Seq<char>, Seq<char>>(
                message@,
            ),
        },
{
    match status.text_at("id") {
        Some(id) => Ok(id.to_owned()),
        None => {
            let mut message = "canister status returned no id for ".to_owned();
            message.append(canister);
            Err(message)
        },
    }
}

impl CanisterIds {
    /// No canister is known.
    pub fn new() -> (ids: CanisterIds)
        ensures
            ids@ == Seq::<(Seq<char>, Seq<u8>)>::empty(),
    {
        let ids = CanisterIds { entries: Vec::new() };
        assert(ids@ =~= Seq::<(Seq<char>, Seq<u8>)>::empty());
        ids
    }

    /// The principal of a canister, without asking for its status.
    pub fn canister_principal(&self, canister: &str) -> (r: Option<Vec<u8>>)
        ensures
            maybe_bytes(r) == canister_id(self@, canister@),
    {
        match principal_from_text(canister) {
            Ok(bytes) => Some(bytes),
            Err(_) => self.known(canister),
        }
    }

    /// The principal of a canister that is known by name.
    pub fn known(&self, canister: &str) -> (r: Option<Vec<u8>>)
        ensures
            maybe_bytes(r) == known_id(self@, canister@),
    {
        let ghost all = self@;
        let mut i: usize = self.entries.len();
        assert(all.take(all.len() as int) =~= all);
        while i > 0
            invariant
                i <= self.entries@.len(),
                all == self@,
                known_id(all, canister@) == known_id(all.take(i as int), canister@),
            decreases i,
        {
            assert(all.take(i as int).drop_last() =~= all.take(i - 1));
            assert(all.take(i as int).last() == (
                self.entries@[i - 1].0@,
                self.entries@[i - 1].1@,
            ));
            i -= 1;
            if same_text(self.entries[i].0.as_str(), canister) {
                return Some(self.entries[i].1.clone());
            }
        }
        None
    }

    /// Reads the principal of a canister from its status, and remembers it.
    pub fn learn(&mut self, canister: &str, output: Option<&[u8]>) -> (r: Result<Vec<u8>, String>)
        ensures
            match r {
                Ok(bytes) => {
                    &&& status_principal(canister@, maybe_slice(output)) == Ok::<
                        Seq<u8>,
                        Seq<char>,
                    >(bytes@)
                    &&& final(self)@ == old(self)@.push((canister@, bytes@))
                },
                Err(message) => {
                    &&& status_principal(canister@, maybe_slice(output)) == Err::<
                        Seq<u8>,
                        Seq<char>,
                    >(message@)
                    &&& final(self)@ == old(self)@
                },
            },
    {
        let bytes = match output {
            None => {
                let mut message = "cannot resolve canister name ".to_owned();
                message.append(canister);
                return Err(message);
            },
            Some(bytes) => bytes,
        };
        let status = match Json::parse(bytes) {
            Err(message) => return Err(message),
            Ok(status) => status,
        };
        let id = match read_status_id(canister, &status) {
            Err(message) => return Err(message),
            Ok(id) => id,
        };
        match principal_from_text(id.as_str()) {
            Err(message) => Err(message),
            Ok(principal) => {
                let ghost before = self@;
                self.entries.push((canister.to_owned(), principal.clone()));
                assert(self@ =~= before.push((canister@, principal@)));
                Ok(principal)
            },
        }
    }
}

/// The model of optional bytes.
pub open spec fn maybe_slice(bytes: Option<&[u8]>) -> Option<Seq<u8>> {
    match bytes {
        Some(b) => Some(b@),
        None => None,
    }
}

/// A principal that was learnt is known from then on.
pub proof fn learnt_principals_are_known(
    entries: Seq<(Seq<char>, Seq<u8>)>,
    canister: Seq<char>,
    bytes: Seq<u8>,
)
    requires
        principal_bytes(canister) is Err,
    ensures
        canister_id(entries.push((canister, bytes)), canister) == Some(bytes),
{
}

/// An argument of the command line client: a text, or a value that the environment gives.
#[derive(Debug)]
pub enum CliArgument {
    Text(String),
    ArgumentFile,
    Contract,
    Identity,
    PasswordFile,
    Network,
    RootKey,
    ProjectRoot,
}

/// The model of an argument.
pub enum CliModel {
    Text(Seq<char>),
    ArgumentFile,
    Contract,
    Identity,
    PasswordFile,
    Network,
    RootKey,
    ProjectRoot,
}

impl View for CliArgument {
    type V = CliModel;

    open spec fn view(&self) -> CliModel {
        match *self {
            CliArgument::Text(text) => CliModel::Text(text@),
            CliArgument::ArgumentFile => CliModel::ArgumentFile,
            CliArgument::Contract => CliModel::Contract,
            CliArgument::Identity => CliModel::Identity,
            CliArgument::PasswordFile => CliModel::PasswordFile,
            CliArgument::Network => CliModel::Network,
            CliArgument::RootKey => CliModel::RootKey,
            CliArgument::ProjectRoot => CliModel::ProjectRoot,
        }
    }
}

/// The models of a list of arguments.
pub open spec fn cli_models(arguments: Seq<CliArgument>) -> Seq<CliModel> {
    Seq::new(arguments.len(), |i: int| arguments[i]@)
}

/// Which values the environment gives.
#[derive(Clone, Copy, Debug, PartialEq, Eq, Structural)]
pub struct CliSettings {
    pub contract: bool,
    pub identity: bool,
    pub password_file: bool,
    pub network: bool,
    pub root_key: bool,
    pub project_root: bool,
}

/// An option and its value where the environment gives one.
pub open spec fn given(present: bool, option: Seq<char>, value: CliModel) -> Seq<CliModel> {
    if present {
        seq![CliModel::Text(option), value]
    } else {
        seq![]
    }
}

/// The arguments that choose the network: a root key goes with a network only, and a
/// project root only without one.
pub open spec fn network_options(settings: CliSettings) -> Seq<CliModel> {
    if settings.network {
        given(true, "--network"@, CliModel::Network) + given(
            settings.root_key,
            "--root-key"@,
            CliModel::RootKey,
        )
    } else {
        given(settings.project_root, "--project-root-override"@, CliModel::ProjectRoot)
    }
}

/// The arguments with which the command line client makes a call.
pub open spec fn call_arguments(
    canister: Seq<char>,
    method: Seq<char>,
    settings: CliSettings,
) -> Seq<CliModel> {
    seq![
        CliModel::Text("canister"@),
        CliModel::Text("call"@),
        CliModel::Text(canister),
        CliModel::Text(method),
        CliModel::Text("--args-file"@),
        CliModel::ArgumentFile,
        CliModel::Text("--json"@),
    ] + given(settings.contract, "--candid"@, CliModel::Contract) + given(
        settings.identity,
        "--identity"@,
        CliModel::Identity,
    ) + given(settings.password_file, "--identity-password-file"@, CliModel::PasswordFile)
        + network_options(settings)
}

fn give(list: &mut Vec<CliArgument>, present: bool, option: &str, value: CliArgument)
    ensures
        cli_models(final(list)@) == cli_models(old(list)@) + given(present, option@, value@),
{
    let ghost before = cli_models(list@);
    let ghost v = value@;
    if present {
        list.push(CliArgument::Text(option.to_owned()));
        list.push(value);
        assert(cli_models(list@) =~= before + seq![CliModel::Text(option@), v]);
    } else {
        assert(cli_models(list@) =~= before + seq![]);
    }
}

/// Writes the arguments with which the command line client makes a call.
pub fn call_request(canister: &str, method: &str, settings: CliSettings) -> (arguments: Vec<
    CliArgument,
>)
    ensures
        cli_models(arguments@) == call_arguments(canister@, method@, settings),
{
    let mut list: Vec<CliArgument> = Vec::new();
    list.push(CliArgument::Text("canister".to_owned()));
    list.push(CliArgument::Text("call".to_owned()));
    list.push(CliArgument::Text(canister.to_owned()));
    list.push(CliArgument::Text(method.to_owned()));
    list.push(CliArgument::Text("--args-file".to_owned()));
    list.push(CliArgument::ArgumentFile);
    list.push(CliArgument::Text("--json".to_owned()));
    assert(cli_models(list@) =~= seq![
        CliModel::Text("canister"@),
        CliModel::Text("call"@),
        CliModel::Text(canister@),
        CliModel::Text(method@),
        CliModel::Text("--args-file"@),
        CliModel::ArgumentFile,
        CliModel::Text("--json"@),
    ]);
    give(&mut list, settings.contract, "--candid", CliArgument::Contract);
    give(&mut list, settings.identity, "--identity", CliArgument::Identity);
    give(
        &mut list,
        settings.password_file,
        "--identity-password-file",
        CliArgument::PasswordFile,
    );
    let ghost plain = cli_models(list@);
    if settings.network {
        give(&mut list, true, "--network", CliArgument::Network);
        give(&mut list, settings.root_key, "--root-key", CliArgument::RootKey);
    } else {
        give(
            &mut list,
            settings.project_root,
            "--project-root-override",
            CliArgument::ProjectRoot,
        );
    }
    assert(cli_models(list@) =~= plain + network_options(settings));
    list
}

/// The name of the file that holds the argument of a call.
pub open spec fn argument_file(process: u32, sequence: u64) -> Seq<char> {
    "infinigit-candid-"@ + decimal(process as nat) + "-"@ + decimal(sequence as nat) + ".did"@
}

/// Names the file that holds the argument of a call.
pub fn argument_file_name(process: u32, sequence: u64) -> (name: String)
    ensures
        name@ == argument_file(process, sequence),
{
    let mut name = "infinigit-candid-".to_owned();
    name.append(decimal_text(process as u64).as_str());
    name.append("-");
    name.append(decimal_text(sequence).as_str());
    name.append(".did");
    name
}

/// The way that a call takes.
#[derive(Clone, Copy, Debug, PartialEq, Eq, Structural)]
pub enum Route {
    Agent,
    Client,
    Refused,
}

/// The way that a call takes: the agent where there is one, and otherwise the command line
/// client, unless an agent is required.
pub open spec fn route(agent: bool, required: Option<Seq<char>>) -> Route {
    if agent {
        Route::Agent
    } else if switched_on(required) {
        Route::Refused
    } else {
        Route::Client
    }
}

/// Chooses the way that a call takes.
pub fn call_route(agent: bool, required: Option<&str>) -> (r: Route)
    ensures
        r == route(agent, maybe_text(required)),
{
    if agent {
        Route::Agent
    } else if is_switched_on(required) {
        Route::Refused
    } else {
        Route::Client
    }
}

} // verus!
