//! The remote helper: where a remote's repository is kept, how it is synchronized with its
//! canister, and what is answered to git.
use vstd::prelude::*;

use crate::json::{items_field, json_document, models_are_memberwise, text_field, Json, JsonModel};
use crate::remote::{
    atom, names_stand_for_themselves, PRODUCTION_DIRECTORY, PRODUCTION_NETWORK,
};
use crate::text::{
    chars_of, lossy, lossy_text, maybe_string, maybe_text, pieces, same_text, split_text, texts,
    trim_text, trimmed,
};

verus! {

/// The name of the identity in question: the selected one, or else the default.
pub open spec fn identity_in_question(value: JsonModel, selected: Option<Seq<char>>) -> Option<
    Seq<char>,
> {
    match selected {
        Some(name) => Some(name),
        None => text_field(value, "default_identity"@),
    }
}

/// The first entry with this name; where no name is in question, the first without one.
pub open spec fn named_entry(entries: Seq<JsonModel>, name: Option<Seq<char>>) -> Option<JsonModel>
    decreases entries.len(),
{
    if entries.len() == 0 {
        None
    } else if text_field(entries[0], "name"@) == name {
        Some(entries[0])
    } else {
        named_entry(entries.drop_first(), name)
    }
}

/// Whether the identity in question is kept under a password.
pub open spec fn needs_password(value: JsonModel, selected: Option<Seq<char>>) -> bool {
    match items_field(value, "identities"@) {
        None => false,
        Some(entries) => match named_entry(entries, identity_in_question(value, selected)) {
            None => false,
            Some(entry) => text_field(entry, "format"@) == Some("password"@),
        },
    }
}

fn same_name(a: Option<&str>, b: Option<&str>) -> (same: bool)
    ensures
        same == (maybe_text(a) == maybe_text(b)),
{
    match (a, b) {
        (Some(x), Some(y)) => same_text(x, y),
        (None, None) => true,
        _ => false,
    }
}

/// Reads from a listing of identities whether the one in question is kept under a
/// password.
pub fn password_backed_identity_json(value: &Json, selected: Option<&str>) -> (r: bool)
    ensures
        r == needs_password(value@, maybe_text(selected)),
{
    let name = match selected {
        Some(name) => Some(name),
        None => value.text_at("default_identity"),
    };
    let entries = match value.array_at("identities") {
        Some(entries) => entries,
        None => return false,
    };
    let ghost models = Json::models(entries@);
    let ghost wanted = maybe_text(name);
    proof {
        models_are_memberwise(entries@);
    }
    let mut i: usize = 0;
    assert(models.skip(0) =~= models);
    while i < entries.len()
        invariant
            i <= entries@.len(),
            models == Json::models(entries@),
            models == Seq::new(entries@.len(), |k: int| entries@[k]@),
            items_field(value@, "identities"@) == Some(models),
            wanted == maybe_text(name),
            wanted == identity_in_question(value@, maybe_text(selected)),
            named_entry(models, wanted) == named_entry(models.skip(i as int), wanted),
        decreases entries.len() - i,
    {
        let entry = &entries[i];
        assert(models.skip(i as int)[0] == entry@);
        assert(models.skip(i as int).drop_first() =~= models.skip(i + 1));
        if same_name(entry.text_at("name"), name) {
            return match entry.text_at("format") {
                Some(format) => same_text(format, "password"),
                None => false,
            };
        }
        i += 1;
    }
    false
}

/// Whether the identity in question is kept under a password, as a listing tells it. A
/// listing that failed or cannot be read tells of none.
pub open spec fn listing_needs_password(
    success: bool,
    output: Seq<u8>,
    selected: Option<Seq<char>>,
) -> bool {
    success && match json_document(output) {
        Ok(value) => needs_password(value, selected),
        Err(_) => false,
    }
}

/// Reads a listing of identities.
pub fn password_backed_identity(success: bool, output: &[u8], selected: Option<&str>) -> (r: bool)
    ensures
        r == listing_needs_password(success, output@, maybe_text(selected)),
{
    if !success {
        return false;
    }
    match Json::parse(output) {
        Ok(value) => password_backed_identity_json(&value, selected),
        Err(_) => false,
    }
}

/// The directory that resolves repositories: the one in the environment, that of
/// production, or the configured one unless a data directory is given.
pub open spec fn directory(
    environment: Option<Seq<char>>,
    production: bool,
    direct_data: bool,
    configured: Option<Seq<char>>,
) -> Option<Seq<char>> {
    if environment is Some {
        environment
    } else if production {
        Some(PRODUCTION_DIRECTORY@)
    } else if !direct_data {
        configured
    } else {
        None
    }
}

/// Chooses the directory that resolves repositories.
pub fn choose_directory(
    environment: Option<String>,
    production: bool,
    direct_data: bool,
    configured: Option<String>,
) -> (r: Option<String>)
    ensures
        maybe_string(r) == directory(
            maybe_string(environment),
            production,
            direct_data,
            maybe_string(configured),
        ),
{
    if environment.is_some() {
        environment
    } else if production {
        Some(PRODUCTION_DIRECTORY.to_owned())
    } else if !direct_data {
        configured
    } else {
        None
    }
}

/// The place of the repositories: the one in the environment, or else the configured one
/// outside production, or else a place under the current directory.
pub open spec fn data_root(
    environment: Option<Seq<char>>,
    production: bool,
    configured: Option<Seq<char>>,
) -> Seq<char> {
    match (environment, configured) {
        (Some(root), _) => root,
        (None, Some(root)) => if production {
            ".infinigit/repositories"@
        } else {
            root
        },
        (None, None) => ".infinigit/repositories"@,
    }
}

/// Chooses the place of the repositories.
pub fn choose_data_root(
    environment: Option<String>,
    production: bool,
    configured: Option<String>,
) -> (root: String)
    ensures
        root@ == data_root(maybe_string(environment), production, maybe_string(configured)),
{
    match (environment, configured) {
        (Some(root), _) => root,
        (None, Some(root)) => if production {
            ".infinigit/repositories".to_owned()
        } else {
            root
        },
        (None, None) => ".infinigit/repositories".to_owned(),
    }
}

/// A path that leads upwards somewhere.
pub open spec fn leads_up(path: Seq<char>) -> bool {
    pieces(path, '/').contains(".."@)
}

/// The path `part` seen from `base`.
pub open spec fn path_join(base: Seq<char>, part: Seq<char>) -> Seq<char> {
    if part.len() > 0 && part[0] == '/' {
        part
    } else if base.len() == 0 || base.last() == '/' {
        base + part
    } else {
        base + "/"@ + part
    }
}

/// The place of a repository.
pub open spec fn repository_place(
    root: Seq<char>,
    principal: Seq<char>,
    repository: Seq<char>,
) -> Result<Seq<char>, Seq<char>> {
    if leads_up(root) {
        Err("INFINIGIT_DATA_DIR cannot contain '..'"@)
    } else {
        Ok(path_join(path_join(root, principal), repository + ".git"@))
    }
}

/// The components of a path; a slash at the end begins no other.
pub open spec fn path_parts(path: Seq<char>) -> Seq<Seq<char>> {
    if path.len() == 0 || path.last() == '/' {
        pieces(path, '/').drop_last()
    } else {
        pieces(path, '/')
    }
}

proof fn lemma_pieces_extend(base: Seq<char>, part: Seq<char>)
    requires
        !part.contains('/'),
    ensures
        pieces(base, '/').len() > 0,
        pieces(base + part, '/') == pieces(base, '/').drop_last().push(
            pieces(base, '/').last() + part,
        ),
    decreases base.len() + part.len(),
{
    if part.len() == 0 {
        if base.len() > 0 {
            lemma_pieces_extend(base.drop_last(), part);
        }
        assert(base + part =~= base);
        let all = pieces(base, '/');
        assert(all.last() + part =~= all.last());
        assert(all.drop_last().push(all.last()) =~= all);
    } else {
        let front = part.drop_last();
        assert(part.contains(part.last()));
        assert forall|c: char| front.contains(c) implies part.contains(c) by {
            let i = choose|i: int| 0 <= i < front.len() && front[i] == c;
            assert(part[i] == c);
        }
        lemma_pieces_extend(base, front);
        assert((base + part).drop_last() =~= base + front);
        let all = pieces(base, '/');
        let shorter = pieces(base + front, '/');
        assert(shorter.drop_last() =~= all.drop_last());
        assert(shorter.last().push(part.last()) =~= all.last() + part);
        assert(pieces(base + part, '/') == shorter.drop_last().push(
            shorter.last().push(part.last()),
        ));
    }
}

proof fn lemma_path_parts(base: Seq<char>, part: Seq<char>)
    requires
        part.len() > 0,
        !part.contains('/'),
    ensures
        path_parts(path_join(base, part)) == path_parts(base).push(part),
        pieces(path_join(base, part), '/') == path_parts(base).push(part),
{
    let path = path_join(base, part);
    assert(part.contains(part[0]));
    assert(part.contains(part.last()));
    reveal_strlit("/");
    let start = if base.len() == 0 || base.last() == '/' {
        base
    } else {
        base + "/"@
    };
    assert(path =~= start + part);
    assert(path.last() == part.last());
    lemma_pieces_extend(start, part);
    let none = Seq::<char>::empty();
    if base.len() == 0 {
        assert(pieces(start, '/').last() =~= none);
    } else if base.last() != '/' {
        assert(start.drop_last() =~= base);
        assert(start.last() == '/');
        assert(pieces(start, '/') == pieces(base, '/').push(none));
        assert(pieces(start, '/').drop_last() =~= pieces(base, '/'));
    } else {
        assert(pieces(start, '/').last() =~= none);
    }
    assert(pieces(start, '/').last() + part =~= part);
}

/// The repository of an address lies below the root, in a directory with the name of its
/// owner and under its own name with `.git` behind it, and no component of its path leads
/// upwards.
pub proof fn repositories_lie_below_the_root(
    root: Seq<char>,
    namespace: Seq<char>,
    repository: Seq<char>,
)
    requires
        atom(namespace),
        atom(repository),
        !leads_up(root),
    ensures
        repository_place(root, namespace, repository) matches Ok(path) && path_parts(path)
            == path_parts(root).push(namespace).push(repository + ".git"@) && !leads_up(path),
{
    let name = repository + ".git"@;
    reveal_strlit(".git");
    reveal_strlit("..");
    names_stand_for_themselves(namespace);
    names_stand_for_themselves(repository);
    assert forall|i: int| 0 <= i < name.len() implies name[i] != '/' by {
        if i < repository.len() {
            assert(repository.contains(repository[i]));
        }
    }
    let folder = path_join(root, namespace);
    let path = path_join(folder, name);
    lemma_path_parts(root, namespace);
    lemma_path_parts(folder, name);
    let parts = pieces(path, '/');
    assert(parts == path_parts(root).push(namespace).push(name));
    assert(name.len() > 2);
    assert forall|i: int| 0 <= i < parts.len() implies parts[i] != ".."@ by {
        if i < path_parts(root).len() {
            assert(parts[i] == pieces(root, '/')[i]);
            assert(pieces(root, '/').contains(pieces(root, '/')[i]));
        } else if i == path_parts(root).len() {
            assert(parts[i] == namespace);
        } else {
            assert(parts[i] == name);
            assert(".."@.len() == 2);
        }
    }
}

fn join_paths(base: &str, part: &str) -> (path: String)
    ensures
        path@ == path_join(base@, part@),
{
    let head = chars_of(base);
    let tail = chars_of(part);
    if tail.len() > 0 && tail[0] == '/' {
        return part.to_owned();
    }
    let mut path = base.to_owned();
    if !(head.len() == 0 || head[head.len() - 1] == '/') {
        path.append("/");
    }
    path.append(part);
    path
}

/// Finds the place of a repository.
pub fn repository_path(root: &str, principal: &str, repository: &str) -> (r: Result<
    String,
    String,
>)
    ensures
        match r {
            Ok(path) => repository_place(root@, principal@, repository@) == Ok::<
                Seq<char>,
                Seq<char>,
            >(path@),
            Err(message) => repository_place(root@, principal@, repository@) == Err::<
                Seq<char>,
                Seq<char>,
            >(message@),
        },
{
    let parts = split_text(root, '/');
    let ghost all = texts(parts@);
    let mut i: usize = 0;
    while i < parts.len()
        invariant
            i <= parts@.len(),
            all == texts(parts@),
            all == pieces(root@, '/'),
            forall|k: int| 0 <= k < i ==> all[k] != ".."@,
        decreases parts.len() - i,
    {
        assert(all[i as int] == parts@[i as int]@);
        if same_text(parts[i].as_str(), "..") {
            assert(leads_up(root@));
            return Err("INFINIGIT_DATA_DIR cannot contain '..'".to_owned());
        }
        i += 1;
    }
    assert(!leads_up(root@));
    let mut name = repository.to_owned();
    name.append(".git");
    let folder = join_paths(root, principal);
    Ok(join_paths(folder.as_str(), name.as_str()))
}

/// The program that synchronizes packs.
#[derive(Debug)]
pub enum PackBridge {
    Environment,
    Configured(String),
    Sibling,
}

/// The model of the choice of a program.
pub enum BridgeModel {
    Environment,
    Configured(Seq<char>),
    Sibling,
}

impl View for PackBridge {
    type V = BridgeModel;

    open spec fn view(&self) -> BridgeModel {
        match *self {
            PackBridge::Environment => BridgeModel::Environment,
            PackBridge::Configured(path) => BridgeModel::Configured(path@),
            PackBridge::Sibling => BridgeModel::Sibling,
        }
    }
}

/// The program that synchronizes packs: the one in the environment, or else the configured
/// one outside production, or else the one beside this program.
pub open spec fn bridge(
    environment: bool,
    production: bool,
    configured: Option<Seq<char>>,
) -> BridgeModel {
    if environment {
        BridgeModel::Environment
    } else {
        match configured {
            Some(path) => if production {
                BridgeModel::Sibling
            } else {
                BridgeModel::Configured(path)
            },
            None => BridgeModel::Sibling,
        }
    }
}

/// Chooses the program that synchronizes packs.
pub fn pack_bridge(environment: bool, production: bool, configured: Option<String>) -> (r:
    PackBridge)
    ensures
        r@ == bridge(environment, production, maybe_string(configured)),
{
    if environment {
        PackBridge::Environment
    } else {
        match configured {
            Some(path) => if production {
                PackBridge::Sibling
            } else {
                PackBridge::Configured(path)
            },
            None => PackBridge::Sibling,
        }
    }
}

/// The settings of the user, from the environment or from git.
#[derive(Debug)]
pub struct Settings {
    pub icp: Option<String>,
    pub identity: Option<String>,
    pub network: Option<String>,
    pub root_key: Option<String>,
    pub project_root: Option<String>,
}

/// The model of the settings.
pub struct SettingsModel {
    pub icp: Option<Seq<char>>,
    pub identity: Option<Seq<char>>,
    pub network: Option<Seq<char>>,
    pub root_key: Option<Seq<char>>,
    pub project_root: Option<Seq<char>>,
}

impl View for Settings {
    type V = SettingsModel;

    open spec fn view(&self) -> SettingsModel {
        SettingsModel {
            icp: maybe_string(self.icp),
            identity: maybe_string(self.identity),
            network: maybe_string(self.network),
            root_key: maybe_string(self.root_key),
            project_root: maybe_string(self.project_root),
        }
    }
}

/// An argument of the query of the directory.
#[derive(Debug)]
pub enum QueryArgument {
    Text(String),
    PasswordFile,
}

/// The model of an argument.
pub enum QueryModel {
    Text(Seq<char>),
    PasswordFile,
}

impl View for QueryArgument {
    type V = QueryModel;

    open spec fn view(&self) -> QueryModel {
        match *self {
            QueryArgument::Text(text) => QueryModel::Text(text@),
            QueryArgument::PasswordFile => QueryModel::PasswordFile,
        }
    }
}

/// The models of a list of arguments.
pub open spec fn query_models(arguments: Seq<QueryArgument>) -> Seq<QueryModel> {
    Seq::new(arguments.len(), |i: int| arguments[i]@)
}

/// An option and its value, where there is one.
pub open spec fn option_with(option: Seq<char>, value: Option<Seq<char>>) -> Seq<QueryModel> {
    match value {
        Some(text) => seq![QueryModel::Text(option), QueryModel::Text(text)],
        None => seq![],
    }
}

/// The options that choose the network of a query: always the production network for a
/// production remote; otherwise the configured network with its root key, or else the
/// project.
pub open spec fn query_network(settings: SettingsModel, production: bool) -> Seq<QueryModel> {
    if production {
        option_with("--network"@, Some(PRODUCTION_NETWORK@))
    } else if settings.network is Some {
        option_with("--network"@, settings.network) + option_with(
            "--root-key"@,
            settings.root_key,
        )
    } else {
        option_with("--project-root-override"@, settings.project_root)
    }
}

/// The arguments of the query that resolves a repository.
pub open spec fn query_arguments(
    namespace: Seq<char>,
    repository: Seq<char>,
    directory: Seq<char>,
    settings: SettingsModel,
    production: bool,
    password_file: bool,
) -> Seq<QueryModel> {
    seq![
        QueryModel::Text("canister"@),
        QueryModel::Text("call"@),
        QueryModel::Text(directory),
        QueryModel::Text("resolve_repository"@),
        QueryModel::Text("(\""@ + namespace + "\", \""@ + repository + "\")"@),
    ] + option_with("--identity"@, settings.identity) + (if password_file {
        seq![QueryModel::Text("--identity-password-file"@), QueryModel::PasswordFile]
    } else {
        seq![]
    }) + query_network(settings, production)
}

fn add_option(list: &mut Vec<QueryArgument>, option: &str, value: &Option<String>)
    ensures
        query_models(final(list)@) == query_models(old(list)@) + option_with(
            option@,
            maybe_string(*value),
        ),
{
    let ghost before = query_models(list@);
    match value {
        Some(text) => {
            list.push(QueryArgument::Text(option.to_owned()));
            list.push(QueryArgument::Text(text.clone()));
            assert(query_models(list@) =~= before + seq![
                QueryModel::Text(option@),
                QueryModel::Text(text@),
            ]);
        },
        None => {
            assert(query_models(list@) =~= before + seq![]);
        },
    }
}

/// Writes the arguments of the query that resolves a repository.
pub fn query_request(
    namespace: &str,
    repository: &str,
    directory: &str,
    settings: &Settings,
    production: bool,
    password_file: bool,
) -> (arguments: Vec<QueryArgument>)
    ensures
        query_models(arguments@) == query_arguments(
            namespace@,
            repository@,
            directory@,
            settings@,
            production,
            password_file,
        ),
{
    let mut argument = "(\"".to_owned();
    argument.append(namespace);
    argument.append("\", \"");
    argument.append(repository);
    argument.append("\")");
    let ghost text = argument@;
    let mut list: Vec<QueryArgument> = Vec::new();
    list.push(QueryArgument::Text("canister".to_owned()));
    list.push(QueryArgument::Text("call".to_owned()));
    list.push(QueryArgument::Text(directory.to_owned()));
    list.push(QueryArgument::Text("resolve_repository".to_owned()));
    list.push(QueryArgument::Text(argument));
    assert(query_models(list@) =~= seq![
        QueryModel::Text("canister"@),
        QueryModel::Text("call"@),
        QueryModel::Text(directory@),
        QueryModel::Text("resolve_repository"@),
        QueryModel::Text(text),
    ]);
    add_option(&mut list, "--identity", &settings.identity);
    let ghost before = query_models(list@);
    if password_file {
        list.push(QueryArgument::Text("--identity-password-file".to_owned()));
        list.push(QueryArgument::PasswordFile);
        assert(query_models(list@) =~= before + seq![
            QueryModel::Text("--identity-password-file"@),
            QueryModel::PasswordFile,
        ]);
    } else {
        assert(query_models(list@) =~= before + seq![]);
    }
    let ghost plain = query_models(list@);
    if production {
        add_option(&mut list, "--network", &Some(PRODUCTION_NETWORK.to_owned()));
    } else if settings.network.is_some() {
        add_option(&mut list, "--network", &settings.network);
        add_option(&mut list, "--root-key", &settings.root_key);
    } else {
        add_option(&mut list, "--project-root-override", &settings.project_root);
    }
    assert(query_models(list@) =~= plain + query_network(settings@, production));
    list
}

/// A change of the environment of a program.
#[derive(Debug)]
pub enum EnvChange {
    Assign(String, String),
    AssignPasswordFile(String),
    Remove(String),
}

/// The model of a change.
pub enum EnvModel {
    Assign(Seq<char>, Seq<char>),
    AssignPasswordFile(Seq<char>),
    Remove(Seq<char>),
}

impl View for EnvChange {
    type V = EnvModel;

    open spec fn view(&self) -> EnvModel {
        match *self {
            EnvChange::Assign(name, value) => EnvModel::Assign(name@, value@),
            EnvChange::AssignPasswordFile(name) => EnvModel::AssignPasswordFile(name@),
            EnvChange::Remove(name) => EnvModel::Remove(name@),
        }
    }
}

/// The models of a list of changes.
pub open spec fn env_models(changes: Seq<EnvChange>) -> Seq<EnvModel> {
    Seq::new(changes.len(), |i: int| changes[i]@)
}

/// A run of the program that synchronizes packs, and what a failure of it means.
#[derive(Debug)]
pub struct PackCommand {
    pub arguments: Vec<String>,
    pub directory: Option<String>,
    pub environment: Vec<EnvChange>,
    pub refusal: String,
}

/// The model of a run.
pub struct PackCommandModel {
    pub arguments: Seq<Seq<char>>,
    pub directory: Option<Seq<char>>,
    pub environment: Seq<EnvModel>,
    pub refusal: Seq<char>,
}

impl View for PackCommand {
    type V = PackCommandModel;

    open spec fn view(&self) -> PackCommandModel {
        PackCommandModel {
            arguments: texts(self.arguments@),
            directory: maybe_string(self.directory),
            environment: env_models(self.environment@),
            refusal: self.refusal@,
        }
    }
}

/// Sets a variable where there is a value.
pub open spec fn env_with(name: Seq<char>, value: Option<Seq<char>>) -> Seq<EnvModel> {
    match value {
        Some(text) => seq![EnvModel::Assign(name, text)],
        None => seq![],
    }
}

/// The network in the environment of a run: always the production network without a root
/// key of its own for a production remote; otherwise what is configured.
pub open spec fn env_network(settings: SettingsModel, production: bool) -> Seq<EnvModel> {
    if production {
        seq![
            EnvModel::Assign("INFINIGIT_NETWORK"@, PRODUCTION_NETWORK@),
            EnvModel::Remove("INFINIGIT_ROOT_KEY"@),
        ]
    } else if settings.network is Some {
        env_with("INFINIGIT_NETWORK"@, settings.network) + env_with(
            "INFINIGIT_ROOT_KEY"@,
            settings.root_key,
        )
    } else {
        seq![]
    }
}

/// The project of a remote; a production remote has none.
pub open spec fn project_of(settings: SettingsModel, production: bool) -> Option<Seq<char>> {
    if production {
        None
    } else {
        settings.project_root
    }
}

/// The changes of the environment for a run.
pub open spec fn pack_environment(
    settings: SettingsModel,
    production: bool,
    password_file: bool,
) -> Seq<EnvModel> {
    env_with("INFINIGIT_PROJECT_ROOT"@, project_of(settings, production)) + env_with(
        "INFINIGIT_ICP_BIN"@,
        settings.icp,
    ) + env_network(settings, production) + env_with("INFINIGIT_IDENTITY"@, settings.identity) + (
    if password_file {
        seq![EnvModel::AssignPasswordFile("INFINIGIT_IDENTITY_PASSWORD_FILE"@)]
    } else {
        seq![]
    })
}

/// A run of the program that synchronizes packs.
pub open spec fn pack_command(
    operation: Seq<char>,
    target: Seq<Seq<char>>,
    settings: SettingsModel,
    production: bool,
    password_file: bool,
    refusal: Seq<char>,
) -> PackCommandModel {
    PackCommandModel {
        arguments: seq![operation] + target,
        directory: project_of(settings, production),
        environment: pack_environment(settings, production, password_file),
        refusal,
    }
}

fn set_variable(list: &mut Vec<EnvChange>, name: &str, value: &Option<String>)
    ensures
        env_models(final(list)@) == env_models(old(list)@) + env_with(name@, maybe_string(*value)),
{
    let ghost before = env_models(list@);
    match value {
        Some(text) => {
            list.push(EnvChange::Assign(name.to_owned(), text.clone()));
            assert(env_models(list@) =~= before + seq![EnvModel::Assign(name@, text@)]);
        },
        None => {
            assert(env_models(list@) =~= before + seq![]);
        },
    }
}

/// Where a repository is: its canister, owner and name there, and its local place.
#[derive(Debug)]
pub struct SyncTarget {
    pub canister: String,
    pub owner: String,
    pub repository: String,
    pub path: String,
}

impl View for SyncTarget {
    type V = Seq<Seq<char>>;

    open spec fn view(&self) -> Seq<Seq<char>> {
        seq![self.canister@, self.owner@, self.repository@, self.path@]
    }
}

fn run_pack(
    operation: &str,
    target: &SyncTarget,
    settings: &Settings,
    production: bool,
    password_file: bool,
    refusal: &str,
) -> (command: PackCommand)
    ensures
        command@ == pack_command(
            operation@,
            target@,
            settings@,
            production,
            password_file,
            refusal@,
        ),
{
    let mut arguments: Vec<String> = Vec::new();
    arguments.push(operation.to_owned());
    arguments.push(target.canister.clone());
    arguments.push(target.owner.clone());
    arguments.push(target.repository.clone());
    arguments.push(target.path.clone());
    assert(texts(arguments@) =~= seq![operation@] + target@);
    let project = if production {
        None
    } else {
        settings.project_root.clone()
    };
    let mut list: Vec<EnvChange> = Vec::new();
    assert(env_models(list@) =~= seq![]);
    set_variable(&mut list, "INFINIGIT_PROJECT_ROOT", &project);
    assert(env_models(list@) =~= env_with(
        "INFINIGIT_PROJECT_ROOT"@,
        project_of(settings@, production),
    ));
    set_variable(&mut list, "INFINIGIT_ICP_BIN", &settings.icp);
    let ghost before = env_models(list@);
    if production {
        list.push(
            EnvChange::Assign("INFINIGIT_NETWORK".to_owned(), PRODUCTION_NETWORK.to_owned()),
        );
        list.push(EnvChange::Remove("INFINIGIT_ROOT_KEY".to_owned()));
    } else if settings.network.is_some() {
        set_variable(&mut list, "INFINIGIT_NETWORK", &settings.network);
        set_variable(&mut list, "INFINIGIT_ROOT_KEY", &settings.root_key);
    }
    assert(env_models(list@) =~= before + env_network(settings@, production));
    set_variable(&mut list, "INFINIGIT_IDENTITY", &settings.identity);
    let ghost plain = env_models(list@);
    if password_file {
        list.push(EnvChange::AssignPasswordFile("INFINIGIT_IDENTITY_PASSWORD_FILE".to_owned()));
        assert(env_models(list@) =~= plain + seq![
            EnvModel::AssignPasswordFile("INFINIGIT_IDENTITY_PASSWORD_FILE"@),
        ]);
    } else {
        assert(env_models(list@) =~= plain + seq![]);
    }
    PackCommand {
        arguments,
        directory: project,
        environment: list,
        refusal: refusal.to_owned(),
    }
}

/// Plans to bring the local repository up to its canister.
pub fn sync_from_canister(
    target: &SyncTarget,
    settings: &Settings,
    production: bool,
    password_file: bool,
) -> (command: PackCommand)
    ensures
        command@ == pack_command(
            "materialize"@,
            target@,
            settings@,
            production,
            password_file,
            "repository not found"@,
        ),
{
    run_pack("materialize", target, settings, production, password_file, "repository not found")
}

/// Plans to bring the canister up to the local repository.
pub fn sync_to_canister(
    target: &SyncTarget,
    settings: &Settings,
    production: bool,
    password_file: bool,
) -> (command: PackCommand)
    ensures
        command@ == pack_command(
            "upload"@,
            target@,
            settings@,
            production,
            password_file,
            "canister rejected push"@,
        ),
{
    run_pack("upload", target, settings, production, password_file, "canister rejected push")
}

/// A production remote runs on the production network, whatever is configured, and never
/// under a root key of its own.
pub proof fn production_remotes_use_the_production_network(
    settings: SettingsModel,
    password_file: bool,
    root_key: Seq<char>,
    project: Seq<char>,
)
    ensures
        ({
            let changes = pack_environment(settings, true, password_file);
            &&& changes.contains(EnvModel::Assign("INFINIGIT_NETWORK"@, PRODUCTION_NETWORK@))
            &&& changes.contains(EnvModel::Remove("INFINIGIT_ROOT_KEY"@))
            &&& !changes.contains(EnvModel::Assign("INFINIGIT_ROOT_KEY"@, root_key))
            &&& !changes.contains(EnvModel::Assign("INFINIGIT_PROJECT_ROOT"@, project))
        }),
{
    reveal_strlit("INFINIGIT_NETWORK");
    reveal_strlit("INFINIGIT_ROOT_KEY");
    reveal_strlit("INFINIGIT_PROJECT_ROOT");
    reveal_strlit("INFINIGIT_ICP_BIN");
    reveal_strlit("INFINIGIT_IDENTITY");
    assert("INFINIGIT_NETWORK"@.len() == 17);
    assert("INFINIGIT_ROOT_KEY"@.len() == 18);
    assert("INFINIGIT_PROJECT_ROOT"@.len() == 22);
    assert("INFINIGIT_ICP_BIN"@.len() == 17);
    assert("INFINIGIT_IDENTITY"@.len() == 18);
    assert("INFINIGIT_ROOT_KEY"@[10] == 'R');
    assert("INFINIGIT_IDENTITY"@[10] == 'I');
    let changes = pack_environment(settings, true, password_file);
    let icp = env_with("INFINIGIT_ICP_BIN"@, settings.icp);
    assert(env_with("INFINIGIT_PROJECT_ROOT"@, None) =~= seq![]);
    let n = icp.len() as int;
    assert(changes[n] == EnvModel::Assign("INFINIGIT_NETWORK"@, PRODUCTION_NETWORK@));
    assert(changes[n + 1] == EnvModel::Remove("INFINIGIT_ROOT_KEY"@));
    let identity = env_with("INFINIGIT_IDENTITY"@, settings.identity);
    assert forall|i: int| 0 <= i < changes.len() implies changes[i] != EnvModel::Assign(
        "INFINIGIT_ROOT_KEY"@,
        root_key,
    ) && changes[i] != EnvModel::Assign("INFINIGIT_PROJECT_ROOT"@, project) by {
        if i < n {
            assert(changes[i] == icp[i]);
        } else if i >= n + 2 && i < n + 2 + identity.len() {
            assert(changes[i] == identity[i - n - 2]);
        }
    }
}

/// Whether a repository is public, as git tells it.
pub open spec fn public_repository(success: bool, output: Seq<u8>) -> bool {
    success && trimmed(lossy(output)) == "true"@
}

/// Reads from what git printed whether a repository is public.
pub fn is_public(success: bool, output: &[u8]) -> (r: bool)
    ensures
        r == public_repository(success, output@),
{
    success && same_text(trim_text(lossy_text(output).as_str()).as_str(), "true")
}

/// Who may use a repository.
#[derive(Clone, Copy, Debug, PartialEq, Eq, Structural)]
pub struct Access {
    pub on_canister: bool,
    pub owner: bool,
    pub public: bool,
}

/// What to do about a command of git.
#[derive(Debug)]
pub enum HelperAction {
    /// Print this and read on.
    Print(String),
    /// Run this service on the repository; then upload if the second says so and the
    /// service succeeded.
    Serve(String, bool),
    /// Nothing more is to come.
    Stop,
    /// Fail with this message.
    Fail(String),
}

/// The model of what to do.
pub enum HelperModel {
    Print(Seq<char>),
    Serve(Seq<char>, bool),
    Stop,
    Fail(Seq<char>),
}

impl View for HelperAction {
    type V = HelperModel;

    open spec fn view(&self) -> HelperModel {
        match *self {
            HelperAction::Print(text) => HelperModel::Print(text@),
            HelperAction::Serve(service, upload) => HelperModel::Serve(service@, upload),
            HelperAction::Stop => HelperModel::Stop,
            HelperAction::Fail(message) => HelperModel::Fail(message@),
        }
    }
}

/// A service is granted on a repository that a canister guards, to the owner, and for
/// reading a public repository.
pub open spec fn granted(access: Access, reading: bool) -> bool {
    access.on_canister || access.owner || (reading && access.public)
}

/// What to do about a request for a service.
pub open spec fn service_answer(access: Access, service: Seq<char>, reading: bool) -> HelperModel {
    if granted(access, reading) {
        HelperModel::Serve(service, !reading && access.on_canister)
    } else {
        HelperModel::Fail("repository not found"@)
    }
}

/// What to do about a command of git; there is none at the end of the input.
pub open spec fn helper_answer(access: Access, line: Option<Seq<char>>) -> HelperModel {
    match line {
        None => HelperModel::Stop,
        Some(command) => if command == "capabilities"@ {
            HelperModel::Print("connect\n\n"@)
        } else if command == "connect git-upload-pack"@ {
            service_answer(access, "git-upload-pack"@, true)
        } else if command == "connect git-receive-pack"@ {
            service_answer(access, "git-receive-pack"@, false)
        } else if command == ""@ {
            HelperModel::Stop
        } else {
            HelperModel::Fail("unsupported remote-helper command: "@ + command)
        },
    }
}

fn answer_service(access: Access, service: &str, reading: bool) -> (action: HelperAction)
    ensures
        action@ == service_answer(access, service@, reading),
{
    if access.on_canister || access.owner || (reading && access.public) {
        HelperAction::Serve(service.to_owned(), !reading && access.on_canister)
    } else {
        HelperAction::Fail("repository not found".to_owned())
    }
}

/// Answers a command of git.
pub fn answer_command(access: Access, line: Option<&str>) -> (action: HelperAction)
    ensures
        action@ == helper_answer(access, maybe_text(line)),
{
    match line {
        None => HelperAction::Stop,
        Some(command) => if same_text(command, "capabilities") {
            HelperAction::Print("connect\n\n".to_owned())
        } else if same_text(command, "connect git-upload-pack") {
            answer_service(access, "git-upload-pack", true)
        } else if same_text(command, "connect git-receive-pack") {
            answer_service(access, "git-receive-pack", false)
        } else if same_text(command, "") {
            HelperAction::Stop
        } else {
            let mut message = "unsupported remote-helper command: ".to_owned();
            message.append(command);
            HelperAction::Fail(message)
        },
    }
}

/// Without a canister, a private repository is served to its owner only, anyone else is
/// told that there is none, and nobody but the owner may write to a public one.
pub proof fn private_repositories_are_hidden(access: Access, line: Seq<char>)
    requires
        !access.on_canister,
        !access.owner,
    ensures
        !access.public ==> helper_answer(access, Some(line)) !is Serve,
        !access.public && (line == "connect git-upload-pack"@ || line
            == "connect git-receive-pack"@) ==> helper_answer(access, Some(line))
            == HelperModel::Fail("repository not found"@),
        helper_answer(access, Some(line)) is Serve ==> line == "connect git-upload-pack"@,
        access.public ==> helper_answer(access, Some("connect git-upload-pack"@))
            == HelperModel::Serve("git-upload-pack"@, false),
{
    reveal_strlit("capabilities");
    reveal_strlit("connect git-upload-pack");
    reveal_strlit("connect git-receive-pack");
    reveal_strlit("");
    assert("capabilities"@.len() == 12);
    assert("connect git-upload-pack"@.len() == 23);
    assert("connect git-receive-pack"@.len() == 24);
}

/// A repository on a canister is uploaded after a push, and after nothing else.
pub proof fn only_pushes_are_uploaded(access: Access, line: Seq<char>)
    ensures
        helper_answer(access, Some(line)) matches HelperModel::Serve(service, upload) ==> upload
            == (access.on_canister && line == "connect git-receive-pack"@),
{
    reveal_strlit("connect git-upload-pack");
    reveal_strlit("connect git-receive-pack");
    assert("connect git-upload-pack"@.len() == 23);
    assert("connect git-receive-pack"@.len() == 24);
}

} // verus!
