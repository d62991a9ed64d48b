//! What a canister's transport offers, and the snapshot it gives of a repository.
use vstd::prelude::*;

use crate::json::{
    bool_field, field, items_field, json_bytes, json_document, models_are_memberwise, plain_within,
    text_field, text_value, unsigned_value, Json, JsonModel,
};
use crate::refs::{pairs, read_refs, refs_of};
use crate::text::{
    chars_of, decimal, decimal_text, is_alphanumeric, is_hex_digit, maybe_text, parse_usize,
    same_text, unsigned_up_to, without_char,
};

verus! {

/// Length of the pieces in which packs and large objects travel.
pub const CHUNK_SIZE: usize = 524_288;

/// What a canister's transport offers.
#[derive(Clone, Copy, Debug, PartialEq, Eq, Structural)]
pub struct TransportCapabilities {
    pub version: usize,
    pub max_chunk_batch_items: usize,
    pub max_chunk_batch_bytes: usize,
    pub max_pack_index_batch_items: usize,
    pub max_download_batch_items: usize,
    pub max_retained_packs: usize,
    pub packed_object_reads: bool,
    pub streaming_pack_downloads: bool,
}

/// What every canister offers.
pub open spec fn default_capabilities() -> TransportCapabilities {
    TransportCapabilities {
        version: 1,
        max_chunk_batch_items: 1,
        max_chunk_batch_bytes: CHUNK_SIZE,
        max_pack_index_batch_items: 500,
        max_download_batch_items: 1,
        max_retained_packs: 100,
        packed_object_reads: false,
        streaming_pack_downloads: false,
    }
}

impl Default for TransportCapabilities {
    fn default() -> (r: Self)
        ensures
            r == default_capabilities(),
    {
        TransportCapabilities {
            version: 1,
            max_chunk_batch_items: 1,
            max_chunk_batch_bytes: CHUNK_SIZE,
            max_pack_index_batch_items: 500,
            max_download_batch_items: 1,
            max_retained_packs: 100,
            packed_object_reads: false,
            streaming_pack_downloads: false,
        }
    }
}

/// The number in a document: an unsigned integer, or a numeral in which underscores
/// group the digits.
pub open spec fn usize_value(value: JsonModel) -> Option<usize> {
    match unsigned_value(value) {
        Some(n) => Some(n as usize),
        None => match text_value(value) {
            Some(text) => match unsigned_up_to(
                text.filter(|x: char| x != '_'),
                usize::MAX as nat,
            ) {
                Some(n) => Some(n as usize),
                None => None,
            },
            None => None,
        },
    }
}

/// The number in the field `name` of an object.
pub open spec fn usize_field(document: JsonModel, name: Seq<char>) -> Option<usize> {
    match field(document, name) {
        Some(value) => usize_value(value),
        None => None,
    }
}

/// Reads the number in the field `name`.
pub fn json_usize(value: &Json, name: &str) -> (r: Option<usize>)
    ensures
        r == usize_field(value@, name@),
{
    match value.get(name) {
        Some(found) => match found.as_u64() {
            Some(n) => Some(n as usize),
            None => match found.as_str() {
                Some(text) => parse_usize(without_char(text, '_').as_str()),
                None => None,
            },
        },
        None => None,
    }
}

/// `n`, or the nearest number from `low` to `high`.
pub open spec fn within(n: usize, low: usize, high: usize) -> usize {
    if n < low {
        low
    } else if n > high {
        high
    } else {
        n
    }
}

fn clamped(n: usize, low: usize, high: usize) -> (r: usize)
    ensures
        r == within(n, low, high),
{
    if n < low {
        low
    } else if n > high {
        high
    } else {
        n
    }
}

/// The number in the field `name`, or `default` where there is none.
pub open spec fn usize_or(document: JsonModel, name: Seq<char>, default: usize) -> usize {
    match usize_field(document, name) {
        Some(n) => n,
        None => default,
    }
}

fn number_or(value: &Json, name: &str, default: usize) -> (r: usize)
    ensures
        r == usize_or(value@, name@, default),
{
    match json_usize(value, name) {
        Some(n) => n,
        None => default,
    }
}

/// What a canister declares that it offers, kept within what this crate can use.
pub open spec fn capabilities_of(value: JsonModel) -> TransportCapabilities {
    TransportCapabilities {
        version: usize_or(value, "version"@, 1),
        max_chunk_batch_items: within(usize_or(value, "max_chunk_batch_items"@, 1), 1, 16),
        max_chunk_batch_bytes: within(
            usize_or(value, "max_chunk_batch_bytes"@, CHUNK_SIZE),
            CHUNK_SIZE,
            1_450_000,
        ),
        max_pack_index_batch_items: within(
            usize_or(value, "max_pack_index_batch_items"@, 500),
            1,
            2_000,
        ),
        max_download_batch_items: within(usize_or(value, "max_download_batch_items"@, 1), 1, 3),
        max_retained_packs: within(usize_or(value, "max_retained_packs"@, 100), 100, 1_000),
        packed_object_reads: bool_field(value, "packed_object_reads"@) == Some(true),
        streaming_pack_downloads: bool_field(value, "streaming_pack_downloads"@) == Some(true),
    }
}

/// Reads what a canister declares that it offers.
pub fn capabilities_from_value(value: &Json) -> (r: TransportCapabilities)
    ensures
        r == capabilities_of(value@),
{
    TransportCapabilities {
        version: number_or(value, "version", 1),
        max_chunk_batch_items: clamped(number_or(value, "max_chunk_batch_items", 1), 1, 16),
        max_chunk_batch_bytes: clamped(
            number_or(value, "max_chunk_batch_bytes", CHUNK_SIZE),
            CHUNK_SIZE,
            1_450_000,
        ),
        max_pack_index_batch_items: clamped(
            number_or(value, "max_pack_index_batch_items", 500),
            1,
            2_000,
        ),
        max_download_batch_items: clamped(number_or(value, "max_download_batch_items", 1), 1, 3),
        max_retained_packs: clamped(number_or(value, "max_retained_packs", 100), 100, 1_000),
        packed_object_reads: match value.bool_at("packed_object_reads") {
            Some(b) => b,
            None => false,
        },
        streaming_pack_downloads: match value.bool_at("streaming_pack_downloads") {
            Some(b) => b,
            None => false,
        },
    }
}

/// Limits that every transport keeps: batches are never empty, a batch of chunks always
/// has room for a whole chunk, and at least a hundred packs are retained.
pub open spec fn usable(capabilities: TransportCapabilities) -> bool {
    &&& 1 <= capabilities.max_chunk_batch_items <= 16
    &&& CHUNK_SIZE <= capabilities.max_chunk_batch_bytes <= 1_450_000
    &&& 1 <= capabilities.max_pack_index_batch_items <= 2_000
    &&& 1 <= capabilities.max_download_batch_items <= 3
    &&& 100 <= capabilities.max_retained_packs <= 1_000
}

/// Whatever a canister declares, the limits stay usable.
pub proof fn declared_capabilities_are_usable(value: JsonModel)
    ensures
        usable(capabilities_of(value)),
        usable(default_capabilities()),
{
}

/// What the answer to a question for capabilities says; without an answer, what every
/// canister offers.
pub open spec fn offered(answer: Option<JsonModel>) -> TransportCapabilities {
    match answer {
        Some(value) => capabilities_of(value),
        None => default_capabilities(),
    }
}

/// The model of an optional document.
pub open spec fn maybe_json(value: Option<&Json>) -> Option<JsonModel> {
    match value {
        Some(document) => Some(document@),
        None => None,
    }
}

/// Reads the answer to a question for capabilities.
pub fn transport_capabilities(answer: Option<&Json>) -> (r: TransportCapabilities)
    ensures
        r == offered(maybe_json(answer)),
        usable(r),
{
    match answer {
        Some(value) => capabilities_from_value(value),
        None => TransportCapabilities::default(),
    }
}

/// The ids of the packs in a listing, each with its number of indexed objects. Entries
/// without an id are passed over.
pub open spec fn packs_of(entries: Seq<JsonModel>) -> Seq<(Seq<char>, usize)>
    decreases entries.len(),
{
    if entries.len() == 0 {
        seq![]
    } else {
        let front = packs_of(entries.drop_last());
        match text_field(entries.last(), "pack_id"@) {
            Some(id) => front.push((id, usize_or(entries.last(), "indexed_objects"@, 0))),
            None => front,
        }
    }
}

/// The model of a list of packs.
pub open spec fn packs_model(packs: Seq<(String, usize)>) -> Seq<(Seq<char>, usize)> {
    Seq::new(packs.len(), |i: int| (packs[i].0@, packs[i].1))
}

/// Reads the packs of a listing.
pub fn read_packs(entries: &Vec<Json>) -> (packs: Vec<(String, usize)>)
    ensures
        packs_model(packs@) == packs_of(Json::models(entries@)),
{
    let ghost models = Json::models(entries@);
    proof {
        models_are_memberwise(entries@);
    }
    let mut packs: Vec<(String, usize)> = Vec::new();
    let mut i: usize = 0;
    assert(packs_model(packs@) =~= packs_of(models.take(0)));
    while i < entries.len()
        invariant
            i <= entries@.len(),
            models == Seq::new(entries@.len(), |k: int| entries@[k]@),
            packs_model(packs@) == packs_of(models.take(i as int)),
        decreases entries.len() - i,
    {
        let entry = &entries[i];
        let ghost done = packs_model(packs@);
        assert(models.take(i + 1).drop_last() =~= models.take(i as int));
        assert(models.take(i + 1).last() == entry@);
        if let Some(id) = entry.text_at("pack_id") {
            let count = number_or(entry, "indexed_objects", 0);
            packs.push((id.to_owned(), count));
            assert(packs_model(packs@) =~= done.push((id@, count)));
        }
        i += 1;
    }
    assert(models.take(models.len() as int) =~= models);
    packs
}

/// A repository as its canister describes it.
#[derive(Debug)]
pub struct TransportSnapshot {
    pub capabilities: TransportCapabilities,
    pub refs: Vec<(String, String)>,
    pub packs: Vec<(String, usize)>,
    pub pack_values: Vec<Json>,
    pub raw: Json,
}

/// The model of a snapshot.
pub struct SnapshotModel {
    pub capabilities: TransportCapabilities,
    pub refs: Seq<(Seq<char>, Seq<char>)>,
    pub packs: Seq<(Seq<char>, usize)>,
    pub pack_values: Seq<JsonModel>,
    pub raw: JsonModel,
}

impl View for TransportSnapshot {
    type V = SnapshotModel;

    open spec fn view(&self) -> SnapshotModel {
        SnapshotModel {
            capabilities: self.capabilities,
            refs: pairs(self.refs@),
            packs: packs_model(self.packs@),
            pack_values: Json::models(self.pack_values@),
            raw: self.raw@,
        }
    }
}

/// The model of an optional snapshot.
pub open spec fn maybe_snapshot(snapshot: Option<TransportSnapshot>) -> Option<SnapshotModel> {
    match snapshot {
        Some(s) => Some(s@),
        None => None,
    }
}

/// The refs in a snapshot, if it lists any and each is one.
pub open spec fn snapshot_refs(document: JsonModel) -> Option<Seq<(Seq<char>, Seq<char>)>> {
    match items_field(document, "refs"@) {
        Some(entries) => refs_of(entries),
        None => None,
    }
}

/// The snapshot that a document describes: it has refs, packs and capabilities.
pub open spec fn snapshot_of(document: JsonModel) -> Option<SnapshotModel> {
    match (
        snapshot_refs(document),
        items_field(document, "packs"@),
        field(document, "capabilities"@),
    ) {
        (Some(refs), Some(packs), Some(capabilities)) => Some(
            SnapshotModel {
                capabilities: capabilities_of(capabilities),
                refs,
                packs: packs_of(packs),
                pack_values: packs,
                raw: document,
            },
        ),
        _ => None,
    }
}

/// Reads a snapshot from its document.
pub fn parse_transport_snapshot(document: &Json) -> (r: Option<TransportSnapshot>)
    ensures
        maybe_snapshot(r) == snapshot_of(document@),
        r matches Some(snapshot) ==> usable(snapshot.capabilities),
{
    let refs = match document.array_at("refs") {
        Some(entries) => match read_refs(entries) {
            Some(refs) => refs,
            None => return None,
        },
        None => return None,
    };
    let entries = match document.array_at("packs") {
        Some(entries) => entries,
        None => return None,
    };
    let capabilities = match document.get("capabilities") {
        Some(value) => capabilities_from_value(value),
        None => return None,
    };
    Some(
        TransportSnapshot {
            capabilities,
            refs,
            packs: read_packs(entries),
            pack_values: Json::copy_all(entries),
            raw: document.copy(),
        },
    )
}

/// A generation: sixty-four hexadecimal digits.
pub open spec fn generation(text: Seq<char>) -> bool {
    text.len() == 64 && forall|i: int| 0 <= i < text.len() ==> is_hex_digit(#[trigger] text[i])
}

fn is_generation(text: &str) -> (r: bool)
    ensures
        r == generation(text@),
{
    let chars = chars_of(text);
    if chars.len() != 64 {
        return false;
    }
    let mut i: usize = 0;
    while i < chars.len()
        invariant
            i <= chars@.len(),
            chars@ == text@,
            chars@.len() == 64,
            forall|k: int| 0 <= k < i ==> is_hex_digit(#[trigger] text@[k]),
        decreases chars.len() - i,
    {
        let c = chars[i];
        let digit = ('0' <= c && c <= '9') || ('a' <= c && c <= 'f') || ('A' <= c && c <= 'F');
        assert(digit == is_hex_digit(text@[i as int]));
        if !digit {
            return false;
        }
        i += 1;
    }
    true
}

/// The generation of a cached snapshot.
pub open spec fn known_generation(cached: Option<JsonModel>) -> Option<Seq<char>> {
    match cached {
        Some(document) => match text_field(document, "generation"@) {
            Some(text) => if generation(text) {
                Some(text)
            } else {
                None
            },
            None => None,
        },
        None => None,
    }
}

/// The argument of a question for a snapshot: `known` is the generation that the caller
/// has already.
pub open spec fn snapshot_question(
    owner: Seq<char>,
    repo: Seq<char>,
    known: Option<Seq<char>>,
) -> Seq<char> {
    "(principal \""@ + owner + "\", \""@ + repo + "\", "@ + match known {
        Some(text) => "opt \""@ + text + "\""@,
        None => "null"@,
    } + ")"@
}

/// Writes the argument of a question for a snapshot, given what is cached.
pub fn snapshot_argument(owner: &str, repo: &str, cached: Option<&Json>) -> (argument: String)
    ensures
        argument@ == snapshot_question(owner@, repo@, known_generation(maybe_json(cached))),
{
    let known = match cached {
        Some(document) => match document.text_at("generation") {
            Some(text) => if is_generation(text) {
                let mut known = "opt \"".to_owned();
                known.append(text);
                known.append("\"");
                known
            } else {
                "null".to_owned()
            },
            None => "null".to_owned(),
        },
        None => "null".to_owned(),
    };
    let mut argument = "(principal \"".to_owned();
    argument.append(owner);
    argument.append("\", \"");
    argument.append(repo);
    argument.append("\", ");
    argument.append(known.as_str());
    argument.append(")");
    argument
}

/// What to do with the answer to a question for a snapshot: the bytes to cache, and the
/// snapshot. An answer that nothing changed stands for the cached snapshot, and a
/// rejection for none.
pub open spec fn snapshot_answer(reply: JsonModel, cached: Option<JsonModel>) -> (
    Option<Seq<u8>>,
    Option<SnapshotModel>,
) {
    match field(reply, "ok"@) {
        None => (None, None),
        Some(snapshot) => if bool_field(snapshot, "unchanged"@) == Some(true) {
            (
                None,
                match cached {
                    Some(document) => snapshot_of(document),
                    None => None,
                },
            )
        } else {
            (Some(json_bytes(snapshot)), snapshot_of(snapshot))
        },
    }
}

/// The model of optional bytes.
pub open spec fn maybe_bytes(bytes: Option<Vec<u8>>) -> Option<Seq<u8>> {
    match bytes {
        Some(b) => Some(b@),
        None => None,
    }
}

/// Reads the answer to a question for a snapshot.
pub fn transport_snapshot(reply: &Json, cached: Option<&Json>) -> (r: (
    Option<Vec<u8>>,
    Option<TransportSnapshot>,
))
    ensures
        (maybe_bytes(r.0), maybe_snapshot(r.1)) == snapshot_answer(reply@, maybe_json(cached)),
        r.1 matches Some(snapshot) ==> usable(snapshot.capabilities),
{
    match reply.get("ok") {
        None => (None, None),
        Some(snapshot) => {
            let unchanged = match snapshot.bool_at("unchanged") {
                Some(b) => b,
                None => false,
            };
            if unchanged {
                match cached {
                    Some(document) => (None, parse_transport_snapshot(document)),
                    None => (None, None),
                }
            } else {
                (Some(snapshot.to_bytes()), parse_transport_snapshot(snapshot))
            }
        },
    }
}

/// A cached snapshot whose generation the canister confirms reads as it did when it was
/// stored.
pub proof fn unchanged_snapshots_come_from_the_cache(
    first: JsonModel,
    second: JsonModel,
    cached: Option<JsonModel>,
)
    requires
        field(first, "ok"@) is Some,
        bool_field(field(first, "ok"@)->Some_0, "unchanged"@) != Some(true),
        field(second, "ok"@) is Some,
        bool_field(field(second, "ok"@)->Some_0, "unchanged"@) == Some(true),
    ensures
        snapshot_answer(second, field(first, "ok"@)).1 == snapshot_answer(first, cached).1,
        snapshot_answer(second, field(first, "ok"@)).0 is None,
{
}

/// A session name: letters, digits and dashes, at least one.
pub open spec fn session_name(name: Seq<char>) -> bool {
    name.len() > 0 && forall|i: int|
        0 <= i < name.len() ==> is_alphanumeric(#[trigger] name[i]) || name[i] == '-'
}

/// Whether `name` can name a session.
pub fn valid_session(name: &str) -> (r: bool)
    ensures
        r == session_name(name@),
{
    let chars = chars_of(name);
    if chars.len() == 0 {
        return false;
    }
    let mut i: usize = 0;
    while i < chars.len()
        invariant
            i <= chars@.len(),
            chars@ == name@,
            forall|k: int| 0 <= k < i ==> is_alphanumeric(#[trigger] name@[k]) || name@[k] == '-',
        decreases chars.len() - i,
    {
        let c = chars[i];
        let allowed = ('0' <= c && c <= '9') || ('a' <= c && c <= 'z') || ('A' <= c && c <= 'Z')
            || c == '-';
        assert(allowed == (is_alphanumeric(name@[i as int]) || name@[i as int] == '-'));
        if !allowed {
            return false;
        }
        i += 1;
    }
    true
}

/// What a session stores: its name and the snapshot.
pub open spec fn session_document(session: Seq<char>, snapshot: JsonModel) -> JsonModel {
    JsonModel::Object(
        Map::<Seq<char>, JsonModel>::empty().insert("session"@, JsonModel::Text(session)).insert(
            "snapshot"@,
            snapshot,
        ),
    )
}

/// The snapshot that a session stored in a document; nothing where another session did.
pub open spec fn snapshot_for(document: JsonModel, session: Seq<char>) -> Option<SnapshotModel> {
    match (text_field(document, "session"@), field(document, "snapshot"@)) {
        (Some(name), Some(snapshot)) => if name == session {
            snapshot_of(snapshot)
        } else {
            None
        },
        _ => None,
    }
}

/// The snapshot that a session stored in `bytes`.
pub open spec fn session_snapshot(bytes: Seq<u8>, session: Seq<char>) -> Option<SnapshotModel> {
    match json_document(bytes) {
        Ok(document) => snapshot_for(document, session),
        Err(_) => None,
    }
}

proof fn lemma_session_fields(session: Seq<char>, snapshot: JsonModel)
    ensures
        text_field(session_document(session, snapshot), "session"@) == Some(session),
        field(session_document(session, snapshot), "snapshot"@) == Some(snapshot),
{
    reveal_strlit("session");
    reveal_strlit("snapshot");
    assert("session"@.len() != "snapshot"@.len());
}

/// A session's snapshot can be read back by that session and by no other.
pub proof fn session_snapshots_belong_to_their_session(
    bytes: Seq<u8>,
    session: Seq<char>,
    other: Seq<char>,
    snapshot: JsonModel,
)
    requires
        json_document(bytes) == Ok::<JsonModel, Seq<char>>(session_document(session, snapshot)),
        other != session,
    ensures
        session_snapshot(bytes, session) == snapshot_of(snapshot),
        session_snapshot(bytes, other) is None,
{
    lemma_session_fields(session, snapshot);
}

/// The bytes that a session stores. Reading them in the same session gives the snapshot
/// back where its document is plain and not nested too deep.
pub fn store_session_snapshot(session: &str, snapshot: &TransportSnapshot) -> (bytes: Vec<u8>)
    ensures
        bytes@ == json_bytes(session_document(session@, snapshot@.raw)),
        plain_within(session_document(session@, snapshot@.raw), 127) ==> session_snapshot(
            bytes@,
            session@,
        ) == snapshot_of(snapshot@.raw),
{
    let mut fields: Vec<(String, Json)> = Vec::new();
    let ghost none = fields@;
    assert(Json::fields_model(none) =~= Map::<Seq<char>, JsonModel>::empty());
    let name = Json::Text(session.to_owned());
    assert(name@ == JsonModel::Text(session@));
    fields.push(("session".to_owned(), name));
    let ghost one = fields@;
    assert(one.drop_last() =~= none);
    assert(one.last() == fields@[0]);
    assert(Json::fields_model(one) == Map::<Seq<char>, JsonModel>::empty().insert(
        "session"@,
        JsonModel::Text(session@),
    ));
    fields.push(("snapshot".to_owned(), snapshot.raw.copy()));
    assert(fields@.drop_last() =~= one);
    let document = Json::Object(fields);
    assert(document@ == session_document(session@, snapshot@.raw));
    proof {
        lemma_session_fields(session@, snapshot@.raw);
    }
    document.to_bytes()
}

/// Reads the snapshot that a session stored in a document.
pub fn read_session_snapshot(document: &Json, session: &str) -> (r: Option<TransportSnapshot>)
    ensures
        maybe_snapshot(r) == snapshot_for(document@, session@),
        r matches Some(snapshot) ==> usable(snapshot.capabilities),
{
    match (document.text_at("session"), document.get("snapshot")) {
        (Some(name), Some(snapshot)) => if same_text(name, session) {
            parse_transport_snapshot(snapshot)
        } else {
            None
        },
        _ => None,
    }
}

/// Reads the snapshot that a session stored.
pub fn take_session_snapshot(bytes: &[u8], session: &str) -> (r: Option<TransportSnapshot>)
    ensures
        maybe_snapshot(r) == session_snapshot(bytes@, session@),
        r matches Some(snapshot) ==> usable(snapshot.capabilities),
{
    match Json::parse(bytes) {
        Ok(document) => read_session_snapshot(&document, session),
        Err(_) => None,
    }
}

/// The number of calls that run at a time: twice the processors, between four and
/// twelve and no more than there are calls, unless a number is configured; always
/// between one and sixteen.
pub open spec fn concurrency(
    processors: Option<usize>,
    configured: Option<Seq<char>>,
    calls: usize,
) -> usize {
    let count = match processors {
        Some(n) => n,
        None => 4,
    };
    let doubled = if count * 2 > usize::MAX {
        usize::MAX
    } else {
        (count * 2) as usize
    };
    let automatic = within(doubled, 4, 12);
    let wanted = if calls < 1 {
        1
    } else {
        calls
    };
    let chosen = match configured {
        Some(text) => unsigned_up_to(text, usize::MAX as nat),
        None => None,
    };
    within(
        match chosen {
            Some(n) => n as usize,
            None => if automatic < wanted {
                automatic
            } else {
                wanted
            },
        },
        1,
        16,
    )
}

/// The number of calls to run at a time.
pub fn call_concurrency(processors: Option<usize>, configured: Option<&str>, calls: usize) -> (r:
    usize)
    ensures
        r == concurrency(processors, maybe_text(configured), calls),
        1 <= r <= 16,
{
    let count: usize = match processors {
        Some(n) => n,
        None => 4,
    };
    let doubled: usize = if count > usize::MAX / 2 {
        usize::MAX
    } else {
        count * 2
    };
    let automatic = clamped(doubled, 4, 12);
    let wanted: usize = if calls < 1 {
        1
    } else {
        calls
    };
    let chosen = match configured {
        Some(text) => parse_usize(text),
        None => None,
    };
    clamped(
        match chosen {
            Some(n) => n,
            None => if automatic < wanted {
                automatic
            } else {
                wanted
            },
        },
        1,
        16,
    )
}

/// Measures the phases of an operation, in nanoseconds of a clock that does not go back.
#[derive(Debug)]
pub struct TransportTimer {
    pub operation: String,
    pub started: u64,
    pub checkpoint: u64,
}

/// The milliseconds from `from` to `to`; none if `to` is earlier.
pub open spec fn elapsed_ms(from: u64, to: u64) -> nat {
    if to < from {
        0
    } else {
        ((to - from) / 1_000_000) as nat
    }
}

/// The report on a phase.
pub open spec fn phase_report(
    operation: Seq<char>,
    phase: Seq<char>,
    phase_ms: nat,
    total_ms: nat,
) -> Seq<char> {
    "infinigit transport: operation="@ + operation + " phase="@ + phase + " phase_ms="@ + decimal(
        phase_ms,
    ) + " total_ms="@ + decimal(total_ms)
}

fn milliseconds(from: u64, to: u64) -> (ms: u64)
    ensures
        ms == elapsed_ms(from, to),
{
    if to < from {
        0
    } else {
        (to - from) / 1_000_000
    }
}

/// The model of a timer.
pub struct TimerModel {
    pub operation: Seq<char>,
    pub started: u64,
    pub checkpoint: u64,
}

impl View for TransportTimer {
    type V = TimerModel;

    open spec fn view(&self) -> TimerModel {
        TimerModel {
            operation: self.operation@,
            started: self.started,
            checkpoint: self.checkpoint,
        }
    }
}

/// A timer that starts.
pub open spec fn timer_start(operation: Seq<char>, now: u64) -> TimerModel {
    TimerModel { operation, started: now, checkpoint: now }
}

/// A timer after the end of a phase, and the milliseconds of the phase and of all so far.
pub open spec fn timer_marked(timer: TimerModel, now: u64) -> (TimerModel, nat, nat) {
    (
        TimerModel { checkpoint: now, ..timer },
        elapsed_ms(timer.checkpoint, now),
        elapsed_ms(timer.started, now),
    )
}

/// Each phase is measured from the end of the one before, and the whole from the start: the
/// phases add up to the whole, but for the fractions of milliseconds that are dropped.
pub proof fn phases_add_up(operation: Seq<char>, start: u64, first: u64, second: u64)
    requires
        start <= first <= second,
    ensures
        ({
            let (one, phase, total) = timer_marked(timer_start(operation, start), first);
            let (two, next, whole) = timer_marked(one, second);
            &&& phase == total
            &&& phase == (first - start) / 1_000_000
            &&& next == (second - first) / 1_000_000
            &&& whole == (second - start) / 1_000_000
            &&& phase + next <= whole <= phase + next + 1
            &&& two.operation == operation
        }),
{
}

impl TransportTimer {
    /// Starts measuring at `now`.
    pub fn new(operation: &str, now: u64) -> (timer: Self)
        ensures
            timer.operation@ == operation@,
            timer.started == now,
            timer.checkpoint == now,
            timer@ == timer_start(operation@, now),
    {
        TransportTimer { operation: operation.to_owned(), started: now, checkpoint: now }
    }

    /// Ends a phase at `now`. Where reports are wanted, gives one and starts the next
    /// phase; otherwise does nothing.
    pub fn mark(&mut self, phase: &str, now: u64, wanted: bool) -> (report: Option<String>)
        ensures
            final(self).operation@ == old(self).operation@,
            final(self).started == old(self).started,
            report is Some == wanted,
            final(self).checkpoint == (if wanted {
                now
            } else {
                old(self).checkpoint
            }),
            report matches Some(text) ==> text@ == phase_report(
                old(self).operation@,
                phase@,
                elapsed_ms(old(self).checkpoint, now),
                elapsed_ms(old(self).started, now),
            ),
            !wanted ==> final(self)@ == old(self)@,
            wanted ==> {
                let (after, phase_ms, total_ms) = timer_marked(old(self)@, now);
                &&& final(self)@ == after
                &&& report matches Some(text) && text@ == phase_report(
                    after.operation,
                    phase@,
                    phase_ms,
                    total_ms,
                )
            },
    {
        if !wanted {
            return None;
        }
        let mut text = "infinigit transport: operation=".to_owned();
        text.append(self.operation.as_str());
        text.append(" phase=");
        text.append(phase);
        text.append(" phase_ms=");
        text.append(decimal_text(milliseconds(self.checkpoint, now)).as_str());
        text.append(" total_ms=");
        text.append(decimal_text(milliseconds(self.started, now)).as_str());
        self.checkpoint = now;
        Some(text)
    }
}

} // verus!
