//! Remote addresses: `igit://<host>/<username>/<repository>`.
//!
//! Also the answers of the directory that turns a username and a repository
//! name into the principal, the shard and the storage name behind them.
use vstd::prelude::*;
use vstd::utf8::{decode_utf8, valid_utf8};

use crate::text::{
    after_prefix, chars_of, contains_text, cut, cut_text, find_text, first_occurrence, has_prefix,
    is_alphanumeric, joined, joined_resplits, maybe_string, maybe_text, pieces, pieces_rejoin,
    prefix_length, same_text, split_text, text_of, texts, utf8_text,
};

verus! {

/// Host of the production installation.
pub const PRODUCTION_HOST: &'static str = "infinigit.com";

/// Directory canister of the production installation.
pub const PRODUCTION_DIRECTORY: &'static str = "vc3gg-2qaaa-aaaae-qklda-cai";

/// Network of the production installation.
pub const PRODUCTION_NETWORK: &'static str = "ic";

/// Principal of callers that did not identify themselves.
pub const ANONYMOUS: &'static str = "2vxsx-fae";

/// A character that a name may hold.
pub open spec fn atom_char(c: char) -> bool {
    is_alphanumeric(c) || c == '-' || c == '_' || c == '.'
}

/// A name: one to 128 letters, digits, dashes, underscores and dots, with no dot at
/// either end.
pub open spec fn atom(s: Seq<char>) -> bool {
    &&& 0 < s.len() <= 128
    &&& forall|i: int| 0 <= i < s.len() ==> atom_char(#[trigger] s[i])
    &&& s[0] != '.'
    &&& s.last() != '.'
}

/// Whether `value` is a name.
pub fn valid_atom(value: &str) -> (valid: bool)
    ensures
        valid == atom(value@),
{
    let chars = chars_of(value);
    let n = chars.len();
    if n == 0 || n > 128 || chars[0] == '.' || chars[n - 1] == '.' {
        return false;
    }
    let mut i: usize = 0;
    while i < n
        invariant
            n == chars@.len(),
            chars@ == value@,
            i <= n,
            forall|j: int| 0 <= j < i ==> atom_char(#[trigger] value@[j]),
        decreases n - i,
    {
        let c = chars[i];
        let allowed = ('0' <= c && c <= '9') || ('a' <= c && c <= 'z') || ('A' <= c && c <= 'Z')
            || c == '-' || c == '_' || c == '.';
        assert(allowed == atom_char(value@[i as int]));
        if !allowed {
            return false;
        }
        i += 1;
    }
    true
}

/// What stands behind `igit://` or `igit::`.
pub open spec fn remote_body(url: Seq<char>) -> Option<Seq<char>> {
    if has_prefix(url, "igit://"@) {
        Some(after_prefix(url, "igit://"@))
    } else if has_prefix(url, "igit::"@) {
        Some(after_prefix(url, "igit::"@))
    } else {
        None
    }
}

/// Host, username and repository of a remote address.
pub type RemoteModel = (Option<Seq<char>>, Seq<char>, Seq<char>);

/// Host, username and repository in the parts of an address, if there are two or three.
pub open spec fn remote_parts(parts: Seq<Seq<char>>) -> Option<RemoteModel> {
    if parts.len() == 2 {
        Some((None, parts[0], parts[1]))
    } else if parts.len() == 3 && atom(parts[0]) {
        Some((Some(parts[0]), parts[1], parts[2]))
    } else {
        None
    }
}

/// What `url` addresses, or why it addresses nothing.
pub open spec fn remote_of(url: Seq<char>) -> Result<RemoteModel, Seq<char>> {
    match remote_body(url) {
        None => Err("remote must use igit://<host>/<username>/<repository>"@),
        Some(body) => match remote_parts(pieces(body, '/')) {
            None => Err("remote must contain a host, username, and repository"@),
            Some(remote) => if remote.1 == ANONYMOUS@ || !atom(remote.1) {
                Err("a valid InfiniGit username is required"@)
            } else if !atom(remote.2) {
                Err("invalid repository name"@)
            } else {
                Ok(remote)
            },
        },
    }
}

proof fn lemma_two_parts(body: Seq<char>, parts: Seq<Seq<char>>)
    requires
        parts == pieces(body, '/'),
        parts.len() == 2,
    ensures
        body.len() == parts[0].len() + 1 + parts[1].len(),
        body.subrange(0, parts[0].len() as int) == parts[0],
        body.subrange(parts[0].len() + 1int, body.len() as int) == parts[1],
{
    pieces_rejoin(body, '/');
    assert(parts.drop_last().len() == 1);
    assert(joined(parts.drop_last(), seq!['/']) == parts[0]);
    assert(body == parts[0] + seq!['/'] + parts[1]);
    assert(body.subrange(0, parts[0].len() as int) =~= parts[0]);
    assert(body.subrange(parts[0].len() + 1int, body.len() as int) =~= parts[1]);
}

proof fn lemma_three_parts(body: Seq<char>, parts: Seq<Seq<char>>)
    requires
        parts == pieces(body, '/'),
        parts.len() == 3,
    ensures
        body.len() == parts[0].len() + parts[1].len() + parts[2].len() + 2,
        body.subrange(0, parts[0].len() as int) == parts[0],
        body.subrange(parts[0].len() + 1int, parts[0].len() + 1int + parts[1].len()) == parts[1],
        body.subrange(parts[0].len() + parts[1].len() + 2int, body.len() as int) == parts[2],
{
    pieces_rejoin(body, '/');
    let two = parts.drop_last();
    assert(two.drop_last().len() == 1);
    assert(joined(two.drop_last(), seq!['/']) == parts[0]);
    assert(joined(two, seq!['/']) == parts[0] + seq!['/'] + parts[1]);
    assert(body == parts[0] + seq!['/'] + parts[1] + seq!['/'] + parts[2]);
    assert(body.subrange(0, parts[0].len() as int) =~= parts[0]);
    assert(body.subrange(parts[0].len() + 1int, parts[0].len() + 1int + parts[1].len()) =~= parts[1]);
    assert(body.subrange(parts[0].len() + parts[1].len() + 2int, body.len() as int) =~= parts[2]);
}

proof fn lemma_shifted(url: Seq<char>, from: int, i: int, j: int)
    requires
        0 <= from <= url.len(),
        0 <= i <= j <= url.len() - from,
    ensures
        url.subrange(from + i, from + j) == url.skip(from).subrange(i, j),
{
    assert(url.subrange(from + i, from + j) =~= url.skip(from).subrange(i, j));
}

/// The two or three parts of what stands behind the scheme, at index `from` of `url`.
fn remote_fields<'a>(url: &'a str, from: usize) -> (r: Option<(Option<&'a str>, &'a str, &'a str)>)
    requires
        from <= url@.len(),
    ensures
        match r {
            Some((host, namespace, repository)) => remote_parts(pieces(url@.skip(from as int), '/'))
                == Some((maybe_text(host), namespace@, repository@)),
            None => remote_parts(pieces(url@.skip(from as int), '/')) is None,
        },
{
    let n = url.unicode_len();
    let body = url.substring_char(from, n);
    assert(body@ =~= url@.skip(from as int));
    let parts = split_text(body, '/');
    let ghost model = texts(parts@);
    assert(model == pieces(url@.skip(from as int), '/'));
    if parts.len() == 2 {
        let a = parts[0].as_str().unicode_len();
        proof {
            lemma_two_parts(body@, model);
            lemma_shifted(url@, from as int, 0, a as int);
            lemma_shifted(url@, from as int, a + 1, body@.len() as int);
        }
        Some((None, url.substring_char(from, from + a), url.substring_char(from + a + 1, n)))
    } else if parts.len() == 3 && valid_atom(parts[0].as_str()) {
        let a = parts[0].as_str().unicode_len();
        let b = parts[1].as_str().unicode_len();
        proof {
            lemma_three_parts(body@, model);
            lemma_shifted(url@, from as int, 0, a as int);
            lemma_shifted(url@, from as int, a + 1, a + 1 + b);
            lemma_shifted(url@, from as int, a + b + 2, body@.len() as int);
        }
        Some(
            (
                Some(url.substring_char(from, from + a)),
                url.substring_char(from + a + 1, from + a + 1 + b),
                url.substring_char(from + a + b + 2, n),
            ),
        )
    } else {
        None
    }
}

/// Reads a remote address.
pub fn parse_remote(url: &str) -> (r: Result<(Option<&str>, &str, &str), String>)
    ensures
        match r {
            Ok((host, namespace, repository)) => remote_of(url@) == Ok::<RemoteModel, Seq<char>>(
                (maybe_text(host), namespace@, repository@),
            ),
            Err(message) => remote_of(url@) == Err::<RemoteModel, Seq<char>>(message@),
        },
{
    let chars = chars_of(url);
    let from = match prefix_length(chars.as_slice(), "igit://") {
        Some(k) => k,
        None => match prefix_length(chars.as_slice(), "igit::") {
            Some(k) => k,
            None => return Err("remote must use igit://<host>/<username>/<repository>".to_owned()),
        },
    };
    let (host, namespace, repository) = match remote_fields(url, from) {
        Some(fields) => fields,
        None => return Err("remote must contain a host, username, and repository".to_owned()),
    };
    if same_text(namespace, ANONYMOUS) || !valid_atom(namespace) {
        return Err("a valid InfiniGit username is required".to_owned());
    }
    if !valid_atom(repository) {
        return Err("invalid repository name".to_owned());
    }
    Ok((host, namespace, repository))
}

/// A name holds neither a slash nor a quotation mark, and is not a step up in a path.
pub proof fn names_stand_for_themselves(s: Seq<char>)
    requires
        atom(s),
    ensures
        !s.contains('/'),
        !s.contains('"'),
        s != ".."@,
{
    assert forall|i: int| 0 <= i < s.len() implies s[i] != '/' && s[i] != '"' by {
        assert(atom_char(s[i]));
    }
    reveal_strlit("..");
    assert(".."@[0] == '.');
}

/// What an address gives is made of names.
pub proof fn addressed_remotes_are_made_of_names(url: Seq<char>)
    ensures
        remote_of(url) matches Ok((host, namespace, repository)) ==> {
            &&& host matches Some(name) ==> atom(name)
            &&& atom(namespace)
            &&& namespace != ANONYMOUS@
            &&& atom(repository)
        },
{
}

/// The address of a repository.
pub open spec fn address_of(
    scheme: Seq<char>,
    host: Option<Seq<char>>,
    namespace: Seq<char>,
    repository: Seq<char>,
) -> Seq<char> {
    scheme + match host {
        Some(name) => name + seq!['/'] + namespace + seq!['/'] + repository,
        None => namespace + seq!['/'] + repository,
    }
}

/// Reading the address of a repository gives the repository back, under either scheme and
/// with or without a host.
pub proof fn addresses_are_read_back(
    scheme: Seq<char>,
    host: Option<Seq<char>>,
    namespace: Seq<char>,
    repository: Seq<char>,
)
    requires
        scheme == "igit://"@ || scheme == "igit::"@,
        host matches Some(name) ==> atom(name),
        atom(namespace),
        namespace != ANONYMOUS@,
        atom(repository),
    ensures
        remote_of(address_of(scheme, host, namespace, repository)) == Ok::<RemoteModel, Seq<char>>(
            (host, namespace, repository),
        ),
{
    let url = address_of(scheme, host, namespace, repository);
    let body = url.skip(scheme.len() as int);
    assert(url.take(scheme.len() as int) =~= scheme);
    lemma_scheme(scheme, url);
    names_stand_for_themselves(namespace);
    names_stand_for_themselves(repository);
    match host {
        Some(name) => {
            names_stand_for_themselves(name);
            let parts = seq![name, namespace, repository];
            assert(parts.drop_last().drop_last() =~= seq![name]);
            assert(joined(parts.drop_last().drop_last(), seq!['/']) == name);
            assert(joined(parts.drop_last(), seq!['/']) == name + seq!['/'] + namespace);
            assert(body =~= joined(parts, seq!['/']));
            joined_resplits(parts, '/');
        },
        None => {
            let parts = seq![namespace, repository];
            assert(parts.drop_last() =~= seq![namespace]);
            assert(joined(parts.drop_last(), seq!['/']) == namespace);
            assert(body =~= joined(parts, seq!['/']));
            joined_resplits(parts, '/');
        },
    }
}

proof fn lemma_scheme(scheme: Seq<char>, url: Seq<char>)
    requires
        scheme == "igit://"@ || scheme == "igit::"@,
        scheme.len() <= url.len(),
        url.take(scheme.len() as int) == scheme,
    ensures
        remote_body(url) == Some(url.skip(scheme.len() as int)),
{
    reveal_strlit("igit://");
    reveal_strlit("igit::");
    assert(url.subrange(0, scheme.len() as int) =~= scheme);
    if scheme == "igit::"@ {
        assert(url[5] == scheme[5]);
        assert(scheme[5] == ':');
        if has_prefix(url, "igit://"@) {
            assert(url.subrange(0, 7)[5] == "igit://"@[5]);
            assert(false);
        }
    }
}

/// Why a host is refused: it is neither the production host nor the configured one.
pub open spec fn host_refusal(host: Option<Seq<char>>, configured: Option<Seq<char>>) -> Option<
    Seq<char>,
> {
    match (host, configured) {
        (Some(name), Some(own)) => if name != PRODUCTION_HOST@ && name != own {
            Some("unknown InfiniGit host: "@ + name)
        } else {
            None
        },
        _ => None,
    }
}

/// Checks the host of an address against the configured one.
pub fn validate_host(host: Option<&str>, configured_host: Option<&str>) -> (r: Result<(), String>)
    ensures
        match r {
            Ok(_) => host_refusal(maybe_text(host), maybe_text(configured_host)) is None,
            Err(message) => host_refusal(maybe_text(host), maybe_text(configured_host)) == Some(
                message@,
            ),
        },
{
    match (host, configured_host) {
        (Some(name), Some(own)) => if !same_text(name, PRODUCTION_HOST) && !same_text(name, own) {
            let mut message = "unknown InfiniGit host: ".to_owned();
            message.append(name);
            Err(message)
        } else {
            Ok(())
        },
        _ => Ok(()),
    }
}

/// What stands between the first two occurrences of `marker`, or behind the only one.
pub open spec fn marked(s: Seq<char>, marker: Seq<char>) -> Option<Seq<char>> {
    match first_occurrence(s, marker, 0) {
        None => None,
        Some(i) => {
            let rest = s.skip(i + marker.len());
            match first_occurrence(rest, marker, 0) {
                Some(j) => Some(rest.take(j)),
                None => Some(rest),
            }
        },
    }
}

/// What stands before the first `stop`.
pub open spec fn until(s: Seq<char>, stop: char) -> Seq<char> {
    match cut(s, stop) {
        Some((head, _)) => head,
        None => s,
    }
}

/// The value that follows `marker` up to a quotation mark.
pub open spec fn quoted_value(s: Seq<char>, marker: Seq<char>) -> Option<Seq<char>> {
    match marked(s, marker) {
        Some(rest) => Some(until(rest, '"')),
        None => None,
    }
}

/// The principal in the field `field` of a printed record.
pub open spec fn principal_field(response: Seq<char>, field: Seq<char>) -> Option<Seq<char>> {
    match quoted_value(response, field + " = principal \""@) {
        Some(value) => if value.len() > 0 {
            Some(value)
        } else {
            None
        },
        None => None,
    }
}

/// The name in the field `field` of a printed record.
pub open spec fn name_field(response: Seq<char>, field: Seq<char>) -> Option<Seq<char>> {
    match quoted_value(response, field + " = \""@) {
        Some(value) => if atom(value) {
            Some(value)
        } else {
            None
        },
        None => None,
    }
}

fn find_value(response: &str, marker: &str) -> (r: Option<String>)
    ensures
        maybe_string(r) == quoted_value(response@, marker@),
{
    let chars = chars_of(response);
    let pattern = chars_of(marker);
    let n = chars.len();
    match find_text(chars.as_slice(), pattern.as_slice(), 0) {
        None => None,
        Some(i) => {
            let rest = text_of(chars.as_slice(), i + pattern.len(), n);
            assert(rest@ =~= response@.skip(i + marker@.len()));
            let tail = chars_of(rest.as_str());
            let piece = match find_text(tail.as_slice(), pattern.as_slice(), 0) {
                Some(j) => text_of(tail.as_slice(), 0, j),
                None => text_of(tail.as_slice(), 0, tail.len()),
            };
            assert(tail@.subrange(0, tail@.len() as int) =~= tail@);
            assert(Some(piece@) == marked(response@, marker@));
            match cut_text(piece.as_str(), '"') {
                Some((head, _)) => Some(head),
                None => Some(piece),
            }
        },
    }
}

/// Finds the principal in the field `field` of a printed record.
pub fn candid_principal_field(response: &str, field: &str) -> (r: Option<String>)
    ensures
        maybe_string(r) == principal_field(response@, field@),
{
    let mut marker = field.to_owned();
    marker.append(" = principal \"");
    match find_value(response, marker.as_str()) {
        Some(value) => if value.as_str().is_empty() {
            None
        } else {
            Some(value)
        },
        None => None,
    }
}

/// Finds the name in the field `field` of a printed record.
pub fn candid_text_field(response: &str, field: &str) -> (r: Option<String>)
    ensures
        maybe_string(r) == name_field(response@, field@),
{
    let mut marker = field.to_owned();
    marker.append(" = \"");
    match find_value(response, marker.as_str()) {
        Some(value) => if valid_atom(value.as_str()) {
            Some(value)
        } else {
            None
        },
        None => None,
    }
}

/// Owner, shard and storage name of a repository.
pub type ResolutionModel = (Seq<char>, Seq<char>, Seq<char>);

/// What the directory's answer says of a repository.
pub open spec fn resolution_in(response: Seq<char>) -> Result<ResolutionModel, Seq<char>> {
    if first_occurrence(response, "err ="@, 0) is Some {
        Err("repository not found"@)
    } else {
        match (
            principal_field(response, "owner"@),
            principal_field(response, "shard"@),
            name_field(response, "storage_id"@),
        ) {
            (None, _, _) => Err("invalid directory owner"@),
            (Some(_), None, _) => Err("invalid directory shard"@),
            (Some(_), Some(_), None) => Err("invalid directory storage ID"@),
            (Some(owner), Some(shard), Some(storage)) => Ok((owner, shard, storage)),
        }
    }
}

/// What the query of the directory says of a repository. A query that failed is answered
/// like one for a repository that there is not.
pub open spec fn resolution(success: bool, output: Seq<u8>) -> Result<
    ResolutionModel,
    Seq<char>,
> {
    if !success {
        Err("repository not found"@)
    } else if !valid_utf8(output) {
        Err("invalid directory response"@)
    } else {
        resolution_in(decode_utf8(output))
    }
}

/// Reads the directory's answer.
pub fn resolve_repository(success: bool, output: &[u8]) -> (r: Result<
    (String, String, String),
    String,
>)
    ensures
        match r {
            Ok((owner, shard, storage)) => resolution(success, output@) == Ok::<
                ResolutionModel,
                Seq<char>,
            >((owner@, shard@, storage@)),
            Err(message) => resolution(success, output@) == Err::<ResolutionModel, Seq<char>>(
                message@,
            ),
        },
{
    if !success {
        return Err("repository not found".to_owned());
    }
    let response = match utf8_text(output) {
        Some(text) => text,
        None => return Err("invalid directory response".to_owned()),
    };
    let response = response.as_str();
    if contains_text(response, "err =") {
        return Err("repository not found".to_owned());
    }
    let owner = match candid_principal_field(response, "owner") {
        Some(owner) => owner,
        None => return Err("invalid directory owner".to_owned()),
    };
    let shard = match candid_principal_field(response, "shard") {
        Some(shard) => shard,
        None => return Err("invalid directory shard".to_owned()),
    };
    match candid_text_field(response, "storage_id") {
        Some(storage) => Ok((owner, shard, storage)),
        None => Err("invalid directory storage ID".to_owned()),
    }
}

} // verus!
