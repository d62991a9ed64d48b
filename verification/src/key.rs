//! Private keys, as the command line client exports them: PEM, of one of three kinds.
//!
//! `ic_agent` reads the keys. Its reader of Ed25519 keys looks for a nonconforming ending at
//! a fixed place and stops the program where the container is too short to have one, so
//! such containers are told apart first.
use ic_agent::identity::{BasicIdentity, Prime256v1Identity, Secp256k1Identity};
use ic_agent::Identity;
use vstd::prelude::*;
use vstd::slice::slice_subrange;

use crate::text::maybe_string;

verus! {

/// The kinds of keys, in the order in which they are tried.
#[derive(Clone, Copy, Debug, PartialEq, Eq, Structural)]
pub enum KeyKind {
    Secp256k1,
    Prime256v1,
    Ed25519,
}

/// The length from which on the ending of a container is looked for.
pub const ENDING_LENGTH: usize = 52;

/// The index behind the first `marker`, as the PEM reader looks for it: after a mismatch it
/// starts anew with the next byte. `matched` bytes of the marker stand before `at`.
pub open spec fn behind(s: Seq<u8>, marker: Seq<u8>, at: nat, matched: nat) -> Option<nat>
    decreases s.len() - at,
{
    if matched == marker.len() {
        Some(at)
    } else if at >= s.len() {
        None
    } else if s[at as int] == marker[matched as int] {
        behind(s, marker, at + 1, matched + 1)
    } else {
        behind(s, marker, at + 1, 0)
    }
}

/// A space, a tab or the end of a line.
pub open spec fn is_blank(b: u8) -> bool {
    b == 0x20 || b == 0x09 || b == 0x0a || b == 0x0d
}

/// A byte string without the blanks at its start.
pub open spec fn without_blanks(s: Seq<u8>) -> Seq<u8>
    decreases s.len(),
{
    if s.len() > 0 && is_blank(s[0]) {
        without_blanks(s.skip(1))
    } else {
        s
    }
}

/// The bytes `-----BEGIN `.
pub open spec fn begin_marker() -> Seq<u8> {
    seq![0x2du8, 0x2d, 0x2d, 0x2d, 0x2d, 0x42, 0x45, 0x47, 0x49, 0x4e, 0x20]
}

/// The bytes `-----END `.
pub open spec fn end_marker() -> Seq<u8> {
    seq![0x2du8, 0x2d, 0x2d, 0x2d, 0x2d, 0x45, 0x4e, 0x44, 0x20]
}

/// The bytes `-----`.
pub open spec fn dashes() -> Seq<u8> {
    seq![0x2du8, 0x2d, 0x2d, 0x2d, 0x2d]
}

/// What follows the first `marker`.
pub open spec fn rest_behind(s: Seq<u8>, marker: Seq<u8>) -> Option<Seq<u8>> {
    match behind(s, marker, 0, 0) {
        Some(i) => Some(s.skip(i as int)),
        None => None,
    }
}

/// The part of a PEM section between its first and its last line.
pub open spec fn pem_payload(pem: Seq<u8>) -> Option<Seq<u8>> {
    match rest_behind(pem, begin_marker()) {
        Some(tagged) => match rest_behind(tagged, dashes()) {
            Some(rest) => {
                let body = without_blanks(rest);
                match behind(body, end_marker(), 0, 0) {
                    Some(i) => Some(body.take(i - end_marker().len())),
                    None => None,
                }
            },
            None => None,
        },
        None => None,
    }
}

/// The payload without its headers, which an empty line ends.
pub open spec fn pem_data(payload: Seq<u8>) -> Seq<u8> {
    match rest_behind(payload, seq![0x0au8, 0x0a]) {
        Some(data) => data,
        None => match rest_behind(payload, seq![0x0du8, 0x0a, 0x0d, 0x0a]) {
            Some(data) => data,
            None => payload,
        },
    }
}

/// The six bits that a letter of Base64 stands for.
pub open spec fn sextet(b: u8) -> Option<u8> {
    if 0x41 <= b <= 0x5a {
        Some((b - 0x41) as u8)
    } else if 0x61 <= b <= 0x7a {
        Some((b - 0x47) as u8)
    } else if 0x30 <= b <= 0x39 {
        Some((b + 4) as u8)
    } else if b == 0x2b {
        Some(62u8)
    } else if b == 0x2f {
        Some(63u8)
    } else {
        None
    }
}

/// The letters of Base64 in a byte string.
pub open spec fn sextets(s: Seq<u8>) -> Seq<u8>
    decreases s.len(),
{
    if s.len() == 0 {
        seq![]
    } else {
        match sextet(s.last()) {
            Some(v) => sextets(s.drop_last()).push(v),
            None => sextets(s.drop_last()),
        }
    }
}

/// The byte at `i` among those that letters of Base64 stand for.
pub open spec fn joined_byte(letters: Seq<u8>, i: int) -> u8 {
    let q = i / 3 * 4;
    if i % 3 == 0 {
        (letters[q] * 4 + letters[q + 1] / 16) as u8
    } else if i % 3 == 1 {
        (letters[q + 1] % 16 * 16 + letters[q + 2] / 4) as u8
    } else {
        (letters[q + 2] % 4 * 64 + letters[q + 3]) as u8
    }
}

/// The bytes that letters of Base64 stand for.
pub open spec fn joined_bytes(letters: Seq<u8>) -> Seq<u8> {
    Seq::new((letters.len() * 3 / 4) as nat, |i: int| joined_byte(letters, i))
}

/// One of the elements from `at` on is a constructed one with the number of a public key.
/// An element is a tag, a length below 128, and as many bytes.
pub open spec fn has_public_key(der: Seq<u8>, at: nat) -> bool
    decreases der.len() - at,
{
    if at >= der.len() {
        false
    } else if der[at as int] == 0xa1 {
        true
    } else if at + 1 >= der.len() || at + 2 + der[at as int + 1] >= der.len() {
        false
    } else {
        has_public_key(der, at + 2 + der[at as int + 1] as nat)
    }
}

/// The container in a PEM section holds a constructed public key but is too short for the
/// ending that is looked for then.
pub open spec fn is_cut_short(pem: Seq<u8>) -> bool {
    match pem_payload(pem) {
        Some(payload) => {
            let der = joined_bytes(sextets(pem_data(payload)));
            der.len() < ENDING_LENGTH && has_public_key(der, 2)
        },
        None => false,
    }
}

/// What `Secp256k1Identity::from_pem` reads: nothing where it gives an error, else the text
/// of the identity's principal, if it tells one.
pub uninterp spec fn secp256k1_key(pem: Seq<u8>) -> Option<Option<Seq<char>>>;

/// What `Prime256v1Identity::from_pem` reads: nothing where it gives an error, else the text
/// of the identity's principal, if it tells one.
pub uninterp spec fn prime256v1_key(pem: Seq<u8>) -> Option<Option<Seq<char>>>;

/// What `BasicIdentity::from_pem` reads: nothing where it gives an error, else the text of
/// the identity's principal, if it tells one.
pub uninterp spec fn ed25519_key(pem: Seq<u8>) -> Option<Option<Seq<char>>>;

/// The model of what a reader of keys gives.
pub open spec fn sender_model(r: Option<Option<String>>) -> Option<Option<Seq<char>>> {
    match r {
        Some(sender) => Some(maybe_string(sender)),
        None => None,
    }
}

/// Calls `Secp256k1Identity::from_pem`, and `sender` on what it gives. The result depends on
/// the bytes alone.
#[verifier::external_body]
fn read_secp256k1(pem: &[u8]) -> (r: Option<Option<String>>)
    ensures
        sender_model(r) == secp256k1_key(pem@),
{
    let identity = Secp256k1Identity::from_pem(pem).ok()?;
    Some(identity.sender().ok().map(|principal| principal.to_text()))
}

/// Calls `Prime256v1Identity::from_pem`, and `sender` on what it gives. The result depends
/// on the bytes alone.
#[verifier::external_body]
fn read_prime256v1(pem: &[u8]) -> (r: Option<Option<String>>)
    ensures
        sender_model(r) == prime256v1_key(pem@),
{
    let identity = Prime256v1Identity::from_pem(pem).ok()?;
    Some(identity.sender().ok().map(|principal| principal.to_text()))
}

/// Calls `BasicIdentity::from_pem`, and `sender` on what it gives. The result depends on the
/// bytes alone. Containers that are too short for what it looks for are left out.
#[verifier::external_body]
fn read_ed25519(pem: &[u8]) -> (r: Option<Option<String>>)
    requires
        !is_cut_short(pem@),
    ensures
        sender_model(r) == ed25519_key(pem@),
{
    let identity = BasicIdentity::from_pem(pem).ok()?;
    Some(identity.sender().ok().map(|principal| principal.to_text()))
}

/// The key in a PEM: of the first kind that reads it, with the text of its principal.
pub open spec fn loaded_key(pem: Seq<u8>) -> Option<(KeyKind, Option<Seq<char>>)> {
    match secp256k1_key(pem) {
        Some(sender) => Some((KeyKind::Secp256k1, sender)),
        None => match prime256v1_key(pem) {
            Some(sender) => Some((KeyKind::Prime256v1, sender)),
            None => if is_cut_short(pem) {
                None
            } else {
                match ed25519_key(pem) {
                    Some(sender) => Some((KeyKind::Ed25519, sender)),
                    None => None,
                }
            },
        },
    }
}

/// The model of a loaded key.
pub open spec fn key_model(r: Option<(KeyKind, Option<String>)>) -> Option<
    (KeyKind, Option<Seq<char>>),
> {
    match r {
        Some((kind, sender)) => Some((kind, maybe_string(sender))),
        None => None,
    }
}

/// Loads the key in a PEM.
pub fn load_key(pem: &[u8]) -> (r: Option<(KeyKind, Option<String>)>)
    ensures
        key_model(r) == loaded_key(pem@),
{
    if let Some(sender) = read_secp256k1(pem) {
        return Some((KeyKind::Secp256k1, sender));
    }
    if let Some(sender) = read_prime256v1(pem) {
        return Some((KeyKind::Prime256v1, sender));
    }
    if cut_short(pem) {
        return None;
    }
    match read_ed25519(pem) {
        Some(sender) => Some((KeyKind::Ed25519, sender)),
        None => None,
    }
}

proof fn lemma_behind(s: Seq<u8>, marker: Seq<u8>, at: nat, matched: nat)
    requires
        matched <= at <= s.len(),
        matched <= marker.len(),
    ensures
        behind(s, marker, at, matched) matches Some(i) ==> marker.len() <= i <= s.len(),
    decreases s.len() - at,
{
    if matched != marker.len() && at < s.len() {
        if s[at as int] == marker[matched as int] {
            lemma_behind(s, marker, at + 1, matched + 1);
        } else {
            lemma_behind(s, marker, at + 1, 0);
        }
    }
}

fn find(s: &[u8], marker: &[u8]) -> (r: Option<usize>)
    ensures
        match r {
            Some(i) => behind(s@, marker@, 0, 0) == Some(i as nat) && marker@.len() <= i
                <= s@.len(),
            None => behind(s@, marker@, 0, 0) is None,
        },
{
    proof {
        lemma_behind(s@, marker@, 0, 0);
    }
    let mut at: usize = 0;
    let mut matched: usize = 0;
    while matched < marker.len()
        invariant
            matched <= at <= s@.len(),
            matched <= marker@.len(),
            behind(s@, marker@, at as nat, matched as nat) == behind(s@, marker@, 0, 0),
        decreases s.len() - at,
    {
        if at >= s.len() {
            return None;
        }
        if s[at] == marker[matched] {
            matched += 1;
        } else {
            matched = 0;
        }
        at += 1;
    }
    Some(at)
}

fn skip_behind<'a>(s: &'a [u8], marker: &[u8]) -> (r: Option<&'a [u8]>)
    ensures
        match r {
            Some(rest) => rest_behind(s@, marker@) == Some(rest@),
            None => rest_behind(s@, marker@) is None,
        },
{
    match find(s, marker) {
        Some(i) => Some(slice_subrange(s, i, s.len())),
        None => None,
    }
}

fn skip_blanks(s: &[u8]) -> (r: &[u8])
    ensures
        r@ == without_blanks(s@),
{
    let mut i: usize = 0;
    assert(s@.skip(0) =~= s@);
    while i < s.len() && (s[i] == 0x20 || s[i] == 0x09 || s[i] == 0x0a || s[i] == 0x0d)
        invariant
            i <= s@.len(),
            without_blanks(s@.skip(i as int)) == without_blanks(s@),
        decreases s.len() - i,
    {
        assert(s@.skip(i as int).skip(1) =~= s@.skip(i + 1));
        i += 1;
    }
    let rest = slice_subrange(s, i, s.len());
    assert(rest@ =~= s@.skip(i as int));
    rest
}

fn payload(pem: &[u8]) -> (r: Option<&[u8]>)
    ensures
        match r {
            Some(payload) => pem_payload(pem@) == Some(payload@),
            None => pem_payload(pem@) is None,
        },
{
    let begin: [u8; 11] = [0x2d, 0x2d, 0x2d, 0x2d, 0x2d, 0x42, 0x45, 0x47, 0x49, 0x4e, 0x20];
    let end: [u8; 9] = [0x2d, 0x2d, 0x2d, 0x2d, 0x2d, 0x45, 0x4e, 0x44, 0x20];
    let line: [u8; 5] = [0x2d, 0x2d, 0x2d, 0x2d, 0x2d];
    assert(begin@ =~= begin_marker());
    assert(end@ =~= end_marker());
    assert(line@ =~= dashes());
    match skip_behind(pem, begin.as_slice()) {
        Some(tagged) => match skip_behind(tagged, line.as_slice()) {
            Some(rest) => {
                let body = skip_blanks(rest);
                match find(body, end.as_slice()) {
                    Some(i) => Some(slice_subrange(body, 0, i - 9)),
                    None => None,
                }
            },
            None => None,
        },
        None => None,
    }
}

fn data(payload: &[u8]) -> (r: &[u8])
    ensures
        r@ == pem_data(payload@),
{
    let line: [u8; 2] = [0x0a, 0x0a];
    let return_line: [u8; 4] = [0x0d, 0x0a, 0x0d, 0x0a];
    assert(line@ =~= seq![0x0au8, 0x0a]);
    assert(return_line@ =~= seq![0x0du8, 0x0a, 0x0d, 0x0a]);
    match skip_behind(payload, line.as_slice()) {
        Some(data) => data,
        None => match skip_behind(payload, return_line.as_slice()) {
            Some(data) => data,
            None => payload,
        },
    }
}

fn letter(b: u8) -> (r: Option<u8>)
    ensures
        r == sextet(b),
        r matches Some(v) ==> v < 64,
{
    if 0x41 <= b && b <= 0x5a {
        Some(b - 0x41)
    } else if 0x61 <= b && b <= 0x7a {
        Some(b - 0x47)
    } else if 0x30 <= b && b <= 0x39 {
        Some(b + 4)
    } else if b == 0x2b {
        Some(62)
    } else if b == 0x2f {
        Some(63)
    } else {
        None
    }
}

fn letters(s: &[u8]) -> (r: Vec<u8>)
    ensures
        r@ == sextets(s@),
        forall|i: int| 0 <= i < r@.len() ==> r@[i] < 64,
        r@.len() <= s@.len(),
{
    let mut list: Vec<u8> = Vec::new();
    let mut i: usize = 0;
    while i < s.len()
        invariant
            i <= s@.len(),
            list@ == sextets(s@.take(i as int)),
            forall|j: int| 0 <= j < list@.len() ==> list@[j] < 64,
            list@.len() <= i,
        decreases s.len() - i,
    {
        proof {
            let next = s@.take(i + 1);
            assert(next.drop_last() =~= s@.take(i as int));
        }
        if let Some(v) = letter(s[i]) {
            list.push(v);
        }
        i += 1;
    }
    assert(s@.take(s@.len() as int) =~= s@);
    list
}

fn byte_at(letters: &Vec<u8>, i: usize) -> (r: u8)
    requires
        i < letters@.len() * 3 / 4,
        forall|j: int| 0 <= j < letters@.len() ==> letters@[j] < 64,
    ensures
        r == joined_byte(letters@, i as int),
{
    assert(i / 3 * 4 <= letters.len());
    let q: usize = i / 3 * 4;
    assert(q + i % 3 + 1 < letters@.len());
    if i % 3 == 0 {
        letters[q] * 4 + letters[q + 1] / 16
    } else if i % 3 == 1 {
        letters[q + 1] % 16 * 16 + letters[q + 2] / 4
    } else {
        letters[q + 2] % 4 * 64 + letters[q + 3]
    }
}

fn tagged(letters: &Vec<u8>, length: usize) -> (r: bool)
    requires
        length < ENDING_LENGTH,
        length == letters@.len() * 3 / 4,
        forall|j: int| 0 <= j < letters@.len() ==> letters@[j] < 64,
    ensures
        r == has_public_key(joined_bytes(letters@), 2),
{
    let ghost der = joined_bytes(letters@);
    let mut at: usize = 2;
    while at < length
        invariant
            length == der.len(),
            length < ENDING_LENGTH,
            length == letters@.len() * 3 / 4,
            der == joined_bytes(letters@),
            forall|j: int| 0 <= j < letters@.len() ==> letters@[j] < 64,
            has_public_key(der, at as nat) == has_public_key(der, 2),
        decreases length - at,
    {
        if byte_at(letters, at) == 0xa1 {
            return true;
        }
        if at + 1 >= length {
            return false;
        }
        let next: usize = at + 2 + byte_at(letters, at + 1) as usize;
        if next >= length {
            return false;
        }
        at = next;
    }
    false
}

/// Whether a container is too short for what the reader of Ed25519 keys looks for.
pub fn cut_short(pem: &[u8]) -> (r: bool)
    ensures
        r == is_cut_short(pem@),
{
    match payload(pem) {
        Some(payload) => {
            let letters = letters(data(payload));
            if letters.len() > 69 {
                return false;
            }
            let length: usize = letters.len() * 3 / 4;
            length < ENDING_LENGTH && tagged(&letters, length)
        },
        None => false,
    }
}

} // verus!
