//! Packs: their ids, the objects in them, and the calls that carry them.
use sha2::{Digest, Sha256};
use vstd::prelude::*;
use vstd::slice::slice_subrange;

use crate::action::{call_models, part, part_text, vector, vector_text, Call, CallModel, Repository};
use crate::candid::{blob_text, candid_blob};
use crate::chunk::{chunk_ranges, chunks, chunks_are_bounded, chunks_rejoin, cuts_model, ranges};
use crate::json::{items_field, models_are_memberwise, text_value, Json, JsonModel};
use crate::objects::{bool_text, is_object_kind, object_kind};
use crate::order::{increasing, is_member, sorted_members, sorted_unique};
use crate::text::{
    chars_of, decimal, decimal_text, digit_char, hex, hex_text, is_hex_digit, lines, lossy,
    lossy_text, parse_u64, text_lines, text_range, text_words, texts, unsigned_up_to, words,
};
use crate::transport::{usable, TransportCapabilities, CHUNK_SIZE};

verus! {

/// Length of the checksum at the end of a pack.
pub const CHECKSUM_LENGTH: usize = 20;

/// The id of a pack: the checksum at its end, in hexadecimal.
pub open spec fn pack_name(bytes: Seq<u8>) -> Seq<char> {
    hex(bytes.skip(bytes.len() - CHECKSUM_LENGTH))
}

/// The id of a pack.
pub fn pack_id(bytes: &[u8]) -> (id: String)
    requires
        bytes@.len() >= CHECKSUM_LENGTH,
    ensures
        id@ == pack_name(bytes@),
{
    let tail = slice_subrange(bytes, bytes.len() - CHECKSUM_LENGTH, bytes.len());
    assert(tail@ =~= bytes@.skip(bytes@.len() - CHECKSUM_LENGTH));
    hex_text(tail)
}

/// The id of a pack of which `tail` is the end, twenty bytes or more, or all there is.
pub fn pack_id_from_file(tail: &[u8]) -> (r: Result<String, String>)
    ensures
        match r {
            Ok(id) => tail@.len() >= CHECKSUM_LENGTH && id@ == pack_name(tail@),
            Err(message) => tail@.len() < CHECKSUM_LENGTH && message@
                == "pack is shorter than its checksum"@,
        },
{
    if tail.len() < CHECKSUM_LENGTH {
        Err("pack is shorter than its checksum".to_owned())
    } else {
        Ok(pack_id(tail))
    }
}

/// The end of a pack is enough to know its id.
pub proof fn the_end_of_a_pack_names_it(bytes: Seq<u8>, tail: Seq<u8>)
    requires
        CHECKSUM_LENGTH <= tail.len() <= bytes.len(),
        tail == bytes.skip(bytes.len() - tail.len()),
    ensures
        pack_name(tail) == pack_name(bytes),
{
    assert(tail.skip(tail.len() - CHECKSUM_LENGTH) =~= bytes.skip(
        bytes.len() - CHECKSUM_LENGTH,
    ));
}

proof fn lemma_hex(bytes: Seq<u8>)
    ensures
        hex(bytes).len() == 2 * bytes.len(),
        forall|i: int| 0 <= i < hex(bytes).len() ==> is_hex_digit(#[trigger] hex(bytes)[i]),
    decreases bytes.len(),
{
    if bytes.len() > 0 {
        lemma_hex(bytes.drop_last());
        assert(is_hex_digit(digit_char(bytes.last() as int / 16)));
        assert(is_hex_digit(digit_char(bytes.last() as int % 16)));
    }
}

/// A lower-case hexadecimal digit.
pub open spec fn is_lower_digit(c: char) -> bool {
    '0' <= c <= '9' || 'a' <= c <= 'f'
}

/// The value of a lower-case hexadecimal digit.
pub open spec fn digit_value(c: char) -> int {
    if '0' <= c <= '9' {
        c as int - '0' as int
    } else {
        c as int - 'a' as int + 10
    }
}

/// The bytes that pairs of hexadecimal digits stand for.
pub open spec fn bytes_of_digits(text: Seq<char>) -> Seq<u8>
    decreases text.len(),
{
    if text.len() < 2 {
        seq![]
    } else {
        bytes_of_digits(text.take(text.len() - 2)).push(
            (digit_value(text[text.len() - 2]) * 16 + digit_value(text.last())) as u8,
        )
    }
}

proof fn lemma_digits_read_back(bytes: Seq<u8>)
    ensures
        bytes_of_digits(hex(bytes)) == bytes,
        forall|i: int| 0 <= i < hex(bytes).len() ==> is_lower_digit(#[trigger] hex(bytes)[i]),
    decreases bytes.len(),
{
    if bytes.len() > 0 {
        let front = bytes.drop_last();
        let text = hex(bytes);
        lemma_digits_read_back(front);
        let high = bytes.last() as int / 16;
        let low = bytes.last() as int % 16;
        assert(digit_value(digit_char(high)) == high);
        assert(digit_value(digit_char(low)) == low);
        assert(is_lower_digit(digit_char(high)));
        assert(is_lower_digit(digit_char(low)));
        assert(text.take(text.len() - 2) =~= hex(front));
        assert(bytes_of_digits(text) =~= bytes);
    } else {
        assert(bytes_of_digits(hex(bytes)) =~= bytes);
    }
}

/// The id of a pack is forty lower-case hexadecimal digits, which stand for the twenty bytes
/// of its checksum.
pub proof fn pack_ids_are_forty_digits(bytes: Seq<u8>)
    requires
        bytes.len() >= CHECKSUM_LENGTH,
    ensures
        pack_name(bytes).len() == 40,
        forall|i: int|
            0 <= i < pack_name(bytes).len() ==> is_lower_digit(#[trigger] pack_name(bytes)[i]),
        bytes_of_digits(pack_name(bytes)) == bytes.skip(bytes.len() - CHECKSUM_LENGTH),
{
    let checksum = bytes.skip(bytes.len() - CHECKSUM_LENGTH);
    lemma_hex(checksum);
    lemma_digits_read_back(checksum);
}

/// Packs with the same id have the same checksum, and the other way round.
pub proof fn equal_pack_ids_mean_equal_checksums(one: Seq<u8>, other: Seq<u8>)
    requires
        one.len() >= CHECKSUM_LENGTH,
        other.len() >= CHECKSUM_LENGTH,
    ensures
        pack_name(one) == pack_name(other) <==> one.skip(one.len() - CHECKSUM_LENGTH)
            == other.skip(other.len() - CHECKSUM_LENGTH),
{
    pack_ids_are_forty_digits(one);
    pack_ids_are_forty_digits(other);
}

/// An object in a pack.
#[derive(Debug)]
pub struct PackObjectMetadata {
    pub oid: String,
    pub kind: String,
    pub size: u64,
}

/// The model of an object in a pack.
pub struct MetadataModel {
    pub oid: Seq<char>,
    pub kind: Seq<char>,
    pub size: u64,
}

impl View for PackObjectMetadata {
    type V = MetadataModel;

    open spec fn view(&self) -> MetadataModel {
        MetadataModel { oid: self.oid@, kind: self.kind@, size: self.size }
    }
}

/// The models of a list of objects in a pack.
pub open spec fn metadata_models(objects: Seq<PackObjectMetadata>) -> Seq<MetadataModel> {
    Seq::new(objects.len(), |i: int| objects[i]@)
}

/// An object id: forty hexadecimal digits.
pub open spec fn object_id(text: Seq<char>) -> bool {
    text.len() == 40 && forall|i: int| 0 <= i < text.len() ==> is_hex_digit(#[trigger] text[i])
}

fn is_object_id(text: &str) -> (r: bool)
    ensures
        r == object_id(text@),
{
    let chars = chars_of(text);
    if chars.len() != 40 {
        return false;
    }
    let mut i: usize = 0;
    while i < chars.len()
        invariant
            i <= chars@.len(),
            chars@ == text@,
            chars@.len() == 40,
            forall|k: int| 0 <= k < i ==> is_hex_digit(#[trigger] text@[k]),
        decreases chars.len() - i,
    {
        let c = chars[i];
        let digit = ('0' <= c && c <= '9') || ('a' <= c && c <= 'f') || ('A' <= c && c <= 'F');
        assert(digit == is_hex_digit(text@[i as int]));
        if !digit {
            return false;
        }
        i += 1;
    }
    true
}

/// The object that a line of `git verify-pack -v` describes: its id, kind and size are
/// the first three words.
pub open spec fn metadata_of(line: Seq<char>) -> Option<MetadataModel> {
    let fields = words(line);
    if fields.len() < 3 || !object_id(fields[0]) || !object_kind(fields[1]) {
        None
    } else {
        match unsigned_up_to(fields[2], u64::MAX as nat) {
            Some(size) => Some(
                MetadataModel { oid: fields[0], kind: fields[1], size: size as u64 },
            ),
            None => None,
        }
    }
}

/// The objects that the lines of `git verify-pack -v` describe.
pub open spec fn listed_metadata(listing: Seq<Seq<char>>) -> Seq<MetadataModel>
    decreases listing.len(),
{
    if listing.len() == 0 {
        seq![]
    } else {
        let front = listed_metadata(listing.drop_last());
        match metadata_of(listing.last()) {
            Some(object) => front.push(object),
            None => front,
        }
    }
}

fn read_metadata(line: &str) -> (r: Option<PackObjectMetadata>)
    ensures
        match r {
            Some(object) => metadata_of(line@) == Some(object@),
            None => metadata_of(line@) is None,
        },
{
    let fields = text_words(line);
    let ghost model = texts(fields@);
    if fields.len() < 3 {
        return None;
    }
    assert(model[0] == fields@[0]@ && model[1] == fields@[1]@ && model[2] == fields@[2]@);
    if !is_object_id(fields[0].as_str()) || !is_object_kind(fields[1].as_str()) {
        return None;
    }
    match parse_u64(fields[2].as_str()) {
        Some(size) => Some(
            PackObjectMetadata { oid: fields[0].clone(), kind: fields[1].clone(), size },
        ),
        None => None,
    }
}

/// Reads the objects in a listing of `git verify-pack -v`.
pub fn metadata_in_listing(listing: &str) -> (objects: Vec<PackObjectMetadata>)
    ensures
        metadata_models(objects@) == listed_metadata(lines(listing@)),
{
    let list = text_lines(listing);
    let ghost all = texts(list@);
    let mut objects: Vec<PackObjectMetadata> = Vec::new();
    let mut i: usize = 0;
    assert(metadata_models(objects@) =~= listed_metadata(all.take(0)));
    while i < list.len()
        invariant
            i <= list@.len(),
            all == texts(list@),
            metadata_models(objects@) == listed_metadata(all.take(i as int)),
        decreases list.len() - i,
    {
        let ghost done = metadata_models(objects@);
        assert(all.take(i + 1).drop_last() =~= all.take(i as int));
        assert(all.take(i + 1).last() == list@[i as int]@);
        if let Some(object) = read_metadata(list[i].as_str()) {
            let ghost o = object@;
            objects.push(object);
            assert(metadata_models(objects@) =~= done.push(o));
        }
        i += 1;
    }
    assert(all.take(all.len() as int) =~= all);
    objects
}

/// Reads the objects in a pack from what git prints on verifying it.
pub fn pack_object_metadata(output: &[u8]) -> (objects: Vec<PackObjectMetadata>)
    ensures
        metadata_models(objects@) == listed_metadata(lines(lossy(output@))),
{
    metadata_in_listing(lossy_text(output).as_str())
}

/// Offset of the fan-out table in a pack index: it follows the eight bytes that begin
/// an index of a version with a magic number.
pub open spec fn fanout_start(index: Seq<u8>) -> int {
    if index.len() >= 4 && index.take(4) == seq![255u8, 116u8, 79u8, 99u8] {
        8
    } else {
        0
    }
}

/// Four bytes as a number, the most significant first.
pub open spec fn big_endian(bytes: Seq<u8>) -> nat {
    (bytes[0] * 0x100_0000 + bytes[1] * 0x1_0000 + bytes[2] * 0x100 + bytes[3]) as nat
}

/// The number of objects in a pack index: the last entry of the fan-out table.
pub open spec fn index_count(index: Seq<u8>) -> Option<nat> {
    let last = fanout_start(index) + 1020;
    if index.len() < 8 || index.len() < last + 4 {
        None
    } else {
        Some(big_endian(index.subrange(last, last + 4)))
    }
}

/// Length of the beginning of a pack index that tells its number of objects.
pub const INDEX_HEAD_LENGTH: usize = 1032;

/// Reads the number of objects from the beginning of a pack index.
pub fn pack_index_object_count(index: &[u8]) -> (r: Option<usize>)
    ensures
        match r {
            Some(count) => index_count(index@) == Some(count as nat),
            None => index_count(index@) is None,
        },
{
    if index.len() < 8 {
        return None;
    }
    let magic = index[0] == 255 && index[1] == 116 && index[2] == 79 && index[3] == 99;
    proof {
        let head = index@.take(4);
        let expected = seq![255u8, 116u8, 79u8, 99u8];
        if magic {
            assert(head =~= expected);
        } else {
            assert(head[0] != expected[0] || head[1] != expected[1] || head[2] != expected[2]
                || head[3] != expected[3]);
        }
    }
    let last: usize = if magic {
        1028
    } else {
        1020
    };
    if index.len() < last + 4 {
        return None;
    }
    let count: u32 = index[last] as u32 * 0x100_0000 + index[last + 1] as u32 * 0x1_0000
        + index[last + 2] as u32 * 0x100 + index[last + 3] as u32;
    Some(count as usize)
}

/// The head of an index tells as much as the whole.
pub proof fn the_head_of_an_index_tells_its_count(index: Seq<u8>)
    ensures
        index_count(
            if index.len() < INDEX_HEAD_LENGTH {
                index
            } else {
                index.take(INDEX_HEAD_LENGTH as int)
            },
        ) == index_count(index),
{
    if index.len() >= INDEX_HEAD_LENGTH {
        let head = index.take(INDEX_HEAD_LENGTH as int);
        assert(head.take(4) =~= index.take(4));
        let last = fanout_start(index) + 1020;
        assert(head.subrange(last, last + 4) =~= index.subrange(last, last + 4));
    }
}

/// The SHA-256 digest of a byte string.
pub uninterp spec fn sha256(bytes: Seq<u8>) -> Seq<u8>;

/// Calls `Sha256::digest`: thirty-two bytes that depend on the input alone.
#[verifier::external_body]
fn sha256_digest(bytes: &[u8]) -> (digest: Vec<u8>)
    ensures
        digest@ == sha256(bytes@),
        digest@.len() == 32,
{
    Sha256::digest(bytes).to_vec()
}

/// The SHA-256 digest of a byte string, in hexadecimal.
pub fn digest_text(bytes: &[u8]) -> (text: String)
    ensures
        text@ == hex(sha256(bytes@)),
        text@.len() == 64,
{
    let digest = sha256_digest(bytes);
    proof {
        lemma_hex(digest@);
    }
    hex_text(digest.as_slice())
}

/// The call that announces a pack.
pub open spec fn begin_pack_call(
    at: (Seq<char>, Seq<char>),
    id: Seq<char>,
    length: nat,
) -> CallModel {
    CallModel {
        method: "begin_pack"@,
        argument: part(at, id) + ", "@ + decimal(length) + ", "@ + decimal(CHUNK_SIZE as nat)
            + ")"@,
    }
}

/// Writes the call that announces a pack.
pub fn begin_pack(at: &Repository, id: &str, length: usize) -> (call: Call)
    ensures
        call@ == begin_pack_call(at@, id@, length as nat),
{
    let mut argument = part_text(at, id);
    argument.append(", ");
    argument.append(decimal_text(length as u64).as_str());
    argument.append(", ");
    argument.append(decimal_text(CHUNK_SIZE as u64).as_str());
    argument.append(")");
    Call { method: "begin_pack".to_owned(), argument }
}

/// A call on a part of a repository without further arguments.
pub open spec fn part_call(
    method: Seq<char>,
    at: (Seq<char>, Seq<char>),
    id: Seq<char>,
) -> CallModel {
    CallModel { method, argument: part(at, id) + ")"@ }
}

/// Writes a call on a part of a repository without further arguments.
pub fn part_request(method: &str, at: &Repository, id: &str) -> (call: Call)
    ensures
        call@ == part_call(method@, at@, id@),
{
    let mut argument = part_text(at, id);
    argument.append(")");
    Call { method: method.to_owned(), argument }
}

/// The call that carries one chunk of a pack.
pub open spec fn chunk_call(
    at: (Seq<char>, Seq<char>),
    id: Seq<char>,
    index: nat,
    chunk: Seq<u8>,
) -> CallModel {
    CallModel {
        method: "put_pack_chunk"@,
        argument: part(at, id) + ", "@ + decimal(index) + ", \""@ + hex(sha256(chunk)) + "\", "@
            + blob_text(chunk) + ")"@,
    }
}

fn chunk_request(at: &Repository, id: &str, index: usize, chunk: &[u8]) -> (call: Call)
    ensures
        call@ == chunk_call(at@, id@, index as nat, chunk@),
{
    let mut argument = part_text(at, id);
    argument.append(", ");
    argument.append(decimal_text(index as u64).as_str());
    argument.append(", \"");
    argument.append(digest_text(chunk).as_str());
    argument.append("\", ");
    argument.append(candid_blob(chunk).as_str());
    argument.append(")");
    Call { method: "put_pack_chunk".to_owned(), argument }
}

/// A chunk within the call that carries several.
pub open spec fn chunk_record(index: nat, chunk: Seq<u8>) -> Seq<char> {
    "record { index = "@ + decimal(index) + "; digest = \""@ + hex(sha256(chunk))
        + "\"; payload = "@ + blob_text(chunk) + " }"@
}

fn chunk_record_text(index: usize, chunk: &[u8]) -> (text: String)
    ensures
        text@ == chunk_record(index as nat, chunk@),
{
    let mut text = "record { index = ".to_owned();
    text.append(decimal_text(index as u64).as_str());
    text.append("; digest = \"");
    text.append(digest_text(chunk).as_str());
    text.append("\"; payload = ");
    text.append(candid_blob(chunk).as_str());
    text.append(" }");
    text
}

/// The end of the batch that begins at `from` and reaches to `to` so far: members are
/// taken in while there are fewer than `items` and their sizes sum up to at most `limit`;
/// a batch has at least one.
pub open spec fn batch_end(
    sizes: Seq<nat>,
    from: nat,
    to: nat,
    used: nat,
    items: nat,
    limit: nat,
) -> nat
    decreases sizes.len() - to,
{
    if to < sizes.len() && to - from < items && used + sizes[to as int] <= limit {
        batch_end(sizes, from, to + 1, used + sizes[to as int], items, limit)
    } else if to <= from {
        from + 1
    } else {
        to
    }
}

/// The batches from `from` on, as index ranges.
pub open spec fn batches(sizes: Seq<nat>, from: nat, items: nat, limit: nat) -> Seq<(nat, nat)>
    decreases sizes.len() - from,
    when from <= sizes.len()
    via batches_end
{
    if from >= sizes.len() {
        seq![]
    } else {
        let end = batch_end(sizes, from, from, 0, items, limit);
        seq![(from, end)] + batches(sizes, end, items, limit)
    }
}

#[via_fn]
proof fn batches_end(sizes: Seq<nat>, from: nat, items: nat, limit: nat) {
    if from < sizes.len() {
        lemma_batch_end(sizes, from, from, 0, items, limit);
    }
}

/// The sum of the sizes in a range.
pub open spec fn total(sizes: Seq<nat>, from: nat, to: nat) -> nat
    decreases to - from,
{
    if from >= to {
        0
    } else {
        total(sizes, from, (to - 1) as nat) + sizes[to - 1]
    }
}

proof fn lemma_batch_end(
    sizes: Seq<nat>,
    from: nat,
    to: nat,
    used: nat,
    items: nat,
    limit: nat,
)
    requires
        from < sizes.len(),
        from <= to <= sizes.len(),
    ensures
        from < batch_end(sizes, from, to, used, items, limit) <= sizes.len(),
        to <= batch_end(sizes, from, to, used, items, limit),
        items >= 1 && to - from <= items ==> batch_end(sizes, from, to, used, items, limit) - from
            <= items,
        used == total(sizes, from, to) && used <= limit && sizes[from as int] <= limit ==> total(
            sizes,
            from,
            batch_end(sizes, from, to, used, items, limit),
        ) <= limit,
    decreases sizes.len() - to,
{
    if to < sizes.len() && to - from < items && used + sizes[to as int] <= limit {
        assert(total(sizes, from, to + 1) == total(sizes, from, to) + sizes[to as int]);
        lemma_batch_end(sizes, from, to + 1, used + sizes[to as int], items, limit);
    } else if to <= from {
        assert(total(sizes, from, from) == 0);
        assert(total(sizes, from, from + 1) == total(sizes, from, from) + sizes[from as int]);
    }
}

/// The batches from `from` on follow one another without a gap up to the end, and keep
/// both limits where no single member exceeds them.
pub open spec fn proper_batches(
    cuts: Seq<(nat, nat)>,
    sizes: Seq<nat>,
    from: nat,
    items: nat,
    limit: nat,
) -> bool {
    &&& cuts.len() == 0 ==> from == sizes.len()
    &&& cuts.len() > 0 ==> cuts[0].0 == from && cuts.last().1 == sizes.len()
    &&& forall|i: int|
        0 <= i < cuts.len() ==> {
            let cut = #[trigger] cuts[i];
            &&& from <= cut.0 < cut.1 <= sizes.len()
            &&& cut.1 - cut.0 <= items
            &&& total(sizes, cut.0, cut.1) <= limit
        }
    &&& forall|i: int| 0 < i < cuts.len() ==> cuts[i - 1].1 == (#[trigger] cuts[i]).0
}

/// Every member is in exactly one batch, in order, and every batch keeps both limits.
pub proof fn batches_cover_everything(sizes: Seq<nat>, from: nat, items: nat, limit: nat)
    requires
        from <= sizes.len(),
        items >= 1,
        forall|i: int| 0 <= i < sizes.len() ==> #[trigger] sizes[i] <= limit,
    ensures
        proper_batches(batches(sizes, from, items, limit), sizes, from, items, limit),
    decreases sizes.len() - from,
{
    if from < sizes.len() {
        let end = batch_end(sizes, from, from, 0, items, limit);
        lemma_batch_end(sizes, from, from, 0, items, limit);
        assert(total(sizes, from, from) == 0);
        assert(sizes[from as int] <= limit);
        batches_cover_everything(sizes, end, items, limit);
        let rest = batches(sizes, end, items, limit);
        let all = batches(sizes, from, items, limit);
        assert(all =~= seq![(from, end)] + rest);
        assert forall|i: int| 0 <= i < all.len() implies {
            let cut = #[trigger] all[i];
            &&& from <= cut.0 < cut.1 <= sizes.len()
            &&& cut.1 - cut.0 <= items
            &&& total(sizes, cut.0, cut.1) <= limit
        } by {
            if i > 0 {
                assert(all[i] == rest[i - 1]);
            }
        }
        assert forall|i: int| 0 < i < all.len() implies all[i - 1].1 == (#[trigger] all[i]).0 by {
            assert(all[i] == rest[i - 1]);
            if i > 1 {
                assert(all[i - 1] == rest[i - 2]);
            }
        }
        if rest.len() > 0 {
            assert(all.last() == rest.last());
        }
    }
}

/// The lengths of a list of chunks.
pub open spec fn lengths(list: Seq<Seq<u8>>) -> Seq<nat> {
    Seq::new(list.len(), |i: int| list[i].len())
}

/// The records of the chunks in a range.
pub open spec fn chunk_records(list: Seq<Seq<u8>>, cut: (nat, nat)) -> Seq<Seq<char>> {
    Seq::new(
        (cut.1 - cut.0) as nat,
        |i: int| chunk_record((cut.0 + i) as nat, list[cut.0 + i]),
    )
}

/// The call that carries the chunks in a range.
pub open spec fn batch_call(
    at: (Seq<char>, Seq<char>),
    id: Seq<char>,
    list: Seq<Seq<u8>>,
    cut: (nat, nat),
) -> CallModel {
    CallModel {
        method: "put_pack_chunks"@,
        argument: part(at, id) + ", "@ + vector(chunk_records(list, cut)) + ")"@,
    }
}

/// Whether the transport takes several chunks at a time.
pub open spec fn takes_batches(capabilities: TransportCapabilities) -> bool {
    capabilities.version >= 2 && capabilities.max_chunk_batch_items > 1
}

/// The calls that carry a pack.
pub open spec fn chunk_calls(
    at: (Seq<char>, Seq<char>),
    id: Seq<char>,
    bytes: Seq<u8>,
    capabilities: TransportCapabilities,
) -> Seq<CallModel> {
    let list = chunks(bytes, CHUNK_SIZE as nat);
    if takes_batches(capabilities) {
        let cuts = batches(
            lengths(list),
            0,
            capabilities.max_chunk_batch_items as nat,
            capabilities.max_chunk_batch_bytes as nat,
        );
        Seq::new(cuts.len(), |i: int| batch_call(at, id, list, cuts[i]))
    } else {
        Seq::new(list.len(), |i: int| chunk_call(at, id, i as nat, list[i]))
    }
}

fn single_chunk_calls(at: &Repository, id: &str, bytes: &[u8]) -> (calls: Vec<Call>)
    ensures
        call_models(calls@) == Seq::new(
            chunks(bytes@, CHUNK_SIZE as nat).len(),
            |i: int| chunk_call(at@, id@, i as nat, chunks(bytes@, CHUNK_SIZE as nat)[i]),
        ),
{
    let ghost list = chunks(bytes@, CHUNK_SIZE as nat);
    let cuts = chunk_ranges(bytes.len(), CHUNK_SIZE);
    let mut calls: Vec<Call> = Vec::new();
    let mut i: usize = 0;
    while i < cuts.len()
        invariant
            i <= cuts@.len(),
            list == chunks(bytes@, CHUNK_SIZE as nat),
            cuts_model(cuts@) == ranges(0, bytes@.len(), CHUNK_SIZE as nat),
            forall|k: int|
                0 <= k < cuts@.len() ==> (#[trigger] cuts@[k]).0 < cuts@[k].1 <= bytes@.len(),
            calls@.len() == i,
            forall|k: int|
                0 <= k < i ==> #[trigger] calls@[k]@ == chunk_call(at@, id@, k as nat, list[k]),
        decreases cuts.len() - i,
    {
        let (from, to) = cuts[i];
        assert(cuts_model(cuts@)[i as int] == (from as nat, to as nat));
        let chunk = slice_subrange(bytes, from, to);
        assert(chunk@ == list[i as int]);
        calls.push(chunk_request(at, id, i, chunk));
        i += 1;
    }
    assert(call_models(calls@) =~= Seq::new(
        list.len(),
        |k: int| chunk_call(at@, id@, k as nat, list[k]),
    ));
    calls
}

fn batch_request(
    at: &Repository,
    id: &str,
    bytes: &[u8],
    cuts: &Vec<(usize, usize)>,
    from: usize,
    to: usize,
) -> (call: Call)
    requires
        cuts_model(cuts@) == ranges(0, bytes@.len(), CHUNK_SIZE as nat),
        forall|k: int|
            0 <= k < cuts@.len() ==> (#[trigger] cuts@[k]).0 < cuts@[k].1 <= bytes@.len(),
        from <= to <= cuts@.len(),
    ensures
        call@ == batch_call(
            at@,
            id@,
            chunks(bytes@, CHUNK_SIZE as nat),
            (from as nat, to as nat),
        ),
{
    let ghost list = chunks(bytes@, CHUNK_SIZE as nat);
    let mut records: Vec<String> = Vec::new();
    let mut i: usize = from;
    while i < to
        invariant
            from <= i <= to <= cuts@.len(),
            list == chunks(bytes@, CHUNK_SIZE as nat),
            cuts_model(cuts@) == ranges(0, bytes@.len(), CHUNK_SIZE as nat),
            forall|k: int|
                0 <= k < cuts@.len() ==> (#[trigger] cuts@[k]).0 < cuts@[k].1 <= bytes@.len(),
            records@.len() == i - from,
            forall|k: int|
                0 <= k < i - from ==> #[trigger] records@[k]@ == chunk_record(
                    (from + k) as nat,
                    list[from + k],
                ),
        decreases to - i,
    {
        let (start, end) = cuts[i];
        assert(cuts_model(cuts@)[i as int] == (start as nat, end as nat));
        let chunk = slice_subrange(bytes, start, end);
        assert(chunk@ == list[i as int]);
        records.push(chunk_record_text(i, chunk));
        i += 1;
    }
    assert(texts(records@) =~= chunk_records(list, (from as nat, to as nat)));
    let mut argument = part_text(at, id);
    argument.append(", ");
    argument.append(vector_text(&records).as_str());
    argument.append(")");
    Call { method: "put_pack_chunks".to_owned(), argument }
}

fn find_batch_end(
    cuts: &Vec<(usize, usize)>,
    from: usize,
    items: usize,
    limit: usize,
    sizes: Ghost<Seq<nat>>,
) -> (end: usize)
    requires
        from < cuts@.len(),
        sizes@.len() == cuts@.len(),
        forall|k: int|
            0 <= k < cuts@.len() ==> (#[trigger] cuts@[k]).0 < cuts@[k].1 && cuts@[k].1
                - cuts@[k].0 == sizes@[k],
    ensures
        end == batch_end(sizes@, from as nat, from as nat, 0, items as nat, limit as nat),
        from < end <= cuts@.len(),
{
    let mut end: usize = from;
    let mut used: usize = 0;
    while end < cuts.len() && end - from < items && cuts[end].1 - cuts[end].0 <= limit - used
        invariant
            from < cuts@.len(),
            from <= end <= cuts@.len(),
            used <= limit,
            sizes@.len() == cuts@.len(),
            forall|k: int|
                0 <= k < cuts@.len() ==> (#[trigger] cuts@[k]).0 < cuts@[k].1 && cuts@[k].1
                    - cuts@[k].0 == sizes@[k],
            batch_end(sizes@, from as nat, from as nat, 0, items as nat, limit as nat)
                == batch_end(
                sizes@,
                from as nat,
                end as nat,
                used as nat,
                items as nat,
                limit as nat,
            ),
        decreases cuts.len() - end,
    {
        used = used + (cuts[end].1 - cuts[end].0);
        end += 1;
    }
    if end == from {
        end += 1;
    }
    end
}

/// Writes the calls that carry a pack.
pub fn chunk_requests(
    at: &Repository,
    id: &str,
    bytes: &[u8],
    capabilities: &TransportCapabilities,
) -> (calls: Vec<Call>)
    ensures
        call_models(calls@) == chunk_calls(at@, id@, bytes@, *capabilities),
{
    if !(capabilities.version >= 2 && capabilities.max_chunk_batch_items > 1) {
        return single_chunk_calls(at, id, bytes);
    }
    let ghost list = chunks(bytes@, CHUNK_SIZE as nat);
    let ghost sizes = lengths(list);
    let ghost items = capabilities.max_chunk_batch_items as nat;
    let ghost limit = capabilities.max_chunk_batch_bytes as nat;
    let ghost all = batches(sizes, 0, items, limit);
    let cuts = chunk_ranges(bytes.len(), CHUNK_SIZE);
    assert forall|k: int| 0 <= k < cuts@.len() implies (#[trigger] cuts@[k]).0 < cuts@[k].1
        && cuts@[k].1 - cuts@[k].0 == sizes[k] by {
        assert(cuts_model(cuts@)[k] == (cuts@[k].0 as nat, cuts@[k].1 as nat));
    }
    let mut calls: Vec<Call> = Vec::new();
    let mut from: usize = 0;
    let ghost mut done: Seq<(nat, nat)> = seq![];
    assert(done + batches(sizes, 0, items, limit) =~= all);
    while from < cuts.len()
        invariant
            from <= cuts@.len(),
            list == chunks(bytes@, CHUNK_SIZE as nat),
            sizes == lengths(list),
            sizes.len() == cuts@.len(),
            items == capabilities.max_chunk_batch_items as nat,
            limit == capabilities.max_chunk_batch_bytes as nat,
            all == batches(sizes, 0, items, limit),
            cuts_model(cuts@) == ranges(0, bytes@.len(), CHUNK_SIZE as nat),
            forall|k: int|
                0 <= k < cuts@.len() ==> (#[trigger] cuts@[k]).0 < cuts@[k].1 <= bytes@.len(),
            forall|k: int|
                0 <= k < cuts@.len() ==> (#[trigger] cuts@[k]).0 < cuts@[k].1 && cuts@[k].1
                    - cuts@[k].0 == sizes[k],
            done + batches(sizes, from as nat, items, limit) == all,
            calls@.len() == done.len(),
            forall|k: int|
                0 <= k < done.len() ==> #[trigger] calls@[k]@ == batch_call(
                    at@,
                    id@,
                    list,
                    done[k],
                ),
        decreases cuts.len() - from,
    {
        let end = find_batch_end(
            &cuts,
            from,
            capabilities.max_chunk_batch_items,
            capabilities.max_chunk_batch_bytes,
            Ghost(sizes),
        );
        calls.push(batch_request(at, id, bytes, &cuts, from, end));
        proof {
            let cut = (from as nat, end as nat);
            let rest = batches(sizes, end as nat, items, limit);
            assert(done + (seq![cut] + rest) =~= done.push(cut) + rest);
            done = done.push(cut);
        }
        from = end;
    }
    assert(done =~= all);
    assert(call_models(calls@) =~= Seq::new(
        all.len(),
        |k: int| batch_call(at@, id@, list, all[k]),
    ));
    calls
}

/// The batches in which a pack travels hold each chunk once, in order, and keep the limits
/// of the transport.
pub proof fn pack_batches_keep_the_limits(bytes: Seq<u8>, capabilities: TransportCapabilities)
    requires
        usable(capabilities),
    ensures
        proper_batches(
            batches(
                lengths(chunks(bytes, CHUNK_SIZE as nat)),
                0,
                capabilities.max_chunk_batch_items as nat,
                capabilities.max_chunk_batch_bytes as nat,
            ),
            lengths(chunks(bytes, CHUNK_SIZE as nat)),
            0,
            capabilities.max_chunk_batch_items as nat,
            capabilities.max_chunk_batch_bytes as nat,
        ),
        chunks(bytes, CHUNK_SIZE as nat).flatten() == bytes,
{
    let list = chunks(bytes, CHUNK_SIZE as nat);
    chunks_are_bounded(bytes, CHUNK_SIZE as nat);
    chunks_rejoin(bytes, CHUNK_SIZE as nat);
    assert forall|i: int| 0 <= i < lengths(list).len() implies #[trigger] lengths(list)[i]
        <= capabilities.max_chunk_batch_bytes by {
        assert(list[i].len() <= CHUNK_SIZE);
    }
    batches_cover_everything(
        lengths(list),
        0,
        capabilities.max_chunk_batch_items as nat,
        capabilities.max_chunk_batch_bytes as nat,
    );
}

/// The texts among a list of documents.
pub open spec fn texts_among(items: Seq<JsonModel>) -> Seq<Seq<char>>
    decreases items.len(),
{
    if items.len() == 0 {
        seq![]
    } else {
        let front = texts_among(items.drop_last());
        match text_value(items.last()) {
            Some(text) => front.push(text),
            None => front,
        }
    }
}

/// The ids of the objects that a canister has indexed of a pack; none where it does not
/// say.
pub open spec fn indexed_already(reply: JsonModel) -> Seq<Seq<char>> {
    match items_field(reply, "ok"@) {
        Some(items) => sorted_members(texts_among(items)),
        None => seq![],
    }
}

/// Reads the ids of the objects that a canister has indexed of a pack.
pub fn read_indexed(reply: &Json) -> (ids: Vec<String>)
    ensures
        texts(ids@) == indexed_already(reply@),
        increasing(texts(ids@)),
{
    match reply.array_at("ok") {
        None => {
            let ids: Vec<String> = Vec::new();
            assert(texts(ids@) =~= seq![]);
            ids
        },
        Some(items) => {
            let ghost models = Json::models(items@);
            proof {
                models_are_memberwise(items@);
            }
            let mut ids: Vec<String> = Vec::new();
            let mut i: usize = 0;
            assert(texts(ids@) =~= texts_among(models.take(0)));
            while i < items.len()
                invariant
                    i <= items@.len(),
                    models == Seq::new(items@.len(), |k: int| items@[k]@),
                    texts(ids@) == texts_among(models.take(i as int)),
                decreases items.len() - i,
            {
                let ghost done = texts(ids@);
                assert(models.take(i + 1).drop_last() =~= models.take(i as int));
                assert(models.take(i + 1).last() == items@[i as int]@);
                if let Some(text) = items[i].as_str() {
                    ids.push(text.to_owned());
                    assert(texts(ids@) =~= done.push(text@));
                }
                i += 1;
            }
            assert(models.take(models.len() as int) =~= models);
            sorted_unique(&ids)
        },
    }
}

/// The objects that are not indexed yet.
pub open spec fn pending_objects(
    objects: Seq<MetadataModel>,
    already: Seq<Seq<char>>,
) -> Seq<MetadataModel>
    decreases objects.len(),
{
    if objects.len() == 0 {
        seq![]
    } else {
        let front = pending_objects(objects.drop_last(), already);
        if already.contains(objects.last().oid) {
            front
        } else {
            front.push(objects.last())
        }
    }
}

/// An object within the call that indexes several.
pub open spec fn metadata_record(object: MetadataModel) -> Seq<char> {
    "record { oid = \""@ + object.oid + "\"; kind = variant { \""@ + object.kind
        + "\" }; size = "@ + decimal(object.size as nat) + " }"@
}

/// Objects within the call that indexes them.
pub open spec fn metadata_records(objects: Seq<MetadataModel>) -> Seq<Seq<char>> {
    Seq::new(objects.len(), |i: int| metadata_record(objects[i]))
}

fn metadata_record_text(object: &PackObjectMetadata) -> (text: String)
    ensures
        text@ == metadata_record(object@),
{
    let mut text = "record { oid = \"".to_owned();
    text.append(object.oid.as_str());
    text.append("\"; kind = variant { \"");
    text.append(object.kind.as_str());
    text.append("\" }; size = ");
    text.append(decimal_text(object.size).as_str());
    text.append(" }");
    text
}

/// The method that indexes the objects of a pack.
pub open spec fn index_method(version: usize) -> Seq<char> {
    if version >= 2 {
        "index_pack_objects_batch_v2"@
    } else {
        "index_pack_objects_batch"@
    }
}

/// The call that indexes a batch of objects; `first` says that it starts the index.
pub open spec fn index_call(
    at: (Seq<char>, Seq<char>),
    id: Seq<char>,
    version: usize,
    batch: Seq<MetadataModel>,
    first: bool,
) -> CallModel {
    CallModel {
        method: index_method(version),
        argument: part(at, id) + ", "@ + vector(metadata_records(batch)) + ", "@ + bool_text(first)
            + ")"@,
    }
}

/// The calls that index what is not indexed yet of a pack.
pub open spec fn index_calls(
    at: (Seq<char>, Seq<char>),
    id: Seq<char>,
    capabilities: TransportCapabilities,
    objects: Seq<MetadataModel>,
    already: Seq<Seq<char>>,
) -> Seq<CallModel> {
    let list = chunks(
        pending_objects(objects, already),
        capabilities.max_pack_index_batch_items as nat,
    );
    Seq::new(
        list.len(),
        |i: int|
            index_call(at, id, capabilities.version, list[i], already.len() == 0 && i == 0),
    )
}

fn pending_records(objects: &Vec<PackObjectMetadata>, already: &Vec<String>) -> (records: Vec<
    String,
>)
    requires
        increasing(texts(already@)),
    ensures
        texts(records@) == metadata_records(
            pending_objects(metadata_models(objects@), texts(already@)),
        ),
{
    let ghost all = metadata_models(objects@);
    let ghost known = texts(already@);
    let mut records: Vec<String> = Vec::new();
    let mut i: usize = 0;
    assert(texts(records@) =~= metadata_records(pending_objects(all.take(0), known)));
    while i < objects.len()
        invariant
            i <= objects@.len(),
            all == metadata_models(objects@),
            known == texts(already@),
            increasing(known),
            texts(records@) == metadata_records(pending_objects(all.take(i as int), known)),
        decreases objects.len() - i,
    {
        let ghost front = pending_objects(all.take(i as int), known);
        let ghost done = texts(records@);
        assert(all.take(i + 1).drop_last() =~= all.take(i as int));
        assert(all.take(i + 1).last() == objects@[i as int]@);
        if !is_member(already, objects[i].oid.as_str()) {
            let text = metadata_record_text(&objects[i]);
            let ghost t = text@;
            records.push(text);
            assert(texts(records@) =~= done.push(t));
            assert(metadata_records(front.push(objects@[i as int]@)) =~= metadata_records(
                front,
            ).push(t));
        }
        i += 1;
    }
    assert(all.take(all.len() as int) =~= all);
    records
}

/// Writes the calls that index what is not indexed yet of a pack.
pub fn index_requests(
    at: &Repository,
    id: &str,
    capabilities: &TransportCapabilities,
    objects: &Vec<PackObjectMetadata>,
    already: &Vec<String>,
) -> (calls: Vec<Call>)
    requires
        increasing(texts(already@)),
        capabilities.max_pack_index_batch_items > 0,
    ensures
        call_models(calls@) == index_calls(
            at@,
            id@,
            *capabilities,
            metadata_models(objects@),
            texts(already@),
        ),
{
    let ghost pending = pending_objects(metadata_models(objects@), texts(already@));
    let ghost size = capabilities.max_pack_index_batch_items as nat;
    let ghost list = chunks(pending, size);
    let records = pending_records(objects, already);
    assert(texts(records@).len() == pending.len());
    let cuts = chunk_ranges(records.len(), capabilities.max_pack_index_batch_items);
    let mut calls: Vec<Call> = Vec::new();
    let mut i: usize = 0;
    while i < cuts.len()
        invariant
            i <= cuts@.len(),
            size == capabilities.max_pack_index_batch_items,
            list == chunks(pending, size),
            texts(records@) == metadata_records(pending),
            cuts_model(cuts@) == ranges(0, pending.len(), size),
            forall|k: int|
                0 <= k < cuts@.len() ==> (#[trigger] cuts@[k]).0 < cuts@[k].1 <= records@.len(),
            calls@.len() == i,
            forall|k: int|
                0 <= k < i ==> #[trigger] calls@[k]@ == index_call(
                    at@,
                    id@,
                    capabilities.version,
                    list[k],
                    texts(already@).len() == 0 && k == 0,
                ),
        decreases cuts.len() - i,
    {
        let (from, to) = cuts[i];
        assert(cuts_model(cuts@)[i as int] == (from as nat, to as nat));
        let batch = text_range(&records, from, to);
        assert(texts(batch@) =~= metadata_records(list[i as int]));
        let first = already.len() == 0 && i == 0;
        let mut argument = part_text(at, id);
        argument.append(", ");
        argument.append(vector_text(&batch).as_str());
        argument.append(", ");
        argument.append(
            if first {
                "true"
            } else {
                "false"
            },
        );
        argument.append(")");
        let method = if capabilities.version >= 2 {
            "index_pack_objects_batch_v2"
        } else {
            "index_pack_objects_batch"
        };
        calls.push(Call { method: method.to_owned(), argument });
        i += 1;
    }
    assert(call_models(calls@) =~= index_calls(
        at@,
        id@,
        *capabilities,
        metadata_models(objects@),
        texts(already@),
    ));
    calls
}

} // verus!
