//! What git and the canister print is read back as what they meant.
use vstd::prelude::*;
use vstd::utf8::{decode_utf8, encode_utf8, valid_utf8};

use crate::json::{
    field, items_field, json_document, text_field, text_value, unsigned_value, JsonModel,
};
use crate::objects::{listed_ids, object_at, object_header, object_ids, objects_in};
use crate::operation::{order_of, Operation, OrderModel};
use crate::order::{before, bytes_before, increasing, sorted_members_are_the_members_in_order};
use crate::pack::{index_count, listed_metadata, metadata_of, object_id, MetadataModel};
use crate::refs::{listed_refs, ref_of, refs_of};
use crate::remote::{atom, atom_char, host_refusal, quoted_value, remote_of, resolution};
use crate::text::{
    after_prefix, decimal, first_occurrence, has_prefix, is_digit, is_hex_digit, joined,
    joined_resplits, lines, numerals_are_digits, numerals_are_read_back, occurs_at, pieces, solid,
    three_words_are_read_back, trimmed, trimmed_end, trimmed_start, unsigned_up_to, white_space,
    word_scan, words,
};
use crate::transport::{
    capabilities_of, concurrency, elapsed_ms, generation, packs_of, phase_report, session_name,
    snapshot_of, usize_field, SnapshotModel,
};
use crate::snapshot::{found_document, named_session};

verus! {

/// Lines, each ended by a line feed.
pub open spec fn ended(list: Seq<Seq<char>>) -> Seq<char>
    decreases list.len(),
{
    if list.len() == 0 {
        seq![]
    } else {
        ended(list.drop_last()) + list.last() + seq!['\n']
    }
}

/// A text on one line.
pub open spec fn on_one_line(line: Seq<char>) -> bool {
    !line.contains('\n') && !(line.len() > 0 && line.last() == '\r')
}

/// Texts on one line each.
pub open spec fn on_lines(list: Seq<Seq<char>>) -> bool {
    forall|i: int| 0 <= i < list.len() ==> on_one_line(#[trigger] list[i])
}

proof fn lemma_ended(list: Seq<Seq<char>>)
    ensures
        ended(list) == joined(list.push(seq![]), seq!['\n']),
    decreases list.len(),
{
    let more = list.push(Seq::<char>::empty());
    if list.len() == 0 {
        assert(more.len() == 1);
        assert(ended(list) =~= joined(more, seq!['\n']));
    } else {
        lemma_ended(list.drop_last());
        assert(more.drop_last() =~= list);
        let front = list.drop_last();
        if list.len() == 1 {
            assert(front =~= seq![]);
            assert(ended(front) =~= seq![]);
            assert(joined(list, seq!['\n']) == list[0]);
            assert(joined(more, seq!['\n']) == joined(list, seq!['\n']) + seq!['\n'] + more.last());
            assert(ended(list) == ended(front) + list.last() + seq!['\n']);
            assert(ended(list) =~= joined(more, seq!['\n']));
        } else {
            let less = front.push(Seq::<char>::empty());
            assert(less.drop_last() =~= front);
            assert(ended(front) =~= joined(front, seq!['\n']) + seq!['\n']);
            assert(joined(list, seq!['\n']) == joined(front, seq!['\n']) + seq!['\n'] + list.last());
            assert(ended(list) =~= joined(more, seq!['\n']));
        }
    }
}

/// Lines are read back.
pub proof fn lines_are_read_back(list: Seq<Seq<char>>)
    requires
        on_lines(list),
    ensures
        lines(ended(list)) == list,
{
    let more = list.push(Seq::<char>::empty());
    lemma_ended(list);
    assert forall|i: int| 0 <= i < more.len() implies !(#[trigger] more[i]).contains('\n') by {
        if i < list.len() {
            assert(on_one_line(list[i]));
        }
    }
    joined_resplits(more, '\n');
    assert(pieces(ended(list), '\n') == more);
    assert forall|i: int| 0 <= i < list.len() implies #[trigger] lines(ended(list))[i]
        == list[i] by {
        assert(on_one_line(list[i]));
    }
    assert(lines(ended(list)) =~= list);
}

/// Lines that end with a carriage return and a line feed are read back without either.
pub proof fn returns_are_not_part_of_lines(list: Seq<Seq<char>>)
    requires
        forall|i: int| 0 <= i < list.len() ==> !(#[trigger] list[i]).contains('\n'),
    ensures
        lines(ended(Seq::new(list.len(), |i: int| list[i].push('\r')))) == list,
{
    let longer = Seq::new(list.len(), |i: int| list[i].push('\r'));
    let more = longer.push(Seq::<char>::empty());
    lemma_ended(longer);
    assert forall|i: int| 0 <= i < more.len() implies !(#[trigger] more[i]).contains('\n') by {
        if i < list.len() {
            assert(!list[i].contains('\n'));
            if more[i].contains('\n') {
                let k = choose|k: int| 0 <= k < more[i].len() && more[i][k] == '\n';
                assert(list[i][k] == '\n');
            }
        }
    }
    joined_resplits(more, '\n');
    assert(pieces(ended(longer), '\n') == more);
    assert forall|i: int| 0 <= i < list.len() implies #[trigger] lines(ended(longer))[i]
        == list[i] by {
        assert(longer[i].drop_last() =~= list[i]);
    }
    assert(lines(ended(longer)) =~= list);
}

/// A last line without an end is a line too, unless it is empty.
pub proof fn last_lines_count(list: Seq<Seq<char>>, last: Seq<char>)
    requires
        on_lines(list),
        !last.contains('\n'),
    ensures
        lines(ended(list) + last) == if last.len() > 0 {
            list.push(last)
        } else {
            list
        },
{
    let more = list.push(last);
    lemma_ended(list);
    let open = list.push(Seq::<char>::empty());
    if list.len() > 0 {
        assert(open.drop_last() =~= list);
        assert(more.drop_last() =~= list);
        assert(joined(more, seq!['\n']) =~= ended(list) + last);
    } else {
        assert(ended(list) =~= seq![]);
        assert(joined(more, seq!['\n']) =~= ended(list) + last);
    }
    assert forall|i: int| 0 <= i < more.len() implies !(#[trigger] more[i]).contains('\n') by {
        if i < list.len() {
            assert(on_one_line(list[i]));
        }
    }
    joined_resplits(more, '\n');
    assert(pieces(ended(list) + last, '\n') == more);
    let read = lines(ended(list) + last);
    assert forall|i: int| 0 <= i < list.len() implies #[trigger] read[i] == list[i] by {
        assert(on_one_line(list[i]));
    }
    if last.len() > 0 {
        assert(read =~= list.push(last));
    } else {
        assert(read =~= list);
    }
}

/// White space is what Unicode calls so.
pub proof fn white_space_is_that_of_unicode(c: char)
    ensures
        white_space(c) <==> {
            let n = c as u32;
            ||| 9 <= n <= 13
            ||| n == 0x20
            ||| n == 0x85
            ||| n == 0xa0
            ||| n == 0x1680
            ||| 0x2000 <= n <= 0x200a
            ||| n == 0x2028
            ||| n == 0x2029
            ||| n == 0x202f
            ||| n == 0x205f
            ||| n == 0x3000
        },
{
}

/// A ref as git prints it.
pub open spec fn printed_ref(entry: (Seq<char>, Seq<char>)) -> Seq<char> {
    entry.0 + seq![' '] + entry.1
}

/// Refs as git prints them.
pub open spec fn printed_refs(refs: Seq<(Seq<char>, Seq<char>)>) -> Seq<Seq<char>> {
    Seq::new(refs.len(), |i: int| printed_ref(refs[i]))
}

proof fn lemma_first(s: Seq<char>, c: char, i: int)
    requires
        0 <= i < s.len(),
        s[i] == c,
        forall|k: int| 0 <= k < i ==> s[k] != c,
    ensures
        s.index_of_first(c) == Some(i),
{
    s.index_of_first_ensures(c);
}

/// The refs that git prints are read back, in order. Names hold no space, as in any git
/// repository.
pub proof fn printed_refs_are_read_back(refs: Seq<(Seq<char>, Seq<char>)>)
    requires
        forall|i: int| 0 <= i < refs.len() ==> !(#[trigger] refs[i]).0.contains(' '),
        on_lines(printed_refs(refs)),
    ensures
        listed_refs(lines(ended(printed_refs(refs)))) == refs,
{
    lines_are_read_back(printed_refs(refs));
    lemma_refs(refs);
}

proof fn lemma_refs(refs: Seq<(Seq<char>, Seq<char>)>)
    requires
        forall|i: int| 0 <= i < refs.len() ==> !(#[trigger] refs[i]).0.contains(' '),
    ensures
        listed_refs(printed_refs(refs)) == refs,
    decreases refs.len(),
{
    if refs.len() == 0 {
        assert(listed_refs(printed_refs(refs)) =~= refs);
    } else {
        let front = refs.drop_last();
        assert forall|i: int| 0 <= i < front.len() implies !(#[trigger] front[i]).0.contains(
            ' ',
        ) by {
            assert(!refs[i].0.contains(' '));
        }
        lemma_refs(front);
        assert(printed_refs(refs).drop_last() =~= printed_refs(front));
        let entry = refs.last();
        let line = printed_ref(entry);
        assert(printed_refs(refs).last() == line);
        assert(!refs[refs.len() - 1].0.contains(' '));
        assert forall|k: int| 0 <= k < entry.0.len() implies line[k] != ' ' by {
            assert(line[k] == entry.0[k]);
        }
        lemma_first(line, ' ', entry.0.len() as int);
        assert(line.take(entry.0.len() as int) =~= entry.0);
        assert(line.skip(entry.0.len() as int + 1) =~= entry.1);
        assert(front.push(entry) =~= refs);
    }
}

proof fn lemma_scan(s: Seq<char>, word: Seq<char>)
    requires
        solid(word),
    ensures
        word_scan(s + word) == (word_scan(s).0, word_scan(s).1 + word),
    decreases word.len(),
{
    if word.len() == 0 {
        assert(s + word =~= s);
        assert(word_scan(s).1 + word =~= word_scan(s).1);
    } else {
        lemma_scan(s, word.drop_last());
        assert((s + word).drop_last() =~= s + word.drop_last());
        assert(!white_space(word[word.len() - 1]));
        assert((word_scan(s).1 + word.drop_last()).push(word.last()) =~= word_scan(s).1 + word);
    }
}

proof fn lemma_scan_keeps(s: Seq<char>, more: Seq<char>)
    ensures
        word_scan(s).0.len() <= word_scan(s + more).0.len(),
        forall|i: int|
            0 <= i < word_scan(s).0.len() ==> #[trigger] word_scan(s + more).0[i]
                == word_scan(s).0[i],
    decreases more.len(),
{
    if more.len() == 0 {
        assert(s + more =~= s);
    } else {
        lemma_scan_keeps(s, more.drop_last());
        assert((s + more).drop_last() =~= s + more.drop_last());
    }
}

/// The first word of a line is read back, whatever follows it.
pub proof fn first_words_are_read_back(word: Seq<char>, rest: Seq<char>)
    requires
        word.len() > 0,
        solid(word),
        rest.len() > 0 ==> white_space(rest[0]),
    ensures
        words(word + rest).len() > 0,
        words(word + rest)[0] == word,
{
    let none = Seq::<char>::empty();
    lemma_scan(none, word);
    assert(none + word =~= word);
    assert(word_scan(word).1 =~= word);
    if rest.len() == 0 {
        assert(word + rest =~= word);
    } else {
        let one = word.push(rest[0]);
        assert(one.drop_last() =~= word);
        assert(word_scan(one).0 =~= seq![word]);
        lemma_scan_keeps(one, rest.drop_first());
        assert(one + rest.drop_first() =~= word + rest);
    }
}

/// A text without white space has one word, itself; a blank one has none.
pub proof fn single_words_are_read_back(word: Seq<char>)
    requires
        solid(word),
    ensures
        words(word) == if word.len() > 0 {
            seq![word]
        } else {
            seq![]
        },
{
    let none = Seq::<char>::empty();
    lemma_scan(none, word);
    assert(none + word =~= word);
    assert(word_scan(word).1 =~= word);
    assert(words(word) =~= if word.len() > 0 {
        seq![word]
    } else {
        seq![]
    });
}

/// The line begins with this id.
pub open spec fn begins_with(line: Seq<char>, id: Seq<char>) -> bool {
    &&& line.len() >= id.len()
    &&& line.take(id.len() as int) == id
    &&& line.len() > id.len() ==> white_space(line[id.len() as int])
}

/// A listing of objects is read as the ids with which its lines begin: each of them, nothing
/// else, in increasing order and without repeats.
pub proof fn listed_objects_are_read(list: Seq<Seq<char>>, ids: Seq<Seq<char>>)
    requires
        on_lines(list),
        list.len() == ids.len(),
        forall|i: int|
            0 <= i < ids.len() ==> (#[trigger] ids[i]).len() > 0 && solid(ids[i]) && begins_with(
                list[i],
                ids[i],
            ),
    ensures
        increasing(object_ids(ended(list))),
        forall|id: Seq<char>| #[trigger] object_ids(ended(list)).contains(id) <==> ids.contains(id),
{
    lines_are_read_back(list);
    lemma_ids(list, ids);
    sorted_members_are_the_members_in_order(ids);
}

proof fn lemma_ids(list: Seq<Seq<char>>, ids: Seq<Seq<char>>)
    requires
        list.len() == ids.len(),
        forall|i: int|
            0 <= i < ids.len() ==> (#[trigger] ids[i]).len() > 0 && solid(ids[i]) && begins_with(
                list[i],
                ids[i],
            ),
    ensures
        listed_ids(list) == ids,
    decreases list.len(),
{
    if list.len() == 0 {
        assert(listed_ids(list) =~= ids);
    } else {
        let front = list.drop_last();
        let less = ids.drop_last();
        assert forall|i: int| 0 <= i < less.len() implies (#[trigger] less[i]).len() > 0 && solid(
            less[i],
        ) && begins_with(front[i], less[i]) by {
            assert(ids[i].len() > 0);
        }
        lemma_ids(front, less);
        let n = ids.len() - 1;
        let id = ids[n];
        let rest = list[n].skip(id.len() as int);
        assert(id.len() > 0);
        if rest.len() > 0 {
            assert(rest[0] == list[n][id.len() as int]);
        }
        first_words_are_read_back(id, rest);
        assert(id + rest =~= list[n]);
        assert(less.push(id) =~= ids);
    }
}

/// An object of a pack as git prints it on verifying the pack.
pub open spec fn printed_metadata(object: MetadataModel, rest: Seq<char>) -> Seq<char> {
    (((object.oid.push(' ') + object.kind).push(' ')) + decimal(object.size as nat)).push(' ')
        + rest
}

/// The kind of an object.
pub open spec fn is_kind(kind: Seq<char>) -> bool {
    kind == "commit"@ || kind == "tree"@ || kind == "blob"@ || kind == "tag"@
}

proof fn lemma_kind(kind: Seq<char>)
    requires
        is_kind(kind),
    ensures
        kind.len() > 0,
        solid(kind),
{
    reveal_strlit("commit");
    reveal_strlit("tree");
    reveal_strlit("blob");
    reveal_strlit("tag");
}

proof fn lemma_words_kept(s: Seq<char>, rest: Seq<char>)
    requires
        s.len() > 0,
        white_space(s.last()),
    ensures
        words(s + rest).len() >= words(s).len(),
        forall|i: int| 0 <= i < words(s).len() ==> #[trigger] words(s + rest)[i] == words(s)[i],
{
    assert(word_scan(s).1.len() == 0);
    lemma_scan_keeps(s, rest);
}

/// An object of a pack is read back from the line that git prints for it, whatever stands
/// behind its id, kind and size.
pub proof fn printed_metadata_is_read_back(object: MetadataModel, rest: Seq<char>)
    requires
        object_id(object.oid),
        is_kind(object.kind),
    ensures
        metadata_of(printed_metadata(object, rest)) == Some(object),
{
    let size = decimal(object.size as nat);
    lemma_kind(object.kind);
    numerals_are_digits(object.size as nat);
    numerals_are_read_back(object.size as nat, u64::MAX as nat);
    assert forall|i: int| 0 <= i < object.oid.len() implies !white_space(
        #[trigger] object.oid[i],
    ) by {
        assert(is_hex_digit(object.oid[i]));
    }
    assert forall|i: int| 0 <= i < size.len() implies !white_space(#[trigger] size[i]) by {
        assert(is_digit(size[i]));
    }
    three_words_are_read_back(object.oid, object.kind, size, ' ', ' ', ' ');
    let head = (((object.oid.push(' ') + object.kind).push(' ')) + size).push(' ');
    lemma_words_kept(head, rest);
    assert(words(head) == seq![object.oid, object.kind, size]);
    let fields = words(head + rest);
    assert(fields[0] == object.oid && fields[1] == object.kind && fields[2] == size);
}

/// The objects of a pack are read back from a listing of them; lines that describe no object
/// are passed over.
pub proof fn listed_metadata_is_read(
    listing: Seq<Seq<char>>,
    line: Seq<char>,
    object: MetadataModel,
    rest: Seq<char>,
)
    requires
        object_id(object.oid),
        is_kind(object.kind),
    ensures
        listed_metadata(seq![]) == Seq::<MetadataModel>::empty(),
        listed_metadata(listing.push(printed_metadata(object, rest))) == listed_metadata(
            listing,
        ).push(object),
        words(line).len() < 3 || !object_id(words(line)[0]) ==> listed_metadata(listing.push(line))
            == listed_metadata(listing),
{
    printed_metadata_is_read_back(object, rest);
    assert(listing.push(printed_metadata(object, rest)).drop_last() =~= listing);
    assert(listing.push(line).drop_last() =~= listing);
}

// The directory.

/// The marker stands in the text once, behind `before`.
pub open spec fn marks(text: Seq<char>, marker: Seq<char>, before: Seq<char>, after: Seq<char>) -> bool {
    &&& text == before + marker + after
    &&& forall|i: int|
        0 <= i <= text.len() - marker.len() && i != before.len() ==> !#[trigger] occurs_at(
            text,
            marker,
            i,
        )
}

/// The value stands behind the marker, up to a quotation mark.
pub open spec fn gives(text: Seq<char>, marker: Seq<char>, value: Seq<char>) -> bool {
    exists|before: Seq<char>, after: Seq<char>| #[trigger]
        marks(text, marker, before, value + seq!['"'] + after) && !value.contains('"')
}

proof fn lemma_not_before(s: Seq<char>, pattern: Seq<char>, from: int, at: int)
    requires
        0 <= from <= at,
        at + pattern.len() <= s.len(),
        occurs_at(s, pattern, at),
        forall|i: int| from <= i < at ==> !#[trigger] occurs_at(s, pattern, i),
    ensures
        first_occurrence(s, pattern, from) == Some(at),
    decreases at - from,
{
    if from < at {
        assert(!occurs_at(s, pattern, from));
        lemma_not_before(s, pattern, from + 1, at);
    }
}

proof fn lemma_none(s: Seq<char>, pattern: Seq<char>, from: int)
    requires
        0 <= from,
        forall|i: int| from <= i <= s.len() - pattern.len() ==> !#[trigger] occurs_at(s, pattern, i),
    ensures
        first_occurrence(s, pattern, from) is None,
    decreases s.len() + 1 - from,
{
    if from + pattern.len() <= s.len() {
        assert(!occurs_at(s, pattern, from));
        lemma_none(s, pattern, from + 1);
    }
}

proof fn lemma_value(text: Seq<char>, marker: Seq<char>, value: Seq<char>)
    requires
        gives(text, marker, value),
        marker.len() > 0,
    ensures
        quoted_value(text, marker) == Some(value),
{
    let (before, after) = choose|before: Seq<char>, after: Seq<char>| #[trigger]
        marks(text, marker, before, value + seq!['"'] + after) && !value.contains('"');
    let tail = value + seq!['"'] + after;
    let n = before.len() as int;
    assert(occurs_at(text, marker, n)) by {
        assert(text.subrange(n, n + marker.len()) =~= marker);
    }
    assert forall|i: int| 0 <= i < n implies !#[trigger] occurs_at(text, marker, i) by {}
    lemma_not_before(text, marker, 0, n);
    let rest = text.skip(n + marker.len());
    assert(rest =~= tail);
    assert forall|i: int| 0 <= i <= rest.len() - marker.len() implies !#[trigger] occurs_at(
        rest,
        marker,
        i,
    ) by {
        let k = n + marker.len() + i;
        if occurs_at(rest, marker, i) {
            assert(text.subrange(k, k + marker.len()) =~= rest.subrange(i, i + marker.len()));
            assert(occurs_at(text, marker, k));
        }
    }
    lemma_none(rest, marker, 0);
    assert forall|k: int| 0 <= k < value.len() implies rest[k] != '"' by {
        assert(rest[k] == value[k]);
    }
    assert(rest[value.len() as int] == '"');
    lemma_first(rest, '"', value.len() as int);
    assert(rest.take(value.len() as int) =~= value);
}

/// The answer of the directory is read as it is meant: its `owner` and `shard` are the
/// principals behind these words, and its `storage_id` the name behind that one. An answer
/// with an error, a query that failed, and bytes that are no text find no repository.
pub proof fn directory_answers_are_read_back(
    output: Seq<u8>,
    owner: Seq<char>,
    shard: Seq<char>,
    storage: Seq<char>,
)
    requires
        valid_utf8(output),
        gives(decode_utf8(output), "owner = principal \""@, owner),
        gives(decode_utf8(output), "shard = principal \""@, shard),
        gives(decode_utf8(output), "storage_id = \""@, storage),
        owner.len() > 0,
        shard.len() > 0,
        atom(storage),
    ensures
        first_occurrence(decode_utf8(output), "err ="@, 0) is None ==> resolution(true, output)
            == Ok::<(Seq<char>, Seq<char>, Seq<char>), Seq<char>>((owner, shard, storage)),
        first_occurrence(decode_utf8(output), "err ="@, 0) is Some ==> resolution(true, output)
            == Err::<(Seq<char>, Seq<char>, Seq<char>), Seq<char>>("repository not found"@),
        resolution(false, output) == Err::<(Seq<char>, Seq<char>, Seq<char>), Seq<char>>(
            "repository not found"@,
        ),
{
    let text = decode_utf8(output);
    reveal_strlit("owner = principal \"");
    reveal_strlit("shard = principal \"");
    reveal_strlit("storage_id = \"");
    reveal_strlit(" = principal \"");
    reveal_strlit(" = \"");
    reveal_strlit("owner");
    reveal_strlit("shard");
    reveal_strlit("storage_id");
    assert("owner"@ + " = principal \""@ =~= "owner = principal \""@);
    assert("shard"@ + " = principal \""@ =~= "shard = principal \""@);
    assert("storage_id"@ + " = \""@ =~= "storage_id = \""@);
    lemma_value(text, "owner = principal \""@, owner);
    lemma_value(text, "shard = principal \""@, shard);
    lemma_value(text, "storage_id = \""@, storage);
}

// Documents of the canister.

/// The field of a document is this number: as a number, or as a numeral.
pub open spec fn tells_number(document: JsonModel, name: Seq<char>, n: usize) -> bool {
    field(document, name) matches Some(value) && (unsigned_value(value) == Some(n as u64)
        || text_value(value) == Some(decimal(n as nat)))
}

proof fn lemma_number(document: JsonModel, name: Seq<char>, n: usize)
    requires
        tells_number(document, name, n),
    ensures
        usize_field(document, name) == Some(n),
{
    let value = field(document, name)->Some_0;
    if unsigned_value(value) is None {
        let text = decimal(n as nat);
        numerals_are_digits(n as nat);
        numerals_are_read_back(n as nat, usize::MAX as nat);
        lemma_plain(text);
    }
}

proof fn lemma_plain(text: Seq<char>)
    requires
        forall|i: int| 0 <= i < text.len() ==> is_digit(#[trigger] text[i]),
    ensures
        text.filter(|x: char| x != '_') == text,
    decreases text.len(),
{
    reveal(Seq::filter);
    if text.len() > 0 {
        let front = text.drop_last();
        assert forall|i: int| 0 <= i < front.len() implies is_digit(#[trigger] front[i]) by {
            assert(is_digit(text[i]));
        }
        lemma_plain(front);
        assert(is_digit(text[text.len() - 1]));
        assert(front.push(text.last()) =~= text);
    }
}

/// The number `n`, or the nearest from `low` to `high`.
pub open spec fn nearest(n: usize, low: usize, high: usize) -> usize {
    if n < low {
        low
    } else if n > high {
        high
    } else {
        n
    }
}

/// The limits that a canister tells are taken, each from its own field, as far as this
/// library can use them.
pub proof fn told_limits_are_taken(
    document: JsonModel,
    version: usize,
    chunks: usize,
    bytes: usize,
    index: usize,
    downloads: usize,
    packs: usize,
)
    requires
        tells_number(document, "version"@, version),
        tells_number(document, "max_chunk_batch_items"@, chunks),
        tells_number(document, "max_chunk_batch_bytes"@, bytes),
        tells_number(document, "max_pack_index_batch_items"@, index),
        tells_number(document, "max_download_batch_items"@, downloads),
        tells_number(document, "max_retained_packs"@, packs),
    ensures
        ({
            let c = capabilities_of(document);
            &&& c.version == version
            &&& c.max_chunk_batch_items == nearest(chunks, 1, 16)
            &&& c.max_chunk_batch_bytes == nearest(bytes, 524_288, 1_450_000)
            &&& c.max_pack_index_batch_items == nearest(index, 1, 2_000)
            &&& c.max_download_batch_items == nearest(downloads, 1, 3)
            &&& c.max_retained_packs == nearest(packs, 100, 1_000)
        }),
{
    lemma_number(document, "version"@, version);
    lemma_number(document, "max_chunk_batch_items"@, chunks);
    lemma_number(document, "max_chunk_batch_bytes"@, bytes);
    lemma_number(document, "max_pack_index_batch_items"@, index);
    lemma_number(document, "max_download_batch_items"@, downloads);
    lemma_number(document, "max_retained_packs"@, packs);
}

/// A limit that a canister does not tell is the smallest that every canister has.
pub proof fn untold_limits_are_small(document: JsonModel)
    ensures
        ({
            let c = capabilities_of(document);
            &&& field(document, "version"@) is None ==> c.version == 1
            &&& field(document, "max_chunk_batch_items"@) is None ==> c.max_chunk_batch_items == 1
            &&& field(document, "max_chunk_batch_bytes"@) is None ==> c.max_chunk_batch_bytes
                == 524_288
            &&& field(document, "max_pack_index_batch_items"@) is None
                ==> c.max_pack_index_batch_items == 500
            &&& field(document, "max_download_batch_items"@) is None
                ==> c.max_download_batch_items == 1
            &&& field(document, "max_retained_packs"@) is None ==> c.max_retained_packs == 100
        }),
{
}

/// A listing of packs is read as the id of each entry that has one, with the number of its
/// indexed objects, in order; an entry without an id is passed over, and a number that is
/// not told is none.
pub proof fn listed_packs_are_read(
    entries: Seq<JsonModel>,
    entry: JsonModel,
    id: Seq<char>,
    count: usize,
)
    ensures
        packs_of(seq![]) == Seq::<(Seq<char>, usize)>::empty(),
        text_field(entry, "pack_id"@) is None ==> packs_of(entries.push(entry)) == packs_of(
            entries,
        ),
        text_field(entry, "pack_id"@) == Some(id) && tells_number(
            entry,
            "indexed_objects"@,
            count,
        ) ==> packs_of(entries.push(entry)) == packs_of(entries).push((id, count)),
        text_field(entry, "pack_id"@) == Some(id) && field(entry, "indexed_objects"@) is None
            ==> packs_of(entries.push(entry)) == packs_of(entries).push((id, 0)),
{
    assert(entries.push(entry).drop_last() =~= entries);
    if tells_number(entry, "indexed_objects"@, count) {
        lemma_number(entry, "indexed_objects"@, count);
    }
}

/// A document is a snapshot exactly where it has a list of refs, each with a name and an
/// object, a list of packs, and capabilities; and the snapshot has these.
pub proof fn snapshots_are_read_whole(
    document: JsonModel,
    entries: Seq<JsonModel>,
    refs: Seq<(Seq<char>, Seq<char>)>,
    packs: Seq<JsonModel>,
    capabilities: JsonModel,
)
    requires
        items_field(document, "refs"@) == Some(entries),
        entries.len() == refs.len(),
        forall|i: int|
            0 <= i < entries.len() ==> (#[trigger] text_field(entries[i], "name"@)) == Some(
                refs[i].0,
            ) && text_field(entries[i], "oid"@) == Some(refs[i].1),
        items_field(document, "packs"@) == Some(packs),
        field(document, "capabilities"@) == Some(capabilities),
    ensures
        snapshot_of(document) == Some(
            SnapshotModel {
                capabilities: capabilities_of(capabilities),
                refs,
                packs: packs_of(packs),
                pack_values: packs,
                raw: document,
            },
        ),
{
    assert forall|i: int| 0 <= i < entries.len() implies #[trigger] ref_of(entries[i]) == Some(
        refs[i],
    ) by {
        assert(text_field(entries[i], "name"@) == Some(refs[i].0));
    }
    assert(Seq::new(entries.len(), |i: int| ref_of(entries[i])->Some_0) =~= refs);
    assert(refs_of(entries) == Some(refs));
}

/// A document that lacks its refs, its packs or its capabilities, or in which a ref lacks its
/// name or its object, is no snapshot.
pub proof fn broken_snapshots_are_none(document: JsonModel, i: int)
    ensures
        items_field(document, "refs"@) is None ==> snapshot_of(document) is None,
        items_field(document, "packs"@) is None ==> snapshot_of(document) is None,
        field(document, "capabilities"@) is None ==> snapshot_of(document) is None,
        items_field(document, "refs"@) matches Some(entries) ==> (0 <= i < entries.len() && (
        text_field(entries[i], "name"@) is None || text_field(entries[i], "oid"@) is None)
            ==> snapshot_of(document) is None),
{
    if let Some(entries) = items_field(document, "refs"@) {
        if 0 <= i < entries.len() && (text_field(entries[i], "name"@) is None || text_field(
            entries[i],
            "oid"@,
        ) is None) {
            assert(ref_of(entries[i]) is None);
        }
    }
}

/// The arguments of the bridge are the operation, the canister, the owner and the name of the
/// repository, and the local place, in this order. Anything else is answered by how to use
/// it.
pub proof fn orders_are_read_back(
    program: Seq<char>,
    name: Seq<char>,
    canister: Seq<char>,
    owner: Seq<char>,
    repository: Seq<char>,
    place: Seq<char>,
    others: Seq<Seq<char>>,
)
    ensures
        ({
            let order = |operation: Operation| Ok::<OrderModel, Seq<char>>(
                OrderModel { operation, canister, at: (owner, repository), git_dir: place },
            );
            let read = order_of(seq![program, name, canister, owner, repository, place]);
            &&& name == "upload"@ ==> read == order(Operation::Upload)
            &&& name == "materialize"@ ==> read == order(Operation::Materialize)
            &&& name == "index-browse"@ ==> read == order(Operation::IndexBrowse)
            &&& name != "upload"@ && name != "materialize"@ && name != "index-browse"@
                ==> read is Err
        }),
        others.len() != 6 ==> order_of(others) is Err,
{
    reveal_strlit("upload");
    reveal_strlit("materialize");
    reveal_strlit("index-browse");
    assert("upload"@.len() == 6);
    assert("materialize"@.len() == 11);
    assert("index-browse"@.len() == 12);
}

/// The number of calls that run at a time is the configured one, from one to sixteen; and
/// else twice the processors, from four to twelve, but no more than there are calls and at
/// least one.
pub proof fn calls_run_at_this_pace(
    processors: usize,
    wanted: usize,
    calls: usize,
    garbage: Seq<char>,
)
    requires
        unsigned_up_to(garbage, usize::MAX as nat) is None,
        processors <= 1_000_000,
    ensures
        concurrency(Some(processors), Some(decimal(wanted as nat)), calls) == nearest(
            wanted,
            1,
            16,
        ),
        ({
            let automatic = nearest((2 * processors) as usize, 4, 12);
            let least = if calls < 1 {
                1usize
            } else if calls < automatic {
                calls
            } else {
                automatic
            };
            &&& concurrency(Some(processors), None, calls) == least
            &&& concurrency(Some(processors), Some(garbage), calls) == least
        }),
        concurrency(None, None, calls) == if calls < 1 {
            1usize
        } else if calls < 8 {
            calls
        } else {
            8
        },
{
    numerals_are_read_back(wanted as nat, usize::MAX as nat);
}

/// So many milliseconds after a time, so many have gone by; a clock that went back tells
/// none.
pub proof fn milliseconds_are_counted(from: u64, ms: nat, rest: nat)
    requires
        rest < 1_000_000,
        from + ms * 1_000_000 + rest <= u64::MAX,
    ensures
        elapsed_ms(from, (from + ms * 1_000_000 + rest) as u64) == ms,
        forall|to: u64| to < from ==> #[trigger] elapsed_ms(from, to) == 0,
{
}

// Packs and objects.

/// The number that four bytes stand for, the most significant first.
pub open spec fn four_bytes(a: u8, b: u8, c: u8, d: u8) -> nat {
    ((a as nat) * 16_777_216 + (b as nat) * 65_536 + (c as nat) * 256 + d as nat) as nat
}

/// An index with a magic number has it and its version before the table of 256 numbers, and
/// one without begins with the table. The last number of the table is the number of objects.
pub proof fn indexes_tell_their_count(
    version: Seq<u8>,
    table: Seq<u8>,
    a: u8,
    b: u8,
    c: u8,
    d: u8,
    rest: Seq<u8>,
)
    requires
        version.len() == 4,
        table.len() == 1020,
    ensures
        index_count(
            seq![255u8, 116u8, 79u8, 99u8] + version + table + seq![a, b, c, d] + rest,
        ) == Some(four_bytes(a, b, c, d)),
        table.take(4) != seq![255u8, 116u8, 79u8, 99u8] ==> index_count(
            table + seq![a, b, c, d] + rest,
        ) == Some(four_bytes(a, b, c, d)),
        index_count(table) is None,
{
    let magic = seq![255u8, 116u8, 79u8, 99u8];
    let new = magic + version + table + seq![a, b, c, d] + rest;
    assert(new.take(4) =~= magic);
    assert(new.subrange(1028, 1032) =~= seq![a, b, c, d]);
    let old = table + seq![a, b, c, d] + rest;
    assert(old.take(4) =~= table.take(4));
    assert(old.subrange(1020, 1024) =~= seq![a, b, c, d]);
}

/// What is read of a list of objects are those objects: as many as were asked for, with the
/// ids that were asked for, in order, each of a kind that there is.
pub proof fn objects_are_those_asked_for(ids: Seq<Seq<char>>, output: Seq<u8>)
    ensures
        objects_in(ids, output) matches Ok(objects) ==> objects.len() == ids.len() && forall|i: int|
            0 <= i < ids.len() ==> (#[trigger] objects[i]).oid == ids[i] && is_kind(
                objects[i].kind,
            ),
    decreases ids.len(),
{
    if ids.len() > 0 {
        if let Ok((object, length)) = object_at(ids[0], output) {
            objects_are_those_asked_for(ids.drop_first(), output.skip(length));
            if let Ok(objects) = objects_in(ids, output) {
                let rest = objects_in(ids.drop_first(), output.skip(length))->Ok_0;
                assert(objects == seq![object] + rest);
                assert forall|i: int| 0 <= i < ids.len() implies (#[trigger] objects[i]).oid
                    == ids[i] && is_kind(objects[i].kind) by {
                    if i > 0 {
                        assert(objects[i] == rest[i - 1]);
                    }
                }
            }
        }
    }
}

/// A header is refused where it is of another object, of a missing one, or of a kind that
/// there is not, and where its size is no number.
pub proof fn other_headers_are_refused(oid: Seq<char>, header: Seq<char>)
    ensures
        words(header).len() != 3 ==> object_header(oid, header) is Err,
        words(header).len() == 3 && words(header)[0] != oid ==> object_header(oid, header) is Err,
        words(header).len() == 3 && !is_kind(words(header)[1]) ==> object_header(
            oid,
            header,
        ) is Err,
        words(header).len() == 3 && unsigned_up_to(words(header)[2], usize::MAX as nat) is None
            ==> object_header(oid, header) is Err,
{
}

// Texts.

/// A name is one to 128 ASCII letters, digits, dashes, underscores and dots, with no dot at
/// either end; and any such text is a name.
pub proof fn names_are_made_of_these(s: Seq<char>)
    ensures
        atom(s) <==> {
            &&& 1 <= s.len() <= 128
            &&& s[0] != '.'
            &&& s[s.len() - 1] != '.'
            &&& forall|i: int|
                0 <= i < s.len() ==> {
                    ||| '0' <= #[trigger] s[i] <= '9'
                    ||| 'a' <= s[i] <= 'z'
                    ||| 'A' <= s[i] <= 'Z'
                    ||| s[i] == '-'
                    ||| s[i] == '_'
                    ||| s[i] == '.'
                }
        },
{
    if atom(s) {
        assert forall|i: int| 0 <= i < s.len() implies {
            ||| '0' <= #[trigger] s[i] <= '9'
            ||| 'a' <= s[i] <= 'z'
            ||| 'A' <= s[i] <= 'Z'
            ||| s[i] == '-'
            ||| s[i] == '_'
            ||| s[i] == '.'
        } by {
            assert(atom_char(s[i]));
        }
    }
}

proof fn lemma_trim_start(space: Seq<char>, s: Seq<char>)
    requires
        forall|i: int| 0 <= i < space.len() ==> white_space(#[trigger] space[i]),
        s.len() > 0,
        !white_space(s[0]),
    ensures
        trimmed_start(space + s) == s,
    decreases space.len(),
{
    if space.len() == 0 {
        assert(space + s =~= s);
    } else {
        let rest = space.drop_first();
        assert forall|i: int| 0 <= i < rest.len() implies white_space(#[trigger] rest[i]) by {
            assert(rest[i] == space[i + 1]);
        }
        lemma_trim_start(rest, s);
        assert((space + s).drop_first() =~= rest + s);
        assert(white_space(space[0]));
    }
}

proof fn lemma_trim_end(s: Seq<char>, space: Seq<char>)
    requires
        forall|i: int| 0 <= i < space.len() ==> white_space(#[trigger] space[i]),
        s.len() > 0,
        !white_space(s.last()),
    ensures
        trimmed_end(s + space) == s,
    decreases space.len(),
{
    if space.len() == 0 {
        assert(s + space =~= s);
    } else {
        let rest = space.drop_last();
        assert forall|i: int| 0 <= i < rest.len() implies white_space(#[trigger] rest[i]) by {
            assert(rest[i] == space[i]);
        }
        lemma_trim_end(s, rest);
        assert((s + space).drop_last() =~= s + rest);
        assert(white_space(space[space.len() - 1]));
    }
}

/// White space around a text is dropped, and nothing else.
pub proof fn white_space_is_trimmed(before: Seq<char>, s: Seq<char>, after: Seq<char>)
    requires
        forall|i: int| 0 <= i < before.len() ==> white_space(#[trigger] before[i]),
        forall|i: int| 0 <= i < after.len() ==> white_space(#[trigger] after[i]),
        s.len() > 0,
        !white_space(s[0]),
        !white_space(s.last()),
    ensures
        trimmed(before + s + after) == s,
{
    lemma_trim_start(before, s + after);
    assert(before + s + after =~= before + (s + after));
    lemma_trim_end(s, after);
}

/// A numeral that is read is made of digits, but for a plus sign before them.
pub proof fn only_digits_are_numbers(s: Seq<char>, max: nat)
    requires
        unsigned_up_to(s, max) is Some,
    ensures
        s.len() > 0,
        unsigned_up_to(s, max)->Some_0 <= max,
        forall|i: int| 1 <= i < s.len() ==> is_digit(#[trigger] s[i]),
        is_digit(s[0]) || s[0] == '+' && s.len() > 1,
{
    if s[0] == '+' {
        assert forall|i: int| 1 <= i < s.len() implies is_digit(#[trigger] s[i]) by {
            assert(s.skip(1)[i - 1] == s[i]);
        }
    }
}

/// The report on a phase names the operation, the phase and both times.
pub proof fn reports_name_the_phase(
    operation: Seq<char>,
    phase: Seq<char>,
    ms: nat,
    total: nat,
)
    ensures
        phase_report(operation, phase, ms, total) == "infinigit transport: operation="@ + operation
            + " phase="@ + phase + " phase_ms="@ + decimal(ms) + " total_ms="@ + decimal(total),
{
}

proof fn lemma_byte_order(common: Seq<u8>, a: Seq<u8>, b: Seq<u8>)
    ensures
        bytes_before(common + a, common + b) == bytes_before(a, b),
    decreases common.len(),
{
    if common.len() == 0 {
        assert(common + a =~= a);
        assert(common + b =~= b);
    } else {
        lemma_byte_order(common.drop_first(), a, b);
        assert((common + a).drop_first() =~= common.drop_first() + a);
        assert((common + b).drop_first() =~= common.drop_first() + b);
    }
}

/// Of two texts, the one comes first whose bytes are smaller at the first place where they
/// differ, or that ends there.
pub proof fn texts_are_ordered_by_their_bytes(
    one: Seq<char>,
    other: Seq<char>,
    common: Seq<u8>,
    x: u8,
    y: u8,
    rest: Seq<u8>,
    tail: Seq<u8>,
)
    requires
        x < y,
    ensures
        encode_utf8(one) == common + (seq![x] + rest) && encode_utf8(other) == common + (seq![y]
            + tail) ==> before(one, other) && !before(other, one),
        encode_utf8(one) == common && encode_utf8(other) == common + (seq![y] + tail) ==> before(
            one,
            other,
        ) && !before(other, one),
{
    lemma_byte_order(common, seq![x] + rest, seq![y] + tail);
    lemma_byte_order(common, seq![y] + tail, seq![x] + rest);
    let none = Seq::<u8>::empty();
    lemma_byte_order(common, none, seq![y] + tail);
    lemma_byte_order(common, seq![y] + tail, none);
    assert(common + none =~= common);
    assert((seq![x] + rest)[0] == x);
    assert((seq![y] + tail)[0] == y);
}

/// A numeral whose digits are grouped by underscores reads as its number.
pub proof fn grouped_numerals_are_read(document: JsonModel, name: Seq<char>, text: Seq<char>, n: usize)
    requires
        text_field(document, name) == Some(text),
        text.filter(|x: char| x != '_') == decimal(n as nat),
    ensures
        usize_field(document, name) == Some(n),
{
    numerals_are_read_back(n as nat, usize::MAX as nat);
}

/// A host is refused only where another one is configured and it is neither that nor the
/// production host.
pub proof fn other_hosts_are_refused(name: Seq<char>, own: Seq<char>, any: Option<Seq<char>>)
    ensures
        host_refusal(None, any) is None,
        host_refusal(Some(name), None) is None,
        host_refusal(Some("infinigit.com"@), any) is None,
        host_refusal(Some(own), Some(own)) is None,
        name != own && name != "infinigit.com"@ ==> host_refusal(Some(name), Some(own)) == Some(
            "unknown InfiniGit host: "@ + name,
        ),
{
}

/// What is no address is refused: another scheme, and names that are none, or the anonymous
/// one for an owner.
pub proof fn other_addresses_are_refused(
    url: Seq<char>,
    body: Seq<char>,
    scheme: Seq<char>,
    namespace: Seq<char>,
    repository: Seq<char>,
)
    requires
        scheme == "igit://"@,
        !namespace.contains('/'),
        !repository.contains('/'),
    ensures
        (url.len() < 6 || url.take(6) != "igit:/"@ && url.take(6) != "igit::"@) ==> remote_of(
            url,
        ) is Err,
        !atom(namespace) || namespace == "2vxsx-fae"@ || !atom(repository) ==> remote_of(
            scheme + (namespace + seq!['/'] + repository),
        ) is Err,
{
    reveal_strlit("igit://");
    reveal_strlit("igit::");
    reveal_strlit("igit:/");
    if url.len() < 6 || url.take(6) != "igit:/"@ && url.take(6) != "igit::"@ {
        if has_prefix(url, "igit://"@) {
            assert(url.subrange(0, 7) == "igit://"@);
            assert(url.take(6) =~= "igit://"@.take(6));
            assert("igit://"@.take(6) =~= "igit:/"@);
        }
        if has_prefix(url, "igit::"@) {
            assert(url.subrange(0, 6) == "igit::"@);
            assert(url.take(6) =~= "igit::"@);
        }
    }
    let address = scheme + (namespace + seq!['/'] + repository);
    let parts = seq![namespace, repository];
    assert(parts.drop_last() =~= seq![namespace]);
    assert(joined(parts.drop_last(), seq!['/']) == namespace);
    assert(joined(parts, seq!['/']) =~= namespace + seq!['/'] + repository);
    assert forall|i: int| 0 <= i < parts.len() implies !(#[trigger] parts[i]).contains('/') by {}
    joined_resplits(parts, '/');
    assert(address.subrange(0, 7) =~= "igit://"@);
    assert(after_prefix(address, "igit://"@) =~= namespace + seq!['/'] + repository);
}

/// A hexadecimal digit, of either case.
pub open spec fn is_hex(c: char) -> bool {
    '0' <= c <= '9' || 'a' <= c <= 'f' || 'A' <= c <= 'F'
}

/// All characters of a text are hexadecimal digits.
pub open spec fn all_hex(s: Seq<char>) -> bool {
    forall|i: int| 0 <= i < s.len() ==> is_hex(#[trigger] s[i])
}

/// A generation is 64 hexadecimal digits, and an object id forty.
pub proof fn ids_are_hexadecimal(s: Seq<char>)
    ensures
        generation(s) <==> s.len() == 64 && all_hex(s),
        object_id(s) <==> s.len() == 40 && all_hex(s),
{
    if generation(s) || object_id(s) {
        assert forall|i: int| 0 <= i < s.len() implies is_hex(#[trigger] s[i]) by {
            assert(is_hex_digit(s[i]));
        }
    }
    if all_hex(s) {
        assert forall|i: int| 0 <= i < s.len() implies is_hex_digit(#[trigger] s[i]) by {
            assert(is_hex(s[i]));
        }
    }
}

/// A session is called by ASCII letters, digits and dashes, at least one.
pub proof fn sessions_are_named_by_these(s: Seq<char>)
    ensures
        session_name(s) <==> s.len() > 0 && forall|i: int|
            0 <= i < s.len() ==> {
                ||| '0' <= #[trigger] s[i] <= '9'
                ||| 'a' <= s[i] <= 'z'
                ||| 'A' <= s[i] <= 'Z'
                ||| s[i] == '-'
            },
{
}

/// A session in the environment counts where its name can be one.
pub proof fn only_named_sessions_count(name: Seq<char>, bytes: Seq<u8>)
    ensures
        named_session(None) is None,
        session_name(name) ==> named_session(Some(name)) == Some(name),
        !session_name(name) ==> named_session(Some(name)) is None,
        found_document(None) is None,
        json_document(bytes) is Err ==> found_document(Some(bytes)) is None,
        json_document(bytes) matches Ok(document) ==> found_document(Some(bytes)) == Some(document),
{
}

} // verus!
