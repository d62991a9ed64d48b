//! Git objects: which of them a canister lacks, and their contents.
use vstd::prelude::*;
use vstd::slice::{slice_subrange, slice_to_vec};
use vstd::utf8::{
    decode_utf8, encode_utf8, encode_utf8_decode_utf8, encode_utf8_valid_utf8, is_ascii_chars,
    is_ascii_chars_encode_utf8, valid_utf8,
};

use crate::action::{
    address, address_text, call_models, quote_range, quoted, reject, rejection, vector, vector_text,
    Action, ActionModel, Call, CallModel, Repository,
};
use crate::chunk::{chunk_ranges, chunks, cuts_model, ranges};
use crate::json::{items_field, models_are_memberwise, text_value, Json, JsonModel};
use crate::order::{increasing, same_members, sorted_members, sorted_unique};
use crate::refs::pairs;
use crate::text::{
    decimal, is_digit, lines, lossy, lossy_text, numerals_are_digits, numerals_are_read_back,
    parse_usize, same_text, solid, text_lines, text_words, texts, three_words_are_read_back,
    unsigned_up_to, utf8_text, white_space, words,
};

verus! {

/// The ids in a listing of objects: the first word of each line that has one.
pub open spec fn listed_ids(listing: Seq<Seq<char>>) -> Seq<Seq<char>>
    decreases listing.len(),
{
    if listing.len() == 0 {
        seq![]
    } else {
        let front = listed_ids(listing.drop_last());
        let parts = words(listing.last());
        if parts.len() == 0 {
            front
        } else {
            front.push(parts[0])
        }
    }
}

/// The ids in a listing of objects, in order and without repeats.
pub open spec fn object_ids(listing: Seq<char>) -> Seq<Seq<char>> {
    sorted_members(listed_ids(lines(listing)))
}

/// Reads the ids in a listing of objects.
pub fn ids_in_listing(listing: &str) -> (ids: Vec<String>)
    ensures
        texts(ids@) == object_ids(listing@),
        increasing(texts(ids@)),
        same_members(texts(ids@), listed_ids(lines(listing@))),
{
    let list = text_lines(listing);
    let ghost all = texts(list@);
    let mut ids: Vec<String> = Vec::new();
    let mut i: usize = 0;
    assert(texts(ids@) =~= listed_ids(all.take(0)));
    while i < list.len()
        invariant
            i <= list@.len(),
            all == texts(list@),
            texts(ids@) == listed_ids(all.take(i as int)),
        decreases list.len() - i,
    {
        let ghost done = texts(ids@);
        assert(all.take(i + 1).drop_last() =~= all.take(i as int));
        assert(all.take(i + 1).last() == list@[i as int]@);
        let parts = text_words(list[i].as_str());
        if parts.len() > 0 {
            let id = parts[0].clone();
            assert(id@ == texts(parts@)[0]);
            let ghost t = id@;
            ids.push(id);
            assert(texts(ids@) =~= done.push(t));
        }
        i += 1;
    }
    assert(all.take(all.len() as int) =~= all);
    sorted_unique(&ids)
}

/// Reads the ids of the objects that git lists.
pub fn all_object_ids(output: &[u8]) -> (ids: Vec<String>)
    ensures
        texts(ids@) == object_ids(lossy(output@)),
        increasing(texts(ids@)),
{
    ids_in_listing(lossy_text(output).as_str())
}

/// The object ids of a list of refs.
pub open spec fn oids(refs: Seq<(Seq<char>, Seq<char>)>) -> Seq<Seq<char>> {
    Seq::new(refs.len(), |i: int| refs[i].1)
}

/// The arguments with which git lists the objects that the refs `desired` reach and the
/// refs `expected` do not.
pub open spec fn changed_object_arguments(
    expected: Seq<(Seq<char>, Seq<char>)>,
    desired: Seq<(Seq<char>, Seq<char>)>,
) -> Seq<Seq<char>> {
    let wanted = seq!["rev-list"@, "--objects"@] + sorted_members(oids(desired));
    if expected.len() == 0 {
        wanted
    } else {
        wanted + seq!["--not"@] + sorted_members(oids(expected))
    }
}

fn sorted_oids(refs: &Vec<(String, String)>) -> (ids: Vec<String>)
    ensures
        texts(ids@) == sorted_members(oids(pairs(refs@))),
{
    let ghost all = oids(pairs(refs@));
    let mut ids: Vec<String> = Vec::new();
    let mut i: usize = 0;
    while i < refs.len()
        invariant
            i <= refs@.len(),
            all == oids(pairs(refs@)),
            ids@.len() == i,
            forall|k: int| 0 <= k < i ==> #[trigger] ids@[k]@ == all[k],
        decreases refs.len() - i,
    {
        ids.push(refs[i].1.clone());
        i += 1;
    }
    assert(texts(ids@) =~= all);
    sorted_unique(&ids)
}

/// Appends copies of texts.
pub fn append_texts(list: &mut Vec<String>, more: &Vec<String>)
    ensures
        texts(final(list)@) == texts(old(list)@) + texts(more@),
{
    let ghost start = texts(list@);
    let ghost all = texts(more@);
    let mut i: usize = 0;
    assert(texts(list@) =~= start + all.take(0));
    while i < more.len()
        invariant
            i <= more@.len(),
            all == texts(more@),
            texts(list@) == start + all.take(i as int),
        decreases more.len() - i,
    {
        let ghost done = texts(list@);
        list.push(more[i].clone());
        assert(texts(list@) =~= done.push(all[i as int]));
        assert(texts(list@) =~= start + all.take(i + 1));
        i += 1;
    }
    assert(all.take(all.len() as int) =~= all);
}

/// Writes the arguments with which git lists the changed objects.
pub fn changed_object_ids(
    expected: &Vec<(String, String)>,
    desired: &Vec<(String, String)>,
) -> (arguments: Vec<String>)
    ensures
        texts(arguments@) == changed_object_arguments(pairs(expected@), pairs(desired@)),
{
    let mut arguments: Vec<String> = Vec::new();
    arguments.push("rev-list".to_owned());
    arguments.push("--objects".to_owned());
    assert(texts(arguments@) =~= seq!["rev-list"@, "--objects"@]);
    append_texts(&mut arguments, &sorted_oids(desired));
    if expected.len() > 0 {
        let ghost wanted = texts(arguments@);
        arguments.push("--not".to_owned());
        assert(texts(arguments@) =~= wanted + seq!["--not"@]);
        append_texts(&mut arguments, &sorted_oids(expected));
    }
    arguments
}

/// The number of ids that one question for missing objects may name.
pub const MISSING_BATCH: usize = 500;

/// A truth value as a Candid argument.
pub open spec fn bool_text(b: bool) -> Seq<char> {
    if b {
        "true"@
    } else {
        "false"@
    }
}

/// The question which of `ids` a canister lacks.
pub open spec fn missing_question(
    at: (Seq<char>, Seq<char>),
    ids: Seq<Seq<char>>,
    browse_only: bool,
) -> CallModel {
    CallModel {
        method: "missing_objects"@,
        argument: address(at) + ", "@ + vector(quoted(ids)) + ", "@ + bool_text(browse_only)
            + ")"@,
    }
}

/// The questions which of `ids` a canister lacks.
pub open spec fn missing_questions(
    at: (Seq<char>, Seq<char>),
    ids: Seq<Seq<char>>,
    browse_only: bool,
) -> Seq<CallModel> {
    let batches = chunks(ids, MISSING_BATCH as nat);
    Seq::new(batches.len(), |i: int| missing_question(at, batches[i], browse_only))
}

/// Writes the questions which of `ids` a canister lacks.
pub fn missing_objects(at: &Repository, ids: &Vec<String>, browse_only: bool) -> (calls: Vec<Call>)
    ensures
        call_models(calls@) == missing_questions(at@, texts(ids@), browse_only),
{
    let ghost all = texts(ids@);
    let cuts = chunk_ranges(ids.len(), MISSING_BATCH);
    let mut calls: Vec<Call> = Vec::new();
    let mut i: usize = 0;
    while i < cuts.len()
        invariant
            i <= cuts@.len(),
            all == texts(ids@),
            cuts_model(cuts@) == ranges(0, all.len(), MISSING_BATCH as nat),
            forall|k: int|
                0 <= k < cuts@.len() ==> (#[trigger] cuts@[k]).0 < cuts@[k].1 <= ids@.len(),
            calls@.len() == i,
            forall|k: int|
                0 <= k < i ==> #[trigger] calls@[k]@ == missing_question(
                    at@,
                    chunks(all, MISSING_BATCH as nat)[k],
                    browse_only,
                ),
        decreases cuts.len() - i,
    {
        let (from, to) = cuts[i];
        assert(cuts_model(cuts@)[i as int] == (from as nat, to as nat));
        let batch = quote_range(ids, from, to);
        let mut argument = address_text(at);
        argument.append(", ");
        argument.append(vector_text(&batch).as_str());
        argument.append(", ");
        argument.append(
            if browse_only {
                "true"
            } else {
                "false"
            },
        );
        argument.append(")");
        calls.push(Call { method: "missing_objects".to_owned(), argument });
        i += 1;
    }
    assert(call_models(calls@) =~= missing_questions(at@, all, browse_only));
    calls
}

/// The texts of a list of documents, if each is one.
pub open spec fn texts_of(items: Seq<JsonModel>) -> Option<Seq<Seq<char>>> {
    if forall|i: int| 0 <= i < items.len() ==> (#[trigger] text_value(items[i])) is Some {
        Some(Seq::new(items.len(), |i: int| text_value(items[i])->Some_0))
    } else {
        None
    }
}

/// Reads the texts of a list of documents.
pub fn read_texts(items: &Vec<Json>) -> (r: Option<Vec<String>>)
    ensures
        match r {
            Some(list) => texts_of(Json::models(items@)) == Some(texts(list@)),
            None => texts_of(Json::models(items@)) is None,
        },
{
    let ghost models = Json::models(items@);
    proof {
        models_are_memberwise(items@);
    }
    let mut list: Vec<String> = Vec::new();
    let mut i: usize = 0;
    while i < items.len()
        invariant
            i <= items@.len(),
            models == Json::models(items@),
            models == Seq::new(items@.len(), |k: int| items@[k]@),
            list@.len() == i,
            forall|k: int| 0 <= k < i ==> #[trigger] text_value(models[k]) == Some(list@[k]@),
        decreases items.len() - i,
    {
        assert(models[i as int] == items@[i as int]@);
        match items[i].as_str() {
            Some(text) => {
                list.push(text.to_owned());
                assert(text_value(models[i as int]) == Some(list@[i as int]@));
            },
            None => {
                assert(text_value(models[i as int]) is None);
                return None;
            },
        }
        i += 1;
    }
    assert(texts(list@) =~= Seq::new(models.len(), |k: int| text_value(models[k])->Some_0)) by {
        assert forall|k: int| 0 <= k < models.len() implies #[trigger] texts(list@)[k]
            == text_value(models[k])->Some_0 by {}
    }
    Some(list)
}

/// The missing objects that the answers name, one answer after the other; or what a
/// rejection or a malformed answer means.
pub open spec fn missing_answers(replies: Seq<JsonModel>) -> Result<Seq<Seq<char>>, ActionModel>
    decreases replies.len(),
{
    if replies.len() == 0 {
        Ok(seq![])
    } else {
        match missing_answers(replies.drop_last()) {
            Err(action) => Err(action),
            Ok(front) => match items_field(replies.last(), "ok"@) {
                None => Err(rejection("object negotiation rejected: "@, replies.last())),
                Some(items) => match texts_of(items) {
                    Some(ids) => Ok(front + ids),
                    None => Err(ActionModel::Abort("a missing object has no id"@)),
                },
            },
        }
    }
}

/// Reads the answers to the questions for missing objects.
pub fn read_missing(replies: &Vec<Json>) -> (r: Result<Vec<String>, Action>)
    ensures
        match r {
            Ok(ids) => missing_answers(Json::models(replies@)) == Ok::<
                Seq<Seq<char>>,
                ActionModel,
            >(texts(ids@)),
            Err(action) => missing_answers(Json::models(replies@)) == Err::<
                Seq<Seq<char>>,
                ActionModel,
            >(action@),
        },
{
    let ghost models = Json::models(replies@);
    proof {
        models_are_memberwise(replies@);
    }
    let mut missing: Vec<String> = Vec::new();
    let mut i: usize = 0;
    assert(texts(missing@) =~= seq![]);
    assert(models.take(models.len() as int) =~= models);
    while i < replies.len()
        invariant
            i <= replies@.len(),
            models == Json::models(replies@),
            models == Seq::new(replies@.len(), |k: int| replies@[k]@),
            missing_answers(models.take(i as int)) == Ok::<Seq<Seq<char>>, ActionModel>(
                texts(missing@),
            ),
        decreases replies.len() - i,
    {
        let reply = &replies[i];
        let ghost next = models.take(i + 1);
        assert(next.drop_last() =~= models.take(i as int));
        assert(next.last() == reply@);
        let found = match reply.array_at("ok") {
            None => Err(reject("object negotiation rejected: ", reply)),
            Some(items) => match read_texts(items) {
                Some(ids) => Ok(ids),
                None => Err(Action::Abort("a missing object has no id".to_owned())),
            },
        };
        match found {
            Ok(ids) => append_texts(&mut missing, &ids),
            Err(action) => {
                proof {
                    lemma_missing_fails(models, i + 1, action@);
                }
                return Err(action);
            },
        }
        i += 1;
    }
    assert(models.take(models.len() as int) =~= models);
    Ok(missing)
}

proof fn lemma_missing_fails(replies: Seq<JsonModel>, n: int, action: ActionModel)
    requires
        0 <= n <= replies.len(),
        missing_answers(replies.take(n)) == Err::<Seq<Seq<char>>, ActionModel>(action),
    ensures
        missing_answers(replies) == Err::<Seq<Seq<char>>, ActionModel>(action),
    decreases replies.len() - n,
{
    if n == replies.len() {
        assert(replies.take(n) =~= replies);
    } else {
        assert(replies.take(n + 1).drop_last() =~= replies.take(n));
        lemma_missing_fails(replies, n + 1, action);
    }
}

/// A git object.
#[derive(Debug)]
pub struct GitObject {
    pub oid: String,
    pub kind: String,
    pub payload: Vec<u8>,
}

/// The model of a git object.
pub struct ObjectModel {
    pub oid: Seq<char>,
    pub kind: Seq<char>,
    pub payload: Seq<u8>,
}

impl View for GitObject {
    type V = ObjectModel;

    open spec fn view(&self) -> ObjectModel {
        ObjectModel { oid: self.oid@, kind: self.kind@, payload: self.payload@ }
    }
}

/// The models of a list of objects.
pub open spec fn object_models(objects: Seq<GitObject>) -> Seq<ObjectModel> {
    Seq::new(objects.len(), |i: int| objects[i]@)
}

/// A kind of git object.
pub open spec fn object_kind(kind: Seq<char>) -> bool {
    kind == "blob"@ || kind == "tree"@ || kind == "commit"@ || kind == "tag"@
}

/// Whether `kind` is a kind of git object.
pub fn is_object_kind(kind: &str) -> (r: bool)
    ensures
        r == object_kind(kind@),
{
    same_text(kind, "blob") || same_text(kind, "tree") || same_text(kind, "commit") || same_text(
        kind,
        "tag",
    )
}

/// The length of the first line of `bytes`, with its line feed.
pub open spec fn line_length(bytes: Seq<u8>) -> int {
    match bytes.index_of_first(10) {
        Some(i) => i + 1,
        None => bytes.len() as int,
    }
}

/// The kind and the size that a header announces for the object `oid`.
pub open spec fn object_header(oid: Seq<char>, header: Seq<char>) -> Result<
    (Seq<char>, usize),
    Seq<char>,
> {
    let fields = words(header);
    if fields.len() != 3 || fields[0] != oid || fields[1] == "missing"@ {
        Err("invalid git cat-file response for "@ + oid + ": "@ + header)
    } else if !object_kind(fields[1]) {
        Err("unsupported browse object type: "@ + fields[1])
    } else {
        match unsigned_up_to(fields[2], usize::MAX as nat) {
            Some(size) => Ok((fields[1], size as usize)),
            None => Err("invalid git object size: "@ + fields[2]),
        }
    }
}

/// The object `oid` at the beginning of `bytes`, and the number of bytes that it takes.
pub open spec fn object_at(oid: Seq<char>, bytes: Seq<u8>) -> Result<
    (ObjectModel, int),
    Seq<char>,
> {
    let start = line_length(bytes);
    if !valid_utf8(bytes.take(start)) {
        Err("cannot read git cat-file header: stream did not contain valid UTF-8"@)
    } else {
        match object_header(oid, decode_utf8(bytes.take(start))) {
            Err(message) => Err(message),
            Ok((kind, size)) => if bytes.len() - start < size {
                Err("cannot read git object: failed to fill whole buffer"@)
            } else if bytes.len() - start == size {
                Err("cannot read git object terminator: failed to fill whole buffer"@)
            } else if bytes[start + size] != 10 {
                Err("invalid git cat-file object terminator"@)
            } else {
                Ok(
                    (
                        ObjectModel { oid, kind, payload: bytes.subrange(start, start + size) },
                        start + size + 1,
                    ),
                )
            },
        }
    }
}

/// The objects `ids` that stand one after the other in `bytes`.
pub open spec fn objects_in(ids: Seq<Seq<char>>, bytes: Seq<u8>) -> Result<
    Seq<ObjectModel>,
    Seq<char>,
>
    decreases ids.len(),
{
    if ids.len() == 0 {
        Ok(seq![])
    } else {
        match object_at(ids[0], bytes) {
            Err(message) => Err(message),
            Ok((object, length)) => match objects_in(ids.drop_first(), bytes.skip(length)) {
                Err(message) => Err(message),
                Ok(rest) => Ok(seq![object] + rest),
            },
        }
    }
}

fn first_line_length(bytes: &[u8], from: usize) -> (n: usize)
    requires
        from <= bytes@.len(),
    ensures
        n == line_length(bytes@.skip(from as int)),
        from + n <= bytes.len(),
{
    let ghost rest = bytes@.skip(from as int);
    let mut i: usize = from;
    while i < bytes.len()
        invariant
            from <= i <= bytes@.len(),
            rest == bytes@.skip(from as int),
            forall|k: int| 0 <= k < i - from ==> rest[k] != 10,
        decreases bytes.len() - i,
    {
        assert(rest[i - from] == bytes@[i as int]);
        if bytes[i] == 10 {
            proof {
                rest.index_of_first_ensures(10);
            }
            return i - from + 1;
        }
        i += 1;
    }
    proof {
        rest.index_of_first_ensures(10);
    }
    bytes.len() - from
}

/// Reads a header of `git cat-file --batch`.
pub fn read_object_header(oid: &str, header: &str) -> (r: Result<(String, usize), String>)
    ensures
        match r {
            Ok((kind, size)) => object_header(oid@, header@) == Ok::<
                (Seq<char>, usize),
                Seq<char>,
            >((kind@, size)),
            Err(message) => object_header(oid@, header@) == Err::<(Seq<char>, usize), Seq<char>>(
                message@,
            ),
        },
{
    let fields = text_words(header);
    let ghost model = texts(fields@);
    if fields.len() != 3 || !same_text(fields[0].as_str(), oid) || same_text(
        fields[1].as_str(),
        "missing",
    ) {
        let mut message = "invalid git cat-file response for ".to_owned();
        message.append(oid);
        message.append(": ");
        message.append(header);
        return Err(message);
    }
    assert(model[0] == fields@[0]@ && model[1] == fields@[1]@ && model[2] == fields@[2]@);
    let kind = fields[1].clone();
    if !is_object_kind(kind.as_str()) {
        let mut message = "unsupported browse object type: ".to_owned();
        message.append(kind.as_str());
        return Err(message);
    }
    match parse_usize(fields[2].as_str()) {
        Some(size) => Ok((kind, size)),
        None => {
            let mut message = "invalid git object size: ".to_owned();
            message.append(fields[2].as_str());
            Err(message)
        },
    }
}

fn read_object(oid: &str, bytes: &[u8], from: usize) -> (r: Result<(GitObject, usize), String>)
    requires
        from <= bytes@.len(),
    ensures
        match r {
            Ok((object, length)) => {
                &&& object_at(oid@, bytes@.skip(from as int)) == Ok::<
                    (ObjectModel, int),
                    Seq<char>,
                >((object@, length as int))
                &&& from + length <= bytes.len()
            },
            Err(message) => object_at(oid@, bytes@.skip(from as int)) == Err::<
                (ObjectModel, int),
                Seq<char>,
            >(message@),
        },
{
    let ghost rest = bytes@.skip(from as int);
    let start = first_line_length(bytes, from);
    let line = slice_subrange(bytes, from, from + start);
    assert(line@ =~= rest.take(start as int));
    let header = match utf8_text(line) {
        Some(header) => header,
        None => return Err(
            "cannot read git cat-file header: stream did not contain valid UTF-8".to_owned(),
        ),
    };
    let (kind, size) = match read_object_header(oid, header.as_str()) {
        Ok(announced) => announced,
        Err(message) => return Err(message),
    };
    let body = from + start;
    if bytes.len() - body < size {
        return Err("cannot read git object: failed to fill whole buffer".to_owned());
    }
    if bytes.len() - body == size {
        return Err("cannot read git object terminator: failed to fill whole buffer".to_owned());
    }
    assert(rest[start + size] == bytes@[body + size]);
    if bytes[body + size] != 10 {
        return Err("invalid git cat-file object terminator".to_owned());
    }
    let payload = slice_to_vec(slice_subrange(bytes, body, body + size));
    assert(payload@ =~= rest.subrange(start as int, start + size));
    Ok((GitObject { oid: oid.to_owned(), kind, payload }, start + size + 1))
}

proof fn lemma_objects_done(
    ids: Seq<Seq<char>>,
    bytes: Seq<u8>,
    done: Seq<ObjectModel>,
    rest_ids: Seq<Seq<char>>,
    rest: Seq<u8>,
    object: ObjectModel,
    length: int,
)
    requires
        rest_ids.len() > 0,
        0 <= length <= rest.len(),
        object_at(rest_ids[0], rest) == Ok::<(ObjectModel, int), Seq<char>>((object, length)),
        objects_in(ids, bytes) == prefixed(done, objects_in(rest_ids, rest)),
    ensures
        objects_in(ids, bytes) == prefixed(
            done.push(object),
            objects_in(rest_ids.drop_first(), rest.skip(length)),
        ),
{
    let tail = objects_in(rest_ids.drop_first(), rest.skip(length));
    if tail is Ok {
        assert(done + (seq![object] + tail->Ok_0) =~= done.push(object) + tail->Ok_0);
    }
}

/// A result with more objects in front.
pub open spec fn prefixed(
    front: Seq<ObjectModel>,
    rest: Result<Seq<ObjectModel>, Seq<char>>,
) -> Result<Seq<ObjectModel>, Seq<char>> {
    match rest {
        Ok(objects) => Ok(front + objects),
        Err(message) => Err(message),
    }
}

/// Reads the objects `ids` from what `git cat-file --batch` prints for them.
pub fn read_git_objects(ids: &Vec<String>, output: &[u8]) -> (r: Result<Vec<GitObject>, String>)
    ensures
        match r {
            Ok(objects) => objects_in(texts(ids@), output@) == Ok::<Seq<ObjectModel>, Seq<char>>(
                object_models(objects@),
            ),
            Err(message) => objects_in(texts(ids@), output@) == Err::<
                Seq<ObjectModel>,
                Seq<char>,
            >(message@),
        },
{
    let ghost all = texts(ids@);
    let mut objects: Vec<GitObject> = Vec::new();
    let mut at: usize = 0;
    let mut i: usize = 0;
    assert(all.skip(0) =~= all);
    assert(output@.skip(0) =~= output@);
    proof {
        let tail = objects_in(all, output@);
        if tail is Ok {
            assert(object_models(objects@) + tail->Ok_0 =~= tail->Ok_0);
        }
    }
    while i < ids.len()
        invariant
            i <= ids@.len(),
            all == texts(ids@),
            at <= output@.len(),
            objects_in(all, output@) == prefixed(
                object_models(objects@),
                objects_in(all.skip(i as int), output@.skip(at as int)),
            ),
        decreases ids.len() - i,
    {
        assert(all.skip(i as int)[0] == ids@[i as int]@);
        match read_object(ids[i].as_str(), output, at) {
            Ok((object, length)) => {
                let ghost done = object_models(objects@);
                let ghost o = object@;
                proof {
                    lemma_objects_done(
                        all,
                        output@,
                        done,
                        all.skip(i as int),
                        output@.skip(at as int),
                        o,
                        length as int,
                    );
                    assert(all.skip(i as int).drop_first() =~= all.skip(i + 1));
                    assert(output@.skip(at as int).skip(length as int) =~= output@.skip(
                        at + length,
                    ));
                }
                objects.push(object);
                assert(object_models(objects@) =~= done.push(o));
                at = at + length;
            },
            Err(message) => return Err(message),
        }
        i += 1;
    }
    assert(object_models(objects@) + Seq::<ObjectModel>::empty() =~= object_models(objects@));
    Ok(objects)
}

/// An object as git can print it: an id in ASCII without white space, and one of the
/// kinds.
pub open spec fn printable(object: ObjectModel) -> bool {
    &&& object.oid.len() > 0
    &&& solid(object.oid)
    &&& is_ascii_chars(object.oid)
    &&& object_kind(object.kind)
    &&& object.payload.len() <= usize::MAX
}

/// The header that git prints before an object.
pub open spec fn printed_header(object: ObjectModel) -> Seq<char> {
    (((object.oid.push(' ') + object.kind).push(' ')) + decimal(object.payload.len())).push('\n')
}

/// What git prints for an object.
pub open spec fn printed_object(object: ObjectModel) -> Seq<u8> {
    encode_utf8(printed_header(object)) + object.payload + seq![10u8]
}

/// What git prints for a list of objects.
pub open spec fn printed_objects(objects: Seq<ObjectModel>) -> Seq<u8>
    decreases objects.len(),
{
    if objects.len() == 0 {
        seq![]
    } else {
        printed_object(objects[0]) + printed_objects(objects.drop_first())
    }
}

/// The ids of a list of objects.
pub open spec fn printed_ids(objects: Seq<ObjectModel>) -> Seq<Seq<char>> {
    Seq::new(objects.len(), |i: int| objects[i].oid)
}

proof fn lemma_kind(kind: Seq<char>)
    requires
        object_kind(kind),
    ensures
        kind.len() > 0,
        solid(kind),
        is_ascii_chars(kind),
        kind != "missing"@,
{
    reveal_strlit("blob");
    reveal_strlit("tree");
    reveal_strlit("commit");
    reveal_strlit("tag");
    reveal_strlit("missing");
    assert("missing"@.len() == 7);
    assert("blob"@ =~= seq!['b', 'l', 'o', 'b']);
    assert("tree"@ =~= seq!['t', 'r', 'e', 'e']);
    assert("commit"@ =~= seq!['c', 'o', 'm', 'm', 'i', 't']);
    assert("tag"@ =~= seq!['t', 'a', 'g']);
}

proof fn lemma_header(object: ObjectModel)
    requires
        printable(object),
    ensures
        is_ascii_chars(printed_header(object)),
        printed_header(object).last() == '\n',
        forall|i: int|
            0 <= i < printed_header(object).len() - 1 ==> #[trigger] printed_header(object)[i]
                != '\n',
        object_header(object.oid, printed_header(object)) == Ok::<(Seq<char>, usize), Seq<char>>(
            (object.kind, object.payload.len() as usize),
        ),
{
    let size = decimal(object.payload.len());
    lemma_kind(object.kind);
    numerals_are_digits(object.payload.len());
    numerals_are_read_back(object.payload.len(), usize::MAX as nat);
    assert(solid(size)) by {
        assert forall|i: int| 0 <= i < size.len() implies !white_space(#[trigger] size[i]) by {
            assert(is_digit(size[i]));
        }
    }
    three_words_are_read_back(object.oid, object.kind, size, ' ', ' ', '\n');
    let header = printed_header(object);
    assert forall|i: int| 0 <= i < header.len() - 1 implies #[trigger] header[i] != '\n' && '\0'
        <= header[i] <= '\u{7f}' by {
        let a = object.oid.len();
        let b = object.kind.len();
        if i < a {
            assert(header[i] == object.oid[i]);
            assert(!white_space(object.oid[i]));
        } else if a < i < a + 1 + b {
            assert(header[i] == object.kind[i - a - 1]);
            assert(!white_space(object.kind[i - a - 1]));
        } else if i > a + b + 1 {
            assert(header[i] == size[i - a - b - 2]);
            assert(is_digit(size[i - a - b - 2]));
        }
    }
}

proof fn lemma_printed_object(object: ObjectModel, rest: Seq<u8>)
    requires
        printable(object),
    ensures
        object_at(object.oid, printed_object(object) + rest) == Ok::<
            (ObjectModel, int),
            Seq<char>,
        >((object, printed_object(object).len() as int)),
{
    let header = printed_header(object);
    let bytes = printed_object(object) + rest;
    lemma_header(object);
    is_ascii_chars_encode_utf8(header);
    let n = header.len() as int;
    assert(bytes.take(n) =~= encode_utf8(header));
    encode_utf8_valid_utf8(header);
    encode_utf8_decode_utf8(header);
    assert forall|i: int| 0 <= i < n - 1 implies bytes[i] != 10 by {
        assert(bytes[i] == encode_utf8(header)[i]);
        assert(header[i] as u8 == encode_utf8(header)[i]);
        assert(header[i] != '\n');
    }
    assert(bytes[n - 1] == 10) by {
        assert(bytes[n - 1] == encode_utf8(header)[n - 1]);
        assert(header[n - 1] as u8 == encode_utf8(header)[n - 1]);
    }
    bytes.index_of_first_ensures(10);
    assert(bytes.contains(10)) by {
        assert(bytes[n - 1] == 10);
    }
    assert(line_length(bytes) == n);
    let size = object.payload.len() as int;
    assert(bytes[n + size] == 10);
    assert(bytes.subrange(n, n + size) =~= object.payload);
}

/// What git prints for a list of objects is read back, whatever bytes they hold.
pub proof fn printed_objects_are_read_back(objects: Seq<ObjectModel>)
    requires
        forall|i: int| 0 <= i < objects.len() ==> printable(#[trigger] objects[i]),
    ensures
        objects_in(printed_ids(objects), printed_objects(objects)) == Ok::<
            Seq<ObjectModel>,
            Seq<char>,
        >(objects),
    decreases objects.len(),
{
    let ids = printed_ids(objects);
    if objects.len() == 0 {
        assert(ids =~= seq![]);
        assert(objects =~= seq![]);
    } else {
        let rest = objects.drop_first();
        assert forall|i: int| 0 <= i < rest.len() implies printable(#[trigger] rest[i]) by {
            assert(rest[i] == objects[i + 1]);
        }
        printed_objects_are_read_back(rest);
        lemma_printed_object(objects[0], printed_objects(rest));
        assert(ids[0] == objects[0].oid);
        assert(ids.drop_first() =~= printed_ids(rest));
        let bytes = printed_objects(objects);
        assert(bytes.skip(printed_object(objects[0]).len() as int) =~= printed_objects(rest));
        assert(seq![objects[0]] + rest =~= objects);
    }
}

} // verus!
