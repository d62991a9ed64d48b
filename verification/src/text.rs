//! Text primitives: comparison, splitting, numerals and joining.
//!
//! Text is modelled as a sequence of characters. Everything here walks its
//! input once, so it is usable on listings of many thousand lines.
use vstd::prelude::*;
use vstd::utf8::{decode_utf8, encode_utf8, valid_utf8};

verus! {

broadcast use vstd::utf8::encode_utf8_decode_utf8;

/// `String::push`: appends one character to the end of the text.
pub assume_specification[ String::push ](text: &mut String, c: char)
    ensures
        final(text)@ == old(text)@.push(c),
;

/// The texts of a list of strings.
pub open spec fn texts(list: Seq<String>) -> Seq<Seq<char>> {
    Seq::new(list.len(), |i: int| list[i]@)
}

/// The model of an optional text.
pub open spec fn maybe_text(text: Option<&str>) -> Option<Seq<char>> {
    match text {
        Some(t) => Some(t@),
        None => None,
    }
}

/// The model of an optional text.
pub open spec fn maybe_string(text: Option<String>) -> Option<Seq<char>> {
    match text {
        Some(t) => Some(t@),
        None => None,
    }
}

/// The characters of `text`, ready for indexed access.
pub fn chars_of(text: &str) -> (chars: Vec<char>)
    ensures
        chars@ == text@,
{
    let mut chars: Vec<char> = Vec::new();
    for c in it: text.chars()
        invariant
            chars@ == it.seq().take(it.index() as int),
            it.seq() == text@,
    {
        chars.push(c);
    }
    assert(chars@ =~= text@);
    chars
}

/// The text made of `chars[from..to]`.
pub fn text_of(chars: &[char], from: usize, to: usize) -> (text: String)
    requires
        from <= to <= chars@.len(),
    ensures
        text@ == chars@.subrange(from as int, to as int),
{
    let mut text = String::new();
    let mut i: usize = from;
    while i < to
        invariant
            from <= i <= to <= chars@.len(),
            text@ == chars@.subrange(from as int, i as int),
        decreases to - i,
    {
        text.push(chars[i]);
        assert(chars@.subrange(from as int, i + 1) =~= chars@.subrange(from as int, i as int).push(
            chars@[i as int],
        ));
        i += 1;
    }
    text
}

/// Whether two byte strings are equal.
fn same_bytes(a: &[u8], b: &[u8]) -> (same: bool)
    ensures
        same == (a@ == b@),
{
    if a.len() != b.len() {
        return false;
    }
    let mut i: usize = 0;
    while i < a.len()
        invariant
            i <= a@.len(),
            a@.len() == b@.len(),
            forall|j: int| 0 <= j < i ==> a@[j] == b@[j],
        decreases a.len() - i,
    {
        if a[i] != b[i] {
            return false;
        }
        i += 1;
    }
    assert(a@ =~= b@);
    true
}

/// Whether two texts are equal.
pub fn same_text(a: &str, b: &str) -> (same: bool)
    ensures
        same == (a@ == b@),
{
    let same = same_bytes(a.as_bytes(), b.as_bytes());
    proof {
        if same {
            assert(decode_utf8(encode_utf8(a@)) == a@);
            assert(decode_utf8(encode_utf8(b@)) == b@);
        }
    }
    same
}

/// The text that `bytes` encode in UTF-8.
///
/// Calls `std::str::from_utf8`, which accepts exactly the byte strings that are
/// well-formed UTF-8 and then returns the text they encode.
#[verifier::external_body]
pub(crate) fn utf8_text(bytes: &[u8]) -> (text: Option<String>)
    ensures
        text is Some == valid_utf8(bytes@),
        text matches Some(t) ==> t@ == decode_utf8(bytes@),
{
    std::str::from_utf8(bytes).ok().map(|t| t.to_owned())
}

/// What `String::from_utf8_lossy` makes of a byte string.
pub uninterp spec fn lossy(bytes: Seq<u8>) -> Seq<char>;

/// The text of `bytes`, with a replacement character for what is not UTF-8.
///
/// Calls `String::from_utf8_lossy`, whose result depends on the bytes alone and
/// is the encoded text where the bytes are well-formed.
#[verifier::external_body]
pub(crate) fn lossy_text(bytes: &[u8]) -> (text: String)
    ensures
        text@ == lossy(bytes@),
        valid_utf8(bytes@) ==> text@ == decode_utf8(bytes@),
{
    String::from_utf8_lossy(bytes).into_owned()
}

/// The pieces of `s` between occurrences of `sep`; one piece more than occurrences.
pub open spec fn pieces(s: Seq<char>, sep: char) -> Seq<Seq<char>>
    decreases s.len(),
{
    if s.len() == 0 {
        seq![Seq::<char>::empty()]
    } else {
        let front = pieces(s.drop_last(), sep);
        if s.last() == sep {
            front.push(Seq::<char>::empty())
        } else {
            front.drop_last().push(front.last().push(s.last()))
        }
    }
}

/// Splits `text` at every `sep`.
pub fn split_text(text: &str, sep: char) -> (parts: Vec<String>)
    ensures
        texts(parts@) == pieces(text@, sep),
        parts@.len() > 0,
{
    let mut parts: Vec<String> = Vec::new();
    let mut current = String::new();
    assert(texts(parts@).push(current@) =~= pieces(text@.take(0), sep));
    for c in it: text.chars()
        invariant
            it.seq() == text@,
            texts(parts@).push(current@) == pieces(text@.take(it.index() as int), sep),
    {
        let ghost done = texts(parts@);
        let ghost open = current@;
        let ghost next = text@.take(it.index() as int + 1);
        assert(next.drop_last() =~= text@.take(it.index() as int));
        assert(next.last() == c);
        if c == sep {
            parts.push(current);
            current = String::new();
            assert(texts(parts@) =~= done.push(open));
        } else {
            current.push(c);
            assert(done.push(open).drop_last() =~= done);
        }
    }
    assert(text@.take(text@.len() as int) =~= text@);
    let ghost done = texts(parts@);
    let ghost open = current@;
    parts.push(current);
    assert(texts(parts@) =~= done.push(open));
    parts
}

proof fn lemma_joined_extends_last(list: Seq<Seq<char>>, sep: Seq<char>, c: char)
    requires
        list.len() > 0,
    ensures
        joined(list.drop_last().push(list.last().push(c)), sep) == joined(list, sep).push(c),
{
    let longer = list.drop_last().push(list.last().push(c));
    assert(longer.drop_last() =~= list.drop_last());
    assert(joined(longer, sep) =~= joined(list, sep).push(c));
}

/// Splitting loses nothing: the pieces, joined by the separator, are the text again,
/// and no piece holds the separator.
pub proof fn pieces_rejoin(s: Seq<char>, sep: char)
    ensures
        pieces(s, sep).len() > 0,
        joined(pieces(s, sep), seq![sep]) == s,
        forall|i: int| 0 <= i < pieces(s, sep).len() ==> !(#[trigger] pieces(s, sep)[i]).contains(sep),
    decreases s.len(),
{
    if s.len() == 0 {
        assert(joined(pieces(s, sep), seq![sep]) =~= s);
    } else {
        let front = pieces(s.drop_last(), sep);
        pieces_rejoin(s.drop_last(), sep);
        let all = pieces(s, sep);
        assert(s =~= s.drop_last().push(s.last()));
        if s.last() == sep {
            assert(all.drop_last() =~= front);
            assert(joined(all, seq![sep]) =~= s);
        } else {
            lemma_joined_extends_last(front, seq![sep], s.last());
            assert forall|i: int| 0 <= i < all.len() implies !(#[trigger] all[i]).contains(
                sep,
            ) by {
                if i == all.len() - 1 {
                    assert(!front[i].contains(sep));
                    if all[i].contains(sep) {
                        let k = choose|k: int| 0 <= k < all[i].len() && all[i][k] == sep;
                        assert(front[i][k] == sep);
                    }
                } else {
                    assert(!front[i].contains(sep));
                }
            }
        }
    }
}

/// Joining then splitting gives the parts back, where no part holds the separator.
pub proof fn joined_resplits(list: Seq<Seq<char>>, sep: char)
    requires
        list.len() > 0,
        forall|i: int| 0 <= i < list.len() ==> !(#[trigger] list[i]).contains(sep),
    ensures
        pieces(joined(list, seq![sep]), sep) == list,
    decreases list.len(), list.last().len(),
{
    let text = joined(list, seq![sep]);
    if list.last().len() > 0 {
        let c = list.last().last();
        let shorter = list.drop_last().push(list.last().drop_last());
        assert(list.last()[list.last().len() - 1] == c);
        assert(!list[list.len() - 1].contains(sep));
        assert(c != sep);
        assert forall|i: int| 0 <= i < shorter.len() implies !(#[trigger] shorter[i]).contains(
            sep,
        ) by {
            assert(!list[i].contains(sep));
            if i == list.len() - 1 && shorter[i].contains(sep) {
                let k = choose|k: int| 0 <= k < shorter[i].len() && shorter[i][k] == sep;
                assert(list[i][k] == sep);
            }
        }
        joined_resplits(shorter, sep);
        lemma_joined_extends_last(shorter, seq![sep], c);
        assert(shorter.drop_last() =~= list.drop_last());
        assert(list.last().drop_last().push(c) =~= list.last());
        assert(list.drop_last().push(list.last()) =~= list);
        assert(text.drop_last() =~= joined(shorter, seq![sep]));
        assert(pieces(text, sep) =~= list);
    } else if list.len() == 1 {
        assert(list[0] =~= Seq::<char>::empty());
        assert(pieces(text, sep) =~= list);
    } else {
        let rest = list.drop_last();
        assert forall|i: int| 0 <= i < rest.len() implies !(#[trigger] rest[i]).contains(sep) by {
            assert(!list[i].contains(sep));
        }
        joined_resplits(rest, sep);
        assert(text =~= joined(rest, seq![sep]).push(sep));
        assert(text.drop_last() =~= joined(rest, seq![sep]));
        assert(list.last() =~= Seq::<char>::empty());
        assert(pieces(text, sep) =~= list);
    }
}

/// `line` without one trailing carriage return.
pub open spec fn without_return(line: Seq<char>) -> Seq<char> {
    if line.len() > 0 && line.last() == '\r' {
        line.drop_last()
    } else {
        line
    }
}

/// The lines of `s`: each ends at a line feed, a carriage return before it is not
/// part of the line, and a last line without a line feed counts unless it is empty.
pub open spec fn lines(s: Seq<char>) -> Seq<Seq<char>> {
    let parts = pieces(s, '\n');
    let ended = Seq::new((parts.len() - 1) as nat, |i: int| without_return(parts[i]));
    if parts.last().len() == 0 {
        ended
    } else {
        ended.push(parts.last())
    }
}

fn trim_return(line: &String) -> (r: String)
    ensures
        r@ == without_return(line@),
{
    let chars = chars_of(line.as_str());
    let n = chars.len();
    if n > 0 && chars[n - 1] == '\r' {
        let r = text_of(chars.as_slice(), 0, n - 1);
        assert(r@ =~= line@.drop_last());
        r
    } else {
        line.clone()
    }
}

/// Splits `text` into lines.
pub fn text_lines(text: &str) -> (list: Vec<String>)
    ensures
        texts(list@) == lines(text@),
{
    let mut parts = split_text(text, '\n');
    let ghost all = texts(parts@);
    let last = parts.pop().unwrap();
    assert(last@ == all.last());
    let mut list: Vec<String> = Vec::new();
    let mut i: usize = 0;
    while i < parts.len()
        invariant
            i <= parts@.len(),
            parts@.len() == all.len() - 1,
            forall|j: int| 0 <= j < parts@.len() ==> #[trigger] parts@[j]@ == all[j],
            list@.len() == i,
            forall|j: int| 0 <= j < i ==> #[trigger] list@[j]@ == without_return(all[j]),
        decreases parts.len() - i,
    {
        list.push(trim_return(&parts[i]));
        i += 1;
    }
    let ghost ended = Seq::new((all.len() - 1) as nat, |j: int| without_return(all[j]));
    assert(texts(list@) =~= ended);
    if !last.as_str().is_empty() {
        let ghost l = last@;
        list.push(last);
        assert(texts(list@) =~= ended.push(l));
    }
    list
}

/// The characters with the Unicode property White_Space.
pub open spec fn white_space(c: char) -> bool {
    ||| '\u{9}' <= c <= '\u{d}'
    ||| c == '\u{20}'
    ||| c == '\u{85}'
    ||| c == '\u{a0}'
    ||| c == '\u{1680}'
    ||| '\u{2000}' <= c <= '\u{200a}'
    ||| c == '\u{2028}'
    ||| c == '\u{2029}'
    ||| c == '\u{202f}'
    ||| c == '\u{205f}'
    ||| c == '\u{3000}'
}

/// Whether `c` has the Unicode property White_Space.
pub fn is_white_space(c: char) -> (r: bool)
    ensures
        r == white_space(c),
{
    ('\u{9}' <= c && c <= '\u{d}') || c == '\u{20}' || c == '\u{85}' || c == '\u{a0}' || c
        == '\u{1680}' || ('\u{2000}' <= c && c <= '\u{200a}') || c == '\u{2028}' || c == '\u{2029}'
        || c == '\u{202f}' || c == '\u{205f}' || c == '\u{3000}'
}

/// The finished words of `s`, and the word still open at its end.
pub open spec fn word_scan(s: Seq<char>) -> (Seq<Seq<char>>, Seq<char>)
    decreases s.len(),
{
    if s.len() == 0 {
        (seq![], seq![])
    } else {
        let (done, open) = word_scan(s.drop_last());
        if !white_space(s.last()) {
            (done, open.push(s.last()))
        } else if open.len() > 0 {
            (done.push(open), seq![])
        } else {
            (done, open)
        }
    }
}

/// The maximal runs of `s` without white space.
pub open spec fn words(s: Seq<char>) -> Seq<Seq<char>> {
    let (done, open) = word_scan(s);
    if open.len() > 0 {
        done.push(open)
    } else {
        done
    }
}

/// Splits `text` at white space.
pub fn text_words(text: &str) -> (list: Vec<String>)
    ensures
        texts(list@) == words(text@),
{
    let mut list: Vec<String> = Vec::new();
    let mut current = String::new();
    assert(texts(list@) =~= word_scan(text@.take(0)).0);
    assert(current@ =~= word_scan(text@.take(0)).1);
    for c in it: text.chars()
        invariant
            it.seq() == text@,
            texts(list@) == word_scan(text@.take(it.index() as int)).0,
            current@ == word_scan(text@.take(it.index() as int)).1,
    {
        let ghost done = texts(list@);
        let ghost open = current@;
        let ghost next = text@.take(it.index() as int + 1);
        assert(next.drop_last() =~= text@.take(it.index() as int));
        assert(next.last() == c);
        if !is_white_space(c) {
            current.push(c);
        } else if !current.as_str().is_empty() {
            list.push(current);
            current = String::new();
            assert(texts(list@) =~= done.push(open));
            assert(current@ =~= seq![]);
        }
    }
    assert(text@.take(text@.len() as int) =~= text@);
    if !current.as_str().is_empty() {
        let ghost done = texts(list@);
        let ghost open = current@;
        list.push(current);
        assert(texts(list@) =~= done.push(open));
    }
    list
}

/// `s` without leading white space.
pub open spec fn trimmed_start(s: Seq<char>) -> Seq<char>
    decreases s.len(),
{
    if s.len() > 0 && white_space(s[0]) {
        trimmed_start(s.drop_first())
    } else {
        s
    }
}

/// `s` without trailing white space.
pub open spec fn trimmed_end(s: Seq<char>) -> Seq<char>
    decreases s.len(),
{
    if s.len() > 0 && white_space(s.last()) {
        trimmed_end(s.drop_last())
    } else {
        s
    }
}

/// `s` without white space at either end.
pub open spec fn trimmed(s: Seq<char>) -> Seq<char> {
    trimmed_end(trimmed_start(s))
}

/// Drops white space at both ends of `text`.
pub fn trim_text(text: &str) -> (r: String)
    ensures
        r@ == trimmed(text@),
{
    let chars = chars_of(text);
    let mut from: usize = 0;
    assert(text@.skip(0) =~= text@);
    while from < chars.len() && is_white_space(chars[from])
        invariant
            chars@ == text@,
            from <= chars@.len(),
            trimmed_start(text@) == trimmed_start(text@.skip(from as int)),
        decreases chars.len() - from,
    {
        assert(text@.skip(from as int).drop_first() =~= text@.skip(from + 1));
        from += 1;
    }
    let ghost body = text@.skip(from as int);
    assert(trimmed_start(text@) == body);
    let mut to: usize = chars.len();
    assert(chars@.subrange(from as int, to as int) =~= body);
    while to > from && is_white_space(chars[to - 1])
        invariant
            chars@ == text@,
            from <= to <= chars@.len(),
            trimmed_end(body) == trimmed_end(chars@.subrange(from as int, to as int)),
        decreases to,
    {
        assert(chars@.subrange(from as int, to as int).drop_last() =~= chars@.subrange(
            from as int,
            to - 1,
        ));
        to -= 1;
    }
    text_of(chars.as_slice(), from, to)
}

/// The character for digit `d` in bases up to sixteen.
pub open spec fn digit_char(d: int) -> char {
    if d < 10 {
        (48 + d) as u8 as char
    } else {
        (87 + d) as u8 as char
    }
}

fn digit(d: u8) -> (c: char)
    requires
        d < 16,
    ensures
        c == digit_char(d as int),
{
    if d < 10 {
        (48 + d) as char
    } else {
        (87 + d) as char
    }
}

/// The decimal numeral of `n`.
pub open spec fn decimal(n: nat) -> Seq<char>
    decreases n,
{
    if n < 10 {
        seq![digit_char(n as int)]
    } else {
        decimal(n / 10).push(digit_char((n % 10) as int))
    }
}

/// Writes `n` in decimal.
pub fn decimal_text(n: u64) -> (text: String)
    ensures
        text@ == decimal(n as nat),
    decreases n,
{
    if n < 10 {
        let mut text = String::new();
        text.push(digit(n as u8));
        assert(text@ =~= decimal(n as nat));
        text
    } else {
        let mut text = decimal_text(n / 10);
        text.push(digit((n % 10) as u8));
        text
    }
}

/// Two lower-case hexadecimal digits for each byte.
pub open spec fn hex(bytes: Seq<u8>) -> Seq<char>
    decreases bytes.len(),
{
    if bytes.len() == 0 {
        seq![]
    } else {
        hex(bytes.drop_last()).push(digit_char(bytes.last() as int / 16)).push(
            digit_char(bytes.last() as int % 16),
        )
    }
}

/// Writes `bytes` in hexadecimal.
pub fn hex_text(bytes: &[u8]) -> (text: String)
    ensures
        text@ == hex(bytes@),
{
    let mut text = String::new();
    let mut i: usize = 0;
    assert(text@ =~= hex(bytes@.take(0)));
    while i < bytes.len()
        invariant
            i <= bytes@.len(),
            text@ == hex(bytes@.take(i as int)),
        decreases bytes.len() - i,
    {
        assert(bytes@.take(i + 1).drop_last() =~= bytes@.take(i as int));
        text.push(digit(bytes[i] / 16));
        text.push(digit(bytes[i] % 16));
        i += 1;
    }
    assert(bytes@.take(bytes@.len() as int) =~= bytes@);
    text
}

/// An ASCII decimal digit.
pub open spec fn is_digit(c: char) -> bool {
    '0' <= c <= '9'
}

/// An ASCII hexadecimal digit of either case.
pub open spec fn is_hex_digit(c: char) -> bool {
    is_digit(c) || 'a' <= c <= 'f' || 'A' <= c <= 'F'
}

/// An ASCII letter or decimal digit.
pub open spec fn is_alphanumeric(c: char) -> bool {
    is_digit(c) || 'a' <= c <= 'z' || 'A' <= c <= 'Z'
}

/// The number that a string of decimal digits denotes.
pub open spec fn digits_value(s: Seq<char>) -> nat
    decreases s.len(),
{
    if s.len() == 0 {
        0
    } else {
        digits_value(s.drop_last()) * 10 + (s.last() as nat - '0' as nat) as nat
    }
}

/// The digits of an unsigned numeral: one plus sign before them is allowed.
pub open spec fn numeral_body(s: Seq<char>) -> Seq<char> {
    if s.len() > 0 && s[0] == '+' {
        s.drop_first()
    } else {
        s
    }
}

/// The number that `s` denotes, if `s` is an unsigned decimal numeral.
pub open spec fn unsigned(s: Seq<char>) -> Option<nat> {
    let body = numeral_body(s);
    if body.len() > 0 && (forall|i: int| 0 <= i < body.len() ==> is_digit(#[trigger] body[i])) {
        Some(digits_value(body))
    } else {
        None
    }
}

/// `unsigned` for numbers up to `max`.
pub open spec fn unsigned_up_to(s: Seq<char>, max: nat) -> Option<nat> {
    match unsigned(s) {
        Some(n) => if n <= max {
            Some(n)
        } else {
            None
        },
        None => None,
    }
}

proof fn lemma_value_grows(s: Seq<char>, i: int)
    requires
        0 <= i <= s.len(),
    ensures
        digits_value(s) >= digits_value(s.take(i)),
    decreases s.len(),
{
    if i == s.len() {
        assert(s.take(i) =~= s);
    } else {
        lemma_value_grows(s.drop_last(), i);
        assert(s.drop_last().take(i) =~= s.take(i));
    }
}

/// Reads an unsigned decimal numeral of at most 64 bits.
pub fn parse_u64(text: &str) -> (r: Option<u64>)
    ensures
        r is Some == (unsigned_up_to(text@, u64::MAX as nat) is Some),
        r matches Some(n) ==> unsigned_up_to(text@, u64::MAX as nat) == Some(n as nat),
{
    let chars = chars_of(text);
    let from: usize = if chars.len() > 0 && chars[0] == '+' {
        1
    } else {
        0
    };
    let ghost body = numeral_body(text@);
    assert(body =~= text@.skip(from as int));
    if from == chars.len() {
        return None;
    }
    let mut value: u64 = 0;
    let mut i: usize = from;
    assert(digits_value(body.take(0)) == 0);
    while i < chars.len()
        invariant
            chars@ == text@,
            body == numeral_body(text@),
            body == text@.skip(from as int),
            from <= i <= chars@.len(),
            from < chars@.len(),
            value == digits_value(body.take(i - from)),
            forall|j: int| 0 <= j < i - from ==> is_digit(#[trigger] body[j]),
        decreases chars.len() - i,
    {
        let c = chars[i];
        assert(c == body[i - from]);
        if !('0' <= c && c <= '9') {
            return None;
        }
        let d: u64 = (c as u32 - '0' as u32) as u64;
        let ghost next = body.take(i - from + 1);
        assert(next.drop_last() =~= body.take(i - from));
        assert(next.last() == c);
        assert(digits_value(next) == value * 10 + d);
        if value > (u64::MAX - d) / 10 {
            proof {
                lemma_value_grows(body, i - from + 1);
                assert(digits_value(next) > u64::MAX);
            }
            return None;
        }
        value = value * 10 + d;
        i += 1;
    }
    assert(body.take(body.len() as int) =~= body);
    Some(value)
}

/// Reads an unsigned decimal numeral that fits a `usize`.
pub fn parse_usize(text: &str) -> (r: Option<usize>)
    ensures
        r is Some == (unsigned_up_to(text@, usize::MAX as nat) is Some),
        r matches Some(n) ==> unsigned_up_to(text@, usize::MAX as nat) == Some(n as nat),
{
    match parse_u64(text) {
        Some(n) => if n <= usize::MAX as u64 {
            Some(n as usize)
        } else {
            None
        },
        None => None,
    }
}

/// `text` without the occurrences of `c`.
pub fn without_char(text: &str, c: char) -> (r: String)
    ensures
        r@ == text@.filter(|x: char| x != c),
{
    let mut r = String::new();
    let ghost keep = |x: char| x != c;
    assert(r@ =~= text@.take(0).filter(keep)) by {
        reveal(Seq::filter);
    }
    for x in it: text.chars()
        invariant
            it.seq() == text@,
            keep == (|x: char| x != c),
            r@ == text@.take(it.index() as int).filter(keep),
    {
        let ghost next = text@.take(it.index() as int + 1);
        assert(next.drop_last() =~= text@.take(it.index() as int));
        assert(next.last() == x);
        proof {
            reveal(Seq::filter);
        }
        if x != c {
            r.push(x);
        }
    }
    assert(text@.take(text@.len() as int) =~= text@);
    r
}

/// The members of `list` one after the other, with `sep` between them.
pub open spec fn joined(list: Seq<Seq<char>>, sep: Seq<char>) -> Seq<char>
    decreases list.len(),
{
    if list.len() == 0 {
        seq![]
    } else if list.len() == 1 {
        list[0]
    } else {
        joined(list.drop_last(), sep) + sep + list.last()
    }
}

/// Joins `list` with `sep` between its members.
pub fn join_texts(list: &Vec<String>, sep: &str) -> (text: String)
    ensures
        text@ == joined(texts(list@), sep@),
{
    let mut text = String::new();
    let mut i: usize = 0;
    let ghost all = texts(list@);
    assert(text@ =~= joined(all.take(0), sep@));
    while i < list.len()
        invariant
            all == texts(list@),
            i <= list@.len(),
            text@ == joined(all.take(i as int), sep@),
        decreases list.len() - i,
    {
        assert(all.take(i + 1).drop_last() =~= all.take(i as int));
        if i > 0 {
            text.append(sep);
        }
        text.append(list[i].as_str());
        assert(text@ =~= joined(all.take(i + 1), sep@));
        i += 1;
    }
    assert(all.take(all.len() as int) =~= all);
    text
}

/// `pattern` stands in `s` at index `i`.
pub open spec fn occurs_at(s: Seq<char>, pattern: Seq<char>, i: int) -> bool {
    &&& 0 <= i
    &&& i + pattern.len() <= s.len()
    &&& s.subrange(i, i + pattern.len()) == pattern
}

/// The first index from `from` on at which `pattern` stands in `s`.
pub open spec fn first_occurrence(s: Seq<char>, pattern: Seq<char>, from: int) -> Option<int>
    decreases s.len() + 1 - from,
{
    if from < 0 || from + pattern.len() > s.len() {
        None
    } else if occurs_at(s, pattern, from) {
        Some(from)
    } else {
        first_occurrence(s, pattern, from + 1)
    }
}

fn stands_at(chars: &[char], pattern: &[char], i: usize) -> (r: bool)
    requires
        i + pattern@.len() <= chars@.len(),
    ensures
        r == occurs_at(chars@, pattern@, i as int),
{
    let mut k: usize = 0;
    while k < pattern.len()
        invariant
            k <= pattern@.len(),
            i + pattern@.len() <= chars.len(),
            forall|j: int| 0 <= j < k ==> chars@[i + j] == #[trigger] pattern@[j],
        decreases pattern.len() - k,
    {
        if chars[i + k] != pattern[k] {
            proof {
                let sub = chars@.subrange(i as int, i + pattern@.len());
                assert(sub[k as int] != pattern@[k as int]);
            }
            return false;
        }
        k += 1;
    }
    assert(chars@.subrange(i as int, i + pattern@.len()) =~= pattern@);
    true
}

/// Finds `pattern` in `chars`, from `from` on.
pub fn find_text(chars: &[char], pattern: &[char], from: usize) -> (r: Option<usize>)
    ensures
        r is Some == (first_occurrence(chars@, pattern@, from as int) is Some),
        r matches Some(i) ==> {
            &&& first_occurrence(chars@, pattern@, from as int) == Some(i as int)
            &&& from <= i
            &&& i + pattern@.len() <= chars@.len()
        },
{
    let mut i: usize = from;
    while i <= chars.len() && chars.len() - i >= pattern.len()
        invariant
            from <= i,
            i <= chars@.len() + 1 || i == from,
            first_occurrence(chars@, pattern@, from as int) == first_occurrence(
                chars@,
                pattern@,
                i as int,
            ),
        decreases chars.len() + 1 - i,
    {
        if stands_at(chars, pattern, i) {
            return Some(i);
        }
        if i == chars.len() {
            assert(first_occurrence(chars@, pattern@, i + 1) is None);
            return None;
        }
        i += 1;
    }
    None
}

/// `s` begins with `prefix`.
pub open spec fn has_prefix(s: Seq<char>, prefix: Seq<char>) -> bool {
    occurs_at(s, prefix, 0)
}

/// `s` without its first `prefix.len()` characters.
pub open spec fn after_prefix(s: Seq<char>, prefix: Seq<char>) -> Seq<char> {
    s.skip(prefix.len() as int)
}

/// The number of characters of `prefix`, if `chars` begin with it.
pub fn prefix_length(chars: &[char], prefix: &str) -> (r: Option<usize>)
    ensures
        r == (if has_prefix(chars@, prefix@) {
            Some(prefix@.len() as usize)
        } else {
            None
        }),
        r matches Some(n) ==> n == prefix@.len() && n <= chars@.len(),
{
    let p = chars_of(prefix);
    if p.len() <= chars.len() && stands_at(chars, p.as_slice(), 0) {
        Some(p.len())
    } else {
        None
    }
}

/// Whether `pattern` stands anywhere in `text`.
pub fn contains_text(text: &str, pattern: &str) -> (r: bool)
    ensures
        r == (first_occurrence(text@, pattern@, 0) is Some),
{
    let chars = chars_of(text);
    let p = chars_of(pattern);
    find_text(chars.as_slice(), p.as_slice(), 0).is_some()
}

/// What stands before and after the first `sep` of `s`.
pub open spec fn cut(s: Seq<char>, sep: char) -> Option<(Seq<char>, Seq<char>)> {
    match s.index_of_first(sep) {
        Some(i) => Some((s.take(i), s.skip(i + 1))),
        None => None,
    }
}

/// Cuts `text` at its first `sep`.
pub fn cut_text(text: &str, sep: char) -> (r: Option<(String, String)>)
    ensures
        match r {
            Some((head, tail)) => cut(text@, sep) == Some((head@, tail@)),
            None => cut(text@, sep) is None,
        },
{
    let chars = chars_of(text);
    let mut i: usize = 0;
    while i < chars.len()
        invariant
            i <= chars@.len(),
            chars@ == text@,
            forall|k: int| 0 <= k < i ==> text@[k] != sep,
        decreases chars.len() - i,
    {
        if chars[i] == sep {
            proof {
                text@.index_of_first_ensures(sep);
            }
            let head = text_of(chars.as_slice(), 0, i);
            let tail = text_of(chars.as_slice(), i + 1, chars.len());
            assert(head@ =~= text@.take(i as int));
            assert(tail@ =~= text@.skip(i + 1));
            return Some((head, tail));
        }
        i += 1;
    }
    assert(!text@.contains(sep));
    proof {
        text@.index_of_first_ensures(sep);
    }
    None
}

/// Copies of the texts `list[from..to]`.
pub fn text_range(list: &Vec<String>, from: usize, to: usize) -> (r: Vec<String>)
    requires
        from <= to <= list@.len(),
    ensures
        texts(r@) == texts(list@).subrange(from as int, to as int),
{
    let mut r: Vec<String> = Vec::new();
    let mut i: usize = from;
    while i < to
        invariant
            from <= i <= to <= list@.len(),
            r@.len() == i - from,
            forall|k: int| 0 <= k < r@.len() ==> #[trigger] r@[k]@ == list@[from + k]@,
        decreases to - i,
    {
        r.push(list[i].clone());
        i += 1;
    }
    assert(texts(r@) =~= texts(list@).subrange(from as int, to as int));
    r
}

proof fn lemma_decimal(n: nat)
    ensures
        decimal(n).len() > 0,
        forall|i: int| 0 <= i < decimal(n).len() ==> is_digit(#[trigger] decimal(n)[i]),
        digits_value(decimal(n)) == n,
    decreases n,
{
    let d = (n % 10) as int;
    assert(digit_char(d) as nat == 48 + d) by {
        assert((48 + d) as u8 as char as nat == 48 + d);
    }
    if n < 10 {
        assert(decimal(n).drop_last() =~= seq![]);
        assert(digits_value(decimal(n).drop_last()) == 0);
        assert(decimal(n).last() == digit_char(d));
    } else {
        lemma_decimal(n / 10);
        assert(decimal(n).drop_last() =~= decimal(n / 10));
    }
}

/// Reading a numeral gives the number back.
pub proof fn numerals_are_read_back(n: nat, max: nat)
    requires
        n <= max,
    ensures
        unsigned_up_to(decimal(n), max) == Some(n),
{
    lemma_decimal(n);
    assert(decimal(n)[0] != '+');
}

/// A numeral is made of digits.
pub proof fn numerals_are_digits(n: nat)
    ensures
        decimal(n).len() > 0,
        forall|i: int| 0 <= i < decimal(n).len() ==> is_digit(#[trigger] decimal(n)[i]),
{
    lemma_decimal(n);
}

/// A text without white space.
pub open spec fn solid(s: Seq<char>) -> bool {
    forall|i: int| 0 <= i < s.len() ==> !white_space(#[trigger] s[i])
}

proof fn lemma_scan_solid(s: Seq<char>, word: Seq<char>)
    requires
        solid(word),
    ensures
        word_scan(s + word) == (word_scan(s).0, word_scan(s).1 + word),
    decreases word.len(),
{
    if word.len() == 0 {
        assert(s + word =~= s);
        assert(word_scan(s).1 + word =~= word_scan(s).1);
    } else {
        lemma_scan_solid(s, word.drop_last());
        assert((s + word).drop_last() =~= s + word.drop_last());
        assert(!white_space(word[word.len() - 1]));
        assert((word_scan(s).1 + word.drop_last()).push(word.last()) =~= word_scan(s).1 + word);
    }
}

proof fn lemma_scan_space(s: Seq<char>, space: char)
    requires
        white_space(space),
        word_scan(s).1.len() > 0,
    ensures
        word_scan(s.push(space)) == (word_scan(s).0.push(word_scan(s).1), Seq::<char>::empty()),
{
    assert(s.push(space).drop_last() =~= s);
}

/// The words of a line are read back, whatever the white space between them.
pub proof fn three_words_are_read_back(
    a: Seq<char>,
    b: Seq<char>,
    c: Seq<char>,
    first: char,
    second: char,
    last: char,
)
    requires
        solid(a) && a.len() > 0,
        solid(b) && b.len() > 0,
        solid(c) && c.len() > 0,
        white_space(first),
        white_space(second),
        white_space(last),
    ensures
        words((((a.push(first) + b).push(second)) + c).push(last)) == seq![a, b, c],
{
    let none = Seq::<char>::empty();
    lemma_scan_solid(none, a);
    assert(none + a =~= a);
    assert(word_scan(a).1 =~= a);
    lemma_scan_space(a, first);
    let one = a.push(first);
    lemma_scan_solid(one, b);
    assert(word_scan(one + b).1 =~= b);
    lemma_scan_space(one + b, second);
    let two = (one + b).push(second);
    lemma_scan_solid(two, c);
    assert(word_scan(two + c).1 =~= c);
    lemma_scan_space(two + c, last);
    assert(words((two + c).push(last)) =~= seq![a, b, c]);
}

} // verus!
