//! The order of texts, and lists kept in it.
//!
//! Texts are ordered by their UTF-8 bytes, the order that git, the canister
//! and this crate all agree on.
use vstd::prelude::*;
use vstd::utf8::{decode_utf8, encode_utf8};

use crate::text::texts;

verus! {

broadcast use vstd::utf8::encode_utf8_decode_utf8;

/// Lexicographic order of byte strings.
pub open spec fn bytes_before(a: Seq<u8>, b: Seq<u8>) -> bool
    decreases a.len(),
{
    if b.len() == 0 {
        false
    } else if a.len() == 0 {
        true
    } else if a[0] == b[0] {
        bytes_before(a.drop_first(), b.drop_first())
    } else {
        a[0] < b[0]
    }
}

/// `a` comes strictly before `b` in the byte order of texts.
pub open spec fn before(a: Seq<char>, b: Seq<char>) -> bool {
    bytes_before(encode_utf8(a), encode_utf8(b))
}

/// Strictly increasing: in order, and nothing occurs twice.
pub open spec fn increasing(list: Seq<Seq<char>>) -> bool {
    forall|i: int, j: int| 0 <= i < j < list.len() ==> before(#[trigger] list[i], #[trigger] list[j])
}

proof fn lemma_bytes_irreflexive(a: Seq<u8>)
    ensures
        !bytes_before(a, a),
    decreases a.len(),
{
    if a.len() > 0 {
        lemma_bytes_irreflexive(a.drop_first());
    }
}

proof fn lemma_bytes_transitive(a: Seq<u8>, b: Seq<u8>, c: Seq<u8>)
    requires
        bytes_before(a, b),
        bytes_before(b, c),
    ensures
        bytes_before(a, c),
    decreases a.len(),
{
    if a.len() > 0 && b.len() > 0 && c.len() > 0 && a[0] == b[0] && b[0] == c[0] {
        lemma_bytes_transitive(a.drop_first(), b.drop_first(), c.drop_first());
    }
}

proof fn lemma_bytes_total(a: Seq<u8>, b: Seq<u8>)
    ensures
        bytes_before(a, b) || bytes_before(b, a) || a == b,
    decreases a.len(),
{
    if a.len() > 0 && b.len() > 0 && a[0] == b[0] {
        lemma_bytes_total(a.drop_first(), b.drop_first());
        if a.drop_first() == b.drop_first() {
            assert(a =~= seq![a[0]] + a.drop_first());
            assert(b =~= seq![b[0]] + b.drop_first());
        }
    } else if a.len() == 0 && b.len() == 0 {
        assert(a =~= b);
    }
}

/// The order of texts is a strict total order.
pub proof fn before_is_a_strict_total_order(a: Seq<char>, b: Seq<char>, c: Seq<char>)
    ensures
        !before(a, a),
        before(a, b) && before(b, c) ==> before(a, c),
        before(a, b) || before(b, a) || a == b,
        !(before(a, b) && before(b, a)),
{
    lemma_bytes_irreflexive(encode_utf8(a));
    lemma_bytes_total(encode_utf8(a), encode_utf8(b));
    assert(decode_utf8(encode_utf8(a)) == a);
    assert(decode_utf8(encode_utf8(b)) == b);
    if before(a, b) && before(b, c) {
        lemma_bytes_transitive(encode_utf8(a), encode_utf8(b), encode_utf8(c));
    }
    if before(a, b) && before(b, a) {
        lemma_bytes_transitive(encode_utf8(a), encode_utf8(b), encode_utf8(a));
    }
}

proof fn lemma_bytes_common_prefix(a: Seq<u8>, b: Seq<u8>, n: int)
    requires
        0 <= n <= a.len(),
        n <= b.len(),
        forall|j: int| 0 <= j < n ==> a[j] == b[j],
    ensures
        bytes_before(a, b) == bytes_before(a.skip(n), b.skip(n)),
    decreases n,
{
    if n == 0 {
        assert(a.skip(0) =~= a);
        assert(b.skip(0) =~= b);
    } else {
        lemma_bytes_common_prefix(a.drop_first(), b.drop_first(), n - 1);
        assert(a.drop_first().skip(n - 1) =~= a.skip(n));
        assert(b.drop_first().skip(n - 1) =~= b.skip(n));
    }
}

/// Whether `a` comes strictly before `b`.
pub fn text_before(a: &str, b: &str) -> (r: bool)
    ensures
        r == before(a@, b@),
{
    let x = a.as_bytes();
    let y = b.as_bytes();
    let mut i: usize = 0;
    while i < x.len() && i < y.len() && x[i] == y[i]
        invariant
            x@ == encode_utf8(a@),
            y@ == encode_utf8(b@),
            i <= x@.len(),
            i <= y@.len(),
            forall|j: int| 0 <= j < i ==> x@[j] == y@[j],
        decreases x.len() - i,
    {
        i += 1;
    }
    proof {
        lemma_bytes_common_prefix(x@, y@, i as int);
    }
    i < y.len() && (i >= x.len() || x[i] < y[i])
}

/// `from` and `to` hold the same texts, whatever the order and the repeats.
pub open spec fn same_members(from: Seq<Seq<char>>, to: Seq<Seq<char>>) -> bool {
    forall|t: Seq<char>| #[trigger] from.contains(t) <==> to.contains(t)
}

/// Two increasing lists with the same members are the same list.
pub proof fn increasing_lists_are_canonical(a: Seq<Seq<char>>, b: Seq<Seq<char>>)
    requires
        increasing(a),
        increasing(b),
        same_members(a, b),
    ensures
        a == b,
    decreases a.len(),
{
    if a.len() == 0 {
        if b.len() > 0 {
            assert(b.contains(b[0]));
            assert(a.contains(b[0]));
        }
        assert(a =~= b);
    } else {
        assert(a.contains(a.last()));
        assert(b.contains(a.last()));
        let i = choose|i: int| 0 <= i < b.len() && b[i] == a.last();
        assert(b.contains(b.last()));
        assert(a.contains(b.last()));
        let j = choose|j: int| 0 <= j < a.len() && a[j] == b.last();
        before_is_a_strict_total_order(a.last(), b.last(), a.last());
        assert(a.last() == b.last());
        let a1 = a.drop_last();
        let b1 = b.drop_last();
        assert forall|t: Seq<char>| #[trigger] a1.contains(t) <==> b1.contains(t) by {
            if a1.contains(t) {
                let k = choose|k: int| 0 <= k < a1.len() && a1[k] == t;
                assert(a[k] == t);
                assert(a.contains(t));
                assert(b.contains(t));
                let m = choose|m: int| 0 <= m < b.len() && b[m] == t;
                before_is_a_strict_total_order(a[k], a.last(), t);
                assert(m < b.len() - 1);
                assert(b1[m] == t);
            }
            if b1.contains(t) {
                let k = choose|k: int| 0 <= k < b1.len() && b1[k] == t;
                assert(b[k] == t);
                assert(b.contains(t));
                assert(a.contains(t));
                let m = choose|m: int| 0 <= m < a.len() && a[m] == t;
                before_is_a_strict_total_order(b[k], b.last(), t);
                assert(m < a.len() - 1);
                assert(a1[m] == t);
            }
        }
        increasing_lists_are_canonical(a1, b1);
        assert(a =~= a1.push(a.last()));
        assert(b =~= b1.push(b.last()));
    }
}

/// Puts `t` into an increasing list, unless it is there already.
pub open spec fn placed(list: Seq<Seq<char>>, t: Seq<char>) -> Seq<Seq<char>>
    decreases list.len(),
{
    if list.len() == 0 {
        seq![t]
    } else if list.last() == t {
        list
    } else if before(list.last(), t) {
        list.push(t)
    } else {
        placed(list.drop_last(), t).push(list.last())
    }
}

/// The members of `list`, in order and without repeats.
pub open spec fn sorted_members(list: Seq<Seq<char>>) -> Seq<Seq<char>>
    decreases list.len(),
{
    if list.len() == 0 {
        seq![]
    } else {
        placed(sorted_members(list.drop_last()), list.last())
    }
}

proof fn lemma_placed(list: Seq<Seq<char>>, t: Seq<char>)
    requires
        increasing(list),
    ensures
        increasing(placed(list, t)),
        forall|x: Seq<char>| #[trigger] placed(list, t).contains(x) <==> (list.contains(x) || x == t),
        placed(list, t).len() > 0,
    decreases list.len(),
{
    if list.len() == 0 {
        assert(placed(list, t)[0] == t);
    } else if list.last() == t {
        assert(list.contains(list.last()));
    } else if before(list.last(), t) {
        let r = list.push(t);
        assert forall|i: int, j: int| 0 <= i < j < r.len() implies before(
            #[trigger] r[i],
            #[trigger] r[j],
        ) by {
            before_is_a_strict_total_order(r[i], list.last(), t);
        }
        assert forall|x: Seq<char>| #[trigger] r.contains(x) <==> (list.contains(x) || x == t) by {
            if list.contains(x) {
                let k = choose|k: int| 0 <= k < list.len() && list[k] == x;
                assert(r[k] == x);
            }
            assert(r[list.len() as int] == t);
        }
    } else {
        let rest = list.drop_last();
        lemma_placed(rest, t);
        let p = placed(rest, t);
        let r = p.push(list.last());
        before_is_a_strict_total_order(list.last(), t, t);
        assert forall|i: int, j: int| 0 <= i < j < r.len() implies before(
            #[trigger] r[i],
            #[trigger] r[j],
        ) by {
            if j == p.len() {
                assert(p.contains(p[i]));
                if p[i] != t {
                    let k = choose|k: int| 0 <= k < rest.len() && rest[k] == p[i];
                    assert(list[k] == p[i]);
                }
            }
        }
        assert forall|x: Seq<char>| #[trigger] r.contains(x) <==> (list.contains(x) || x == t) by {
            if r.contains(x) {
                let k = choose|k: int| 0 <= k < r.len() && r[k] == x;
                if k < p.len() {
                    assert(p.contains(p[k]));
                    if p[k] != t {
                        let m = choose|m: int| 0 <= m < rest.len() && rest[m] == x;
                        assert(list[m] == x);
                    }
                } else {
                    assert(list[list.len() - 1] == x);
                }
            }
            if list.contains(x) {
                let k = choose|k: int| 0 <= k < list.len() && list[k] == x;
                if k < list.len() - 1 {
                    assert(rest[k] == x);
                    assert(p.contains(x));
                    let m = choose|m: int| 0 <= m < p.len() && p[m] == x;
                    assert(r[m] == x);
                } else {
                    assert(r[p.len() as int] == x);
                }
            }
            if x == t {
                assert(p.contains(x));
                let m = choose|m: int| 0 <= m < p.len() && p[m] == x;
                assert(r[m] == x);
            }
        }
    }
}

/// Sorting keeps the members, puts them in order and drops repeats.
pub proof fn sorted_members_are_the_members_in_order(list: Seq<Seq<char>>)
    ensures
        increasing(sorted_members(list)),
        same_members(sorted_members(list), list),
    decreases list.len(),
{
    if list.len() > 0 {
        let rest = list.drop_last();
        sorted_members_are_the_members_in_order(rest);
        lemma_placed(sorted_members(rest), list.last());
        assert forall|t: Seq<char>| #[trigger] sorted_members(list).contains(t) <==> list.contains(
            t,
        ) by {
            assert(sorted_members(list).contains(t) <==> (sorted_members(rest).contains(t) || t
                == list.last()));
            assert(sorted_members(rest).contains(t) <==> rest.contains(t));
            if list.contains(t) {
                let k = choose|k: int| 0 <= k < list.len() && list[k] == t;
                if k < list.len() - 1 {
                    assert(rest[k] == t);
                }
            }
            if rest.contains(t) {
                let k = choose|k: int| 0 <= k < rest.len() && rest[k] == t;
                assert(list[k] == t);
            }
            assert(list[list.len() - 1] == list.last());
        }
    } else {
        assert forall|t: Seq<char>| #[trigger] sorted_members(list).contains(t) <==> list.contains(
            t,
        ) by {}
    }
}

/// Merges two increasing lists into one.
fn merge(a: &Vec<String>, b: &Vec<String>) -> (merged: Vec<String>)
    requires
        increasing(texts(a@)),
        increasing(texts(b@)),
    ensures
        increasing(texts(merged@)),
        forall|t: Seq<char>| #[trigger]
            texts(merged@).contains(t) <==> (texts(a@).contains(t) || texts(b@).contains(t)),
{
    let mut merged: Vec<String> = Vec::new();
    let mut i: usize = 0;
    let mut j: usize = 0;
    let ghost x = texts(a@);
    let ghost y = texts(b@);
    while i < a.len() || j < b.len()
        invariant
            x == texts(a@),
            y == texts(b@),
            increasing(x),
            increasing(y),
            i <= a@.len(),
            j <= b@.len(),
            increasing(texts(merged@)),
            forall|k: int, m: int|
                0 <= k < merged@.len() && i <= m < x.len() ==> before(
                    #[trigger] texts(merged@)[k],
                    #[trigger] x[m],
                ),
            forall|k: int, m: int|
                0 <= k < merged@.len() && j <= m < y.len() ==> before(
                    #[trigger] texts(merged@)[k],
                    #[trigger] y[m],
                ),
            forall|k: int|
                0 <= k < merged@.len() ==> x.contains(#[trigger] texts(merged@)[k]) || y.contains(
                    texts(merged@)[k],
                ),
            forall|m: int| 0 <= m < i ==> texts(merged@).contains(#[trigger] x[m]),
            forall|m: int| 0 <= m < j ==> texts(merged@).contains(#[trigger] y[m]),
        decreases a.len() - i + b.len() - j,
    {
        let ghost old_merged = texts(merged@);
        let ghost (oi, oj) = (i as int, j as int);
        let mut take_a = false;
        let mut take_b = false;
        if j >= b.len() {
            take_a = true;
        } else if i >= a.len() {
            take_b = true;
        } else if text_before(a[i].as_str(), b[j].as_str()) {
            take_a = true;
        } else if text_before(b[j].as_str(), a[i].as_str()) {
            take_b = true;
        } else {
            take_a = true;
            take_b = true;
        }
        let next = if take_a {
            a[i].clone()
        } else {
            b[j].clone()
        };
        let ghost n = next@;
        if take_a {
            i += 1;
        }
        if take_b {
            j += 1;
        }
        proof {
            if oi < x.len() && oj < y.len() {
                before_is_a_strict_total_order(x[oi], y[oj], x[oi]);
            }
            if oi < x.len() {
                assert(x.contains(x[oi]));
            }
            if oj < y.len() {
                assert(y.contains(y[oj]));
            }
        }
        merged.push(next);
        proof {
            let r = texts(merged@);
            assert(r =~= old_merged.push(n));
            assert forall|k: int, m: int| 0 <= k < m < r.len() implies before(
                #[trigger] r[k],
                #[trigger] r[m],
            ) by {}
            assert forall|k: int, m: int| 0 <= k < merged@.len() && i <= m < x.len() implies before(
                #[trigger] r[k],
                #[trigger] x[m],
            ) by {
                if k == old_merged.len() && !take_a {
                    before_is_a_strict_total_order(n, x[oi], x[m]);
                }
            }
            assert forall|k: int, m: int| 0 <= k < merged@.len() && j <= m < y.len() implies before(
                #[trigger] r[k],
                #[trigger] y[m],
            ) by {
                if k == old_merged.len() && !take_b {
                    before_is_a_strict_total_order(n, y[oj], y[m]);
                }
            }
            assert forall|m: int| 0 <= m < i implies r.contains(#[trigger] x[m]) by {
                if m < oi {
                    let k = choose|k: int| 0 <= k < old_merged.len() && old_merged[k] == x[m];
                    assert(r[k] == x[m]);
                } else {
                    assert(r[old_merged.len() as int] == x[m]);
                }
            }
            assert forall|m: int| 0 <= m < j implies r.contains(#[trigger] y[m]) by {
                if m < oj {
                    let k = choose|k: int| 0 <= k < old_merged.len() && old_merged[k] == y[m];
                    assert(r[k] == y[m]);
                } else {
                    assert(r[old_merged.len() as int] == y[m]);
                }
            }
        }
    }
    merged
}

/// The members of `list[from..to]`, in order and without repeats.
fn sort_range(list: &Vec<String>, from: usize, to: usize) -> (sorted: Vec<String>)
    requires
        from <= to <= list@.len(),
    ensures
        increasing(texts(sorted@)),
        same_members(texts(sorted@), texts(list@.subrange(from as int, to as int))),
    decreases to - from,
{
    let ghost range = texts(list@.subrange(from as int, to as int));
    if to - from == 0 {
        let empty: Vec<String> = Vec::new();
        assert(texts(empty@) =~= range);
        empty
    } else if to - from == 1 {
        let mut one: Vec<String> = Vec::new();
        one.push(list[from].clone());
        assert(texts(one@) =~= range);
        one
    } else {
        let mid = from + (to - from) / 2;
        let left = sort_range(list, from, mid);
        let right = sort_range(list, mid, to);
        let merged = merge(&left, &right);
        proof {
            let l = texts(list@.subrange(from as int, mid as int));
            let r = texts(list@.subrange(mid as int, to as int));
            assert(range =~= l + r);
            assert forall|t: Seq<char>| #[trigger] texts(merged@).contains(t) <==> range.contains(
                t,
            ) by {
                assert(texts(merged@).contains(t) <==> (texts(left@).contains(t) || texts(
                    right@,
                ).contains(t)));
                assert(texts(left@).contains(t) <==> l.contains(t));
                assert(texts(right@).contains(t) <==> r.contains(t));
                if l.contains(t) {
                    let k = choose|k: int| 0 <= k < l.len() && l[k] == t;
                    assert(range[k] == t);
                }
                if r.contains(t) {
                    let k = choose|k: int| 0 <= k < r.len() && r[k] == t;
                    assert(range[l.len() + k] == t);
                }
                if range.contains(t) {
                    let k = choose|k: int| 0 <= k < range.len() && range[k] == t;
                    if k < l.len() {
                        assert(l[k] == t);
                    } else {
                        assert(r[k - l.len()] == t);
                    }
                }
            }
        }
        merged
    }
}

/// Sorts `list` and drops what occurs twice.
pub fn sorted_unique(list: &Vec<String>) -> (sorted: Vec<String>)
    ensures
        texts(sorted@) == sorted_members(texts(list@)),
        increasing(texts(sorted@)),
        same_members(texts(sorted@), texts(list@)),
{
    let sorted = sort_range(list, 0, list.len());
    proof {
        assert(list@.subrange(0, list@.len() as int) =~= list@);
        sorted_members_are_the_members_in_order(texts(list@));
        assert forall|t: Seq<char>| #[trigger] texts(sorted@).contains(t) <==> sorted_members(
            texts(list@),
        ).contains(t) by {
            assert(texts(sorted@).contains(t) <==> texts(list@).contains(t));
            assert(sorted_members(texts(list@)).contains(t) <==> texts(list@).contains(t));
        }
        increasing_lists_are_canonical(texts(sorted@), sorted_members(texts(list@)));
    }
    sorted
}

/// Whether `t` is a member of an increasing list, by bisection.
pub fn is_member(list: &Vec<String>, t: &str) -> (r: bool)
    requires
        increasing(texts(list@)),
    ensures
        r == texts(list@).contains(t@),
{
    let ghost all = texts(list@);
    let mut low: usize = 0;
    let mut high: usize = list.len();
    while low < high
        invariant
            all == texts(list@),
            increasing(all),
            low <= high <= list@.len(),
            forall|k: int| 0 <= k < low ==> before(#[trigger] all[k], t@),
            forall|k: int| high <= k < all.len() ==> before(t@, #[trigger] all[k]),
        decreases high - low,
    {
        let mid = low + (high - low) / 2;
        assert(all[mid as int] == list@[mid as int]@);
        if text_before(list[mid].as_str(), t) {
            assert forall|k: int| 0 <= k < mid + 1 implies before(#[trigger] all[k], t@) by {
                before_is_a_strict_total_order(all[k], all[mid as int], t@);
            }
            low = mid + 1;
        } else if text_before(t, list[mid].as_str()) {
            assert forall|k: int| mid <= k < all.len() implies before(t@, #[trigger] all[k]) by {
                before_is_a_strict_total_order(t@, all[mid as int], all[k]);
            }
            high = mid;
        } else {
            proof {
                before_is_a_strict_total_order(all[mid as int], t@, t@);
                assert(all.contains(all[mid as int]));
            }
            return true;
        }
    }
    proof {
        if all.contains(t@) {
            let k = choose|k: int| 0 <= k < all.len() && all[k] == t@;
            before_is_a_strict_total_order(all[k], t@, t@);
        }
    }
    false
}

} // verus!
