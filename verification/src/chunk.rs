//! Cutting a list into consecutive runs of bounded length.
use vstd::prelude::*;

use crate::wording::{nth_run, run_count};

verus! {

/// The index ranges of consecutive runs of `size` members (the last may be shorter) that
/// cover `from..len`.
pub open spec fn ranges(from: nat, len: nat, size: nat) -> Seq<(nat, nat)>
    decreases len - from,
{
    if from >= len || size == 0 {
        seq![]
    } else if len - from <= size {
        seq![(from, len)]
    } else {
        seq![(from, from + size)] + ranges(from + size, len, size)
    }
}

/// The consecutive runs of `size` members of `list`; the last may be shorter.
pub open spec fn chunks<A>(list: Seq<A>, size: nat) -> Seq<Seq<A>> {
    let cuts = ranges(0, list.len(), size);
    Seq::new(cuts.len(), |i: int| list.subrange(cuts[i].0 as int, cuts[i].1 as int))
}

proof fn lemma_ranges(from: nat, len: nat, size: nat)
    requires
        size > 0,
    ensures
        ranges(from, len, size).len() <= len,
        from < len ==> ranges(from, len, size).len() <= len - from,
        from < len ==> ranges(from, len, size).len() > 0,
        forall|i: int|
            0 <= i < ranges(from, len, size).len() ==> from <= (#[trigger] ranges(
                from,
                len,
                size,
            )[i]).0 < ranges(from, len, size)[i].1 <= len && ranges(from, len, size)[i].1 - ranges(
                from,
                len,
                size,
            )[i].0 <= size,
    decreases len - from,
{
    if from < len && len - from > size {
        lemma_ranges(from + size, len, size);
        let rest = ranges(from + size, len, size);
        assert forall|i: int| 0 <= i < ranges(from, len, size).len() implies from <= (
        #[trigger] ranges(from, len, size)[i]).0 < ranges(from, len, size)[i].1 <= len && ranges(
            from,
            len,
            size,
        )[i].1 - ranges(from, len, size)[i].0 <= size by {
            if i > 0 {
                assert(ranges(from, len, size)[i] == rest[i - 1]);
            }
        }
    }
}

/// Each run lies within the list and has between one and `size` members.
pub proof fn chunks_are_bounded<A>(list: Seq<A>, size: nat)
    requires
        size > 0,
    ensures
        chunks(list, size).len() <= list.len(),
        chunks(list, size).len() == ranges(0, list.len(), size).len(),
        chunks(list, size).len() == 0 <==> list.len() == 0,
        forall|i: int|
            0 <= i < chunks(list, size).len() ==> 0 < (#[trigger] chunks(list, size)[i]).len()
                <= size,
        forall|i: int|
            0 <= i < chunks(list, size).len() ==> {
                let cut = #[trigger] ranges(0, list.len(), size)[i];
                cut.0 < cut.1 <= list.len()
            },
{
    lemma_ranges(0, list.len(), size);
    assert forall|i: int| 0 <= i < chunks(list, size).len() implies 0 < (#[trigger] chunks(
        list,
        size,
    )[i]).len() <= size by {
        let cut = ranges(0, list.len(), size)[i];
        assert(cut.0 < cut.1 <= list.len());
    }
}

proof fn lemma_flatten_from<A>(list: Seq<A>, from: nat, size: nat)
    requires
        size > 0,
        from <= list.len(),
    ensures
        Seq::new(
            ranges(from, list.len(), size).len(),
            |i: int|
                list.subrange(
                    ranges(from, list.len(), size)[i].0 as int,
                    ranges(from, list.len(), size)[i].1 as int,
                ),
        ).flatten() == list.skip(from as int),
    decreases list.len() - from,
{
    let cuts = ranges(from, list.len(), size);
    let parts = Seq::new(
        cuts.len(),
        |i: int| list.subrange(cuts[i].0 as int, cuts[i].1 as int),
    );
    if from >= list.len() {
        assert(parts =~= seq![]);
        assert(parts.flatten() =~= list.skip(from as int));
    } else if list.len() - from <= size {
        assert(parts.drop_first() =~= seq![]);
        assert(parts.first() =~= list.skip(from as int));
        assert(parts.drop_first().flatten() =~= seq![]);
        assert(parts.flatten() =~= list.skip(from as int));
    } else {
        lemma_flatten_from(list, from + size, size);
        let rest = ranges(from + size, list.len(), size);
        let tail = Seq::new(
            rest.len(),
            |i: int| list.subrange(rest[i].0 as int, rest[i].1 as int),
        );
        assert(parts.drop_first() =~= tail);
        assert(parts.flatten() =~= list.subrange(from as int, (from + size) as int) + list.skip(
            (from + size) as int,
        ));
        assert(parts.flatten() =~= list.skip(from as int));
    }
}

/// Cutting loses nothing: the runs, one after the other, are the list again.
pub proof fn chunks_rejoin<A>(list: Seq<A>, size: nat)
    requires
        size > 0,
    ensures
        chunks(list, size).flatten() == list,
{
    lemma_flatten_from(list, 0, size);
    assert(list.skip(0) =~= list);
}

proof fn lemma_ranges_at(from: nat, len: nat, size: nat, i: int)
    requires
        size > 0,
        from <= len,
    ensures
        ranges(from, len, size).len() == run_count((len - from) as nat, size),
        0 <= i < ranges(from, len, size).len() ==> {
            &&& ranges(from, len, size)[i].0 == from + i * size
            &&& ranges(from, len, size)[i].1 == if from + (i + 1) * size <= len {
                from + (i + 1) * size
            } else {
                len as int
            }
            &&& from + i * size < len
        },
    decreases len - from,
{
    let left = (len - from) as nat;
    if left == 0 {
        assert((size - 1) / (size as int) == 0) by (nonlinear_arith)
            requires
                size > 0,
        ;
    } else if left <= size {
        assert((left + size - 1) / (size as int) == 1) by (nonlinear_arith)
            requires
                0 < left <= size,
        ;
        if i == 0 {
            assert(i * size == 0) by (nonlinear_arith)
                requires
                    i == 0,
            ;
            assert((i + 1) * size == size) by (nonlinear_arith)
                requires
                    i == 0,
            ;
        }
    } else {
        lemma_ranges_at(from + size, len, size, i - 1);
        assert((left + size - 1) / (size as int) == 1 + ((left - size) + size - 1) / (size as int))
            by (nonlinear_arith)
            requires
                left > size,
                size > 0,
        ;
        assert((i - 1) * size + size == i * size) by (nonlinear_arith);
        assert(i * size + size == (i + 1) * size) by (nonlinear_arith);
        if i == 0 {
            assert(i * size == 0) by (nonlinear_arith)
                requires
                    i == 0,
            ;
        }
        if i > 0 && i < ranges(from, len, size).len() {
            assert(ranges(from, len, size)[i] == ranges(from + size, len, size)[i - 1]);
        }
    }
}

/// The ranges begin at the multiples of `size` and end at the next one, or at the end.
pub proof fn ranges_are_at_multiples(len: nat, size: nat, i: nat)
    requires
        size > 0,
    ensures
        ranges(0, len, size).len() == run_count(len, size),
        i < ranges(0, len, size).len() ==> {
            &&& i * size < len
            &&& ranges(0, len, size)[i as int].0 == i * size
            &&& ranges(0, len, size)[i as int].1 == if (i + 1) * size <= len {
                (i + 1) * size
            } else {
                len
            }
        },
{
    lemma_ranges_at(0, len, size, i as int);
}

/// The runs are cut at the multiples of `size`, and the last one ends with the list.
pub proof fn chunks_are_at_multiples<A>(list: Seq<A>, size: nat)
    requires
        size > 0,
    ensures
        chunks(list, size).len() == run_count(list.len(), size),
        forall|i: nat|
            i < chunks(list, size).len() ==> {
                &&& #[trigger] chunks(list, size)[i as int] == nth_run(list, size, i)
                &&& i * size < list.len()
            },
{
    lemma_ranges_at(0, list.len(), size, 0);
    assert forall|i: nat| i < chunks(list, size).len() implies {
        &&& #[trigger] chunks(list, size)[i as int] == nth_run(list, size, i)
        &&& i * size < list.len()
    } by {
        lemma_ranges_at(0, list.len(), size, i as int);
    }
}

/// The runs of a longer list end with its last run.
pub proof fn flatten_push<A>(list: Seq<Seq<A>>, last: Seq<A>)
    ensures
        list.push(last).flatten() == list.flatten() + last,
    decreases list.len(),
{
    let all = list.push(last);
    if list.len() == 0 {
        assert(all.drop_first() =~= seq![]);
        assert(all.drop_first().flatten() =~= seq![]);
        assert(list.flatten() =~= seq![]);
        assert(all.flatten() =~= list.flatten() + last);
    } else {
        flatten_push(list.drop_first(), last);
        assert(all.drop_first() =~= list.drop_first().push(last));
        assert(all.flatten() =~= list.flatten() + last);
    }
}

/// The model of a list of index ranges.
pub open spec fn cuts_model(cuts: Seq<(usize, usize)>) -> Seq<(nat, nat)> {
    Seq::new(cuts.len(), |i: int| (cuts[i].0 as nat, cuts[i].1 as nat))
}

/// The index ranges of the runs of `size` among `len` members.
pub fn chunk_ranges(len: usize, size: usize) -> (cuts: Vec<(usize, usize)>)
    requires
        size > 0,
    ensures
        cuts_model(cuts@) == ranges(0, len as nat, size as nat),
        forall|i: int|
            0 <= i < cuts@.len() ==> (#[trigger] cuts@[i]).0 < cuts@[i].1 <= len && cuts@[i].1
                - cuts@[i].0 <= size,
{
    let mut cuts: Vec<(usize, usize)> = Vec::new();
    let mut from: usize = 0;
    assert(cuts_model(cuts@) + ranges(0, len as nat, size as nat) =~= ranges(
        0,
        len as nat,
        size as nat,
    ));
    while from < len
        invariant
            size > 0,
            from <= len,
            cuts_model(cuts@) + ranges(from as nat, len as nat, size as nat) == ranges(
                0,
                len as nat,
                size as nat,
            ),
            forall|i: int|
                0 <= i < cuts@.len() ==> (#[trigger] cuts@[i]).0 < cuts@[i].1 <= len && cuts@[i].1
                    - cuts@[i].0 <= size,
        decreases len - from,
    {
        let to: usize = if len - from <= size {
            len
        } else {
            from + size
        };
        let ghost done = cuts_model(cuts@);
        cuts.push((from, to));
        assert(cuts_model(cuts@) =~= done.push((from as nat, to as nat)));
        assert(ranges(from as nat, len as nat, size as nat) =~= seq![(from as nat, to as nat)]
            + ranges(to as nat, len as nat, size as nat));
        assert(cuts_model(cuts@) + ranges(to as nat, len as nat, size as nat) =~= done + ranges(
            from as nat,
            len as nat,
            size as nat,
        ));
        from = to;
    }
    assert(cuts_model(cuts@) =~= ranges(0, len as nat, size as nat));
    cuts
}

} // verus!
