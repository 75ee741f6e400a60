//! What a tick of the simulation decides when objects touch: which object
//! absorbs which, which objects are then marked for removal, and which
//! objects remain.
//!
//! The geometry (whether two objects touch) is computed by the caller; an
//! `n` by `n` table `touching` holds, at `[i][j]`, whether object `i`, moved by
//! its velocity, lies close enough to object `j` to absorb it.

use vstd::prelude::*;
use crate::flags::{contains_spec, lemma_marks, lemma_union_idempotent, ObjectFlags, REMOVE_NEXT_BIT};

verus! {

/// The bits hold the removal mark.
pub open spec fn marked_bits(bits: u8) -> bool {
    contains_spec(bits, REMOVE_NEXT_BIT)
}

/// The flags hold the removal mark.
pub open spec fn marked(f: ObjectFlags) -> bool {
    marked_bits(f@)
}

/// `touching` is an `n` by `n` table.
pub open spec fn is_square(n: nat, touching: Seq<Vec<bool>>) -> bool {
    &&& touching.len() == n
    &&& forall|i: int| 0 <= i < n ==> (#[trigger] touching[i]).len() == n
}

/// Object `i` absorbs object `j`: they are two objects, `i` touches `j`, and
/// `i` is not itself marked for removal.
pub open spec fn absorbs(flags: Seq<ObjectFlags>, touching: Seq<Vec<bool>>, i: int, j: int) -> bool {
    &&& 0 <= i < flags.len()
    &&& 0 <= j < flags.len()
    &&& i != j
    &&& touching[i]@[j]
    &&& !marked(flags[i])
}

/// `a` comes before `b`: by absorber, then by absorbed object.
pub open spec fn pair_before(a: (usize, usize), b: (usize, usize)) -> bool {
    a.0 < b.0 || (a.0 == b.0 && a.1 < b.1)
}

/// `pairs` holds each absorption exactly once, and nothing else.
pub open spec fn pairs_exact(
    flags: Seq<ObjectFlags>,
    touching: Seq<Vec<bool>>,
    pairs: Seq<(usize, usize)>,
) -> bool {
    &&& forall|k: int| 0 <= k < pairs.len() ==> absorbs(flags, touching, #[trigger] pairs[k].0 as int, pairs[k].1 as int)
    &&& forall|i: int, j: int| #[trigger] absorbs(flags, touching, i, j) ==> pairs.contains((i as usize, j as usize))
}

/// `pairs` is in strictly increasing order.
pub open spec fn pairs_sorted(pairs: Seq<(usize, usize)>) -> bool {
    forall|a: int, b: int| 0 <= a < b < pairs.len() ==> pair_before(#[trigger] pairs[a], #[trigger] pairs[b])
}

/// Some pair of `pairs` has object `k` as its absorber.
pub open spec fn is_absorber(pairs: Seq<(usize, usize)>, k: int) -> bool {
    exists|m: int| 0 <= m < pairs.len() && #[trigger] pairs[m].0 == k
}

/// The bits of object `k` once every absorber in `pairs` has been marked.
pub open spec fn bits_after(flags: Seq<ObjectFlags>, pairs: Seq<(usize, usize)>, k: int) -> u8 {
    if is_absorber(pairs, k) {
        flags[k]@ | REMOVE_NEXT_BIT
    } else {
        flags[k]@
    }
}

/// The objects whose flags lack the removal mark, in their order.
pub open spec fn unmarked_of<T>(objects: Seq<T>, flags: Seq<ObjectFlags>) -> Seq<T>
    decreases objects.len(),
{
    if objects.len() == 0 {
        Seq::empty()
    } else {
        let last = objects.len() - 1;
        let rest = unmarked_of(objects.drop_last(), flags.take(last));
        if marked(flags[last]) {
            rest
        } else {
            rest.push(objects[last])
        }
    }
}

/// The absorptions of a tick, each as (absorber, absorbed), ordered by
/// absorber and then by absorbed object: every `j != i` that `i` touches,
/// unless `i` carries the removal mark.
pub fn merge_pairs(flags: &Vec<ObjectFlags>, touching: &Vec<Vec<bool>>) -> (r: Vec<(usize, usize)>)
    requires
        is_square(flags@.len(), touching@),
    ensures
        pairs_exact(flags@, touching@, r@),
        pairs_sorted(r@),
        forall|i: int, j: int|
            0 <= i < flags@.len() && 0 <= j < flags@.len() && i != j && #[trigger] touching@[i]@[j]
                && flags@[i]@ & 1u8 != 1u8 ==> r@.contains((i as usize, j as usize)),
        forall|k: int| 0 <= k < r@.len() ==> {
            let (i, j) = #[trigger] r@[k];
            &&& i < flags@.len()
            &&& j < flags@.len()
            &&& i != j
            &&& touching@[i as int]@[j as int]
            &&& flags@[i as int]@ & 1u8 != 1u8
        },
{
    let n = flags.len();
    let mut r: Vec<(usize, usize)> = Vec::new();
    let mut i: usize = 0;
    while i < n
        invariant
            n == flags@.len(),
            is_square(n as nat, touching@),
            i <= n,
            pairs_sorted(r@),
            forall|k: int| 0 <= k < r@.len() ==> (#[trigger] r@[k]).0 < i,
            forall|k: int| 0 <= k < r@.len() ==> absorbs(flags@, touching@, #[trigger] r@[k].0 as int, r@[k].1 as int),
            forall|a: int, b: int| #[trigger] absorbs(flags@, touching@, a, b) && a < i ==> r@.contains((a as usize, b as usize)),
        decreases n - i,
    {
        let row = &touching[i];
        let mut j: usize = 0;
        while j < n
            invariant
                n == flags@.len(),
                is_square(n as nat, touching@),
                i < n,
                j <= n,
                *row == touching@[i as int],
                pairs_sorted(r@),
                forall|k: int| 0 <= k < r@.len() ==> pair_before(#[trigger] r@[k], (i, j)),
                forall|k: int| 0 <= k < r@.len() ==> absorbs(flags@, touching@, #[trigger] r@[k].0 as int, r@[k].1 as int),
                forall|a: int, b: int| #[trigger] absorbs(flags@, touching@, a, b) && (a < i || (a == i && b < j)) ==> r@.contains((a as usize, b as usize)),
            decreases n - j,
        {
            if j != i && row[j] && !flags[i].contains(ObjectFlags::remove_next()) {
                let ghost before = r@;
                r.push((i, j));
                assert forall|a: int, b: int| #[trigger] absorbs(flags@, touching@, a, b) && (a < i || (a == i && b < j + 1)) implies r@.contains((a as usize, b as usize)) by {
                    if a == i && b == j {
                        assert(r@[before.len() as int] == (i, j));
                    } else {
                        let m = choose|m: int| 0 <= m < before.len() && before[m] == (a as usize, b as usize);
                        assert(r@[m] == before[m]);
                    }
                }
            } else {
                proof {
                    assert forall|a: int, b: int| #[trigger] absorbs(flags@, touching@, a, b) && (a < i || (a == i && b < j + 1)) implies r@.contains((a as usize, b as usize)) by {
                        if a == i && b == j {
                            assert(!absorbs(flags@, touching@, a, b));
                        }
                    }
                }
            }
            j += 1;
        }
        i += 1;
    }
    proof {
        lemma_pairs_are_the_absorptions(flags@, touching@, r@);
    }
    r
}

/// Marks every absorber of `pairs` for removal, as the changes of a tick do.
pub fn mark_absorbers(flags: &mut Vec<ObjectFlags>, pairs: &Vec<(usize, usize)>)
    requires
        forall|m: int| 0 <= m < pairs@.len() ==> (#[trigger] pairs@[m]).0 < old(flags)@.len(),
    ensures
        final(flags)@.len() == old(flags)@.len(),
        forall|k: int| 0 <= k < old(flags)@.len() ==> (#[trigger] final(flags)@[k])@ == bits_after(old(flags)@, pairs@, k),
        forall|k: int| 0 <= k < old(flags)@.len() ==> {
            &&& ((#[trigger] final(flags)@[k])@ & 1u8 == 1u8 <==> (old(flags)@[k]@ & 1u8 == 1u8
                || exists|m: int| 0 <= m < pairs@.len() && pairs@[m].0 == k))
            &&& final(flags)@[k]@ & 0xfeu8 == old(flags)@[k]@ & 0xfeu8
        },
{
    let ghost start = flags@;
    let mut m: usize = 0;
    while m < pairs.len()
        invariant
            m <= pairs@.len(),
            flags@.len() == start.len(),
            forall|q: int| 0 <= q < pairs@.len() ==> (#[trigger] pairs@[q]).0 < start.len(),
            forall|k: int| 0 <= k < start.len() ==> (#[trigger] flags@[k])@ == bits_after(start, pairs@.take(m as int), k),
        decreases pairs@.len() - m,
    {
        let i = pairs[m].0;
        let mut f = flags[i];
        f.insert(ObjectFlags::remove_next());
        flags.set(i, f);
        proof {
            let prev = pairs@.take(m as int);
            let next = pairs@.take(m + 1);
            assert forall|k: int| 0 <= k < start.len() implies (#[trigger] flags@[k])@ == bits_after(start, next, k) by {
                if k == i {
                    assert(next[m as int].0 == k);
                    lemma_union_idempotent(start[k]@, REMOVE_NEXT_BIT);
                } else {
                    if is_absorber(next, k) {
                        let q = choose|q: int| 0 <= q < next.len() && #[trigger] next[q].0 == k;
                        assert(prev[q].0 == k);
                    }
                    if is_absorber(prev, k) {
                        let q = choose|q: int| 0 <= q < prev.len() && #[trigger] prev[q].0 == k;
                        assert(next[q].0 == k);
                    }
                }
            }
        }
        m += 1;
    }
    assert(pairs@.take(pairs@.len() as int) =~= pairs@);
    proof {
        assert forall|k: int| 0 <= k < start.len() implies {
            &&& ((#[trigger] flags@[k])@ & 1u8 == 1u8 <==> (start[k]@ & 1u8 == 1u8
                || exists|m: int| 0 <= m < pairs@.len() && pairs@[m].0 == k))
            &&& flags@[k]@ & 0xfeu8 == start[k]@ & 0xfeu8
        } by {
            lemma_marking_sets_only_the_mark(start, pairs@, k);
        }
    }
}

/// The objects whose flags lack the removal mark, in their order.
pub fn retain_unmarked<T: Copy>(objects: &Vec<T>, flags: &Vec<ObjectFlags>) -> (r: Vec<T>)
    requires
        objects@.len() == flags@.len(),
    ensures
        r@ == unmarked_of(objects@, flags@),
        r@.len() == unmarked_positions(flags@).len(),
        forall|t: int| 0 <= t < r@.len() ==> #[trigger] r@[t] == objects@[unmarked_positions(flags@)[t]],
{
    let mut r: Vec<T> = Vec::new();
    let mut i: usize = 0;
    while i < objects.len()
        invariant
            i <= objects@.len(),
            objects@.len() == flags@.len(),
            r@ == unmarked_of(objects@.take(i as int), flags@.take(i as int)),
        decreases objects@.len() - i,
    {
        proof {
            assert(objects@.take(i + 1).drop_last() =~= objects@.take(i as int));
            assert(flags@.take(i + 1).take(i as int) =~= flags@.take(i as int));
        }
        if !flags[i].contains(ObjectFlags::remove_next()) {
            r.push(objects[i]);
        }
        i += 1;
    }
    assert(objects@.take(objects@.len() as int) =~= objects@);
    assert(flags@.take(flags@.len() as int) =~= flags@);
    proof {
        lemma_retain_keeps_exactly_the_unmarked(objects@, flags@);
    }
    r
}

/// After a tick's absorptions are marked, an object is free of the removal
/// mark exactly when it was free of it before and touched no other object.
/// So an object that absorbs another is removed in the same tick.
pub proof fn lemma_unmarked_after_tick_iff_alone(
    flags: Seq<ObjectFlags>,
    touching: Seq<Vec<bool>>,
    pairs: Seq<(usize, usize)>,
    i: int,
)
    requires
        is_square(flags.len(), touching),
        pairs_exact(flags, touching, pairs),
        0 <= i < flags.len(),
    ensures
        (bits_after(flags, pairs, i) & 1u8 != 1u8) <==> (flags[i]@ & 1u8 != 1u8 && forall|j: int|
            0 <= j < flags.len() && j != i ==> !(#[trigger] touching[i]@[j])),
{
    lemma_marks(flags[i]@);
    if !marked(flags[i]) {
        if exists|j: int| 0 <= j < flags.len() && j != i && #[trigger] touching[i]@[j] {
            let j = choose|j: int| 0 <= j < flags.len() && j != i && #[trigger] touching[i]@[j];
            assert(absorbs(flags, touching, i, j));
            assert(pairs.contains((i as usize, j as usize)));
            let m = choose|m: int| 0 <= m < pairs.len() && pairs[m] == (i as usize, j as usize);
            assert(pairs[m].0 == i);
        } else if is_absorber(pairs, i) {
            let m = choose|m: int| 0 <= m < pairs.len() && #[trigger] pairs[m].0 == i;
            assert(absorbs(flags, touching, pairs[m].0 as int, pairs[m].1 as int));
            assert(touching[i]@[pairs[m].1 as int]);
        }
    }
}

/// An object that absorbs another is marked for removal once the
/// absorptions are marked.
pub proof fn lemma_absorber_is_marked(flags: Seq<ObjectFlags>, pairs: Seq<(usize, usize)>, m: int)
    requires
        0 <= m < pairs.len(),
    ensures
        bits_after(flags, pairs, pairs[m].0 as int) & 1u8 == 1u8,
{
    lemma_marks(flags[pairs[m].0 as int]@);
    assert(is_absorber(pairs, pairs[m].0 as int));
}

/// When no object carries the removal mark, every object remains, in order.
pub proof fn lemma_nothing_marked_keeps_all<T>(objects: Seq<T>, flags: Seq<ObjectFlags>)
    requires
        objects.len() == flags.len(),
        forall|k: int| 0 <= k < flags.len() ==> !marked(#[trigger] flags[k]),
    ensures
        unmarked_of(objects, flags) == objects,
    decreases objects.len(),
{
    if objects.len() > 0 {
        let last = objects.len() - 1;
        let shorter = flags.take(last);
        assert forall|k: int| 0 <= k < shorter.len() implies !marked(#[trigger] shorter[k]) by {
            assert(shorter[k] == flags[k]);
        }
        lemma_nothing_marked_keeps_all(objects.drop_last(), shorter);
        assert(objects.drop_last().push(objects[last]) =~= objects);
    }
}

/// The objects that remain are never more than the objects there were.
pub proof fn lemma_unmarked_no_longer<T>(objects: Seq<T>, flags: Seq<ObjectFlags>)
    ensures
        unmarked_of(objects, flags).len() <= objects.len(),
    decreases objects.len(),
{
    if objects.len() > 0 {
        lemma_unmarked_no_longer(objects.drop_last(), flags.take(objects.len() - 1));
    }
}

/// The positions of `flags` that lack the removal mark, in increasing order.
pub open spec fn unmarked_positions(flags: Seq<ObjectFlags>) -> Seq<int>
    decreases flags.len(),
{
    if flags.len() == 0 {
        Seq::empty()
    } else {
        let rest = unmarked_positions(flags.drop_last());
        if flags.last()@ & 1u8 == 1u8 {
            rest
        } else {
            rest.push(flags.len() - 1)
        }
    }
}

/// The pairs of a tick are exactly the absorptions: every pair is two
/// distinct objects, the first touching the second and lacking the removal
/// bit; every such two objects form a pair; and the pairs increase, by
/// absorber and then by absorbed object.
pub proof fn lemma_pairs_are_the_absorptions(
    flags: Seq<ObjectFlags>,
    touching: Seq<Vec<bool>>,
    pairs: Seq<(usize, usize)>,
)
    requires
        is_square(flags.len(), touching),
        pairs_exact(flags, touching, pairs),
        pairs_sorted(pairs),
    ensures
        forall|i: int, j: int|
            0 <= i < flags.len() && 0 <= j < flags.len() && i != j && #[trigger] touching[i]@[j]
                && flags[i]@ & 1u8 != 1u8 ==> pairs.contains((i as usize, j as usize)),
        forall|k: int| 0 <= k < pairs.len() ==> {
            let (i, j) = #[trigger] pairs[k];
            &&& i < flags.len()
            &&& j < flags.len()
            &&& i != j
            &&& touching[i as int]@[j as int]
            &&& flags[i as int]@ & 1u8 != 1u8
        },
        forall|a: int, b: int| 0 <= a < b < pairs.len() ==> {
            ||| (#[trigger] pairs[a]).0 < (#[trigger] pairs[b]).0
            ||| (pairs[a].0 == pairs[b].0 && pairs[a].1 < pairs[b].1)
        },
{
    assert forall|i: int, j: int|
        0 <= i < flags.len() && 0 <= j < flags.len() && i != j && #[trigger] touching[i]@[j]
            && flags[i]@ & 1u8 != 1u8 implies pairs.contains((i as usize, j as usize)) by {
        assert(absorbs(flags, touching, i, j));
    }
    assert forall|k: int| 0 <= k < pairs.len() implies {
        let (i, j) = #[trigger] pairs[k];
        &&& i < flags.len()
        &&& j < flags.len()
        &&& i != j
        &&& touching[i as int]@[j as int]
        &&& flags[i as int]@ & 1u8 != 1u8
    } by {
        assert(absorbs(flags, touching, pairs[k].0 as int, pairs[k].1 as int));
    }
    assert forall|a: int, b: int| 0 <= a < b < pairs.len() implies {
        ||| (#[trigger] pairs[a]).0 < (#[trigger] pairs[b]).0
        ||| (pairs[a].0 == pairs[b].0 && pairs[a].1 < pairs[b].1)
    } by {
        assert(pair_before(pairs[a], pairs[b]));
    }
}

/// Marking the absorbers sets the removal bit of exactly the objects that
/// already had it or absorb another, and leaves every other bit as it was.
pub proof fn lemma_marking_sets_only_the_mark(flags: Seq<ObjectFlags>, pairs: Seq<(usize, usize)>, k: int)
    requires
        0 <= k < flags.len(),
    ensures
        (bits_after(flags, pairs, k) & 1u8 == 1u8) <==> (flags[k]@ & 1u8 == 1u8
            || exists|m: int| 0 <= m < pairs.len() && pairs[m].0 == k),
        bits_after(flags, pairs, k) & 0xfeu8 == flags[k]@ & 0xfeu8,
{
    let x = flags[k]@;
    assert((x | 1u8) & 1u8 == 1u8) by (bit_vector);
    assert((x | 1u8) & 0xfeu8 == x & 0xfeu8) by (bit_vector);
    if exists|m: int| 0 <= m < pairs.len() && pairs[m].0 == k {
        let m = choose|m: int| 0 <= m < pairs.len() && pairs[m].0 == k;
        assert(pairs[m].0 == k);
    }
}

/// The positions without the removal bit are in range, increase strictly,
/// lack the bit, and include every position that lacks it.
pub proof fn lemma_unmarked_positions(flags: Seq<ObjectFlags>)
    ensures
        forall|t: int| 0 <= t < unmarked_positions(flags).len() ==> {
            let k = #[trigger] unmarked_positions(flags)[t];
            0 <= k < flags.len() && flags[k]@ & 1u8 != 1u8
        },
        forall|t: int, u: int| 0 <= t < u < unmarked_positions(flags).len()
            ==> #[trigger] unmarked_positions(flags)[t] < #[trigger] unmarked_positions(flags)[u],
        forall|k: int| 0 <= k < flags.len() && #[trigger] flags[k]@ & 1u8 != 1u8
            ==> unmarked_positions(flags).contains(k),
    decreases flags.len(),
{
    if flags.len() > 0 {
        let init = flags.drop_last();
        lemma_unmarked_positions(init);
        let p = unmarked_positions(init);
        let q = unmarked_positions(flags);
        assert forall|k: int| 0 <= k < flags.len() && #[trigger] flags[k]@ & 1u8 != 1u8
            implies q.contains(k) by {
            if k < flags.len() - 1 {
                assert(init[k] == flags[k]);
                assert(p.contains(k));
                let t = choose|t: int| 0 <= t < p.len() && p[t] == k;
                assert(q[t] == p[t]);
            } else {
                assert(q[q.len() - 1] == k);
            }
        }
        assert forall|t: int| 0 <= t < q.len() implies {
            let k = #[trigger] q[t];
            0 <= k < flags.len() && flags[k]@ & 1u8 != 1u8
        } by {
            if t < p.len() {
                assert(q[t] == p[t]);
                assert(init[p[t]] == flags[p[t]]);
            }
        }
        assert forall|t: int, u: int| 0 <= t < u < q.len() implies #[trigger] q[t] < #[trigger] q[u] by {
            if u < p.len() {
                assert(q[t] == p[t] && q[u] == p[u]);
            } else {
                assert(q[t] == p[t]);
            }
        }
    }
}

/// The objects that remain are the objects at the positions without the
/// removal bit, in increasing order of position; so none that remains
/// carries the bit, every object without it remains, and as many remain as
/// there are objects without it.
pub proof fn lemma_retain_keeps_exactly_the_unmarked<T>(objects: Seq<T>, flags: Seq<ObjectFlags>)
    requires
        objects.len() == flags.len(),
    ensures
        unmarked_of(objects, flags).len() == unmarked_positions(flags).len(),
        forall|t: int| 0 <= t < unmarked_of(objects, flags).len()
            ==> #[trigger] unmarked_of(objects, flags)[t] == objects[unmarked_positions(flags)[t]],
        forall|t: int| 0 <= t < unmarked_positions(flags).len() ==> {
            let k = #[trigger] unmarked_positions(flags)[t];
            0 <= k < flags.len() && flags[k]@ & 1u8 != 1u8
        },
        forall|t: int, u: int| 0 <= t < u < unmarked_positions(flags).len()
            ==> #[trigger] unmarked_positions(flags)[t] < #[trigger] unmarked_positions(flags)[u],
        forall|k: int| 0 <= k < flags.len() && #[trigger] flags[k]@ & 1u8 != 1u8
            ==> unmarked_positions(flags).contains(k),
    decreases objects.len(),
{
    lemma_unmarked_positions(flags);
    if objects.len() > 0 {
        let last = objects.len() - 1;
        let init = objects.drop_last();
        let finit = flags.take(last);
        assert(finit =~= flags.drop_last());
        lemma_retain_keeps_exactly_the_unmarked(init, finit);
        let r = unmarked_of(objects, flags);
        let r0 = unmarked_of(init, finit);
        let p0 = unmarked_positions(finit);
        let p = unmarked_positions(flags);
        assert forall|t: int| 0 <= t < r.len() implies #[trigger] r[t] == objects[p[t]] by {
            if t < r0.len() {
                assert(r[t] == r0[t]);
                assert(p[t] == p0[t]);
                assert(init[p0[t]] == objects[p0[t]]);
            }
        }
    }
}

} // verus!
