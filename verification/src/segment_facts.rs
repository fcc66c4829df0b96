//! Facts on sequences of segments, for the proofs of the laws.
use vstd::prelude::*;

use crate::lock_model;
use crate::lock_model::{LockType, ProcessId, Segment};

verus! {

/// `part` lies inside `whole` and is otherwise the same lock.
pub(crate) open spec fn part_of(part: Segment, whole: Segment) -> bool {
    &&& part.owner == whole.owner
    &&& part.lock_type == whole.lock_type
    &&& whole.start <= part.start
    &&& part.end <= whole.end
}

/// Every segment of `parts` is part of one of `wholes`.
pub(crate) open spec fn parts_of(parts: Seq<Segment>, wholes: Seq<Segment>) -> bool {
    forall|k: int|
        0 <= k < parts.len() ==> exists|i: int|
            0 <= i < wholes.len() && part_of(#[trigger] parts[k], #[trigger] wholes[i])
}

/// Filtering one element more keeps what was kept before it.
pub(crate) proof fn lemma_filter_take_next<A>(s: Seq<A>, keep: spec_fn(A) -> bool, i: int)
    requires
        0 <= i < s.len(),
    ensures
        s.take(i + 1).filter(keep) == (if keep(s[i]) {
            s.take(i).filter(keep).push(s[i])
        } else {
            s.take(i).filter(keep)
        }),
{
    reveal(Seq::filter);
    assert(s.take(i + 1).drop_last() =~= s.take(i));
}

/// Filtering a sequence is filtering its two parts.
pub(crate) proof fn lemma_filter_split<A>(s: Seq<A>, keep: spec_fn(A) -> bool, i: int)
    requires
        0 <= i <= s.len(),
    ensures
        s.filter(keep) == s.take(i).filter(keep) + s.skip(i).filter(keep),
{
    assert(s =~= s.take(i) + s.skip(i));
    Seq::filter_distributes_over_add(s.take(i), s.skip(i), keep);
}

/// A filter keeps nothing just where no element is to be kept.
pub(crate) proof fn lemma_filter_none<A>(s: Seq<A>, keep: spec_fn(A) -> bool)
    ensures
        s.filter(keep).len() == 0 <==> forall|i: int| 0 <= i < s.len() ==> !keep(#[trigger] s[i]),
{
    broadcast use vstd::seq_lib::group_filter_ensures;

    if s.filter(keep).len() == 0 {
        assert forall|i: int| 0 <= i < s.len() implies !keep(#[trigger] s[i]) by {
            if keep(s[i]) {
                assert(s.filter(keep).contains(s[i]));
            }
        }
    } else {
        let x = s.filter(keep)[0];
        assert(keep(x));
        assert(s.filter(keep).contains(x));
        s.lemma_filter_contains_rev(keep, x);
    }
}

/// Filtering by a condition that implies another needs no filtering by that other.
pub(crate) proof fn lemma_filter_twice<A>(
    s: Seq<A>,
    wide: spec_fn(A) -> bool,
    narrow: spec_fn(A) -> bool,
)
    requires
        forall|x: A| #[trigger] narrow(x) ==> wide(x),
    ensures
        s.filter(wide).filter(narrow) == s.filter(narrow),
    decreases s.len(),
{
    reveal(Seq::filter);
    if s.len() > 0 {
        lemma_filter_twice(s.drop_last(), wide, narrow);
        let kept = s.drop_last().filter(wide);
        assert(kept.push(s.last()).drop_last() =~= kept);
    }
}

/// Two filters that agree on every element keep the same elements.
pub(crate) proof fn lemma_filter_same<A>(
    s: Seq<A>,
    one: spec_fn(A) -> bool,
    two: spec_fn(A) -> bool,
)
    requires
        forall|i: int| 0 <= i < s.len() ==> one(#[trigger] s[i]) == two(s[i]),
    ensures
        s.filter(one) == s.filter(two),
    decreases s.len(),
{
    reveal(Seq::filter);
    if s.len() > 0 {
        let earlier = s.drop_last();
        assert forall|i: int| 0 <= i < earlier.len() implies one(#[trigger] earlier[i]) == two(
            earlier[i],
        ) by {
            assert(earlier[i] == s[i]);
        }
        lemma_filter_same(earlier, one, two);
        assert(one(s[s.len() - 1]) == two(s[s.len() - 1]));
    }
}

/// There is a first conflict just where some segment blocks, and it is one of
/// the segments and blocks.
pub(crate) proof fn lemma_first_conflict(
    segments: Seq<Segment>,
    start: u64,
    end: u64,
    lock_type: LockType,
    requester: ProcessId,
)
    ensures
        match lock_model::first_conflict(segments, start, end, lock_type, requester) {
            Some(conflict) => conflict.blocks(start, end, lock_type, requester)
                && segments.contains(conflict),
            None => forall|i: int|
                0 <= i < segments.len() ==> !(#[trigger] segments[i]).blocks(
                    start,
                    end,
                    lock_type,
                    requester,
                ),
        },
{
    broadcast use vstd::seq_lib::group_filter_ensures;

    let blocking = |s: Segment| s.blocks(start, end, lock_type, requester);
    let found = segments.filter(blocking);
    lemma_filter_none(segments, blocking);
    if found.len() == 0 {
        assert forall|i: int| 0 <= i < segments.len() implies !(#[trigger] segments[i]).blocks(
            start,
            end,
            lock_type,
            requester,
        ) by {
            assert(!blocking(segments[i]));
        }
    } else {
        assert(blocking(found[0]));
        assert(found.contains(found[0]));
        segments.lemma_filter_contains_rev(blocking, found[0]);
    }
}

pub(crate) proof fn lemma_holds_add(
    a: Seq<Segment>,
    b: Seq<Segment>,
    owner: ProcessId,
    lock_type: LockType,
    x: int,
)
    ensures
        lock_model::holds(a + b, owner, lock_type, x) <==> (lock_model::holds(
            a,
            owner,
            lock_type,
            x,
        ) || lock_model::holds(b, owner, lock_type, x)),
{
    if lock_model::holds(a, owner, lock_type, x) {
        let i = choose|i: int|
            0 <= i < a.len() && (#[trigger] a[i]).is_kind(owner, lock_type) && a[i].covers(x);
        assert((a + b)[i] == a[i]);
    }
    if lock_model::holds(b, owner, lock_type, x) {
        let i = choose|i: int|
            0 <= i < b.len() && (#[trigger] b[i]).is_kind(owner, lock_type) && b[i].covers(x);
        assert((a + b)[a.len() + i] == b[i]);
    }
    if lock_model::holds(a + b, owner, lock_type, x) {
        let i = choose|i: int|
            0 <= i < (a + b).len() && (#[trigger] (a + b)[i]).is_kind(owner, lock_type) && (a
                + b)[i].covers(x);
        if i < a.len() {
            assert(a[i] == (a + b)[i]);
        } else {
            assert(b[i - a.len()] == (a + b)[i]);
        }
    }
}

/// Carving goes through the segments one by one.
pub(crate) proof fn lemma_carved_last(segments: Seq<Segment>, start: u64, end: u64, owner: ProcessId)
    requires
        segments.len() > 0,
    ensures
        segments.last().is_cut(start, end, owner) ==> {
            &&& lock_model::uncut(segments, start, end, owner) == lock_model::uncut(
                segments.drop_last(),
                start,
                end,
                owner,
            )
            &&& lock_model::remnants(segments, start, end, owner) == lock_model::remnants(
                segments.drop_last(),
                start,
                end,
                owner,
            ) + segments.last().remainder(start, end)
        },
        !segments.last().is_cut(start, end, owner) ==> {
            &&& lock_model::uncut(segments, start, end, owner) == lock_model::uncut(
                segments.drop_last(),
                start,
                end,
                owner,
            ).push(segments.last())
            &&& lock_model::remnants(segments, start, end, owner) == lock_model::remnants(
                segments.drop_last(),
                start,
                end,
                owner,
            )
        },
{
    reveal(Seq::filter);
}

/// What a process holds, byte by byte, once a range has been carved out of it.
pub(crate) proof fn lemma_carved_holds(
    segments: Seq<Segment>,
    start: u64,
    end: u64,
    owner: ProcessId,
    holder: ProcessId,
    lock_type: LockType,
    x: int,
)
    ensures
        lock_model::holds(lock_model::carved(segments, start, end, owner), holder, lock_type, x)
            <==> (lock_model::holds(segments, holder, lock_type, x) && !(holder == owner && start
            <= x < end)),
    decreases segments.len(),
{
    let kept = lock_model::uncut(segments, start, end, owner);
    let rest = lock_model::remnants(segments, start, end, owner);
    lemma_holds_add(kept, rest, holder, lock_type, x);
    if segments.len() == 0 {
        reveal(Seq::filter);
    } else {
        let last = segments.last();
        let earlier = segments.drop_last();
        let kept0 = lock_model::uncut(earlier, start, end, owner);
        let rest0 = lock_model::remnants(earlier, start, end, owner);
        lemma_carved_holds(earlier, start, end, owner, holder, lock_type, x);
        lemma_holds_add(kept0, rest0, holder, lock_type, x);
        lemma_carved_last(segments, start, end, owner);
        assert(segments =~= earlier + seq![last]);
        lemma_holds_add(earlier, seq![last], holder, lock_type, x);
        assert(seq![last][0] == last);
        if last.is_cut(start, end, owner) {
            let parts = last.remainder(start, end);
            lemma_holds_add(rest0, parts, holder, lock_type, x);
            if lock_model::holds(seq![last], holder, lock_type, x) && !(start <= x < end) {
                if x < start {
                    assert(parts[0].covers(x));
                } else {
                    assert(parts[parts.len() - 1].covers(x));
                }
                assert(lock_model::holds(parts, holder, lock_type, x));
            }
        } else {
            assert(kept0.push(last) =~= kept0 + seq![last]);
            lemma_holds_add(kept0, seq![last], holder, lock_type, x);
        }
    }
}

/// Carving leaves only parts of what was there, and of the locks of other
/// processes the whole.
pub(crate) proof fn lemma_carved_parts(
    segments: Seq<Segment>,
    start: u64,
    end: u64,
    owner: ProcessId,
)
    ensures
        parts_of(lock_model::uncut(segments, start, end, owner), segments),
        parts_of(lock_model::remnants(segments, start, end, owner), segments),
        forall|k: int|
            0 <= k < lock_model::carved(segments, start, end, owner).len() ==> (
            #[trigger] lock_model::carved(segments, start, end, owner)[k]).owner == owner
                || segments.contains(lock_model::carved(segments, start, end, owner)[k]),
    decreases segments.len(),
{
    let kept = lock_model::uncut(segments, start, end, owner);
    let rest = lock_model::remnants(segments, start, end, owner);
    if segments.len() == 0 {
        reveal(Seq::filter);
    } else {
        let last = segments.last();
        let earlier = segments.drop_last();
        let kept0 = lock_model::uncut(earlier, start, end, owner);
        let rest0 = lock_model::remnants(earlier, start, end, owner);
        lemma_carved_parts(earlier, start, end, owner);
        lemma_carved_last(segments, start, end, owner);
        assert forall|k: int| 0 <= k < kept.len() implies exists|i: int|
            0 <= i < segments.len() && part_of(#[trigger] kept[k], #[trigger] segments[i]) by {
            if k < kept0.len() {
                let i = choose|i: int|
                    0 <= i < earlier.len() && part_of(kept0[k], #[trigger] earlier[i]);
                assert(part_of(kept[k], segments[i]));
            } else {
                assert(part_of(kept[k], segments[segments.len() - 1]));
            }
        }
        assert forall|k: int| 0 <= k < rest.len() implies exists|i: int|
            0 <= i < segments.len() && part_of(#[trigger] rest[k], #[trigger] segments[i]) by {
            if k < rest0.len() {
                let i = choose|i: int|
                    0 <= i < earlier.len() && part_of(rest0[k], #[trigger] earlier[i]);
                assert(part_of(rest[k], segments[i]));
            } else {
                assert(part_of(rest[k], segments[segments.len() - 1]));
            }
        }
        let all = kept + rest;
        let all0 = kept0 + rest0;
        assert forall|k: int| 0 <= k < all.len() implies (#[trigger] all[k]).owner == owner
            || segments.contains(all[k]) by {
            if k < kept.len() {
                if k < kept0.len() {
                    assert(all0[k] == all[k]);
                    if earlier.contains(all0[k]) {
                        let i = choose|i: int| 0 <= i < earlier.len() && earlier[i] == all0[k];
                        assert(segments[i] == all[k]);
                    }
                } else {
                    assert(segments[segments.len() - 1] == all[k]);
                }
            } else {
                let r = k - kept.len();
                if r < rest0.len() {
                    assert(all0[kept0.len() + r] == all[k]);
                    if earlier.contains(all[k]) {
                        let i = choose|i: int| 0 <= i < earlier.len() && earlier[i] == all[k];
                        assert(segments[i] == all[k]);
                    }
                }
            }
        }
    }
}

/// `related` does not depend on the order of its arguments and passes from two
/// segments to their parts.
pub(crate) open spec fn hereditary(related: spec_fn(Segment, Segment) -> bool) -> bool {
    &&& forall|a: Segment, b: Segment| #[trigger] related(a, b) ==> related(b, a)
    &&& forall|a: Segment, b: Segment, a1: Segment, b1: Segment|
        #![trigger related(a, b), part_of(a1, a), part_of(b1, b)]
        related(a, b) && part_of(a1, a) && part_of(b1, b) ==> related(a1, b1)
}

/// A relation that passes to parts, and holds of the two parts that carving
/// leaves of one segment, still holds of every two segments after carving.
pub(crate) proof fn lemma_carved_pairwise(
    segments: Seq<Segment>,
    start: u64,
    end: u64,
    owner: ProcessId,
    related: spec_fn(Segment, Segment) -> bool,
)
    requires
        lock_model::pairwise(segments, related),
        hereditary(related),
        forall|i: int|
            0 <= i < segments.len() && (#[trigger] segments[i]).is_cut(start, end, owner)
                && segments[i].start < start && segments[i].end > end ==> related(
                Segment { end: start, ..segments[i] },
                Segment { start: end, ..segments[i] },
            ),
    ensures
        lock_model::pairwise(lock_model::carved(segments, start, end, owner), related),
    decreases segments.len(),
{
    let kept = lock_model::uncut(segments, start, end, owner);
    let rest = lock_model::remnants(segments, start, end, owner);
    if segments.len() == 0 {
        reveal(Seq::filter);
    } else {
        let last = segments.last();
        let earlier = segments.drop_last();
        let kept0 = lock_model::uncut(earlier, start, end, owner);
        let rest0 = lock_model::remnants(earlier, start, end, owner);
        let all0 = kept0 + rest0;
        let all = kept + rest;
        assert forall|i: int|
            0 <= i < earlier.len() && (#[trigger] earlier[i]).is_cut(start, end, owner)
                && earlier[i].start < start && earlier[i].end > end implies related(
            Segment { end: start, ..earlier[i] },
            Segment { start: end, ..earlier[i] },
        ) by {
            assert(earlier[i] == segments[i]);
        }
        assert(segments[segments.len() - 1] == last);
        lemma_carved_pairwise(earlier, start, end, owner, related);
        lemma_carved_last(segments, start, end, owner);
        lemma_carved_parts(earlier, start, end, owner);
        // What was left of the earlier segments is related to every part of the last.
        assert forall|k: int, p: Segment|
            0 <= k < all0.len() && part_of(p, last) implies #[trigger] related(all0[k], p) by {
            let i = if k < kept0.len() {
                assert(all0[k] == kept0[k]);
                choose|i: int| 0 <= i < earlier.len() && part_of(kept0[k], #[trigger] earlier[i])
            } else {
                assert(all0[k] == rest0[k - kept0.len()]);
                choose|i: int|
                    0 <= i < earlier.len() && part_of(
                        rest0[k - kept0.len()],
                        #[trigger] earlier[i],
                    )
            };
            assert(related(segments[i], segments[segments.len() - 1]));
            assert(part_of(all0[k], segments[i]));
        }
        if last.is_cut(start, end, owner) {
            let parts = last.remainder(start, end);
            assert(all =~= all0 + parts);
            assert forall|k: int, l: int|
                #![trigger all[k], all[l]]
                0 <= k < l < all.len() implies related(all[k], all[l]) by {
                if l < all0.len() {
                    assert(all[k] == all0[k] && all[l] == all0[l]);
                } else if k < all0.len() {
                    assert(all[k] == all0[k]);
                    assert(part_of(all[l], last));
                    assert(related(all0[k], all[l]));
                } else {
                    assert(all[k] == parts[k - all0.len()] && all[l] == parts[l - all0.len()]);
                }
            }
        } else {
            let n = kept0.len() as int;
            assert(all.len() == all0.len() + 1);
            assert(all[n] == last);
            assert(part_of(last, last));
            assert forall|k: int, l: int|
                #![trigger all[k], all[l]]
                0 <= k < l < all.len() implies related(all[k], all[l]) by {
                let k0 = if k <= n {
                    k
                } else {
                    k - 1
                };
                let l0 = if l <= n {
                    l
                } else {
                    l - 1
                };
                if k != n {
                    assert(all[k] == all0[k0]);
                }
                if l != n {
                    assert(all[l] == all0[l0]);
                }
                if k == n {
                    assert(related(all0[l0], last));
                } else if l == n {
                    assert(related(all0[k0], last));
                } else {
                    assert(related(all0[k0], all0[l0]));
                }
            }
        }
    }
}

/// Two positions are the first pair only if they are those of any first pair.
pub(crate) proof fn lemma_first_pair_unique(
    segments: Seq<Segment>,
    owner: ProcessId,
    lock_type: LockType,
    i: int,
    j: int,
    k: int,
    l: int,
)
    requires
        lock_model::is_first_pair(segments, owner, lock_type, i, j),
        lock_model::is_first_pair(segments, owner, lock_type, k, l),
    ensures
        i == k && j == l,
{
}

/// Coalescing goes on from where the first pair has been joined.
pub(crate) proof fn lemma_coalesced_step(
    segments: Seq<Segment>,
    owner: ProcessId,
    lock_type: LockType,
    i: int,
    j: int,
)
    requires
        lock_model::is_first_pair(segments, owner, lock_type, i, j),
    ensures
        lock_model::coalesced(segments, owner, lock_type) == lock_model::coalesced(
            lock_model::join_at(segments, i, j),
            owner,
            lock_type,
        ),
{
    let (k, l) = choose|k: int, l: int| lock_model::is_first_pair(segments, owner, lock_type, k, l);
    lemma_first_pair_unique(segments, owner, lock_type, i, j, k, l);
}

/// Of segments that can be joined, some are the first.
pub(crate) proof fn lemma_first_pair_exists(
    segments: Seq<Segment>,
    owner: ProcessId,
    lock_type: LockType,
    k: int,
    l: int,
)
    requires
        0 <= k < l < segments.len(),
        lock_model::joinable(segments[k], segments[l], owner, lock_type),
    ensures
        exists|i: int, j: int| lock_model::is_first_pair(segments, owner, lock_type, i, j),
    decreases k, l,
{
    if !lock_model::is_first_pair(segments, owner, lock_type, k, l) {
        let (k1, l1) = choose|k1: int, l1: int|
            #![trigger segments[k1], segments[l1]]
            0 <= k1 < l1 < segments.len() && (k1 < k || (k1 == k && l1 < l))
                && lock_model::joinable(segments[k1], segments[l1], owner, lock_type);
        lemma_first_pair_exists(segments, owner, lock_type, k1, l1);
    }
}

/// Joining keeps what is held, byte by byte.
pub(crate) proof fn lemma_join_holds(
    segments: Seq<Segment>,
    owner: ProcessId,
    lock_type: LockType,
    i: int,
    j: int,
    holder: ProcessId,
    held: LockType,
    x: int,
)
    requires
        0 <= i < j < segments.len(),
        lock_model::joinable(segments[i], segments[j], owner, lock_type),
    ensures
        lock_model::holds(lock_model::join_at(segments, i, j), holder, held, x)
            <==> lock_model::holds(segments, holder, held, x),
{
    let after = lock_model::join_at(segments, i, j);
    if lock_model::holds(segments, holder, held, x) {
        let k = choose|k: int|
            0 <= k < segments.len() && (#[trigger] segments[k]).is_kind(holder, held)
                && segments[k].covers(x);
        if k == i || k == j {
            assert(after[i].is_kind(holder, held) && after[i].covers(x));
        } else if k < j {
            assert(after[k] == segments[k]);
        } else {
            assert(after[k - 1] == segments[k]);
        }
    }
    if lock_model::holds(after, holder, held, x) {
        let k = choose|k: int|
            0 <= k < after.len() && (#[trigger] after[k]).is_kind(holder, held)
                && after[k].covers(x);
        if k == i {
            assert(segments[i].covers(x) || segments[j].covers(x));
        } else if k < j {
            assert(after[k] == segments[k]);
        } else {
            assert(after[k] == segments[k + 1]);
        }
    }
}

/// Coalescing keeps what is held, byte by byte.
pub(crate) proof fn lemma_coalesced_holds(
    segments: Seq<Segment>,
    owner: ProcessId,
    lock_type: LockType,
    holder: ProcessId,
    held: LockType,
    x: int,
)
    ensures
        lock_model::holds(
            lock_model::coalesced(segments, owner, lock_type),
            holder,
            held,
            x,
        ) <==> lock_model::holds(segments, holder, held, x),
    decreases segments.len(),
{
    if exists|i: int, j: int| lock_model::is_first_pair(segments, owner, lock_type, i, j) {
        let (i, j) = choose|i: int, j: int|
            lock_model::is_first_pair(segments, owner, lock_type, i, j);
        lemma_coalesced_step(segments, owner, lock_type, i, j);
        lemma_join_holds(segments, owner, lock_type, i, j, holder, held, x);
        lemma_coalesced_holds(
            lock_model::join_at(segments, i, j),
            owner,
            lock_type,
            holder,
            held,
            x,
        );
    }
}

/// A relation that passes from two segments to what they are joined into still
/// holds of every two segments after coalescing.
pub(crate) proof fn lemma_coalesced_pairwise(
    segments: Seq<Segment>,
    owner: ProcessId,
    lock_type: LockType,
    related: spec_fn(Segment, Segment) -> bool,
)
    requires
        lock_model::pairwise(segments, related),
        forall|a: Segment, b: Segment| #[trigger] related(a, b) ==> related(b, a),
        forall|a: Segment, b: Segment, c: Segment|
            #![trigger related(a, c), related(b, c)]
            lock_model::joinable(a, b, owner, lock_type) && related(a, c) && related(b, c)
                ==> related(lock_model::joined(a, b), c),
    ensures
        lock_model::pairwise(lock_model::coalesced(segments, owner, lock_type), related),
    decreases segments.len(),
{
    if exists|i: int, j: int| lock_model::is_first_pair(segments, owner, lock_type, i, j) {
        let (i, j) = choose|i: int, j: int|
            lock_model::is_first_pair(segments, owner, lock_type, i, j);
        let after = lock_model::join_at(segments, i, j);
        lemma_coalesced_step(segments, owner, lock_type, i, j);
        assert forall|k: int, l: int|
            #![trigger after[k], after[l]]
            0 <= k < l < after.len() implies related(after[k], after[l]) by {
            let k0 = if k < j {
                k
            } else {
                k + 1
            };
            let l0 = if l < j {
                l
            } else {
                l + 1
            };
            assert(k == i || after[k] == segments[k0]);
            assert(l == i || after[l] == segments[l0]);
            if k == i {
                assert(related(segments[i], segments[l0]));
                if l0 < j {
                    assert(related(segments[l0], segments[j]));
                } else {
                    assert(related(segments[j], segments[l0]));
                }
                assert(related(segments[j], segments[l0]));
            } else if l == i {
                assert(related(segments[k0], segments[i]));
                assert(related(segments[k0], segments[j]));
                assert(related(segments[i], segments[k0]));
                assert(related(segments[j], segments[k0]));
            } else {
                assert(related(segments[k0], segments[l0]));
            }
        }
        lemma_coalesced_pairwise(after, owner, lock_type, related);
    }
}

/// Coalescing ends where no two segments can be joined, and keeps the segments
/// non-empty.
pub(crate) proof fn lemma_coalesced_done(
    segments: Seq<Segment>,
    owner: ProcessId,
    lock_type: LockType,
)
    ensures
        ({
            let after = lock_model::coalesced(segments, owner, lock_type);
            &&& forall|k: int, l: int|
                #![trigger after[k], after[l]]
                0 <= k < l < after.len() ==> !lock_model::joinable(
                    after[k],
                    after[l],
                    owner,
                    lock_type,
                )
            &&& (forall|k: int| 0 <= k < segments.len() ==> (#[trigger] segments[k]).start
                < segments[k].end) ==> (forall|k: int|
                0 <= k < after.len() ==> (#[trigger] after[k]).start < after[k].end)
        }),
    decreases segments.len(),
{
    let after = lock_model::coalesced(segments, owner, lock_type);
    if exists|i: int, j: int| lock_model::is_first_pair(segments, owner, lock_type, i, j) {
        let (i, j) = choose|i: int, j: int|
            lock_model::is_first_pair(segments, owner, lock_type, i, j);
        let next = lock_model::join_at(segments, i, j);
        lemma_coalesced_step(segments, owner, lock_type, i, j);
        lemma_coalesced_done(next, owner, lock_type);
        if forall|k: int| 0 <= k < segments.len() ==> (#[trigger] segments[k]).start
            < segments[k].end {
            assert forall|k: int| 0 <= k < next.len() implies (#[trigger] next[k]).start
                < next[k].end by {
                let k0 = if k < j {
                    k
                } else {
                    k + 1
                };
                assert(segments[k0].start < segments[k0].end);
                assert(segments[j].start < segments[j].end);
            }
        }
    } else {
        assert forall|k: int, l: int|
            #![trigger after[k], after[l]]
            0 <= k < l < after.len() implies !lock_model::joinable(
            after[k],
            after[l],
            owner,
            lock_type,
        ) by {
            if lock_model::joinable(after[k], after[l], owner, lock_type) {
                lemma_first_pair_exists(segments, owner, lock_type, k, l);
            }
        }
    }
}

/// Carving leaves the locks of other processes as they are, in order.
pub(crate) proof fn lemma_carved_foreign(
    segments: Seq<Segment>,
    start: u64,
    end: u64,
    owner: ProcessId,
)
    ensures
        lock_model::carved(segments, start, end, owner).filter(|s: Segment| s.owner != owner)
            == segments.filter(|s: Segment| s.owner != owner),
{
    let foreign = |s: Segment| s.owner != owner;
    let kept = lock_model::uncut(segments, start, end, owner);
    let rest = lock_model::remnants(segments, start, end, owner);
    lemma_filter_twice(segments, |s: Segment| !s.is_cut(start, end, owner), foreign);
    lemma_remnants_owned(segments, start, end, owner);
    lemma_filter_none(rest, foreign);
    Seq::filter_distributes_over_add(kept, rest, foreign);
}

pub(crate) proof fn lemma_remnants_owned(
    segments: Seq<Segment>,
    start: u64,
    end: u64,
    owner: ProcessId,
)
    ensures
        forall|k: int|
            0 <= k < lock_model::remnants(segments, start, end, owner).len() ==> (
            #[trigger] lock_model::remnants(segments, start, end, owner)[k]).owner == owner,
    decreases segments.len(),
{
    if segments.len() > 0 {
        lemma_remnants_owned(segments.drop_last(), start, end, owner);
    }
}

/// Coalescing leaves the locks of other processes as they are, in order.
pub(crate) proof fn lemma_coalesced_foreign(
    segments: Seq<Segment>,
    owner: ProcessId,
    lock_type: LockType,
)
    ensures
        lock_model::coalesced(segments, owner, lock_type).filter(|s: Segment| s.owner != owner)
            == segments.filter(|s: Segment| s.owner != owner),
    decreases segments.len(),
{
    if exists|i: int, j: int| lock_model::is_first_pair(segments, owner, lock_type, i, j) {
        let (i, j) = choose|i: int, j: int|
            lock_model::is_first_pair(segments, owner, lock_type, i, j);
        let next = lock_model::join_at(segments, i, j);
        let foreign = |s: Segment| s.owner != owner;
        lemma_coalesced_step(segments, owner, lock_type, i, j);
        lemma_coalesced_foreign(next, owner, lock_type);
        let head = segments.take(i);
        let middle = segments.subrange(i + 1, j);
        let tail = segments.skip(j + 1);
        assert(segments =~= head + seq![segments[i]] + middle + seq![segments[j]] + tail);
        assert(next =~= head + seq![next[i]] + middle + tail);
        lemma_filter_none(seq![segments[i]], foreign);
        lemma_filter_none(seq![segments[j]], foreign);
        lemma_filter_none(seq![next[i]], foreign);
        Seq::filter_distributes_over_add(head, seq![segments[i]], foreign);
        Seq::filter_distributes_over_add(head + seq![segments[i]], middle, foreign);
        Seq::filter_distributes_over_add(
            head + seq![segments[i]] + middle,
            seq![segments[j]],
            foreign,
        );
        Seq::filter_distributes_over_add(
            head + seq![segments[i]] + middle + seq![segments[j]],
            tail,
            foreign,
        );
        Seq::filter_distributes_over_add(head, seq![next[i]], foreign);
        Seq::filter_distributes_over_add(head + seq![next[i]], middle, foreign);
        Seq::filter_distributes_over_add(head + seq![next[i]] + middle, tail, foreign);
        assert(next.filter(foreign) =~= segments.filter(foreign));
    }
}

/// Two segments are both of one kind, or in harmony.
pub(crate) open spec fn alike_or_in_harmony(
    a: Segment,
    b: Segment,
    owner: ProcessId,
    lock_type: LockType,
) -> bool {
    (a.is_kind(owner, lock_type) && b.is_kind(owner, lock_type)) || lock_model::in_harmony(a, b)
}

/// Two segments are both of one kind, or kept apart.
pub(crate) open spec fn alike_or_apart(
    a: Segment,
    b: Segment,
    owner: ProcessId,
    lock_type: LockType,
) -> bool {
    (a.is_kind(owner, lock_type) && b.is_kind(owner, lock_type)) || lock_model::kept_apart(a, b)
}

pub(crate) proof fn lemma_harmony_is_mutual(a: Segment, b: Segment)
    requires
        lock_model::in_harmony(a, b),
    ensures
        lock_model::in_harmony(b, a),
{
    assert forall|x: int| #[trigger] b.covers(x) && a.covers(x) implies b.owner != a.owner
        && b.lock_type is Shared && a.lock_type is Shared by {
        assert(a.covers(x));
    }
}

pub(crate) proof fn lemma_harmony_of_parts(a: Segment, b: Segment, a1: Segment, b1: Segment)
    requires
        lock_model::in_harmony(a, b),
        part_of(a1, a),
        part_of(b1, b),
    ensures
        lock_model::in_harmony(a1, b1),
{
    assert forall|x: int| #[trigger] a1.covers(x) && b1.covers(x) implies a1.owner != b1.owner
        && a1.lock_type is Shared && b1.lock_type is Shared by {
        assert(a.covers(x) && b.covers(x));
    }
}

/// Carving keeps segments in harmony, but for those of one kind among which
/// alone a range that ends before it starts may cut.
pub(crate) proof fn lemma_carved_in_harmony(
    segments: Seq<Segment>,
    start: u64,
    end: u64,
    owner: ProcessId,
    lock_type: LockType,
)
    requires
        start <= end || forall|i: int|
            0 <= i < segments.len() && (#[trigger] segments[i]).is_cut(start, end, owner)
                ==> segments[i].lock_type == lock_type,
        lock_model::pairwise(segments, |a: Segment, b: Segment| lock_model::in_harmony(a, b)),
    ensures
        lock_model::pairwise(
            lock_model::carved(segments, start, end, owner),
            |a: Segment, b: Segment| alike_or_in_harmony(a, b, owner, lock_type),
        ),
{
    let harmony = |a: Segment, b: Segment| lock_model::in_harmony(a, b);
    let related = |a: Segment, b: Segment| alike_or_in_harmony(a, b, owner, lock_type);
    assert(hereditary(related)) by {
        assert forall|a: Segment, b: Segment| #[trigger] related(a, b) implies related(b, a) by {
            if lock_model::in_harmony(a, b) {
                lemma_harmony_is_mutual(a, b);
            }
        }
        assert forall|a: Segment, b: Segment, a1: Segment, b1: Segment|
            #![trigger related(a, b), part_of(a1, a), part_of(b1, b)]
            related(a, b) && part_of(a1, a) && part_of(b1, b) implies related(a1, b1) by {
            if lock_model::in_harmony(a, b) {
                lemma_harmony_of_parts(a, b, a1, b1);
            }
        }
    }
    assert forall|i: int, j: int|
        #![trigger segments[i], segments[j]]
        0 <= i < j < segments.len() implies related(segments[i], segments[j]) by {
        assert(harmony(segments[i], segments[j]));
    }
    lemma_carved_pairwise(segments, start, end, owner, related);
}

/// Coalescing the segments of a kind brings them into harmony, where all others
/// are.
pub(crate) proof fn lemma_coalesced_in_harmony(
    segments: Seq<Segment>,
    owner: ProcessId,
    lock_type: LockType,
)
    requires
        lock_model::pairwise(
            segments,
            |a: Segment, b: Segment| alike_or_in_harmony(a, b, owner, lock_type),
        ),
    ensures
        lock_model::pairwise(
            lock_model::coalesced(segments, owner, lock_type),
            |a: Segment, b: Segment| lock_model::in_harmony(a, b),
        ),
{
    let harmony = |a: Segment, b: Segment| lock_model::in_harmony(a, b);
    let related = |a: Segment, b: Segment| alike_or_in_harmony(a, b, owner, lock_type);
    let after = lock_model::coalesced(segments, owner, lock_type);
    assert forall|a: Segment, b: Segment| #[trigger] related(a, b) implies related(b, a) by {
        if lock_model::in_harmony(a, b) {
            lemma_harmony_is_mutual(a, b);
        }
    }
    assert forall|a: Segment, b: Segment, c: Segment|
        #![trigger related(a, c), related(b, c)]
        lock_model::joinable(a, b, owner, lock_type) && related(a, c) && related(
            b,
            c,
        ) implies related(lock_model::joined(a, b), c) by {
        let both = lock_model::joined(a, b);
        if !c.is_kind(owner, lock_type) {
            assert forall|x: int| #[trigger] both.covers(x) && c.covers(x) implies both.owner
                != c.owner && both.lock_type is Shared && c.lock_type is Shared by {
                assert(a.covers(x) || b.covers(x));
            }
        }
    }
    lemma_coalesced_pairwise(segments, owner, lock_type, related);
    lemma_coalesced_done(segments, owner, lock_type);
    assert forall|i: int, j: int|
        #![trigger after[i], after[j]]
        0 <= i < j < after.len() implies harmony(after[i], after[j]) by {
        assert(related(after[i], after[j]));
        assert(!lock_model::joinable(after[i], after[j], owner, lock_type));
        if after[i].is_kind(owner, lock_type) && after[j].is_kind(owner, lock_type) {
            assert forall|x: int| #[trigger] after[i].covers(x) && after[j].covers(x) implies false by {
            }
        }
    }
}

/// Carving that cuts no segment changes nothing.
pub(crate) proof fn lemma_nothing_carved(
    segments: Seq<Segment>,
    start: u64,
    end: u64,
    owner: ProcessId,
)
    requires
        forall|i: int|
            0 <= i < segments.len() ==> !(#[trigger] segments[i]).is_cut(start, end, owner),
    ensures
        lock_model::carved(segments, start, end, owner) == segments,
    decreases segments.len(),
{
    if segments.len() == 0 {
        reveal(Seq::filter);
    } else {
        let earlier = segments.drop_last();
        let last = segments.last();
        assert(segments =~= earlier.push(last));
        assert forall|i: int| 0 <= i < earlier.len() implies !(#[trigger] earlier[i]).is_cut(
            start,
            end,
            owner,
        ) by {
            assert(earlier[i] == segments[i]);
        }
        lemma_nothing_carved(earlier, start, end, owner);
        lemma_remnants_of_uncut(earlier, start, end, owner);
        lemma_carved_last(segments, start, end, owner);
        assert(last == segments[segments.len() - 1]);
        assert(!last.is_cut(start, end, owner));
        assert(lock_model::uncut(earlier, start, end, owner) =~= earlier);
        assert(lock_model::uncut(segments, start, end, owner) == earlier.push(last));
    }
}

pub(crate) proof fn lemma_remnants_of_uncut(
    segments: Seq<Segment>,
    start: u64,
    end: u64,
    owner: ProcessId,
)
    requires
        forall|i: int|
            0 <= i < segments.len() ==> !(#[trigger] segments[i]).is_cut(start, end, owner),
    ensures
        lock_model::remnants(segments, start, end, owner) == Seq::<Segment>::empty(),
    decreases segments.len(),
{
    if segments.len() > 0 {
        let earlier = segments.drop_last();
        assert forall|i: int| 0 <= i < earlier.len() implies !(#[trigger] earlier[i]).is_cut(
            start,
            end,
            owner,
        ) by {
            assert(earlier[i] == segments[i]);
        }
        lemma_remnants_of_uncut(earlier, start, end, owner);
        assert(segments[segments.len() - 1] == segments.last());
    }
}

/// The lock at `k` covers a byte, or some other can be joined with it.
pub(crate) open spec fn full_or_joinable(
    segments: Seq<Segment>,
    owner: ProcessId,
    lock_type: LockType,
    k: int,
) -> bool {
    segments[k].start < segments[k].end || exists|l: int|
        0 <= l < segments.len() && l != k && (#[trigger] segments[l]).start < segments[l].end
            && lock_model::joinable(segments[k], segments[l], owner, lock_type)
}

/// Coalescing leaves no empty lock where each could be joined with one that is
/// not empty.
pub(crate) proof fn lemma_coalesced_full(
    segments: Seq<Segment>,
    owner: ProcessId,
    lock_type: LockType,
)
    requires
        forall|k: int|
            0 <= k < segments.len() ==> #[trigger] full_or_joinable(segments, owner, lock_type, k),
    ensures
        forall|k: int|
            0 <= k < lock_model::coalesced(segments, owner, lock_type).len() ==> (
            #[trigger] lock_model::coalesced(segments, owner, lock_type)[k]).start
                < lock_model::coalesced(segments, owner, lock_type)[k].end,
    decreases segments.len(),
{
    let after = lock_model::coalesced(segments, owner, lock_type);
    if exists|i: int, j: int| lock_model::is_first_pair(segments, owner, lock_type, i, j) {
        let (i, j) = choose|i: int, j: int|
            lock_model::is_first_pair(segments, owner, lock_type, i, j);
        let next = lock_model::join_at(segments, i, j);
        lemma_coalesced_step(segments, owner, lock_type, i, j);
        assert forall|k: int| 0 <= k < next.len() implies #[trigger] full_or_joinable(
            next,
            owner,
            lock_type,
            k,
        ) by {
            lemma_join_stays_full(segments, owner, lock_type, i, j, k);
        }
        lemma_coalesced_full(next, owner, lock_type);
    } else {
        assert forall|k: int| 0 <= k < after.len() implies (#[trigger] after[k]).start
            < after[k].end by {
            assert(full_or_joinable(segments, owner, lock_type, k));
            if after[k].start >= after[k].end {
                let l = choose|l: int|
                    0 <= l < segments.len() && l != k && (#[trigger] segments[l]).start
                        < segments[l].end && lock_model::joinable(
                        segments[k],
                        segments[l],
                        owner,
                        lock_type,
                    );
                if k < l {
                    lemma_first_pair_exists(segments, owner, lock_type, k, l);
                } else {
                    lemma_first_pair_exists(segments, owner, lock_type, l, k);
                }
            }
        }
    }
}

proof fn lemma_join_stays_full(
    segments: Seq<Segment>,
    owner: ProcessId,
    lock_type: LockType,
    i: int,
    j: int,
    k: int,
)
    requires
        0 <= i < j < segments.len(),
        lock_model::joinable(segments[i], segments[j], owner, lock_type),
        forall|k: int|
            0 <= k < segments.len() ==> #[trigger] full_or_joinable(segments, owner, lock_type, k),
        0 <= k < segments.len() - 1,
    ensures
        full_or_joinable(lock_model::join_at(segments, i, j), owner, lock_type, k),
{
    let next = lock_model::join_at(segments, i, j);
    let k0 = if k < j {
        k
    } else {
        k + 1
    };
    assert(full_or_joinable(segments, owner, lock_type, k0));
    if next[k].start >= next[k].end {
        // The partner of a lock that is still empty is still there, or part of
        // the joined lock.
        let l = choose|l: int|
            0 <= l < segments.len() && l != k0 && (#[trigger] segments[l]).start < segments[l].end
                && lock_model::joinable(segments[k0], segments[l], owner, lock_type);
        let l1 = if l == j {
            i
        } else if l < j {
            l
        } else {
            l - 1
        };
        assert(next[l1].start < next[l1].end);
        assert(lock_model::joinable(next[k], next[l1], owner, lock_type));
    }
}

/// Carving keeps segments apart, but for those of one kind among which alone an
/// empty range may cut.
pub(crate) proof fn lemma_carved_apart(
    segments: Seq<Segment>,
    start: u64,
    end: u64,
    owner: ProcessId,
    lock_type: LockType,
)
    requires
        start < end || forall|i: int|
            0 <= i < segments.len() && (#[trigger] segments[i]).is_cut(start, end, owner)
                ==> segments[i].lock_type == lock_type,
        lock_model::pairwise(segments, |a: Segment, b: Segment| lock_model::kept_apart(a, b)),
    ensures
        lock_model::pairwise(
            lock_model::carved(segments, start, end, owner),
            |a: Segment, b: Segment| alike_or_apart(a, b, owner, lock_type),
        ),
{
    let apart = |a: Segment, b: Segment| lock_model::kept_apart(a, b);
    let related = |a: Segment, b: Segment| alike_or_apart(a, b, owner, lock_type);
    assert forall|i: int, j: int|
        #![trigger segments[i], segments[j]]
        0 <= i < j < segments.len() implies related(segments[i], segments[j]) by {
        assert(apart(segments[i], segments[j]));
    }
    lemma_carved_pairwise(segments, start, end, owner, related);
}

/// Carving leaves no segment empty.
pub(crate) proof fn lemma_carved_nonempty(
    segments: Seq<Segment>,
    start: u64,
    end: u64,
    owner: ProcessId,
)
    requires
        forall|i: int|
            0 <= i < segments.len() ==> (#[trigger] segments[i]).start < segments[i].end,
    ensures
        forall|i: int|
            0 <= i < lock_model::carved(segments, start, end, owner).len() ==> (
            #[trigger] lock_model::carved(segments, start, end, owner)[i]).start
                < lock_model::carved(segments, start, end, owner)[i].end,
    decreases segments.len(),
{
    let kept = lock_model::uncut(segments, start, end, owner);
    let rest = lock_model::remnants(segments, start, end, owner);
    if segments.len() == 0 {
        reveal(Seq::filter);
    } else {
        let earlier = segments.drop_last();
        let last = segments.last();
        assert(segments[segments.len() - 1] == last);
        assert forall|i: int| 0 <= i < earlier.len() implies (#[trigger] earlier[i]).start
            < earlier[i].end by {
            assert(earlier[i] == segments[i]);
        }
        lemma_carved_nonempty(earlier, start, end, owner);
        lemma_carved_last(segments, start, end, owner);
        let kept0 = lock_model::uncut(earlier, start, end, owner);
        let rest0 = lock_model::remnants(earlier, start, end, owner);
        let all0 = kept0 + rest0;
        let all = kept + rest;
        assert forall|i: int| 0 <= i < all.len() implies (#[trigger] all[i]).start < all[i].end by {
            if i < kept.len() {
                if i < kept0.len() {
                    assert(all0[i] == all[i]);
                }
            } else {
                let r = i - kept.len();
                if r < rest0.len() {
                    assert(all0[kept0.len() + r] == all[i]);
                } else {
                    assert(all[i] == last.remainder(start, end)[r - rest0.len()]);
                }
            }
        }
    }
}

/// Nothing is left of what is carved by the range of all bytes.
pub(crate) proof fn lemma_remnants_of_all(segments: Seq<Segment>, owner: ProcessId)
    ensures
        lock_model::remnants(segments, 0, u64::MAX, owner).len() == 0,
    decreases segments.len(),
{
    if segments.len() > 0 {
        lemma_remnants_of_all(segments.drop_last(), owner);
    }
}

/// Filtering by a condition and by its opposite parts a sequence in two.
pub(crate) proof fn lemma_filter_parts<A>(s: Seq<A>, yes: spec_fn(A) -> bool, no: spec_fn(A) -> bool)
    requires
        forall|x: A| #[trigger] yes(x) == !no(x),
    ensures
        s.filter(yes).to_multiset().add(s.filter(no).to_multiset()) =~= s.to_multiset(),
    decreases s.len(),
{
    broadcast use vstd::seq_lib::group_to_multiset_ensures;

    reveal(Seq::filter);
    if s.len() > 0 {
        let earlier = s.drop_last();
        let last = s.last();
        lemma_filter_parts(earlier, yes, no);
        assert(s =~= earlier.push(last));
        assert(yes(last) == !no(last));
    }
}

/// What a filter keeps, and nothing else, is in the filtered sequence.
pub(crate) proof fn lemma_filter_keeps<A>(s: Seq<A>, keep: spec_fn(A) -> bool, x: A)
    ensures
        s.filter(keep).contains(x) <==> s.contains(x) && keep(x),
{
    broadcast use vstd::seq_lib::group_filter_ensures;

    if s.filter(keep).contains(x) {
        s.lemma_filter_contains_rev(keep, x);
        let i = choose|i: int| 0 <= i < s.filter(keep).len() && s.filter(keep)[i] == x;
        assert(keep(s.filter(keep)[i]));
    }
    if s.contains(x) && keep(x) {
        let i = choose|i: int| 0 <= i < s.len() && s[i] == x;
        assert(s.filter(keep).contains(s[i]));
    }
}

/// What touched an empty range before it was carved out is still there, whole or
/// in part, and touches it.
pub(crate) proof fn lemma_carved_neighbour(
    segments: Seq<Segment>,
    start: u64,
    end: u64,
    lock_type: LockType,
    owner: ProcessId,
    i: int,
) -> (l: int)
    requires
        start >= end,
        0 <= i < segments.len(),
        lock_model::joinable(
            segments[i],
            Segment { start, end, owner, lock_type },
            owner,
            lock_type,
        ),
    ensures
        0 <= l < lock_model::carved(segments, start, end, owner).len(),
        lock_model::joinable(
            Segment { start, end, owner, lock_type },
            lock_model::carved(segments, start, end, owner)[l],
            owner,
            lock_type,
        ),
    decreases segments.len(),
{
    let new = Segment { start, end, owner, lock_type };
    let last = segments.last();
    let earlier = segments.drop_last();
    let kept = lock_model::uncut(segments, start, end, owner);
    let rest = lock_model::remnants(segments, start, end, owner);
    let kept0 = lock_model::uncut(earlier, start, end, owner);
    let rest0 = lock_model::remnants(earlier, start, end, owner);
    let all = kept + rest;
    lemma_carved_last(segments, start, end, owner);
    if i < earlier.len() {
        let l0 = lemma_carved_neighbour(earlier, start, end, lock_type, owner, i);
        let l = if l0 < kept0.len() {
            l0
        } else {
            l0 - kept0.len() + kept.len()
        };
        assert(all[l] == (kept0 + rest0)[l0]);
        l
    } else if last.is_cut(start, end, owner) {
        let l = kept.len() + rest0.len() as int;
        assert(all[l] == last.remainder(start, end)[0]);
        l
    } else {
        let l = kept0.len() as int;
        assert(all[l] == last);
        l
    }
}

/// What carving leaves is not cut by the same range again.
pub(crate) proof fn lemma_carved_not_cut(
    segments: Seq<Segment>,
    start: u64,
    end: u64,
    owner: ProcessId,
)
    ensures
        forall|k: int|
            0 <= k < lock_model::carved(segments, start, end, owner).len() ==> !(
            #[trigger] lock_model::carved(segments, start, end, owner)[k]).is_cut(
                start,
                end,
                owner,
            ),
    decreases segments.len(),
{
    let kept = lock_model::uncut(segments, start, end, owner);
    let rest = lock_model::remnants(segments, start, end, owner);
    if segments.len() == 0 {
        reveal(Seq::filter);
    } else {
        let earlier = segments.drop_last();
        let last = segments.last();
        let kept0 = lock_model::uncut(earlier, start, end, owner);
        let rest0 = lock_model::remnants(earlier, start, end, owner);
        let all0 = kept0 + rest0;
        let all = kept + rest;
        lemma_carved_not_cut(earlier, start, end, owner);
        lemma_carved_last(segments, start, end, owner);
        assert forall|k: int| 0 <= k < all.len() implies !(#[trigger] all[k]).is_cut(
            start,
            end,
            owner,
        ) by {
            if k < kept.len() {
                if k < kept0.len() {
                    assert(all0[k] == all[k]);
                    assert(!all0[k].is_cut(start, end, owner));
                } else {
                    assert(all[k] == last);
                }
            } else {
                let r = k - kept.len();
                if r < rest0.len() {
                    let m = kept0.len() + r;
                    assert(0 <= m < all0.len());
                    assert(all0[m] == all[k]);
                    assert(!lock_model::carved(earlier, start, end, owner)[m].is_cut(
                        start,
                        end,
                        owner,
                    ));
                } else {
                    let parts = last.remainder(start, end);
                    assert(all[k] == parts[r - rest0.len()]);
                    assert(all[k].end == start || all[k].start == end);
                }
            }
        }
    }
}

/// Two locks of one process that both cover a byte do not overlap.
pub(crate) open spec fn disjoint_if_own(a: Segment, b: Segment) -> bool {
    a.start < a.end && b.start < b.end && a.owner == b.owner ==> !a.reaches(b.start, b.end)
}

/// Two locks of different processes that both cover a byte and overlap are shared.
pub(crate) open spec fn shared_if_foreign(a: Segment, b: Segment) -> bool {
    a.start < a.end && b.start < b.end && a.owner != b.owner && a.reaches(b.start, b.end)
        ==> a.lock_type is Shared && b.lock_type is Shared
}

/// The first conflict is the blocking segment at the lowest position.
pub(crate) proof fn lemma_first_conflict_position(
    segments: Seq<Segment>,
    start: u64,
    end: u64,
    lock_type: LockType,
    requester: ProcessId,
) -> (i: int)
    requires
        lock_model::first_conflict(segments, start, end, lock_type, requester) is Some,
    ensures
        0 <= i < segments.len(),
        segments[i].blocks(start, end, lock_type, requester),
        lock_model::first_conflict(segments, start, end, lock_type, requester) == Some(segments[i]),
        forall|j: int|
            0 <= j < i ==> !(#[trigger] segments[j]).blocks(start, end, lock_type, requester),
    decreases segments.len(),
{
    reveal(Seq::filter);
    let blocking = |s: Segment| s.blocks(start, end, lock_type, requester);
    let earlier = segments.drop_last();
    lemma_filter_none(earlier, blocking);
    if earlier.filter(blocking).len() > 0 {
        let i: int = lemma_first_conflict_position(earlier, start, end, lock_type, requester);
        assert(segments[i] == earlier[i]);
        assert forall|j: int| 0 <= j < i implies !(#[trigger] segments[j]).blocks(
            start,
            end,
            lock_type,
            requester,
        ) by {
            assert(segments[j] == earlier[j]);
        }
        i
    } else {
        let i: int = segments.len() - 1;
        assert forall|j: int| 0 <= j < i implies !(#[trigger] segments[j]).blocks(
            start,
            end,
            lock_type,
            requester,
        ) by {
            assert(segments[j] == earlier[j]);
            assert(!blocking(earlier[j]));
        }
        i
    }
}

/// Where an element that a filter drops stood makes no difference to the filter.
pub(crate) proof fn lemma_filter_without<A>(s: Seq<A>, keep: spec_fn(A) -> bool, i: int)
    requires
        0 <= i < s.len(),
        !keep(s[i]),
    ensures
        s.remove(i).filter(keep) == s.filter(keep),
{
    lemma_filter_split(s, keep, i + 1);
    lemma_filter_take_next(s, keep, i);
    lemma_filter_split(s.remove(i), keep, i);
    assert(s.remove(i).take(i) =~= s.take(i));
    assert(s.remove(i).skip(i) =~= s.skip(i + 1));
}

/// A filter that drops nothing gives back the sequence.
pub(crate) proof fn lemma_filter_all<A>(s: Seq<A>, keep: spec_fn(A) -> bool)
    requires
        forall|i: int| 0 <= i < s.len() ==> keep(#[trigger] s[i]),
    ensures
        s.filter(keep) == s,
    decreases s.len(),
{
    reveal(Seq::filter);
    if s.len() > 0 {
        let earlier = s.drop_last();
        assert forall|i: int| 0 <= i < earlier.len() implies keep(#[trigger] earlier[i]) by {
            assert(earlier[i] == s[i]);
        }
        lemma_filter_all(earlier, keep);
        assert(keep(s[s.len() - 1]));
        assert(s =~= earlier.push(s.last()));
    }
}

} // verus!
