//! Where the pieces that a release leaves come from.
use vstd::prelude::*;

use crate::lock_model;
use crate::lock_model::{ProcessId, Segment};
use crate::table_laws;

verus! {

/// What is left of the segments that a change touches, with where it comes from.
pub(crate) proof fn lemma_remnants_are_pieces(
    segments: Seq<Segment>,
    start: u64,
    end: u64,
    owner: ProcessId,
) -> (from: Seq<int>)
    ensures
        table_laws::are_pieces(
            lock_model::remnants(segments, start, end, owner),
            from,
            segments,
            start,
            end,
            owner,
        ),
    decreases segments.len(),
{
    if segments.len() == 0 {
        Seq::empty()
    } else {
        let earlier = segments.drop_last();
        let last = segments.last();
        let n: int = segments.len() - 1;
        let old_from = lemma_remnants_are_pieces(earlier, start, end, owner);
        let old_pieces = lock_model::remnants(earlier, start, end, owner);
        let pieces = lock_model::remnants(segments, start, end, owner);
        let added: nat = (pieces.len() - old_pieces.len()) as nat;
        let from = old_from + Seq::new(added, |k: int| n);
        let c: int = old_from.len() as int;
        assert(segments[n] == last);
        assert forall|k: int| #![trigger from[k]] 0 <= k < c implies from[k] == old_from[k]
            && pieces[k] == old_pieces[k] && 0 <= from[k] < n && segments[from[k]]
            == earlier[from[k]] by {
            assert(from[k] == old_from[k]);
        }
        assert forall|k: int| #![trigger from[k]] c <= k < from.len() implies from[k] == n by {}
        assert forall|i: int|
            0 <= i < segments.len() && segments[i].owner == owner && segments[i].start < start
                && start < segments[i].end && segments[i].start
                < end implies #[trigger] table_laws::has_piece(
            pieces,
            from,
            i,
            segments[i].start,
            start,
        ) by {
            let piece = Segment { end: start, ..segments[i] };
            if i < n {
                assert(segments[i] == earlier[i]);
                assert(table_laws::has_piece(
                    old_pieces,
                    old_from,
                    i,
                    earlier[i].start,
                    start,
                ));
                let k = choose|k: int|
                    #![trigger old_from[k]]
                    0 <= k < old_from.len() && old_from[k] == i && old_pieces[k] == piece;
                assert(from[k] == i);
            } else {
                assert(from[c] == i && pieces[c] == piece);
            }
        }
        assert forall|i: int|
            0 <= i < segments.len() && segments[i].owner == owner && segments[i].start < end && end
                < segments[i].end && start
                < segments[i].end implies #[trigger] table_laws::has_piece(
            pieces,
            from,
            i,
            end,
            segments[i].end,
        ) by {
            let piece = Segment { start: end, ..segments[i] };
            if i < n {
                assert(segments[i] == earlier[i]);
                assert(table_laws::has_piece(
                    old_pieces,
                    old_from,
                    i,
                    end,
                    earlier[i].end,
                ));
                let k = choose|k: int|
                    #![trigger old_from[k]]
                    0 <= k < old_from.len() && old_from[k] == i && old_pieces[k] == piece;
                assert(from[k] == i);
            } else {
                let k: int = from.len() - 1;
                assert(from[k] == i && pieces[k] == piece);
            }
        }
        from
    }
}

} // verus!
