//! The busiest flows.

use crate::flows::{FiveTuple, FlowStat, FlowTable};
use vstd::prelude::*;

verus! {

/// The place of `row` in `ranked`: behind every row with at least as many bytes.
pub open spec fn rank_place(
    ranked: Seq<(FiveTuple, FlowStat)>,
    row: (FiveTuple, FlowStat),
) -> int
    decreases ranked.len(),
{
    if ranked.len() == 0 || ranked.last().1.byte_count >= row.1.byte_count {
        ranked.len() as int
    } else {
        rank_place(ranked.drop_last(), row)
    }
}

/// `rows` from the most bytes to the fewest; rows with equal bytes keep their
/// order.
pub open spec fn by_volume(rows: Seq<(FiveTuple, FlowStat)>) -> Seq<(FiveTuple, FlowStat)>
    decreases rows.len(),
{
    if rows.len() == 0 {
        Seq::empty()
    } else {
        let ranked = by_volume(rows.drop_last());
        ranked.insert(rank_place(ranked, rows.last()), rows.last())
    }
}

/// At most the first `n` elements of `s`.
pub open spec fn first_of(s: Seq<(FiveTuple, FlowStat)>, n: nat) -> Seq<(FiveTuple, FlowStat)> {
    if s.len() <= n {
        s
    } else {
        s.take(n as int)
    }
}

/// No row has fewer bytes than a later one.
pub open spec fn descending(s: Seq<(FiveTuple, FlowStat)>) -> bool {
    forall|i: int, j: int|
        0 <= i < j < s.len() ==> (#[trigger] s[i]).1.byte_count >= (#[trigger] s[j]).1.byte_count
}

proof fn place_splits(ranked: Seq<(FiveTuple, FlowStat)>, row: (FiveTuple, FlowStat))
    requires
        descending(ranked),
    ensures
        0 <= rank_place(ranked, row) <= ranked.len(),
        forall|j: int|
            0 <= j < rank_place(ranked, row) ==> (#[trigger] ranked[j]).1.byte_count
                >= row.1.byte_count,
        forall|j: int|
            rank_place(ranked, row) <= j < ranked.len() ==> (#[trigger] ranked[j]).1.byte_count
                < row.1.byte_count,
    decreases ranked.len(),
{
    if ranked.len() > 0 && ranked.last().1.byte_count < row.1.byte_count {
        let rest = ranked.drop_last();
        place_splits(rest, row);
        assert forall|j: int| 0 <= j < rank_place(ranked, row) implies (
        #[trigger] ranked[j]).1.byte_count >= row.1.byte_count by {
            assert(rest[j] == ranked[j]);
        }
        assert forall|j: int| rank_place(ranked, row) <= j < ranked.len() implies (
        #[trigger] ranked[j]).1.byte_count < row.1.byte_count by {
            if j < rest.len() {
                assert(rest[j] == ranked[j]);
            }
        }
    }
}

/// The ranking lists every flow exactly once, from the most bytes to the fewest.
pub proof fn ranking_is_a_descending_rearrangement(rows: Seq<(FiveTuple, FlowStat)>)
    ensures
        descending(by_volume(rows)),
        by_volume(rows).len() == rows.len(),
        by_volume(rows).to_multiset() =~= rows.to_multiset(),
    decreases rows.len(),
{
    broadcast use vstd::seq_lib::group_to_multiset_ensures;

    if rows.len() > 0 {
        let ranked = by_volume(rows.drop_last());
        ranking_is_a_descending_rearrangement(rows.drop_last());
        place_splits(ranked, rows.last());
        let p = rank_place(ranked, rows.last());
        assert(rows =~= rows.drop_last().push(rows.last()));
        assert(ranked.insert(p, rows.last()).to_multiset() =~= ranked.to_multiset().insert(
            rows.last(),
        ));
        assert forall|i: int, j: int| 0 <= i < j < by_volume(rows).len() implies (
        #[trigger] by_volume(rows)[i]).1.byte_count >= (#[trigger] by_volume(rows)[j]).1.byte_count by {
            let (a, b) = (if i < p { i } else { i - 1 }, if j < p { j } else { j - 1 });
            if i != p && j != p {
                assert(ranked[a].1.byte_count >= ranked[b].1.byte_count);
            } else if i == p {
                assert(ranked[b].1.byte_count < rows.last().1.byte_count);
            } else {
                assert(ranked[a].1.byte_count >= rows.last().1.byte_count);
            }
        }
    } else {
        assert(by_volume(rows) =~= rows);
    }
}

/// No flow that is left out of the first `n` has more bytes than one that is in.
pub proof fn nothing_busier_is_left_out(rows: Seq<(FiveTuple, FlowStat)>, n: nat, i: int, j: int)
    requires
        0 <= i < first_of(by_volume(rows), n).len(),
        n <= j < rows.len(),
    ensures
        first_of(by_volume(rows), n)[i].1.byte_count >= by_volume(rows)[j].1.byte_count,
{
    ranking_is_a_descending_rearrangement(rows);
    assert(by_volume(rows)[i].1.byte_count >= by_volume(rows)[j].1.byte_count);
}

/// Of the first `n`, only the first `n` so far matter for the next row.
proof fn insertion_commutes_with_cut(
    ranked: Seq<(FiveTuple, FlowStat)>,
    row: (FiveTuple, FlowStat),
    n: nat,
)
    requires
        descending(ranked),
    ensures
        ({
            let cut = first_of(ranked, n);
            first_of(ranked.insert(rank_place(ranked, row), row), n) == first_of(
                cut.insert(rank_place(cut, row), row),
                n,
            )
        }),
{
    let cut = first_of(ranked, n);
    let (p, q) = (rank_place(ranked, row), rank_place(cut, row));
    place_splits(ranked, row);
    assert(descending(cut));
    place_splits(cut, row);
    if ranked.len() > n {
        if p < n {
            assert(q == p) by {
                if q < p {
                    assert(cut[q] == ranked[q]);
                } else if p < q {
                    assert(cut[p] == ranked[p]);
                }
            }
        } else {
            assert(q == n) by {
                if q < n {
                    assert(cut[q] == ranked[q]);
                }
            }
        }
        assert(first_of(ranked.insert(p, row), n) =~= first_of(cut.insert(q, row), n));
    }
}

/// The `n` flows with the most bytes, busiest first.
pub fn top_flows(table: &FlowTable, n: usize) -> (top: Vec<(FiveTuple, FlowStat)>)
    ensures
        top@ == first_of(by_volume(table.rows()), n as nat),
{
    let mut top: Vec<(FiveTuple, FlowStat)> = Vec::new();
    let mut i: usize = 0;
    let count: usize = table.row_count();
    let ghost rows = table.rows();
    while i < count
        invariant
            rows == table.rows(),
            count == rows.len(),
            i <= count,
            top@ == first_of(by_volume(rows.take(i as int)), n as nat),
        decreases count - i,
    {
        let row = table.row(i);
        let ghost done = by_volume(rows.take(i as int));
        let ghost cut = top@;
        let mut p: usize = top.len();
        assert(cut.take(cut.len() as int) =~= cut);
        while p > 0 && top[p - 1].1.byte_count < row.1.byte_count
            invariant
                top@ == cut,
                p <= cut.len(),
                rank_place(cut.take(p as int), row) == rank_place(cut, row),
            decreases p,
        {
            proof {
                assert(cut.take(p as int).drop_last() =~= cut.take(p - 1));
            }
            p = p - 1;
        }
        proof {
            ranking_is_a_descending_rearrangement(rows.take(i as int));
            insertion_commutes_with_cut(done, row, n as nat);
            assert(rows.take(i + 1).drop_last() =~= rows.take(i as int));
            place_splits(cut, row);
        }
        top.insert(p, row);
        if top.len() > n {
            top.truncate(n);
        }
        i = i + 1;
    }
    proof {
        assert(rows.take(rows.len() as int) =~= rows);
    }
    top
}

/// The first of a ranking are as many as asked for, or all there are, and they are its
/// start.
pub proof fn the_first_are_the_start(s: Seq<(FiveTuple, FlowStat)>, n: nat)
    ensures
        first_of(s, n).len() == (if s.len() < n {
            s.len()
        } else {
            n
        }),
        forall|i: int| 0 <= i < first_of(s, n).len() ==> #[trigger] first_of(s, n)[i] == s[i],
{
}

} // verus!
