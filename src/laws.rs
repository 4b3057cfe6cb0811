use vstd::prelude::*;

use crate::operation::Operation;
use crate::search::{
    best_solution, candidate, hits, is_best, lemma_best_unique, ops_of, preferred, run, shortest,
};

verus! {

/// Every member of `ops` is one of the palette's operations.
pub open spec fn drawn_from(ops: Seq<Operation>, palette: Seq<Operation>) -> bool {
    forall|k: int| 0 <= k < ops.len() ==> palette.contains(#[trigger] ops[k])
}

proof fn lemma_hits_run(palette: Seq<Operation>, q: Seq<int>, n: i64, end: i64)
    requires
        hits(palette, q, n, end),
    ensures
        run(ops_of(palette, q), n) == end,
        forall|k: int| 0 <= k < q.len() ==> 0 <= #[trigger] q[k] < palette.len(),
    decreases q.len(),
{
    if q.len() > 0 {
        let rest = q.drop_first();
        lemma_hits_run(palette, rest, crate::operation::apply(palette[q[0]], n), end);
        assert(ops_of(palette, q).drop_first() =~= ops_of(palette, rest));
        assert forall|k: int| 0 <= k < q.len() implies 0 <= #[trigger] q[k] < palette.len() by {
            if k > 0 {
                assert(q[k] == rest[k - 1]);
            }
        }
    }
}

proof fn lemma_drawn(palette: Seq<Operation>, q: Seq<int>)
    requires
        forall|k: int| 0 <= k < q.len() ==> 0 <= #[trigger] q[k] < palette.len(),
    ensures
        drawn_from(ops_of(palette, q), palette),
{
    assert forall|k: int| 0 <= k < q.len() implies palette.contains(
        #[trigger] ops_of(palette, q)[k],
    ) by {
        assert(palette[q[k]] == ops_of(palette, q)[k]);
    }
}

/// Palette positions that name the operations of `ops`, one for one.
proof fn positions_of(palette: Seq<Operation>, ops: Seq<Operation>) -> (q: Seq<int>)
    requires
        drawn_from(ops, palette),
    ensures
        q.len() == ops.len(),
        ops_of(palette, q) == ops,
        forall|k: int| 0 <= k < q.len() ==> 0 <= #[trigger] q[k] < palette.len(),
{
    let q = Seq::new(
        ops.len(),
        |k: int| choose|j: int| 0 <= j < palette.len() && palette[j] == ops[k],
    );
    assert forall|k: int| 0 <= k < q.len() implies 0 <= #[trigger] q[k] < palette.len()
        && palette[q[k]] == ops[k] by {
        assert(palette.contains(ops[k]));
    }
    assert(ops_of(palette, q) =~= ops);
    q
}

/// A sequence of positions that reaches `end` has a prefix that reaches it for
/// the first time.
proof fn lemma_first_hit(palette: Seq<Operation>, q: Seq<int>, n: i64, end: i64) -> (k: int)
    requires
        forall|j: int| 0 <= j < q.len() ==> 0 <= #[trigger] q[j] < palette.len(),
        run(ops_of(palette, q), n) == end,
    ensures
        0 <= k <= q.len(),
        hits(palette, q.take(k), n, end),
    decreases q.len(),
{
    if n == end {
        assert(q.take(0).len() == 0);
        0
    } else {
        let rest = q.drop_first();
        let next = crate::operation::apply(palette[q[0]], n);
        assert(ops_of(palette, q).drop_first() =~= ops_of(palette, rest));
        assert forall|j: int| 0 <= j < rest.len() implies 0 <= #[trigger] rest[j] < palette.len() by {
            assert(rest[j] == q[j + 1]);
        }
        let k = lemma_first_hit(palette, rest, next, end);
        assert(q.take(k + 1).drop_first() =~= rest.take(k));
        k + 1
    }
}

/// Where start and end are equal, the answer is the empty sequence, whatever
/// the palette and the ceiling.
pub proof fn law_equal_ends(palette: Seq<Operation>, start: i64, end: i64, max_steps: int)
    requires
        start == end,
    ensures
        shortest(palette, start, end, max_steps) == Some(Seq::<Operation>::empty()),
{
}

/// Where no sequence of palette operations with at most `max_steps` steps carries
/// `start` to `end`, the search finds nothing.
pub proof fn law_unreachable(palette: Seq<Operation>, start: i64, end: i64, max_steps: int)
    requires
        max_steps >= 0,
        forall|ops: Seq<Operation>|
            drawn_from(ops, palette) && ops.len() <= max_steps ==> #[trigger] run(ops, start)
                != end,
    ensures
        shortest(palette, start, end, max_steps) is None,
{
    if start == end {
        let e = Seq::<Operation>::empty();
        assert(run(e, start) == start);
        assert(drawn_from(e, palette));
    } else {
        let found = best_solution(palette, start, end, max_steps);
        if found is Some {
            let q = found->0;
            assert(is_best(palette, q, start, end, max_steps));
            lemma_hits_run(palette, q, start, end);
            lemma_drawn(palette, q);
            assert(run(ops_of(palette, q), start) != end);
        }
    }
}

/// A sequence the search returns, applied to `start`, yields `end`, and it has
/// at most `max_steps` steps.
pub proof fn law_solution_reaches(palette: Seq<Operation>, start: i64, end: i64, max_steps: int)
    requires
        shortest(palette, start, end, max_steps) is Some,
        max_steps >= 0,
    ensures
        run(shortest(palette, start, end, max_steps)->0, start) == end,
        shortest(palette, start, end, max_steps)->0.len() <= max_steps,
        drawn_from(shortest(palette, start, end, max_steps)->0, palette),
{
    if start != end {
        let q = best_solution(palette, start, end, max_steps)->0;
        assert(is_best(palette, q, start, end, max_steps));
        lemma_hits_run(palette, q, start, end);
        lemma_drawn(palette, q);
    } else {
        assert(drawn_from(Seq::<Operation>::empty(), palette));
    }
}

/// No sequence of palette operations that carries `start` to `end` is shorter
/// than the one the search returns.
pub proof fn law_minimal(
    palette: Seq<Operation>,
    start: i64,
    end: i64,
    max_steps: int,
    other: Seq<Operation>,
)
    requires
        shortest(palette, start, end, max_steps) is Some,
        drawn_from(other, palette),
        run(other, start) == end,
    ensures
        shortest(palette, start, end, max_steps)->0.len() <= other.len(),
{
    if start != end {
        let q = best_solution(palette, start, end, max_steps)->0;
        assert(is_best(palette, q, start, end, max_steps));
        assert(ops_of(palette, q).len() == q.len());
        let oq = positions_of(palette, other);
        let k = lemma_first_hit(palette, oq, start, end);
        let first = oq.take(k);
        if other.len() < q.len() {
            assert(candidate(palette, first, start, end, max_steps));
            assert(preferred(first, q));
        }
    }
}

/// Raising the ceiling keeps a solution that was found: the search returns the
/// very same sequence.
pub proof fn law_monotone(
    palette: Seq<Operation>,
    start: i64,
    end: i64,
    max_steps: int,
    larger: int,
)
    requires
        shortest(palette, start, end, max_steps) is Some,
        max_steps <= larger,
    ensures
        shortest(palette, start, end, larger) == shortest(palette, start, end, max_steps),
{
    if start != end {
        let q = best_solution(palette, start, end, max_steps)->0;
        assert(is_best(palette, q, start, end, max_steps));
        assert forall|o: Seq<int>| #[trigger]
            candidate(palette, o, start, end, larger) implies !preferred(o, q) by {
            if preferred(o, q) {
                assert(candidate(palette, o, start, end, max_steps));
            }
        }
        lemma_best_unique(palette, q, start, end, larger);
    }
}

} // verus!
