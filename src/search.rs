use vstd::prelude::*;

use crate::operation::{apply, transform, well_formed, Operation};

verus! {

/// Every operation of the palette can be applied to every value.
pub open spec fn palette_ok(palette: Seq<Operation>) -> bool {
    forall|k: int| 0 <= k < palette.len() ==> well_formed(#[trigger] palette[k])
}

/// The operations that the palette positions `q` name.
pub open spec fn ops_of(palette: Seq<Operation>, q: Seq<int>) -> Seq<Operation> {
    q.map_values(|k: int| palette[k])
}

/// The value that `ops`, applied left to right, make of `n`.
pub open spec fn run(ops: Seq<Operation>, n: i64) -> i64
    decreases ops.len(),
{
    if ops.len() == 0 {
        n
    } else {
        run(ops.drop_first(), apply(ops[0], n))
    }
}

/// The palette positions `q` carry `n` to `end`, and reach `end` at their last
/// step and at no earlier one.
pub open spec fn hits(palette: Seq<Operation>, q: Seq<int>, n: i64, end: i64) -> bool
    decreases q.len(),
{
    if q.len() == 0 {
        n == end
    } else {
        &&& n != end
        &&& 0 <= q[0] < palette.len()
        &&& hits(palette, q.drop_first(), apply(palette[q[0]], n), end)
    }
}

/// `a` comes before `b` in dictionary order of palette positions.
pub open spec fn lex_less(a: Seq<int>, b: Seq<int>) -> bool
    decreases a.len(),
{
    &&& a.len() > 0
    &&& b.len() > 0
    &&& (a[0] < b[0] || (a[0] == b[0] && lex_less(a.drop_first(), b.drop_first())))
}

/// `a` is preferred to `b`: it is shorter, or as long and earlier in palette order.
pub open spec fn preferred(a: Seq<int>, b: Seq<int>) -> bool {
    a.len() < b.len() || (a.len() == b.len() && lex_less(a, b))
}

/// `q` is a solution from `n` with fewer than `room` steps.
pub open spec fn candidate(palette: Seq<Operation>, q: Seq<int>, n: i64, end: i64, room: int) -> bool {
    q.len() < room && hits(palette, q, n, end)
}

/// `q` is the solution that no other solution within `room` is preferred to.
pub open spec fn is_best(palette: Seq<Operation>, q: Seq<int>, n: i64, end: i64, room: int) -> bool {
    &&& candidate(palette, q, n, end, room)
    &&& forall|o: Seq<int>| #[trigger]
        candidate(palette, o, n, end, room) ==> !preferred(o, q)
}

/// The shortest solution from `n` with fewer than `room` steps, the earliest in
/// palette order among those as short; `None` where there is none.
pub open spec fn best_solution(palette: Seq<Operation>, n: i64, end: i64, room: int) -> Option<Seq<int>> {
    if exists|q: Seq<int>| is_best(palette, q, n, end, room) {
        Some(choose|q: Seq<int>| is_best(palette, q, n, end, room))
    } else {
        None
    }
}

/// What a search below `path`, at value `n` and with bound `bound`, hands back:
/// `path` extended by the best solution, or the empty sequence.
pub open spec fn explored(
    palette: Seq<Operation>,
    path: Seq<Operation>,
    n: i64,
    end: i64,
    bound: int,
) -> Seq<Operation> {
    match best_solution(palette, n, end, bound - path.len()) {
        Some(q) => path + ops_of(palette, q),
        None => Seq::empty(),
    }
}

/// The outcome of a search from `start` to `end` with ceiling `max_steps`: the
/// empty sequence where the two are equal, else the best solution with fewer than
/// `max_steps` steps, if any.
pub open spec fn shortest(palette: Seq<Operation>, start: i64, end: i64, max_steps: int) -> Option<
    Seq<Operation>,
> {
    if start == end {
        Some(Seq::empty())
    } else {
        match best_solution(palette, start, end, max_steps) {
            Some(q) => Some(ops_of(palette, q)),
            None => None,
        }
    }
}

proof fn lemma_lex_total(a: Seq<int>, b: Seq<int>)
    requires
        a.len() == b.len(),
        a != b,
    ensures
        lex_less(a, b) || lex_less(b, a),
    decreases a.len(),
{
    if a.len() == 0 {
        assert(a =~= b);
    } else if a[0] == b[0] {
        if a.drop_first() == b.drop_first() {
            assert(a =~= seq![a[0]] + a.drop_first());
            assert(b =~= seq![b[0]] + b.drop_first());
        }
        lemma_lex_total(a.drop_first(), b.drop_first());
    }
}

/// A solution that nothing is preferred to is the one `best_solution` names.
pub proof fn lemma_best_unique(palette: Seq<Operation>, q: Seq<int>, n: i64, end: i64, room: int)
    requires
        is_best(palette, q, n, end, room),
    ensures
        best_solution(palette, n, end, room) == Some(q),
{
    let c = choose|o: Seq<int>| is_best(palette, o, n, end, room);
    assert(is_best(palette, c, n, end, room));
    assert(!preferred(c, q));
    assert(!preferred(q, c));
    if c != q {
        lemma_lex_total(c, q);
    }
}

proof fn lemma_no_candidate(palette: Seq<Operation>, n: i64, end: i64, room: int)
    requires
        forall|q: Seq<int>| !#[trigger] candidate(palette, q, n, end, room),
    ensures
        best_solution(palette, n, end, room) is None,
{
}

proof fn lemma_prefer_same_head(a: Seq<int>, b: Seq<int>)
    requires
        a.len() > 0,
        b.len() > 0,
        a[0] == b[0],
    ensures
        preferred(a, b) == preferred(a.drop_first(), b.drop_first()),
{
}

/// Depth-first branch-and-bound search below `used`. It hands back `used`
/// extended by the best solution from `current` with fewer than `best` steps in
/// all, or an empty vector where there is none; `used` is as it was on return.
pub fn calculate_recursive(
    nodes: &[Operation],
    used: &mut Vec<Operation>,
    current: i64,
    end: i64,
    best: usize,
) -> (r: Vec<Operation>)
    requires
        palette_ok(nodes@),
    ensures
        final(used)@ == old(used)@,
        r@ == explored(nodes@, old(used)@, current, end, best as int),
        r@.len() == 0 && (old(used)@.len() > 0 || current != end) ==> forall|q: Seq<int>|
            !#[trigger] candidate(nodes@, q, current, end, best - old(used)@.len()),
    decreases best - old(used)@.len(),
{
    let ghost path = used@;
    let ghost room = best - path.len();
    if used.len() >= best {
        proof {
            lemma_no_candidate(nodes@, current, end, room);
        }
        return Vec::new();
    }
    if current == end {
        proof {
            let e = Seq::<int>::empty();
            assert(is_best(nodes@, e, current, end, room));
            lemma_best_unique(nodes@, e, current, end, room);
            assert(path + ops_of(nodes@, e) =~= path);
        }
        return used.clone();
    }
    let ghost mut g: Seq<int> = Seq::empty();
    let mut bound = best;
    let mut best_nodes: Vec<Operation> = Vec::new();
    let mut i: usize = 0;
    while i < nodes.len()
        invariant
            palette_ok(nodes@),
            used@ == path,
            old(used)@ == path,
            current != end,
            path.len() < bound <= best,
            room == best - path.len(),
            i <= nodes@.len(),
            best_nodes@.len() == 0 ==> bound == best && forall|q: Seq<int>|
                #[trigger] candidate(nodes@, q, current, end, room) ==> q[0] >= i,
            best_nodes@.len() > 0 ==> {
                &&& best_nodes@ == path + ops_of(nodes@, g)
                &&& candidate(nodes@, g, current, end, room)
                &&& g.len() > 0
                &&& g[0] < i
                &&& bound == path.len() + g.len()
                &&& forall|q: Seq<int>| #[trigger]
                    candidate(nodes@, q, current, end, room) && q[0] < i ==> !preferred(q, g)
            },
        decreases nodes@.len() - i,
    {
        let node = nodes[i];
        let next = transform(&node, current);
        used.push(node);
        let result = calculate_recursive(nodes, used, next, end, bound);
        used.pop();
        let ghost child_room = bound - path.len() - 1;
        proof {
            assert(used@ =~= path);
            assert forall|q: Seq<int>|
                #[trigger] candidate(nodes@, q, current, end, room) && q[0] == i && q.len() - 1
                    < child_room implies candidate(nodes@, q.drop_first(), next, end, child_room) by {
            }
        }
        if result.len() > 0 {
            proof {
                let qc = best_solution(nodes@, next, end, child_room)->0;
                assert(best_solution(nodes@, next, end, child_room) is Some);
                assert(is_best(nodes@, qc, next, end, child_room));
                let gn = seq![i as int] + qc;
                assert(gn.drop_first() =~= qc);
                assert(hits(nodes@, gn, current, end));
                assert(ops_of(nodes@, gn) =~= seq![node] + ops_of(nodes@, qc));
                assert(result@ =~= path + ops_of(nodes@, gn));
                assert forall|q: Seq<int>| #[trigger]
                    candidate(nodes@, q, current, end, room) && q[0] < i + 1 implies !preferred(q, gn)
                by {
                    if q[0] == i {
                        if q.len() - 1 < child_room {
                            assert(candidate(nodes@, q.drop_first(), next, end, child_room));
                            lemma_prefer_same_head(q, gn);
                        }
                    }
                }
                g = gn;
            }
            bound = result.len();
            best_nodes = result;
        } else {
            proof {
                assert forall|q: Seq<int>| #[trigger]
                    candidate(nodes@, q, current, end, room) && q[0] == i implies q.len() >= bound - path.len()
                by {
                    if q.len() - 1 < child_room {
                        assert(candidate(nodes@, q.drop_first(), next, end, child_room));
                    }
                }
            }
        }
        i = i + 1;
    }
    proof {
        if best_nodes@.len() > 0 {
            lemma_best_unique(nodes@, g, current, end, room);
        } else {
            lemma_no_candidate(nodes@, current, end, room);
        }
    }
    best_nodes
}

/// Searches for the shortest sequence of palette operations that carries
/// `start_value` to `end_value` in fewer than `max_steps` steps. Where the two
/// values are equal the answer is the empty sequence, whatever `max_steps` is.
pub fn calculate(nodes: &[Operation], start_value: i64, end_value: i64, max_steps: usize) -> (r:
    Option<Vec<Operation>>)
    requires
        palette_ok(nodes@),
    ensures
        r is Some <==> shortest(nodes@, start_value, end_value, max_steps as int) is Some,
        r is Some ==> shortest(nodes@, start_value, end_value, max_steps as int) == Some(r->0@),
{
    if start_value == end_value {
        return Some(Vec::new());
    }
    let mut used: Vec<Operation> = Vec::with_capacity(max_steps);
    let res = calculate_recursive(nodes, &mut used, start_value, end_value, max_steps);
    proof {
        let found = best_solution(nodes@, start_value, end_value, max_steps as int);
        if found is Some {
            let q = found->0;
            assert(is_best(nodes@, q, start_value, end_value, max_steps as int));
            assert(q.len() > 0);
            assert(res@ =~= ops_of(nodes@, q));
        }
    }
    if res.len() == 0 {
        None
    } else {
        Some(res)
    }
}

} // verus!
