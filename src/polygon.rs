//! Splitting a simple polygon along a line.
//!
//! The caller supplies, for every edge of the polygon (vertex `i` to vertex
//! `i + 1`, the last back to the first), where the line crosses that edge, if
//! it does, and how consecutive crossings compare in the point order. The
//! split itself is then a walk over the boundary that opens and closes pieces
//! at the crossings.

use core::cmp::Ordering;
use vstd::prelude::*;

verus! {

/// A point on the boundary walk: a vertex of the polygon, or a point where the
/// splitting line crosses an edge.
#[derive(Clone, Copy)]
pub enum SplitPoint<P> {
    Point(P),
    Intersection(P),
}

impl<P> SplitPoint<P> {
    pub open spec fn is_cut(self) -> bool {
        self is Intersection
    }
}

/// The contents of each vector, in order.
pub open spec fn views<P>(v: Seq<Vec<P>>) -> Seq<Seq<P>> {
    v.map_values(|x: Vec<P>| x@)
}

/// The boundary walk: each vertex, followed by the crossing on the edge that
/// leaves it, if there is one.
pub open spec fn split_points_spec<P>(polygon: Seq<P>, crossings: Seq<Option<P>>) -> Seq<
    SplitPoint<P>,
>
    decreases polygon.len(),
{
    if polygon.len() == 0 || crossings.len() == 0 {
        Seq::empty()
    } else {
        let walk = split_points_spec(polygon.drop_last(), crossings.drop_last()).push(
            SplitPoint::Point(polygon.last()),
        );
        match crossings.last() {
            Some(c) => walk.push(SplitPoint::Intersection(c)),
            None => walk,
        }
    }
}

/// How many edges the line crosses.
pub open spec fn crossing_count<P>(crossings: Seq<Option<P>>) -> nat
    decreases crossings.len(),
{
    if crossings.len() == 0 {
        0
    } else {
        crossing_count(crossings.drop_last()) + if crossings.last() is Some {
            1nat
        } else {
            0nat
        }
    }
}

/// The positions of the crossings in a walk, in increasing order.
pub open spec fn cut_positions<P>(s: Seq<SplitPoint<P>>) -> Seq<int>
    decreases s.len(),
{
    if s.len() == 0 {
        Seq::empty()
    } else if s.last().is_cut() {
        cut_positions(s.drop_last()).push(s.len() - 1)
    } else {
        cut_positions(s.drop_last())
    }
}

/// The first index from `k` on at which `order` differs from its first entry.
pub open spec fn turn_from(order: Seq<Ordering>, k: int) -> Option<int>
    decreases order.len() - k,
{
    if k < 1 || k >= order.len() {
        None
    } else if order[k] != order[0] {
        Some(k)
    } else {
        turn_from(order, k + 1)
    }
}

/// Where the walk must start so that its crossings come in point order.
///
/// `order[k]` compares crossing `k` with the next crossing along the walk
/// (the last with the first). With more than two crossings the walk starts at
/// the crossing that follows the first change of direction; otherwise, or
/// when `order` does not describe the crossings, it is left as it is.
pub open spec fn rotation_start<P>(s: Seq<SplitPoint<P>>, order: Seq<Ordering>) -> int {
    let cuts = cut_positions(s);
    if cuts.len() > 2 && order.len() == cuts.len() {
        match turn_from(order, 1) {
            Some(k) => cuts[(k + 1) % (cuts.len() as int)],
            None => 0,
        }
    } else {
        0
    }
}

/// The walk rotated to start at `rotation_start`.
pub open spec fn rotate_spec<P>(s: Seq<SplitPoint<P>>, order: Seq<Ordering>) -> Seq<
    SplitPoint<P>,
> {
    let i = rotation_start(s, order);
    s.skip(i) + s.take(i)
}

/// One step of the piece-building sweep over `(completed, working, waiting)`.
///
/// Vertices go into the working piece. A crossing goes into both the working
/// and the waiting piece; when the waiting piece already held a point, the
/// working piece is complete. Then the two exchange roles.
pub open spec fn sweep_step<P>(st: (Seq<Seq<P>>, Seq<P>, Seq<P>), sp: SplitPoint<P>) -> (
    Seq<Seq<P>>,
    Seq<P>,
    Seq<P>,
) {
    let (completed, working, waiting) = st;
    match sp {
        SplitPoint::Point(p) => (completed, working.push(p), waiting),
        SplitPoint::Intersection(p) => {
            if waiting.len() != 0 {
                (completed.push(working.push(p)), waiting.push(p), Seq::empty())
            } else {
                (completed, waiting.push(p), working.push(p))
            }
        },
    }
}

/// The sweep state after the whole walk `s`.
pub open spec fn sweep<P>(s: Seq<SplitPoint<P>>) -> (Seq<Seq<P>>, Seq<P>, Seq<P>)
    decreases s.len(),
{
    if s.len() == 0 {
        (Seq::empty(), Seq::empty(), Seq::empty())
    } else {
        sweep_step(sweep(s.drop_last()), s.last())
    }
}

/// The pieces built from a walk: the completed ones, then the working one.
pub open spec fn pieces<P>(s: Seq<SplitPoint<P>>) -> Seq<Seq<P>> {
    let st = sweep(s);
    st.0.push(st.1)
}

/// The polygons that splitting `polygon` yields.
pub open spec fn split_spec<P>(
    polygon: Seq<P>,
    crossings: Seq<Option<P>>,
    order: Seq<Ordering>,
) -> Seq<Seq<P>> {
    if crossing_count(crossings) < 2 {
        seq![polygon]
    } else {
        pieces(rotate_spec(split_points_spec(polygon, crossings), order))
    }
}

proof fn lemma_cut_count<P>(polygon: Seq<P>, crossings: Seq<Option<P>>)
    requires
        polygon.len() == crossings.len(),
    ensures
        cut_positions(split_points_spec(polygon, crossings)).len() == crossing_count(crossings),
    decreases polygon.len(),
{
    if polygon.len() > 0 {
        let head = split_points_spec(polygon.drop_last(), crossings.drop_last());
        let walk = head.push(SplitPoint::Point(polygon.last()));
        lemma_cut_count(polygon.drop_last(), crossings.drop_last());
        assert(walk.drop_last() =~= head);
        assert(cut_positions(walk) == cut_positions(head));
        match crossings.last() {
            Some(c) => {
                assert(walk.push(SplitPoint::Intersection(c)).drop_last() =~= walk);
                assert(cut_positions(walk.push(SplitPoint::Intersection(c))) == cut_positions(
                    head,
                ).push(walk.len() as int));
            },
            None => {},
        }
    }
}

proof fn lemma_no_crossing_count<P>(crossings: Seq<Option<P>>)
    requires
        forall|i: int| 0 <= i < crossings.len() ==> crossings[i] is None,
    ensures
        crossing_count(crossings) == 0,
    decreases crossings.len(),
{
    if crossings.len() > 0 {
        lemma_no_crossing_count(crossings.drop_last());
    }
}

/// A line that crosses no edge of a polygon leaves it whole: splitting yields
/// the polygon itself as the only piece.
pub proof fn lemma_split_without_crossing<P>(
    polygon: Seq<P>,
    crossings: Seq<Option<P>>,
    order: Seq<Ordering>,
)
    requires
        forall|i: int| 0 <= i < crossings.len() ==> crossings[i] is None,
    ensures
        split_spec(polygon, crossings, order) == seq![polygon],
{
    lemma_no_crossing_count(crossings);
}

/// The sweep state and the crossing count after the first `k` vertices of a
/// boundary that the line crosses on edges `a` and `b` only.
proof fn lemma_two_crossings_prefix<P>(
    polygon: Seq<P>,
    crossings: Seq<Option<P>>,
    a: int,
    b: int,
    p: P,
    q: P,
    k: int,
)
    requires
        polygon.len() == crossings.len(),
        0 <= a < b < polygon.len(),
        0 <= k <= polygon.len(),
        crossings[a] == Some(p),
        crossings[b] == Some(q),
        forall|i: int| 0 <= i < crossings.len() && i != a && i != b ==> crossings[i] is None,
    ensures
        k <= a ==> sweep(split_points_spec(polygon.take(k), crossings.take(k))) == (
            Seq::<Seq<P>>::empty(),
            polygon.take(k),
            Seq::<P>::empty(),
        ) && crossing_count(crossings.take(k)) == 0,
        a < k <= b ==> sweep(split_points_spec(polygon.take(k), crossings.take(k))) == (
            Seq::<Seq<P>>::empty(),
            seq![p] + polygon.subrange(a + 1, k),
            polygon.take(a + 1).push(p),
        ) && crossing_count(crossings.take(k)) == 1,
        b < k ==> sweep(split_points_spec(polygon.take(k), crossings.take(k))) == (
            seq![seq![p] + polygon.subrange(a + 1, b + 1) + seq![q]],
            polygon.take(a + 1) + seq![p, q] + polygon.subrange(b + 1, k),
            Seq::<P>::empty(),
        ) && crossing_count(crossings.take(k)) == 2,
    decreases k,
{
    if k > 0 {
        lemma_two_crossings_prefix(polygon, crossings, a, b, p, q, k - 1);
        let pt = polygon.take(k);
        let ct = crossings.take(k);
        assert(pt.drop_last() =~= polygon.take(k - 1));
        assert(ct.drop_last() =~= crossings.take(k - 1));
        let v = polygon[k - 1];
        let head = split_points_spec(polygon.take(k - 1), crossings.take(k - 1));
        let walk = head.push(SplitPoint::Point(v));
        assert(walk.drop_last() =~= head);
        assert(sweep(walk) == sweep_step(sweep(head), SplitPoint::Point(v)));
        assert(polygon.take(k - 1).push(v) =~= pt);
        assert(ct.last() == crossings[k - 1]);
        assert(crossing_count(ct) == crossing_count(crossings.take(k - 1)) + if crossings[k
            - 1] is Some {
            1nat
        } else {
            0nat
        });
        if k - 1 == a {
            let walk2 = walk.push(SplitPoint::Intersection(p));
            assert(walk2.drop_last() =~= walk);
            assert(split_points_spec(pt, ct) == walk2);
            assert(sweep(walk2) == sweep_step(sweep(walk), SplitPoint::Intersection(p)));
            assert(seq![p] + polygon.subrange(a + 1, k) =~= seq![p]);
        } else if k - 1 == b {
            let walk2 = walk.push(SplitPoint::Intersection(q));
            assert(walk2.drop_last() =~= walk);
            assert(split_points_spec(pt, ct) == walk2);
            assert(sweep(walk2) == sweep_step(sweep(walk), SplitPoint::Intersection(q)));
            assert((seq![p] + polygon.subrange(a + 1, k - 1)).push(v) =~= seq![p]
                + polygon.subrange(a + 1, b + 1));
            assert(polygon.take(a + 1).push(p).push(q) =~= polygon.take(a + 1) + seq![p, q]
                + polygon.subrange(b + 1, k));
            let piece = seq![p] + polygon.subrange(a + 1, b + 1) + seq![q];
            assert((seq![p] + polygon.subrange(a + 1, b + 1)).push(q) =~= piece);
            assert(Seq::<Seq<P>>::empty().push(piece) =~= seq![piece]);
        } else {
            assert(split_points_spec(pt, ct) == walk);
            if a < k - 1 < b {
                assert((seq![p] + polygon.subrange(a + 1, k - 1)).push(v) =~= seq![p]
                    + polygon.subrange(a + 1, k));
            } else if b < k - 1 {
                assert((polygon.take(a + 1) + seq![p, q] + polygon.subrange(b + 1, k - 1)).push(v)
                    =~= polygon.take(a + 1) + seq![p, q] + polygon.subrange(b + 1, k));
            }
        }
    }
}

/// A line that crosses the boundary on exactly two edges, `a` before `b`, at
/// `p` and `q`, splits the polygon in two. The first piece runs from `p` over
/// the vertices after `a` up to vertex `b`, then to `q`; the second holds the
/// remaining vertices, with `p` and `q` between vertex `a` and the vertex after
/// `b`. So every vertex lies in exactly one piece, and the two cut points in
/// both.
pub proof fn lemma_split_two_crossings<P>(
    polygon: Seq<P>,
    crossings: Seq<Option<P>>,
    order: Seq<Ordering>,
    a: int,
    b: int,
    p: P,
    q: P,
)
    requires
        polygon.len() == crossings.len(),
        0 <= a < b < polygon.len(),
        crossings[a] == Some(p),
        crossings[b] == Some(q),
        forall|i: int| 0 <= i < crossings.len() && i != a && i != b ==> crossings[i] is None,
    ensures
        split_spec(polygon, crossings, order) == seq![
            seq![p] + polygon.subrange(a + 1, b + 1) + seq![q],
            polygon.take(a + 1) + seq![p, q] + polygon.skip(b + 1),
        ],
{
    let n = polygon.len() as int;
    lemma_two_crossings_prefix(polygon, crossings, a, b, p, q, n);
    assert(polygon.take(n) =~= polygon);
    assert(crossings.take(n) =~= crossings);
    assert(polygon.subrange(b + 1, n) =~= polygon.skip(b + 1));
    let s = split_points_spec(polygon, crossings);
    lemma_cut_count(polygon, crossings);
    assert(rotation_start(s, order) == 0);
    assert(rotate_spec(s, order) =~= s);
    assert(pieces(s) =~= seq![
        seq![p] + polygon.subrange(a + 1, b + 1) + seq![q],
        polygon.take(a + 1) + seq![p, q] + polygon.skip(b + 1),
    ]);
}

/// How many points the pieces hold together.
pub open spec fn total_len<P>(pieces: Seq<Seq<P>>) -> nat
    decreases pieces.len(),
{
    if pieces.len() == 0 {
        0
    } else {
        total_len(pieces.drop_last()) + pieces.last().len()
    }
}

proof fn lemma_cut_positions_bounds<P>(s: Seq<SplitPoint<P>>)
    ensures
        forall|k: int|
            0 <= k < cut_positions(s).len() ==> 0 <= #[trigger] cut_positions(s)[k] < s.len(),
    decreases s.len(),
{
    if s.len() > 0 {
        lemma_cut_positions_bounds(s.drop_last());
        let prev = cut_positions(s.drop_last());
        assert forall|k: int| 0 <= k < cut_positions(s).len() implies 0 <= #[trigger] cut_positions(
            s,
        )[k] < s.len() by {
            if k < prev.len() {
                assert(cut_positions(s)[k] == prev[k]);
            }
        }
    }
}

proof fn lemma_cut_count_concat<P>(a: Seq<SplitPoint<P>>, b: Seq<SplitPoint<P>>)
    ensures
        cut_positions(a + b).len() == cut_positions(a).len() + cut_positions(b).len(),
    decreases b.len(),
{
    if b.len() == 0 {
        assert(a + b =~= a);
    } else {
        lemma_cut_count_concat(a, b.drop_last());
        assert((a + b).drop_last() =~= a + b.drop_last());
        assert((a + b).last() == b.last());
    }
}

/// Every step of the sweep keeps all points: a vertex lands in one piece, a
/// crossing in two. The waiting piece is empty exactly after an even number
/// of crossings.
proof fn lemma_sweep_total<P>(s: Seq<SplitPoint<P>>)
    ensures
        total_len(sweep(s).0) + sweep(s).1.len() + sweep(s).2.len() == s.len() + cut_positions(
            s,
        ).len(),
        (sweep(s).2.len() == 0) == (cut_positions(s).len() % 2 == 0),
    decreases s.len(),
{
    if s.len() > 0 {
        lemma_sweep_total(s.drop_last());
        let (completed, working, waiting) = sweep(s.drop_last());
        match s.last() {
            SplitPoint::Point(p) => {},
            SplitPoint::Intersection(p) => {
                let done = working.push(p);
                assert(completed.push(done).drop_last() =~= completed);
            },
        }
    }
}

/// Splitting keeps every point: when the line crosses the boundary an even
/// number of times (as a line through a simple polygon does), the pieces
/// together hold each vertex once and each crossing twice, so
/// `polygon.len() + 2 * crossings` points.
pub proof fn lemma_split_keeps_points<P>(
    polygon: Seq<P>,
    crossings: Seq<Option<P>>,
    order: Seq<Ordering>,
)
    requires
        polygon.len() == crossings.len(),
        crossing_count(crossings) % 2 == 0,
    ensures
        total_len(split_spec(polygon, crossings, order)) == polygon.len() + 2 * crossing_count(
            crossings,
        ),
{
    let pieces_seq = split_spec(polygon, crossings, order);
    if crossing_count(crossings) < 2 {
        assert(pieces_seq.drop_last() =~= Seq::<Seq<P>>::empty());
        assert(total_len(Seq::<Seq<P>>::empty()) == 0);
        assert(total_len(pieces_seq) == polygon.len());
    } else {
        let s = split_points_spec(polygon, crossings);
        lemma_cut_count(polygon, crossings);
        lemma_split_points_len(polygon, crossings);
        lemma_cut_positions_bounds(s);
        let i = rotation_start(s, order);
        assert(0 <= i <= s.len());
        let r = rotate_spec(s, order);
        lemma_cut_count_concat(s.skip(i), s.take(i));
        lemma_cut_count_concat(s.take(i), s.skip(i));
        assert(s.take(i) + s.skip(i) =~= s);
        assert(r.len() == s.len());
        assert(cut_positions(r).len() == cut_positions(s).len());
        lemma_sweep_total(r);
        let st = sweep(r);
        assert(st.2.len() == 0);
        assert(pieces_seq == st.0.push(st.1));
        assert(st.0.push(st.1).drop_last() =~= st.0);
        assert(total_len(pieces_seq) == total_len(st.0) + st.1.len());
        assert(total_len(pieces_seq) == s.len() + crossing_count(crossings));
    }
}

proof fn lemma_split_points_len<P>(polygon: Seq<P>, crossings: Seq<Option<P>>)
    requires
        polygon.len() == crossings.len(),
    ensures
        split_points_spec(polygon, crossings).len() == polygon.len() + crossing_count(crossings),
    decreases polygon.len(),
{
    if polygon.len() > 0 {
        lemma_split_points_len(polygon.drop_last(), crossings.drop_last());
    }
}

/// Builds the boundary walk.
fn split_points<P: Copy>(polygon: &Vec<P>, crossings: &Vec<Option<P>>) -> (r: Vec<SplitPoint<P>>)
    requires
        crossings.len() == polygon.len(),
    ensures
        r@ == split_points_spec(polygon@, crossings@),
{
    let mut out: Vec<SplitPoint<P>> = Vec::new();
    let n = polygon.len();
    for i in 0..n
        invariant
            n == polygon.len(),
            crossings.len() == n,
            out@ == split_points_spec(polygon@.take(i as int), crossings@.take(i as int)),
    {
        proof {
            assert(polygon@.take(i + 1).drop_last() =~= polygon@.take(i as int));
            assert(crossings@.take(i + 1).drop_last() =~= crossings@.take(i as int));
        }
        out.push(SplitPoint::Point(polygon[i]));
        match crossings[i] {
            Some(c) => {
                out.push(SplitPoint::Intersection(c));
            },
            None => {},
        }
    }
    proof {
        assert(polygon@.take(n as int) =~= polygon@);
        assert(crossings@.take(n as int) =~= crossings@);
    }
    out
}

/// The positions of the crossings in a walk.
fn cut_positions_of<P: Copy>(points: &Vec<SplitPoint<P>>) -> (r: Vec<usize>)
    ensures
        r@.map_values(|i: usize| i as int) == cut_positions(points@),
        forall|k: int| 0 <= k < r.len() ==> r@[k] < points.len(),
{
    let mut out: Vec<usize> = Vec::new();
    let n = points.len();
    for i in 0..n
        invariant
            n == points.len(),
            out@.map_values(|i: usize| i as int) == cut_positions(points@.take(i as int)),
            forall|k: int| 0 <= k < out.len() ==> out@[k] < i,
    {
        proof {
            assert(points@.take(i + 1).drop_last() =~= points@.take(i as int));
        }
        match points[i] {
            SplitPoint::Intersection(_) => {
                out.push(i);
                assert(out@.map_values(|i: usize| i as int) =~= cut_positions(
                    points@.take(i + 1),
                ));
            },
            SplitPoint::Point(_) => {},
        }
    }
    proof {
        assert(points@.take(n as int) =~= points@);
    }
    out
}

fn same_order(a: Ordering, b: Ordering) -> (r: bool)
    ensures
        r == (a == b),
{
    match (a, b) {
        (Ordering::Less, Ordering::Less) => true,
        (Ordering::Equal, Ordering::Equal) => true,
        (Ordering::Greater, Ordering::Greater) => true,
        _ => false,
    }
}

/// The first index from 1 on at which `order` differs from its first entry.
fn first_turn(order: &Vec<Ordering>) -> (r: Option<usize>)
    ensures
        r matches Some(k) ==> turn_from(order@, 1) == Some(k as int) && k < order.len(),
        r is None ==> turn_from(order@, 1) is None,
{
    let n = order.len();
    let mut k: usize = 1;
    while k < n
        invariant
            n == order.len(),
            1 <= k,
            turn_from(order@, 1) == turn_from(order@, k as int),
        decreases n - k,
    {
        if !same_order(order[k], order[0]) {
            return Some(k);
        }
        k = k + 1;
    }
    None
}

/// Rotates the walk so that its crossings come in point order.
fn rotate_split_points<P: Copy>(points: &Vec<SplitPoint<P>>, order: &Vec<Ordering>) -> (r: Vec<
    SplitPoint<P>,
>)
    ensures
        r@ == rotate_spec(points@, order@),
{
    let cuts = cut_positions_of(points);
    let ghost cut_seq = cut_positions(points@);
    assert(cuts@.len() == cut_seq.len());
    let mut start: usize = 0;
    if cuts.len() > 2 && order.len() == cuts.len() {
        match first_turn(order) {
            Some(k) => {
                let c = (k + 1) % cuts.len();
                start = cuts[c];
                assert(cut_seq[c as int] == cuts@.map_values(|i: usize| i as int)[c as int]);
            },
            None => {},
        }
    }
    assert(start == rotation_start(points@, order@));
    let n = points.len();
    let mut out: Vec<SplitPoint<P>> = Vec::new();
    for i in start..n
        invariant
            start <= n,
            n == points.len(),
            out@ =~= points@.subrange(start as int, i as int),
    {
        out.push(points[i]);
    }
    for i in 0..start
        invariant
            start <= n,
            n == points.len(),
            out@ =~= points@.skip(start as int) + points@.take(i as int),
    {
        out.push(points[i]);
    }
    out
}

/// Builds the pieces from a walk.
fn polygons_from_split_points<P: Copy>(points: &Vec<SplitPoint<P>>) -> (r: Vec<Vec<P>>)
    ensures
        views(r@) == pieces(points@),
{
    let mut working: Vec<P> = Vec::new();
    let mut waiting: Vec<P> = Vec::new();
    let mut completed: Vec<Vec<P>> = Vec::new();
    let n = points.len();
    for i in 0..n
        invariant
            n == points.len(),
            (views(completed@), working@, waiting@) == sweep(points@.take(i as int)),
    {
        proof {
            assert(points@.take(i + 1).drop_last() =~= points@.take(i as int));
        }
        match points[i] {
            SplitPoint::Point(p) => {
                working.push(p);
            },
            SplitPoint::Intersection(p) => {
                working.push(p);
                if waiting.len() != 0 {
                    waiting.push(p);
                    let done = working;
                    proof {
                        assert(views(completed@.push(done)) =~= views(completed@).push(done@));
                    }
                    completed.push(done);
                    working = waiting;
                    waiting = Vec::new();
                } else {
                    waiting.push(p);
                    let t = working;
                    working = waiting;
                    waiting = t;
                }
            },
        }
    }
    proof {
        assert(points@.take(n as int) =~= points@);
        assert(views(completed@.push(working)) =~= views(completed@).push(working@));
    }
    completed.push(working);
    completed
}

/// Splits a simple polygon by a line.
///
/// `crossings[i]` is where the line crosses the edge from vertex `i` to the
/// next vertex (the last vertex to the first), if it does. `order[k]` compares
/// the `k`-th crossing along the boundary with the next one (the last with the
/// first). With fewer than two crossings the polygon comes back whole, as the
/// only piece; otherwise each piece starts and ends on a crossing, and the
/// last piece holds what is left.
pub fn split<P: Copy>(polygon: &Vec<P>, crossings: &Vec<Option<P>>, order: &Vec<Ordering>) -> (r:
    Vec<Vec<P>>)
    requires
        crossings.len() == polygon.len(),
    ensures
        views(r@) == split_spec(polygon@, crossings@, order@),
{
    let points = split_points(polygon, crossings);
    let cuts = cut_positions_of(&points);
    proof {
        lemma_cut_count(polygon@, crossings@);
    }
    if cuts.len() < 2 {
        let mut whole: Vec<P> = Vec::new();
        for i in 0..polygon.len()
            invariant
                whole@ =~= polygon@.take(i as int),
        {
            whole.push(polygon[i]);
        }
        assert(polygon@.take(polygon.len() as int) =~= polygon@);
        let mut out: Vec<Vec<P>> = Vec::new();
        out.push(whole);
        assert(views(out@) =~= seq![polygon@]);
        out
    } else {
        let rotated = rotate_split_points(&points, order);
        polygons_from_split_points(&rotated)
    }
}

} // verus!
