//! Pairing the items of a sequence with their successors.

use vstd::prelude::*;

verus! {

/// The closed chain through `s`: item `i` paired with item `i + 1`, and the
/// last item paired with the first (a single item is paired with itself).
pub open spec fn cycle_edges<T>(s: Seq<T>) -> Seq<(T, T)> {
    Seq::new(s.len(), |i: int| (s[i], s[(i + 1) % (s.len() as int)]))
}

/// The open chain through `s`: item `i` paired with item `i + 1`, without the
/// closing pair.
pub open spec fn open_edges<T>(s: Seq<T>) -> Seq<(T, T)> {
    if s.len() == 0 {
        Seq::empty()
    } else {
        Seq::new((s.len() - 1) as nat, |i: int| (s[i], s[i + 1]))
    }
}

/// The integers `start, start + 1, ..., end - 1` (empty when `end <= start`).
pub open spec fn range_seq(start: i32, end: i32) -> Seq<i32> {
    Seq::new(if start < end { (end - start) as nat } else { 0 }, |i: int| (start + i) as i32)
}

/// The edges of a closed chain, handed out one at a time.
pub struct EdgesCycle<T> {
    items: Vec<T>,
    next: usize,
}

impl<T> View for EdgesCycle<T> {
    type V = Seq<(T, T)>;

    /// The edges not yet handed out, in order.
    closed spec fn view(&self) -> Seq<(T, T)> {
        cycle_edges(self.items@).skip(self.next as int)
    }
}

impl<T> EdgesCycle<T> {
    #[verifier::type_invariant]
    closed spec fn inv(self) -> bool {
        self.next <= self.items.len()
    }
}

impl<T: Copy> EdgesCycle<T> {
    /// Starts the chain over `items`.
    pub fn new(items: Vec<T>) -> (r: Self)
        ensures
            r@ == cycle_edges(items@),
    {
        let r = EdgesCycle { items, next: 0 };
        assert(r@ =~= cycle_edges(items@));
        r
    }

    /// Hands out the next edge, or `None` once all have been handed out.
    pub fn next(&mut self) -> (r: Option<(T, T)>)
        ensures
            old(self)@.len() == 0 ==> r.is_none() && final(self)@ == old(self)@,
            old(self)@.len() > 0 ==> r == Some(old(self)@[0]) && final(self)@
                == old(self)@.drop_first(),
    {
        proof {
            use_type_invariant(&*self);
        }
        let n = self.items.len();
        if self.next < n {
            let i = self.next;
            let j: usize = if i + 1 < n {
                i + 1
            } else {
                0
            };
            let edge = (self.items[i], self.items[j]);
            proof {
                assert(j as int == (i as int + 1) % (n as int)) by (nonlinear_arith)
                    requires
                        i < n,
                        j == (if i + 1 < n { i + 1 } else { 0 }),
                ;
            }
            self.next = i + 1;
            assert(final(self)@ =~= old(self)@.drop_first());
            Some(edge)
        } else {
            None
        }
    }

    /// Hands out all remaining edges at once.
    pub fn into_vec(self) -> (r: Vec<(T, T)>)
        ensures
            r@ == self@,
    {
        let mut rest = self;
        let mut out: Vec<(T, T)> = Vec::new();
        loop
            invariant
                out@ + rest@ == self@,
            decreases rest@.len(),
        {
            match rest.next() {
                Some(edge) => {
                    out.push(edge);
                },
                None => {
                    assert(out@ =~= self@);
                    return out;
                },
            }
        }
    }
}

/// The edges of an open chain, handed out one at a time.
pub struct Edges<T> {
    items: Vec<T>,
    next: usize,
}

impl<T> View for Edges<T> {
    type V = Seq<(T, T)>;

    /// The edges not yet handed out, in order.
    closed spec fn view(&self) -> Seq<(T, T)> {
        open_edges(self.items@).skip(self.next as int)
    }
}

impl<T> Edges<T> {
    #[verifier::type_invariant]
    closed spec fn inv(self) -> bool {
        self.next <= open_edges(self.items@).len()
    }
}

impl<T: Copy> Edges<T> {
    /// Starts the chain over `items`.
    pub fn new(items: Vec<T>) -> (r: Self)
        ensures
            r@ == open_edges(items@),
    {
        let r = Edges { items, next: 0 };
        assert(r@ =~= open_edges(items@));
        r
    }

    /// Hands out the next edge, or `None` once all have been handed out.
    pub fn next(&mut self) -> (r: Option<(T, T)>)
        ensures
            old(self)@.len() == 0 ==> r.is_none() && final(self)@ == old(self)@,
            old(self)@.len() > 0 ==> r == Some(old(self)@[0]) && final(self)@
                == old(self)@.drop_first(),
    {
        proof {
            use_type_invariant(&*self);
        }
        let n = self.items.len();
        if n > 0 && self.next < n - 1 {
            let i = self.next;
            let edge = (self.items[i], self.items[i + 1]);
            self.next = i + 1;
            assert(final(self)@ =~= old(self)@.drop_first());
            Some(edge)
        } else {
            None
        }
    }

    /// Hands out all remaining edges at once.
    pub fn into_vec(self) -> (r: Vec<(T, T)>)
        ensures
            r@ == self@,
    {
        let mut rest = self;
        let mut out: Vec<(T, T)> = Vec::new();
        loop
            invariant
                out@ + rest@ == self@,
            decreases rest@.len(),
        {
            match rest.next() {
                Some(edge) => {
                    out.push(edge);
                },
                None => {
                    assert(out@ =~= self@);
                    return out;
                },
            }
        }
    }
}

/// Sources whose items can be walked as a closed chain of edges.
pub trait EdgesCycleIterator<T>: Sized {
    /// The items of the source, in order.
    spec fn items(&self) -> Seq<T>;

    fn edges_cycle(self) -> (r: EdgesCycle<T>)
        ensures
            r@ == cycle_edges(self.items()),
    ;
}

/// Sources whose items can be walked as an open chain of edges.
pub trait EdgesIterator<T>: Sized {
    /// The items of the source, in order.
    spec fn items(&self) -> Seq<T>;

    fn edges(self) -> (r: Edges<T>)
        ensures
            r@ == open_edges(self.items()),
    ;
}

/// The integers of a range, in order.
fn range_to_vec(r: core::ops::Range<i32>) -> (v: Vec<i32>)
    ensures
        v@ == range_seq(r.start, r.end),
{
    let mut v: Vec<i32> = Vec::new();
    let mut k: i32 = r.start;
    while k < r.end
        invariant
            r.start <= k,
            r.start < r.end ==> k <= r.end,
            r.start < r.end ==> v@ =~= range_seq(r.start, k),
            r.end <= r.start ==> v@.len() == 0,
        decreases r.end - k,
    {
        v.push(k);
        k = k + 1;
    }
    assert(v@ =~= range_seq(r.start, r.end));
    v
}

impl<T: Copy> EdgesCycleIterator<T> for Vec<T> {
    open spec fn items(&self) -> Seq<T> {
        self@
    }

    fn edges_cycle(self) -> (r: EdgesCycle<T>) {
        EdgesCycle::new(self)
    }
}

impl EdgesCycleIterator<i32> for core::ops::Range<i32> {
    open spec fn items(&self) -> Seq<i32> {
        range_seq(self.start, self.end)
    }

    fn edges_cycle(self) -> (r: EdgesCycle<i32>) {
        EdgesCycle::new(range_to_vec(self))
    }
}

impl<T: Copy> EdgesIterator<T> for Vec<T> {
    open spec fn items(&self) -> Seq<T> {
        self@
    }

    fn edges(self) -> (r: Edges<T>) {
        Edges::new(self)
    }
}

impl EdgesIterator<i32> for core::ops::Range<i32> {
    open spec fn items(&self) -> Seq<i32> {
        range_seq(self.start, self.end)
    }

    fn edges(self) -> (r: Edges<i32>) {
        Edges::new(range_to_vec(self))
    }
}

} // verus!
