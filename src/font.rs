//! Glyph outlines: path commands in font units turned into polylines.
//!
//! A glyph is drawn on a grid of font units by SVG-like commands. This module
//! works out which polylines they make and, for each vertex, where it lies in
//! font units; a cubic curve is kept as one step with its control points, to
//! be flattened and scaled by the caller.

use vstd::prelude::*;

verus! {

/// A path command in font units: move to, line to, cubic curve to (two
/// control points, then the end point), horizontal line to, vertical line
/// to, close.
#[derive(Clone, Copy, Debug, PartialEq, Eq)]
pub enum Command {
    M(u8, u8),
    L(u8, u8),
    C(u8, u8, u8, u8, u8, u8),
    H(u8),
    V(u8),
    Z,
}

/// A vertex of a polyline in font units: a point, or a cubic curve from the
/// previous vertex through two control points to an end point.
#[derive(Clone, Copy, Debug, PartialEq, Eq)]
pub enum Step {
    To(u8, u8),
    Curve { from: (u8, u8), c1: (u8, u8), c2: (u8, u8), to: (u8, u8) },
}

/// The commands of one glyph.
pub struct Data<'a>(pub &'a [Command]);

/// The tracing state: finished polylines, the current one, its first point
/// and the current point.
pub type Trace = (Seq<Seq<Step>>, Seq<Step>, (u8, u8), (u8, u8));

/// One command applied to the tracing state. A move finishes the current
/// polyline (kept only if it has more than one vertex) and starts another.
pub open spec fn trace_step(st: Trace, cmd: Command) -> Trace {
    let (done, current, first, last) = st;
    match cmd {
        Command::M(x, y) => (
            if current.len() > 1 {
                done.push(current)
            } else {
                done
            },
            seq![Step::To(x, y)],
            (x, y),
            (x, y),
        ),
        Command::L(x, y) => (done, current.push(Step::To(x, y)), first, (x, y)),
        Command::C(x2, y2, x3, y3, x4, y4) => (
            done,
            current.push(Step::Curve { from: last, c1: (x2, y2), c2: (x3, y3), to: (x4, y4) }),
            first,
            (x4, y4),
        ),
        Command::H(x) => (done, current.push(Step::To(x, last.1)), first, (x, last.1)),
        Command::V(y) => (done, current.push(Step::To(last.0, y)), first, (last.0, y)),
        Command::Z => (done, current.push(Step::To(first.0, first.1)), first, first),
    }
}

/// The tracing state after `cmds`, starting with a polyline at `start`.
pub open spec fn trace(start: (u8, u8), cmds: Seq<Command>) -> Trace
    decreases cmds.len(),
{
    if cmds.len() == 0 {
        (Seq::empty(), seq![Step::To(start.0, start.1)], start, start)
    } else {
        trace_step(trace(start, cmds.drop_last()), cmds.last())
    }
}

/// The polylines of a glyph: none unless it starts with a move; then the
/// traced polylines, each with more than one vertex.
pub open spec fn outlines(cmds: Seq<Command>) -> Seq<Seq<Step>> {
    if cmds.len() > 0 && cmds[0] is M {
        let (done, current, _first, _last) = trace(
            (cmds[0]->M_0, cmds[0]->M_1),
            cmds.drop_first(),
        );
        if current.len() > 1 {
            done.push(current)
        } else {
            done
        }
    } else {
        Seq::empty()
    }
}

/// The contents of each vector, in order.
pub open spec fn step_views(v: Seq<Vec<Step>>) -> Seq<Seq<Step>> {
    v.map_values(|x: Vec<Step>| x@)
}

impl<'a> Data<'a> {
    /// The glyph's polylines in font units.
    pub fn to_polylines(self) -> (r: Vec<Vec<Step>>)
        ensures
            step_views(r@) == outlines(self.0@),
    {
        let cmds = self.0;
        let n = cmds.len();
        if n == 0 {
            return Vec::new();
        }
        let (x0, y0) = match cmds[0] {
            Command::M(x, y) => (x, y),
            _ => {
                return Vec::new();
            },
        };
        let ghost rest = cmds@.drop_first();
        let mut done: Vec<Vec<Step>> = Vec::new();
        let mut current: Vec<Step> = Vec::new();
        current.push(Step::To(x0, y0));
        let mut first: (u8, u8) = (x0, y0);
        let mut last: (u8, u8) = (x0, y0);
        proof {
            assert(current@ =~= seq![Step::To(x0, y0)]);
            assert(rest.take(0) =~= Seq::<Command>::empty());
        }
        for i in 1..n
            invariant
                n == cmds@.len(),
                rest == cmds@.drop_first(),
                (step_views(done@), current@, first, last) == trace(
                    (x0, y0),
                    rest.take(i - 1),
                ),
        {
            proof {
                assert(rest.take(i as int).drop_last() =~= rest.take(i - 1));
                assert(rest.take(i as int).last() == cmds@[i as int]);
            }
            match cmds[i] {
                Command::M(x, y) => {
                    if current.len() > 1 {
                        let finished = current;
                        proof {
                            assert(step_views(done@.push(finished)) =~= step_views(done@).push(
                                finished@,
                            ));
                        }
                        done.push(finished);
                    }
                    current = Vec::new();
                    current.push(Step::To(x, y));
                    assert(current@ =~= seq![Step::To(x, y)]);
                    first = (x, y);
                    last = (x, y);
                },
                Command::L(x, y) => {
                    current.push(Step::To(x, y));
                    last = (x, y);
                },
                Command::C(x2, y2, x3, y3, x4, y4) => {
                    current.push(Step::Curve { from: last, c1: (x2, y2), c2: (x3, y3), to: (x4, y4) });
                    last = (x4, y4);
                },
                Command::H(x) => {
                    current.push(Step::To(x, last.1));
                    last = (x, last.1);
                },
                Command::V(y) => {
                    current.push(Step::To(last.0, y));
                    last = (last.0, y);
                },
                Command::Z => {
                    current.push(Step::To(first.0, first.1));
                    last = first;
                },
            }
        }
        proof {
            assert(rest.take(n - 1) =~= rest);
        }
        if current.len() > 1 {
            proof {
                assert(step_views(done@.push(current)) =~= step_views(done@).push(current@));
            }
            done.push(current);
        }
        done
    }
}

} // verus!
