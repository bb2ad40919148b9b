//! Which boundary samples the tessellators take along a face's loop.
//!
//! Walking the coedges of a loop, a straight pcurve contributes one sample,
//! the coedge's start corner; a curved one (arc or Bézier) contributes
//! `resolution` samples at equal parameter steps from its start, the end
//! excluded (it is the next coedge's start): the first is the start corner,
//! the others lie on the edge. Corner samples are shared by vertex identity,
//! edge samples by edge and parameter; evaluating the parameters and the
//! pcurves is floating-point work done by the caller.

use vstd::prelude::*;
use crate::topology::{EdgeId, VertexId};

verus! {

/// The kind of a coedge's pcurve, as far as sampling is concerned.
#[derive(Debug, Clone, Copy, PartialEq, Eq, Structural)]
pub enum PcurveKind {
    /// A line: one sample.
    Straight,
    /// An arc or Bézier curve: `resolution` samples.
    Curved,
}

/// A coedge of a loop: its edge, the edge's vertices, the direction in which
/// the coedge runs and the kind of its pcurve.
#[derive(Debug, Clone, Copy, PartialEq, Eq, Structural)]
pub struct SampledCoedge {
    pub edge: EdgeId,
    pub v0: VertexId,
    pub v1: VertexId,
    /// Whether the coedge runs from `v0` to `v1`.
    pub forward: bool,
    pub kind: PcurveKind,
}

/// One boundary sample.
#[derive(Debug, Clone, Copy, PartialEq, Eq, Structural)]
pub enum SampleSlot {
    /// The B-rep corner the coedge starts at.
    Corner(VertexId),
    /// Step `k` (of `resolution`, counted from the coedge's start) along an edge.
    OnEdge(EdgeId, usize),
}

/// The vertex a coedge starts at.
pub open spec fn start_corner(c: SampledCoedge) -> VertexId {
    if c.forward {
        c.v0
    } else {
        c.v1
    }
}

/// The samples of one coedge.
pub open spec fn coedge_slots(c: SampledCoedge, resolution: nat) -> Seq<SampleSlot> {
    match c.kind {
        PcurveKind::Straight => seq![SampleSlot::Corner(start_corner(c))],
        PcurveKind::Curved => Seq::new(
            resolution,
            |k: int|
                if k == 0 {
                    SampleSlot::Corner(start_corner(c))
                } else {
                    SampleSlot::OnEdge(c.edge, k as usize)
                },
        ),
    }
}

/// The samples of a loop: those of each coedge, in order.
pub open spec fn loop_slots(s: Seq<SampledCoedge>, resolution: nat) -> Seq<SampleSlot>
    decreases s.len(),
{
    if s.len() == 0 {
        Seq::empty()
    } else {
        loop_slots(s.drop_last(), resolution) + coedge_slots(s.last(), resolution)
    }
}

/// The number of samples of a loop: one per straight coedge, `resolution`
/// per curved one.
pub open spec fn sample_count(s: Seq<SampledCoedge>, resolution: nat) -> int
    decreases s.len(),
{
    if s.len() == 0 {
        0
    } else {
        sample_count(s.drop_last(), resolution) + match s.last().kind {
            PcurveKind::Straight => 1,
            PcurveKind::Curved => resolution as int,
        }
    }
}

/// A loop has as many samples as [`sample_count`] says.
pub proof fn lemma_sample_count(s: Seq<SampledCoedge>, resolution: nat)
    ensures
        loop_slots(s, resolution).len() == sample_count(s, resolution),
    decreases s.len(),
{
    if s.len() > 0 {
        lemma_sample_count(s.drop_last(), resolution);
    }
}

/// The samples to take along a loop, in order.
pub fn sample_plan(coedges: &Vec<SampledCoedge>, resolution: usize) -> (r: Vec<SampleSlot>)
    requires
        sample_count(coedges@, resolution as nat) <= usize::MAX,
    ensures
        r@ == loop_slots(coedges@, resolution as nat),
        r@.len() == sample_count(coedges@, resolution as nat),
        // each coedge's first sample is the corner it starts at
        forall|i: int|
            0 <= i < coedges@.len() && (coedges@[i].kind == PcurveKind::Straight || resolution > 0)
                ==> r@[#[trigger] sample_count(coedges@.take(i), resolution as nat)] == SampleSlot::Corner(
                if coedges@[i].forward {
                    coedges@[i].v0
                } else {
                    coedges@[i].v1
                },
            ),
{
    let ghost res = resolution as nat;
    let mut out: Vec<SampleSlot> = Vec::new();
    let mut i: usize = 0;
    while i < coedges.len()
        invariant
            res == resolution,
            i <= coedges@.len(),
            sample_count(coedges@, res) <= usize::MAX,
            out@ == loop_slots(coedges@.take(i as int), res),
        decreases coedges@.len() - i,
    {
        let c = coedges[i];
        let corner = if c.forward { c.v0 } else { c.v1 };
        let ghost before = out@;
        proof {
            lemma_sample_count(coedges@.take(i as int), res);
            lemma_count_prefix(coedges@, i as int + 1, res);
            assert(coedges@.take(i as int + 1).drop_last() =~= coedges@.take(i as int));
        }
        match c.kind {
            PcurveKind::Straight => {
                out.push(SampleSlot::Corner(corner));
            },
            PcurveKind::Curved => {
                let mut k: usize = 0;
                while k < resolution
                    invariant
                        res == resolution,
                        c.kind == PcurveKind::Curved,
                        corner == start_corner(c),
                        k <= resolution,
                        out@.len() == before.len() + k,
                        out@.len() <= usize::MAX,
                        before.len() + resolution <= usize::MAX,
                        forall|q: int| 0 <= q < before.len() ==> #[trigger] out@[q] == before[q],
                        forall|q: int|
                            0 <= q < k ==> #[trigger] out@[before.len() + q] == coedge_slots(c, res)[q],
                    decreases resolution - k,
                {
                    if k == 0 {
                        out.push(SampleSlot::Corner(corner));
                    } else {
                        out.push(SampleSlot::OnEdge(c.edge, k));
                    }
                    k = k + 1;
                }
                assert forall|j: int| 0 <= j < out@.len() implies out@[j] == (before + coedge_slots(
                    c,
                    res,
                ))[j] by {
                    if j >= before.len() {
                        let q = j - before.len();
                        assert(out@[before.len() + q] == coedge_slots(c, res)[q]);
                    }
                }
            },
        }
        proof {
            let s = coedges@.take(i as int + 1);
            assert(s.last() == c);
            assert(out@ =~= before + coedge_slots(c, res));
            assert(out@ =~= loop_slots(s, res));
        }
        i = i + 1;
    }
    assert(coedges@.take(coedges@.len() as int) =~= coedges@);
    proof {
        lemma_sample_count(coedges@, res);
        assert forall|i: int|
            0 <= i < coedges@.len() && (coedges@[i].kind == PcurveKind::Straight || resolution > 0)
            implies out@[#[trigger] sample_count(coedges@.take(i), res)] == SampleSlot::Corner(
            if coedges@[i].forward {
                coedges@[i].v0
            } else {
                coedges@[i].v1
            },
        ) by {
            lemma_plan_positions(coedges@, res, i, 0);
        }
    }
    out
}

/// The samples of a prefix of a loop are no more than those of the loop.
proof fn lemma_count_prefix(s: Seq<SampledCoedge>, k: int, resolution: nat)
    requires
        0 <= k <= s.len(),
    ensures
        sample_count(s.take(k), resolution) <= sample_count(s, resolution),
    decreases s.len() - k,
{
    if k < s.len() {
        lemma_count_prefix(s, k + 1, resolution);
        assert(s.take(k + 1).drop_last() =~= s.take(k));
    } else {
        assert(s.take(k) =~= s);
    }
}


/// The samples of a prefix of a loop start the samples of the loop.
proof fn lemma_slots_prefix(s: Seq<SampledCoedge>, j: int, resolution: nat)
    requires
        0 <= j <= s.len(),
    ensures
        loop_slots(s.take(j), resolution).len() <= loop_slots(s, resolution).len(),
        forall|q: int|
            0 <= q < loop_slots(s.take(j), resolution).len() ==> #[trigger] loop_slots(s, resolution)[q]
                == loop_slots(s.take(j), resolution)[q],
    decreases s.len() - j,
{
    if j < s.len() {
        lemma_slots_prefix(s, j + 1, resolution);
        assert(s.take(j + 1).drop_last() =~= s.take(j));
    } else {
        assert(s.take(j) =~= s);
    }
}

/// Where each coedge's samples stand in a loop's plan. The samples of
/// coedge `i` start after those of the coedges before it; the first is the
/// corner the coedge starts at (`v0` when it runs forward, `v1` when it runs
/// backward), for straight and curved pcurves alike; the others (curved
/// only) are the steps `1, 2, ..` along its edge.
pub proof fn lemma_plan_positions(s: Seq<SampledCoedge>, resolution: nat, i: int, k: int)
    requires
        0 <= i < s.len(),
        0 <= k,
        s[i].kind == PcurveKind::Straight ==> k == 0,
        s[i].kind == PcurveKind::Curved ==> k < resolution,
    ensures
        sample_count(s.take(i), resolution) + k < loop_slots(s, resolution).len(),
        loop_slots(s, resolution)[sample_count(s.take(i), resolution) + k] == if k == 0 {
            SampleSlot::Corner(if s[i].forward { s[i].v0 } else { s[i].v1 })
        } else {
            SampleSlot::OnEdge(s[i].edge, k as usize)
        },
{
    let pre = s.take(i);
    let cur = s.take(i + 1);
    assert(cur.drop_last() =~= pre);
    assert(cur.last() == s[i]);
    lemma_sample_count(pre, resolution);
    lemma_slots_prefix(s, i + 1, resolution);
    let o = sample_count(pre, resolution);
    assert(loop_slots(cur, resolution) == loop_slots(pre, resolution) + coedge_slots(s[i], resolution));
    assert(loop_slots(cur, resolution)[o + k] == coedge_slots(s[i], resolution)[k]);
}

} // verus!
