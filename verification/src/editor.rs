//! Decisions of the routing editor that do not depend on drawing: zoom
//! steps and which nodes open a plugin editor.
use vstd::prelude::*;
use crate::ids::NodeId;
use crate::graph::{AudioGraph, NodeKind};

verus! {

pub const MIN_ZOOM_PCT: i32 = 25;
pub const MAX_ZOOM_PCT: i32 = 400;

/// `a / b` rounded toward zero, as Rust divides (`b > 0`).
pub open spec fn div_trunc(a: int, b: int) -> int {
    if a >= 0 { a / b } else { -((-a) / b) }
}

/// `a % b` with the sign of `a`, as Rust takes remainders (`b > 0`).
pub open spec fn rem_trunc(a: int, b: int) -> int {
    a - b * div_trunc(a, b)
}

pub open spec fn clamp_pct(v: int) -> int {
    if v < MIN_ZOOM_PCT { MIN_ZOOM_PCT as int } else if v > MAX_ZOOM_PCT { MAX_ZOOM_PCT as int } else { v }
}

pub open spec fn ceil_to_grid(v: int, grid: int) -> int {
    div_trunc(v + grid - 1, grid) * grid
}

pub open spec fn floor_to_grid(v: int, grid: int) -> int {
    div_trunc(v, grid) * grid
}

/// The zoom percentage before snapping: a step of `delta` from a value on
/// the grid, or the grid line in the step's direction from one between.
pub open spec fn zoom_next(current: int, delta: int, grid: int) -> int {
    let pct = clamp_pct(current);
    if delta > 0 {
        if rem_trunc(pct, grid) == 0 { pct + delta } else { ceil_to_grid(pct, grid) }
    } else if delta < 0 {
        if rem_trunc(pct, grid) == 0 { pct + delta } else { floor_to_grid(pct, grid) }
    } else {
        pct
    }
}

/// The next zoom percentage: step, snap to the grid in the step's
/// direction, and keep within 25..=400.
pub open spec fn zoom_step(current: int, delta: int, grid: int) -> int {
    let next = zoom_next(current, delta, grid);
    let snapped = if rem_trunc(next, grid) == 0 {
        next
    } else if delta >= 0 {
        ceil_to_grid(next, grid)
    } else {
        floor_to_grid(next, grid)
    };
    clamp_pct(snapped)
}

pub open spec fn fits_i32(v: int) -> bool {
    i32::MIN <= v <= i32::MAX
}

/// Every intermediate value of the zoom step fits in an `i32` (where it
/// does not, the `i32` arithmetic overflows).
pub open spec fn zoom_step_fits(current: int, delta: int, grid: int) -> bool {
    let pct = clamp_pct(current);
    let next = zoom_next(current, delta, grid);
    &&& grid > 0
    &&& (delta != 0 && rem_trunc(pct, grid) == 0 ==> fits_i32(pct + delta))
    &&& (delta > 0 && rem_trunc(pct, grid) != 0 ==> fits_i32(pct + grid - 1))
    &&& (rem_trunc(next, grid) != 0 && delta >= 0 ==> fits_i32(next + grid - 1))
}

proof fn lemma_trunc_bounds(a: int, b: int)
    requires
        b > 0,
    ensures
        a >= 0 ==> 0 <= div_trunc(a, b) * b <= a && div_trunc(a, b) >= 0,
        a < 0 ==> a <= div_trunc(a, b) * b <= 0 && div_trunc(a, b) <= 0,
{
    if a >= 0 {
        vstd::arithmetic::div_mod::lemma_fundamental_div_mod(a, b);
        vstd::arithmetic::mul::lemma_mul_is_commutative(b, a / b);
        vstd::arithmetic::div_mod::lemma_div_pos_is_pos(a, b);
    } else {
        vstd::arithmetic::div_mod::lemma_fundamental_div_mod(-a, b);
        vstd::arithmetic::mul::lemma_mul_is_commutative(b, (-a) / b);
        vstd::arithmetic::div_mod::lemma_div_pos_is_pos(-a, b);
        vstd::arithmetic::mul::lemma_mul_unary_negation((-a) / b, b);
    }
}

/// `a / b` and `a % b` in `i64`, rounding toward zero (`b > 0`).
fn div_rem_trunc(a: i64, b: i64) -> (r: (i64, i64))
    requires
        b > 0,
        -0x1_0000_0000_0000 <= a <= 0x1_0000_0000_0000,
        b <= 0x1_0000_0000_0000,
    ensures
        r.0 == div_trunc(a as int, b as int),
        r.1 == rem_trunc(a as int, b as int),
        a >= 0 ==> 0 <= r.0 * b <= a,
        a < 0 ==> a <= r.0 * b <= 0,
{
    proof {
        lemma_trunc_bounds(a as int, b as int);
    }
    if a >= 0 {
        let q = a / b;
        proof {
            vstd::arithmetic::mul::lemma_mul_is_commutative(b as int, q as int);
        }
        (q, a - q * b)
    } else {
        let q = (-a) / b;
        proof {
            vstd::arithmetic::mul::lemma_mul_unary_negation(q as int, b as int);
            vstd::arithmetic::mul::lemma_mul_is_commutative(b as int, q as int);
            vstd::arithmetic::mul::lemma_mul_is_commutative(b as int, -(q as int));
        }
        (-q, a + q * b)
    }
}

/// Step the zoom percentage by `delta_pct`, snapping to multiples of
/// `grid`, within 25..=400.
pub fn step_zoom_percent(current_pct: i32, delta_pct: i32, grid: i32) -> (r: i32)
    requires
        zoom_step_fits(current_pct as int, delta_pct as int, grid as int),
    ensures
        r == zoom_step(current_pct as int, delta_pct as int, grid as int),
        MIN_ZOOM_PCT <= r <= MAX_ZOOM_PCT,
{
    let g: i64 = grid as i64;
    let pct: i64 = if current_pct < MIN_ZOOM_PCT {
        MIN_ZOOM_PCT as i64
    } else if current_pct > MAX_ZOOM_PCT {
        MAX_ZOOM_PCT as i64
    } else {
        current_pct as i64
    };
    let d: i64 = delta_pct as i64;
    let (_, pct_rem) = div_rem_trunc(pct, g);
    let next: i64 = if d > 0 {
        if pct_rem == 0 {
            pct + d
        } else {
            let (q, _) = div_rem_trunc(pct + g - 1, g);
            q * g
        }
    } else if d < 0 {
        if pct_rem == 0 {
            pct + d
        } else {
            let (q, _) = div_rem_trunc(pct, g);
            q * g
        }
    } else {
        pct
    };
    let (_, next_rem) = div_rem_trunc(next, g);
    let snapped: i64 = if next_rem == 0 {
        next
    } else if d >= 0 {
        let (q, _) = div_rem_trunc(next + g - 1, g);
        q * g
    } else {
        let (q, _) = div_rem_trunc(next, g);
        q * g
    };
    let r: i64 = if snapped < MIN_ZOOM_PCT as i64 {
        MIN_ZOOM_PCT as i64
    } else if snapped > MAX_ZOOM_PCT as i64 {
        MAX_ZOOM_PCT as i64
    } else {
        snapped
    };
    r as i32
}

/// The node exists and is a plugin (instrument or effect) that has not
/// failed to load, so it has an editor to open.
pub open spec fn has_plugin_editor(graph: AudioGraph, node_id: NodeId) -> bool {
    &&& graph.has_node(node_id)
    &&& match graph.node_of(node_id).kind {
        NodeKind::PluginInstrument { failed, .. } => !failed,
        NodeKind::PluginEffect { failed, .. } => !failed,
        _ => false,
    }
}

pub fn node_has_plugin_editor(graph: &AudioGraph, node_id: NodeId) -> (r: bool)
    ensures
        r == has_plugin_editor(*graph, node_id),
{
    match graph.node(node_id) {
        None => false,
        Some(n) => match &n.kind {
            NodeKind::PluginInstrument { failed, .. } => !*failed,
            NodeKind::PluginEffect { failed, .. } => !*failed,
            _ => false,
        },
    }
}

} // verus!
