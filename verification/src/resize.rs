//! Which edge of the face the pointer resizes the window from.
//!
//! Windows asks the window what lies under the pointer; a point close to one
//! of the face's edges answers with that edge, so that dragging it resizes
//! the window natively.

use vstd::prelude::*;

verus! {

/// An edge of the face that resizes the window when dragged.
#[derive(Clone, Copy, Debug, PartialEq, Eq, Structural)]
pub enum ResizeEdge {
    Left,
    Right,
    Top,
    Bottom,
}

/// The face's bounds and resize band, in physical pixels of the window's
/// client area, as the hit test sees them.
#[derive(Clone, Copy, Debug, PartialEq, Eq, Structural)]
pub struct HitState {
    pub left: i32,
    pub top: i32,
    pub right: i32,
    pub bottom: i32,
    /// How close to an edge the pointer has to be to resize from it.
    pub edge: i32,
    /// Whether the edges resize at all; a closed eye offers none.
    pub enabled: bool,
}

pub open spec fn abs(v: int) -> int {
    if v < 0 {
        -v
    } else {
        v
    }
}

pub open spec fn min(a: int, b: int) -> int {
    if a <= b {
        a
    } else {
        b
    }
}

/// Whether the distances the hit test works out all fit in an `i32`.
pub open spec fn distances_fit(s: HitState, x: int, y: int) -> bool {
    &&& -0x7fff_ffff <= x - s.left <= 0x7fff_ffff
    &&& -0x7fff_ffff <= x - s.right <= 0x7fff_ffff
    &&& -0x7fff_ffff <= y - s.top <= 0x7fff_ffff
    &&& -0x7fff_ffff <= y - s.bottom <= 0x7fff_ffff
}

/// The edge the point `(x, y)` resizes from: the nearer of the left and right
/// edges when it is within the band of one and no farther from them than from
/// the top and bottom, else the nearer of the top and bottom edges when it is
/// within the band of one, else none.
pub open spec fn hit_edge(s: HitState, x: int, y: int) -> Option<ResizeEdge> {
    let left = abs(x - s.left);
    let right = abs(x - s.right);
    let top = abs(y - s.top);
    let bottom = abs(y - s.bottom);
    let horizontal = min(left, right);
    let vertical = min(top, bottom);
    if !s.enabled {
        None
    } else if horizontal < s.edge && horizontal <= vertical {
        Some(
            if left <= right {
                ResizeEdge::Left
            } else {
                ResizeEdge::Right
            },
        )
    } else if vertical < s.edge {
        Some(
            if top <= bottom {
                ResizeEdge::Top
            } else {
                ResizeEdge::Bottom
            },
        )
    } else {
        None
    }
}

fn abs_diff(a: i32, b: i32) -> (d: i32)
    requires
        -0x7fff_ffff <= a - b <= 0x7fff_ffff,
    ensures
        d == abs(a - b),
{
    let v = a - b;
    if v < 0 {
        -v
    } else {
        v
    }
}

impl HitState {
    /// No bounds yet, a one-pixel band, and resizing switched off.
    pub fn new() -> (state: Self)
        ensures
            state == (HitState { left: 0, top: 0, right: 0, bottom: 0, edge: 1, enabled: false }),
    {
        HitState { left: 0, top: 0, right: 0, bottom: 0, edge: 1, enabled: false }
    }

    /// The edge the point `(x, y)` resizes the window from, if any.
    pub fn direction_at(&self, x: i32, y: i32) -> (edge: Option<ResizeEdge>)
        requires
            self.enabled ==> distances_fit(*self, x as int, y as int),
        ensures
            edge == hit_edge(*self, x as int, y as int),
    {
        if !self.enabled {
            return None;
        }
        let left = abs_diff(x, self.left);
        let right = abs_diff(x, self.right);
        let top = abs_diff(y, self.top);
        let bottom = abs_diff(y, self.bottom);
        let horizontal = if left <= right {
            left
        } else {
            right
        };
        let vertical = if top <= bottom {
            top
        } else {
            bottom
        };
        if horizontal < self.edge && horizontal <= vertical {
            Some(
                if left <= right {
                    ResizeEdge::Left
                } else {
                    ResizeEdge::Right
                },
            )
        } else if vertical < self.edge {
            Some(
                if top <= bottom {
                    ResizeEdge::Top
                } else {
                    ResizeEdge::Bottom
                },
            )
        } else {
            None
        }
    }
}

/// A point resizes from an edge whenever it lies within that edge's band and
/// no nearer to any other edge that could claim it: the left or right edge
/// when it is no farther from it than from the top and bottom, and the top or
/// bottom edge, wherever the point is along it, when neither side edge is
/// within the band and nearer.
pub proof fn lemma_band_points_resize(s: HitState, x: int, y: int)
    requires
        s.enabled,
    ensures
        ({
            let dl = abs(x - s.left);
            let dr = abs(x - s.right);
            let dt = abs(y - s.top);
            let db = abs(y - s.bottom);
            let side_claims = |d: int| (dl < s.edge && dl <= d) || (dr < s.edge && dr <= d);
            &&& dl < s.edge && dl <= dr && dl <= dt && dl <= db ==> hit_edge(s, x, y) == Some(
                ResizeEdge::Left,
            )
            &&& dr < s.edge && dr < dl && dr <= dt && dr <= db ==> hit_edge(s, x, y) == Some(
                ResizeEdge::Right,
            )
            &&& dt < s.edge && dt <= db && !side_claims(dt) ==> hit_edge(s, x, y) == Some(
                ResizeEdge::Top,
            )
            &&& db < s.edge && db < dt && !side_claims(db) ==> hit_edge(s, x, y) == Some(
                ResizeEdge::Bottom,
            )
            &&& dl >= s.edge && dr >= s.edge && dt >= s.edge && db >= s.edge ==> hit_edge(
                s,
                x,
                y,
            ) is None
        }),
{
}

/// A point resizes from an edge only when it lies within the band of that
/// edge, and never while resizing is switched off.
pub proof fn lemma_edges_only_within_band(s: HitState, x: int, y: int)
    ensures
        hit_edge(s, x, y) == Some(ResizeEdge::Left) ==> s.enabled && abs(x - s.left) < s.edge,
        hit_edge(s, x, y) == Some(ResizeEdge::Right) ==> s.enabled && abs(x - s.right) < s.edge,
        hit_edge(s, x, y) == Some(ResizeEdge::Top) ==> s.enabled && abs(y - s.top) < s.edge,
        hit_edge(s, x, y) == Some(ResizeEdge::Bottom) ==> s.enabled && abs(y - s.bottom)
            < s.edge,
        !s.enabled ==> hit_edge(s, x, y) is None,
{
}

} // verus!
