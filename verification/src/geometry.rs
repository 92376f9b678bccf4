//! Lengths, rectangles and edges.
//!
//! Every length is a whole number of pixels. Sums and differences saturate at
//! the ends of the representable range, so that no computation on lengths can
//! overflow.

use vstd::prelude::*;

verus! {

/// A length or a coordinate, in pixels.
pub type Pixels = i64;

/// The representable length that is nearest to `v`.
pub open spec fn saturate(v: int) -> Pixels {
    if v < i64::MIN {
        i64::MIN
    } else if v > i64::MAX {
        i64::MAX
    } else {
        v as i64
    }
}

pub open spec fn px_add_spec(a: Pixels, b: Pixels) -> Pixels {
    saturate(a + b)
}

pub open spec fn px_sub_spec(a: Pixels, b: Pixels) -> Pixels {
    saturate(a - b)
}

pub open spec fn px_max_spec(a: Pixels, b: Pixels) -> Pixels {
    if a >= b {
        a
    } else {
        b
    }
}

pub open spec fn px_min_spec(a: Pixels, b: Pixels) -> Pixels {
    if a <= b {
        a
    } else {
        b
    }
}

/// Half of `a`, rounded towards zero.
pub open spec fn px_half_spec(a: Pixels) -> Pixels {
    if a >= 0 {
        (a / 2) as i64
    } else {
        (-((-a) / 2)) as i64
    }
}

/// The saturating sum of two lengths.
#[verifier::when_used_as_spec(px_add_spec)]
pub fn px_add(a: Pixels, b: Pixels) -> (r: Pixels)
    ensures
        r == px_add_spec(a, b),
{
    if b >= 0 {
        if a > i64::MAX - b {
            i64::MAX
        } else {
            a + b
        }
    } else {
        if a < i64::MIN - b {
            i64::MIN
        } else {
            a + b
        }
    }
}

/// The saturating difference of two lengths.
#[verifier::when_used_as_spec(px_sub_spec)]
pub fn px_sub(a: Pixels, b: Pixels) -> (r: Pixels)
    ensures
        r == px_sub_spec(a, b),
{
    if b >= 0 {
        if a < i64::MIN + b {
            i64::MIN
        } else {
            a - b
        }
    } else {
        if a > i64::MAX + b {
            i64::MAX
        } else {
            a - b
        }
    }
}

/// The greater of two lengths.
#[verifier::when_used_as_spec(px_max_spec)]
pub fn px_max(a: Pixels, b: Pixels) -> (r: Pixels)
    ensures
        r == px_max_spec(a, b),
{
    if a >= b {
        a
    } else {
        b
    }
}

/// The smaller of two lengths.
#[verifier::when_used_as_spec(px_min_spec)]
pub fn px_min(a: Pixels, b: Pixels) -> (r: Pixels)
    ensures
        r == px_min_spec(a, b),
{
    if a <= b {
        a
    } else {
        b
    }
}

/// Half of a length, rounded towards zero.
#[verifier::when_used_as_spec(px_half_spec)]
pub fn px_half(a: Pixels) -> (r: Pixels)
    ensures
        r == px_half_spec(a),
{
    a / 2
}

/// Four values, one for each side of a box.
#[derive(Clone, Copy, Debug, PartialEq, Eq)]
pub struct Edge<T> {
    pub top: T,
    pub right: T,
    pub bottom: T,
    pub left: T,
}

impl Edge<Pixels> {
    /// Edges of no thickness.
    pub open spec fn zero_spec() -> Edge<Pixels> {
        Edge { top: 0, right: 0, bottom: 0, left: 0 }
    }

    /// Edges of no thickness.
    #[verifier::when_used_as_spec(zero_spec)]
    pub fn zero() -> (e: Edge<Pixels>)
        ensures
            e == Self::zero_spec(),
    {
        Edge { top: 0, right: 0, bottom: 0, left: 0 }
    }
}

/// An axis-aligned rectangle: its upper left corner and its size.
#[derive(Clone, Copy, Debug, PartialEq, Eq)]
pub struct Rect {
    pub x: Pixels,
    pub y: Pixels,
    pub width: Pixels,
    pub height: Pixels,
}

/// The ring between an outer rectangle and the rectangle that is left when
/// the border is taken off on each side.
#[derive(Clone, Copy, Debug, PartialEq, Eq)]
pub struct Frame {
    pub outer: Rect,
    pub inner: Rect,
}

impl Rect {
    pub open spec fn zero_spec() -> Rect {
        Rect { x: 0, y: 0, width: 0, height: 0 }
    }

    /// The empty rectangle at the origin.
    #[verifier::when_used_as_spec(zero_spec)]
    pub fn zero() -> (r: Rect)
        ensures
            r == Self::zero_spec(),
    {
        Rect { x: 0, y: 0, width: 0, height: 0 }
    }

    pub open spec fn right_spec(&self) -> Pixels {
        px_add(self.x, self.width)
    }

    /// The coordinate of the right side.
    #[verifier::when_used_as_spec(right_spec)]
    pub fn right(&self) -> (r: Pixels)
        ensures
            r == self.right_spec(),
    {
        px_add(self.x, self.width)
    }

    pub open spec fn bottom_spec(&self) -> Pixels {
        px_add(self.y, self.height)
    }

    /// The coordinate of the lower side.
    #[verifier::when_used_as_spec(bottom_spec)]
    pub fn bottom(&self) -> (r: Pixels)
        ensures
            r == self.bottom_spec(),
    {
        px_add(self.y, self.height)
    }

    pub open spec fn extend_by_spec(&self, edge: &Edge<Pixels>) -> Rect {
        Rect {
            x: px_sub(self.x, edge.left),
            y: px_sub(self.y, edge.top),
            width: px_add(px_add(self.width, edge.left), edge.right),
            height: px_add(px_add(self.height, edge.top), edge.bottom),
        }
    }

    /// The rectangle grown by the given thickness on each side.
    #[verifier::when_used_as_spec(extend_by_spec)]
    pub fn extend_by(&self, edge: &Edge<Pixels>) -> (r: Rect)
        ensures
            r == self.extend_by_spec(edge),
    {
        Rect {
            x: px_sub(self.x, edge.left),
            y: px_sub(self.y, edge.top),
            width: px_add(px_add(self.width, edge.left), edge.right),
            height: px_add(px_add(self.height, edge.top), edge.bottom),
        }
    }

    pub open spec fn shrink_by_spec(&self, edge: &Edge<Pixels>) -> Rect {
        Rect {
            x: px_add(self.x, edge.left),
            y: px_add(self.y, edge.top),
            width: px_sub(px_sub(self.width, edge.left), edge.right),
            height: px_sub(px_sub(self.height, edge.top), edge.bottom),
        }
    }

    /// The rectangle with the given thickness taken off on each side.
    #[verifier::when_used_as_spec(shrink_by_spec)]
    pub fn shrink_by(&self, edge: &Edge<Pixels>) -> (r: Rect)
        ensures
            r == self.shrink_by_spec(edge),
    {
        Rect {
            x: px_add(self.x, edge.left),
            y: px_add(self.y, edge.top),
            width: px_sub(px_sub(self.width, edge.left), edge.right),
            height: px_sub(px_sub(self.height, edge.top), edge.bottom),
        }
    }

    pub open spec fn frame_by_spec(&self, edge: &Edge<Pixels>) -> Frame {
        Frame { outer: *self, inner: self.shrink_by(edge) }
    }

    /// The frame of the given thickness that lies along the inside of this
    /// rectangle.
    #[verifier::when_used_as_spec(frame_by_spec)]
    pub fn frame_by(&self, edge: &Edge<Pixels>) -> (f: Frame)
        ensures
            f == self.frame_by_spec(edge),
    {
        Frame { outer: *self, inner: self.shrink_by(edge) }
    }

    /// Whether two rectangles share a point: both have an interior and their
    /// extents meet on both axes.
    pub open spec fn overlaps(&self, other: &Rect) -> bool {
        &&& px_max(self.x, other.x) < px_min(self.right(), other.right())
        &&& px_max(self.y, other.y) < px_min(self.bottom(), other.bottom())
    }
}

/// A colour with an alpha channel.
#[derive(Clone, Copy, Debug, PartialEq, Eq)]
pub struct Color {
    pub r: u8,
    pub g: u8,
    pub b: u8,
    pub a: u8,
}

impl Color {
    pub open spec fn transparent_spec() -> Color {
        Color { r: 0, g: 0, b: 0, a: 0 }
    }

    /// The colour that paints nothing.
    #[verifier::when_used_as_spec(transparent_spec)]
    pub fn transparent() -> (c: Color)
        ensures
            c == Self::transparent_spec(),
    {
        Color { r: 0, g: 0, b: 0, a: 0 }
    }
}

} // verus!
