//! The space that floated boxes take from the lines beside them.
//!
//! A `FloatCursor` is a plain value. It keeps, for each side, one exclusion:
//! the region above a lower end and outside an inner edge. Inserting a float
//! can only widen and lengthen the exclusion of its side.

use vstd::prelude::*;
use crate::geometry::{px_max, px_min, px_sub, Pixels, Rect};

verus! {

/// The exclusions of the floats placed so far in one formatting context.
#[derive(Clone, Copy, Debug, PartialEq, Eq)]
pub struct FloatCursor {
    /// How far the floats on the left reach to the right.
    pub left_inline_end: Pixels,
    /// How far the floats on the left reach down.
    pub left_block_end: Pixels,
    /// How far the floats on the right reach to the left.
    pub right_inline_start: Pixels,
    /// How far the floats on the right reach down.
    pub right_block_end: Pixels,
}

impl FloatCursor {
    pub open spec fn empty_spec() -> FloatCursor {
        FloatCursor {
            left_inline_end: i64::MIN,
            left_block_end: i64::MIN,
            right_inline_start: i64::MAX,
            right_block_end: i64::MIN,
        }
    }

    /// The cursor of a formatting context that holds no float.
    #[verifier::when_used_as_spec(empty_spec)]
    pub fn empty() -> (c: FloatCursor)
        ensures
            c == Self::empty_spec(),
    {
        FloatCursor {
            left_inline_end: i64::MIN,
            left_block_end: i64::MIN,
            right_inline_start: i64::MAX,
            right_block_end: i64::MIN,
        }
    }

    /// Whether the exclusion on the left accounts for the box `float_box`.
    pub open spec fn excludes_left(&self, float_box: &Rect) -> bool {
        float_box.right() <= self.left_inline_end && float_box.bottom() <= self.left_block_end
    }

    /// Whether the exclusion on the right accounts for the box `float_box`.
    pub open spec fn excludes_right(&self, float_box: &Rect) -> bool {
        self.right_inline_start <= float_box.x && float_box.bottom() <= self.right_block_end
    }

    /// Whether every exclusion of `self` is kept by `later`.
    pub open spec fn grows_to(&self, later: &FloatCursor) -> bool {
        &&& self.left_inline_end <= later.left_inline_end
        &&& self.left_block_end <= later.left_block_end
        &&& later.right_inline_start <= self.right_inline_start
        &&& self.right_block_end <= later.right_block_end
    }

    pub open spec fn insert_left_spec(&self, margin_box: &Rect) -> FloatCursor {
        FloatCursor {
            left_inline_end: px_max(self.left_inline_end, margin_box.right()),
            left_block_end: px_max(self.left_block_end, margin_box.bottom()),
            right_inline_start: self.right_inline_start,
            right_block_end: self.right_block_end,
        }
    }

    /// The cursor after a float with the given margin box was placed on the
    /// left. The exclusions only grow.
    #[verifier::when_used_as_spec(insert_left_spec)]
    pub fn insert_left(&self, margin_box: &Rect) -> (c: FloatCursor)
        ensures
            c == self.insert_left_spec(margin_box),
            c.excludes_left(margin_box),
            self.grows_to(&c),
    {
        FloatCursor {
            left_inline_end: px_max(self.left_inline_end, margin_box.right()),
            left_block_end: px_max(self.left_block_end, margin_box.bottom()),
            right_inline_start: self.right_inline_start,
            right_block_end: self.right_block_end,
        }
    }

    pub open spec fn insert_right_spec(&self, margin_box: &Rect) -> FloatCursor {
        FloatCursor {
            left_inline_end: self.left_inline_end,
            left_block_end: self.left_block_end,
            right_inline_start: px_min(self.right_inline_start, margin_box.x),
            right_block_end: px_max(self.right_block_end, margin_box.bottom()),
        }
    }

    /// The cursor after a float with the given margin box was placed on the
    /// right. The exclusions only grow.
    #[verifier::when_used_as_spec(insert_right_spec)]
    pub fn insert_right(&self, margin_box: &Rect) -> (c: FloatCursor)
        ensures
            c == self.insert_right_spec(margin_box),
            c.excludes_right(margin_box),
            self.grows_to(&c),
    {
        FloatCursor {
            left_inline_end: self.left_inline_end,
            left_block_end: self.left_block_end,
            right_inline_start: px_min(self.right_inline_start, margin_box.x),
            right_block_end: px_max(self.right_block_end, margin_box.bottom()),
        }
    }

    pub open spec fn inline_space_spec(
        &self,
        left_bound: Pixels,
        right_bound: Pixels,
        y: Pixels,
    ) -> (Pixels, Pixels) {
        (
            if y < self.left_block_end {
                px_max(left_bound, self.left_inline_end)
            } else {
                left_bound
            },
            if y < self.right_block_end {
                px_min(right_bound, self.right_inline_start)
            } else {
                right_bound
            },
        )
    }

    /// The band between `left_bound` and `right_bound` that the floats leave
    /// free at height `y`: its start and its end.
    #[verifier::when_used_as_spec(inline_space_spec)]
    pub fn inline_space(&self, left_bound: Pixels, right_bound: Pixels, y: Pixels) -> (band: (
        Pixels,
        Pixels,
    ))
        ensures
            band == self.inline_space_spec(left_bound, right_bound, y),
    {
        let start = if y < self.left_block_end {
            px_max(left_bound, self.left_inline_end)
        } else {
            left_bound
        };
        let end = if y < self.right_block_end {
            px_min(right_bound, self.right_inline_start)
        } else {
            right_bound
        };
        (start, end)
    }

    pub open spec fn left_clearance_spec(&self) -> Pixels {
        self.left_block_end
    }

    /// The least height at and below which no float on the left takes space.
    #[verifier::when_used_as_spec(left_clearance_spec)]
    pub fn left_clearance(&self) -> (y: Pixels)
        ensures
            y == self.left_clearance_spec(),
            forall|l: Pixels, r: Pixels, at: Pixels|
                at >= y ==> (#[trigger] self.inline_space(l, r, at)).0 == l,
    {
        self.left_block_end
    }

    pub open spec fn right_clearance_spec(&self) -> Pixels {
        self.right_block_end
    }

    /// The least height at and below which no float on the right takes space.
    #[verifier::when_used_as_spec(right_clearance_spec)]
    pub fn right_clearance(&self) -> (y: Pixels)
        ensures
            y == self.right_clearance_spec(),
            forall|l: Pixels, r: Pixels, at: Pixels|
                at >= y ==> (#[trigger] self.inline_space(l, r, at)).1 == r,
    {
        self.right_block_end
    }

    /// Whether a box of the given outer width has room in `available` at
    /// height `y`.
    pub open spec fn fits(&self, available: &Rect, outer_width: Pixels, y: Pixels) -> bool {
        let band = self.inline_space(available.x, available.right(), y);
        px_sub(band.1, band.0) >= outer_width
    }

    /// Whether no exclusion is active at height `y`.
    pub open spec fn is_clear_at(&self, y: Pixels) -> bool {
        y >= self.left_block_end && y >= self.right_block_end
    }

    /// The height at which a box of the given outer width is placed: the first
    /// one, from the top of `available` down, at which the box has room or no
    /// exclusion is active any more.
    pub open spec fn place_block(&self, available: &Rect, outer_width: Pixels) -> Pixels {
        let first = available.y;
        let second = px_max(first, px_min(self.left_block_end, self.right_block_end));
        let third = px_max(first, px_max(self.left_block_end, self.right_block_end));
        if self.fits(available, outer_width, first) {
            first
        } else if self.fits(available, outer_width, second) {
            second
        } else {
            third
        }
    }

    fn has_room(&self, available: &Rect, outer_width: Pixels, y: Pixels) -> (b: bool)
        ensures
            b == self.fits(available, outer_width, y),
    {
        let band = self.inline_space(available.x, available.right(), y);
        px_sub(band.1, band.0) >= outer_width
    }

    fn find_block(&self, available: &Rect, outer_width: Pixels) -> (y: Pixels)
        ensures
            y == self.place_block(available, outer_width),
            y >= available.y,
            self.fits(available, outer_width, y) || self.is_clear_at(y),
            forall|above: Pixels|
                available.y <= above < y ==> !#[trigger] self.fits(available, outer_width, above)
                    && !self.is_clear_at(above),
    {
        let first = available.y;
        let second = px_max(first, px_min(self.left_block_end, self.right_block_end));
        let third = px_max(first, px_max(self.left_block_end, self.right_block_end));
        if self.has_room(available, outer_width, first) {
            first
        } else if self.has_room(available, outer_width, second) {
            proof {
                assert forall|above: Pixels| available.y <= above < second implies !(
                #[trigger] self.fits(available, outer_width, above)) && !self.is_clear_at(
                    above,
                ) by {
                    assert(self.inline_space(available.x, available.right(), above)
                        == self.inline_space(available.x, available.right(), first));
                }
            }
            second
        } else {
            proof {
                assert forall|above: Pixels| available.y <= above < third implies !(
                #[trigger] self.fits(available, outer_width, above)) && !self.is_clear_at(
                    above,
                ) by {
                    if above < second {
                        assert(self.inline_space(available.x, available.right(), above)
                            == self.inline_space(available.x, available.right(), first));
                    } else {
                        assert(self.inline_space(available.x, available.right(), above)
                            == self.inline_space(available.x, available.right(), second));
                    }
                }
            }
            third
        }
    }

    pub open spec fn place_left_spec(&self, available: &Rect, outer_width: Pixels) -> (
        Pixels,
        Pixels,
    ) {
        let y = self.place_block(available, outer_width);
        (self.inline_space(available.x, available.right(), y).0, y)
    }

    /// Where the margin box of a new float on the left goes: its inline and
    /// its block coordinate. The float slides down from the top of `available`
    /// to the first height at which it has room, or at which no exclusion is
    /// active, and lies against the start of the band that is free there.
    #[verifier::when_used_as_spec(place_left_spec)]
    pub fn place_left(&self, available: &Rect, outer_width: Pixels) -> (origin: (Pixels, Pixels))
        ensures
            origin == self.place_left_spec(available, outer_width),
            origin.1 >= available.y,
            self.fits(available, outer_width, origin.1) || self.is_clear_at(origin.1),
            forall|above: Pixels|
                available.y <= above < origin.1 ==> !#[trigger] self.fits(
                    available,
                    outer_width,
                    above,
                ) && !self.is_clear_at(above),
            origin.0 == self.inline_space(available.x, available.right(), origin.1).0,
    {
        let y = self.find_block(available, outer_width);
        let band = self.inline_space(available.x, available.right(), y);
        (band.0, y)
    }

    pub open spec fn place_right_spec(&self, available: &Rect, outer_width: Pixels) -> (
        Pixels,
        Pixels,
    ) {
        let y = self.place_block(available, outer_width);
        (px_sub(self.inline_space(available.x, available.right(), y).1, outer_width), y)
    }

    /// Where the margin box of a new float on the right goes: its inline and
    /// its block coordinate. The float slides down as one on the left does,
    /// and lies against the end of the band that is free there.
    #[verifier::when_used_as_spec(place_right_spec)]
    pub fn place_right(&self, available: &Rect, outer_width: Pixels) -> (origin: (Pixels, Pixels))
        ensures
            origin == self.place_right_spec(available, outer_width),
            origin.1 >= available.y,
            self.fits(available, outer_width, origin.1) || self.is_clear_at(origin.1),
            forall|above: Pixels|
                available.y <= above < origin.1 ==> !#[trigger] self.fits(
                    available,
                    outer_width,
                    above,
                ) && !self.is_clear_at(above),
            origin.0 == px_sub(
                self.inline_space(available.x, available.right(), origin.1).1,
                outer_width,
            ),
    {
        let y = self.find_block(available, outer_width);
        let band = self.inline_space(available.x, available.right(), y);
        (px_sub(band.1, outer_width), y)
    }
}

/// A float placed on the left never overlaps a float that the cursor's left
/// exclusion accounts for, whatever its height.
pub proof fn lemma_left_floats_apart(
    cursor: FloatCursor,
    earlier: Rect,
    available: Rect,
    outer_width: Pixels,
    height: Pixels,
)
    requires
        cursor.excludes_left(&earlier),
    ensures
        ({
            let origin = cursor.place_left(&available, outer_width);
            !earlier.overlaps(
                &Rect { x: origin.0, y: origin.1, width: outer_width, height: height },
            )
        }),
{
}

/// A float placed on the right never overlaps a float that the cursor's right
/// exclusion accounts for, whatever its height, as long as the inline
/// coordinate at which it belongs is a representable length.
pub proof fn lemma_right_floats_apart(
    cursor: FloatCursor,
    earlier: Rect,
    available: Rect,
    outer_width: Pixels,
    height: Pixels,
)
    requires
        cursor.excludes_right(&earlier),
        cursor.inline_space(
            available.x,
            available.right(),
            cursor.place_block(&available, outer_width),
        ).1 - outer_width >= i64::MIN,
    ensures
        ({
            let origin = cursor.place_right(&available, outer_width);
            !earlier.overlaps(
                &Rect { x: origin.0, y: origin.1, width: outer_width, height: height },
            )
        }),
{
}

/// Inserting a float keeps every float that the cursor accounted for.
pub proof fn lemma_insert_keeps_floats(cursor: FloatCursor, earlier: Rect, margin_box: Rect)
    ensures
        cursor.excludes_left(&earlier) ==> cursor.insert_left(&margin_box).excludes_left(&earlier)
            && cursor.insert_right(&margin_box).excludes_left(&earlier),
        cursor.excludes_right(&earlier) ==> cursor.insert_left(&margin_box).excludes_right(
            &earlier,
        ) && cursor.insert_right(&margin_box).excludes_right(&earlier),
{
}

} // verus!
