//! The particle type and the predicates that read a particle set.

use vstd::prelude::*;

verus! {

/// One grain of sand. Coordinates are screen coordinates with `y` growing
/// downward; every position a well-behaved caller supplies is a multiple of
/// the 10-unit grid cell. Once `is_static` is true the particle has settled
/// for good.
#[derive(Debug, Copy, Clone)]
pub struct PixelContent {
    pub x: i32,
    pub y: i32,
    pub is_static: bool,
}

impl PartialEq for PixelContent {
    /// Two particles are the same particle when they share a position;
    /// whether either has settled does not enter into it.
    fn eq(&self, other: &Self) -> (r: bool) {
        self.x == other.x && self.y == other.y
    }
}

impl vstd::std_specs::cmp::PartialEqSpecImpl for PixelContent {
    open spec fn obeys_eq_spec() -> bool {
        true
    }

    open spec fn eq_spec(&self, other: &PixelContent) -> bool {
        self.x == other.x && self.y == other.y
    }
}

/// Some settled particle of `s` occupies the cell at `(x, y)`.
pub open spec fn occupied_static(s: Seq<PixelContent>, x: int, y: int) -> bool {
    exists|j: int| 0 <= j < s.len() && s[j].is_static && s[j].x == x && s[j].y == y
}

/// The coordinate arithmetic of one settling step stays inside `i32`.
pub open spec fn wf_pixel(p: PixelContent) -> bool {
    &&& p.x - 10 >= i32::MIN as int
    &&& p.x + 10 <= i32::MAX as int
    &&& p.y + 30 <= i32::MAX as int
}

pub open spec fn wf_pixels(s: Seq<PixelContent>) -> bool {
    forall|i: int| 0 <= i < s.len() ==> wf_pixel(#[trigger] s[i])
}

impl PixelContent {
    /// The settled copy of a particle: same cell, `is_static` raised.
    pub open spec fn settled(self) -> PixelContent {
        PixelContent { x: self.x, y: self.y, is_static: true }
    }

    pub fn new(x: i32, y: i32) -> (r: Self)
        ensures
            r == (PixelContent { x, y, is_static: false }),
    {
        PixelContent { x, y, is_static: false }
    }

    pub fn as_static(&self) -> (r: Self)
        ensures
            r == self.settled(),
    {
        PixelContent { x: self.x, y: self.y, is_static: true }
    }

    /// Whether some settled particle sits directly left of `self`, and
    /// whether one sits directly right of it.
    pub fn has_side_neighbors(&self, pixels: &Vec<PixelContent>) -> (r: (bool, bool))
        requires
            wf_pixel(*self),
        ensures
            r.0 == occupied_static(pixels@, self.x - 10, self.y as int),
            r.1 == occupied_static(pixels@, self.x + 10, self.y as int),
    {
        let has_left = find_static_at(pixels, self.x - 10, self.y);
        let has_right = find_static_at(pixels, self.x + 10, self.y);
        (has_left, has_right)
    }
}

/// Linear scan for a settled particle in the cell at `(x, y)`.
pub fn find_static_at(pixels: &Vec<PixelContent>, x: i32, y: i32) -> (r: bool)
    ensures
        r == occupied_static(pixels@, x as int, y as int),
{
    let mut j: usize = 0;
    while j < pixels.len()
        invariant
            j <= pixels@.len(),
            forall|k: int|
                0 <= k < j ==> !(#[trigger] pixels@[k].is_static && pixels@[k].x == x
                    && pixels@[k].y == y),
        decreases pixels@.len() - j,
    {
        let p = pixels[j];
        if p.is_static && p.x == x && p.y == y {
            assert(occupied_static(pixels@, x as int, y as int)) by {
                assert(pixels@[j as int].is_static && pixels@[j as int].x == x
                    && pixels@[j as int].y == y);
            }
            return true;
        }
        j += 1;
    }
    false
}

} // verus!
