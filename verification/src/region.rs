//! One named rectangular crop within a page.

use vstd::prelude::*;

verus! {

/// A region: one named rectangular crop. Regions sharing a name across
/// pages and positions form an animation sequence in encounter order.
#[derive(Debug)]
pub struct Region {
    /// Identifier, not necessarily unique across the whole atlas.
    pub name: String,
    /// Optional ordinal kept as inert metadata; a negative ordinal in the
    /// source text means absence.
    pub index: Option<usize>,
    /// The crop rectangle (x, y, width, height) within the page, in pixels.
    pub bounds: (usize, usize, usize, usize),
    /// (pad_left, pad_bottom, original_width, original_height): how much
    /// padding was trimmed and what the un-trimmed size was.
    pub offsets: (usize, usize, usize, usize),
    /// Rotation in degrees; the spellings `false` and `true` mean 0 and 90.
    pub rotate: usize,
    /// Optional nine-patch split metadata, kept but never used in frame
    /// derivation.
    pub split: Option<(usize, usize, usize, usize)>,
    /// Optional nine-patch padding metadata, kept but never used in frame
    /// derivation.
    pub pad: Option<(isize, isize, isize, isize)>,
}

/// The mathematical value of a [`Region`].
#[verifier::ext_equal]
pub ghost struct RegionV {
    pub name: Seq<char>,
    pub index: Option<usize>,
    pub bounds: (usize, usize, usize, usize),
    pub offsets: (usize, usize, usize, usize),
    pub rotate: usize,
    pub split: Option<(usize, usize, usize, usize)>,
    pub pad: Option<(isize, isize, isize, isize)>,
}

impl View for Region {
    type V = RegionV;

    open spec fn view(&self) -> RegionV {
        RegionV {
            name: self.name@,
            index: self.index,
            bounds: self.bounds,
            offsets: self.offsets,
            rotate: self.rotate,
            split: self.split,
            pad: self.pad,
        }
    }
}

/// A fresh region carrying only its name; every other field at its default.
pub open spec fn new_region_spec(name: Seq<char>) -> RegionV {
    RegionV {
        name: name,
        index: None,
        bounds: (0usize, 0usize, 0usize, 0usize),
        offsets: (0usize, 0usize, 0usize, 0usize),
        rotate: 0usize,
        split: None,
        pad: None,
    }
}

/// Finalisation: when `offsets` was never explicitly set — it is still all
/// zero after the region's attribute lines — it becomes
/// `(0, 0, bounds.width, bounds.height)`: the original size is assumed
/// equal to the cropped size.
pub open spec fn finalise_spec(r: RegionV) -> RegionV {
    if r.offsets == (0usize, 0usize, 0usize, 0usize) {
        RegionV { offsets: (0usize, 0usize, r.bounds.2, r.bounds.3), ..r }
    } else {
        r
    }
}

impl Default for Region {
    fn default() -> (r: Region)
        ensures
            r@ == new_region_spec(Seq::<char>::empty()),
    {
        Region {
            name: String::new(),
            index: None,
            bounds: (0, 0, 0, 0),
            offsets: (0, 0, 0, 0),
            rotate: 0,
            split: None,
            pad: None,
        }
    }
}

impl Region {
    pub fn new(name: &str) -> (r: Region)
        ensures
            r@ == new_region_spec(name@),
    {
        let mut r = Region::default();
        r.name = String::from_str(name);
        r
    }

    /// Applies the finalisation invariant; called exactly once, when the
    /// region is appended to its owning page.
    pub fn finalise(self) -> (r: Region)
        ensures
            r@ == finalise_spec(self@),
    {
        if self.offsets.0 == 0 && self.offsets.1 == 0 && self.offsets.2 == 0 && self.offsets.3
            == 0 {
            let mut r = self;
            r.offsets = (0, 0, r.bounds.2, r.bounds.3);
            r
        } else {
            self
        }
    }
}

} // verus!
