//! Frame derivation and lookup.
//!
//! From the parsed pages, every distinct region name receives a dense
//! zero-based id in first-encounter order, and every occurrence of that
//! name becomes one animation frame, in the same order. Texture
//! coordinates are kept as exact fractions — numerator over the page
//! dimension — so the derivation is free of rounding; a renderer divides
//! them out at the edge.

use crate::error::AtlasError;
use crate::page::Page;
use crate::page::PageV;
use crate::page::pages_view;
use crate::region::RegionV;
use crate::text::strs_view;
use vstd::prelude::*;

verus! {

/// An exact non-negative rational: `num / den`.
#[derive(Clone, Copy, Debug, PartialEq, Eq, Structural)]
pub struct Fraction {
    pub num: u128,
    pub den: u128,
}

/// Rational equality by cross-multiplication; both denominators must be
/// non-zero.
pub open spec fn frac_eq(a: Fraction, b: Fraction) -> bool {
    a.den != 0 && b.den != 0 && a.num * b.den == b.num * a.den
}

/// The un-rotated crop size of a frame, in pixels.
#[derive(Clone, Copy, Debug, PartialEq, Eq, Structural)]
pub struct Dimensions {
    pub width: usize,
    pub height: usize,
}

/// Signed pixel padding relative to the original, un-cropped size. The
/// right and top entries are original size minus cropped size, so they can
/// be negative.
#[derive(Clone, Copy, Debug, PartialEq, Eq, Structural)]
pub struct Padding {
    pub left: i128,
    pub top: i128,
    pub right: i128,
    pub bottom: i128,
}

/// An axis-aligned texture-space rectangle: corners `(u1, v1)` to
/// `(u2, v2)`, each coordinate a fraction of the page dimension.
#[derive(Clone, Copy, Debug, PartialEq, Eq, Structural)]
pub struct UvRect {
    pub u1: Fraction,
    pub v1: Fraction,
    pub u2: Fraction,
    pub v2: Fraction,
}

impl UvRect {
    /// The rectangle's corners in their fixed winding order:
    /// `(u1,v1), (u2,v1), (u2,v2), (u1,v2)`.
    pub open spec fn corner_spec(self, k: int) -> (Fraction, Fraction) {
        if k == 0 {
            (self.u1, self.v1)
        } else if k == 1 {
            (self.u2, self.v1)
        } else if k == 2 {
            (self.u2, self.v2)
        } else {
            (self.u1, self.v2)
        }
    }

    pub fn corner(&self, k: usize) -> (r: (Fraction, Fraction))
        requires
            k < 4,
        ensures
            r == self.corner_spec(k as int),
    {
        if k == 0 {
            (self.u1, self.v1)
        } else if k == 1 {
            (self.u2, self.v1)
        } else if k == 2 {
            (self.u2, self.v2)
        } else {
            (self.u1, self.v2)
        }
    }
}

/// One derived, page-relative rendering frame for a region occurrence.
#[derive(Clone, Copy, Debug, PartialEq, Eq, Structural)]
pub struct AnimationFrame {
    /// Which page this frame samples from: the caller-supplied base index
    /// plus the page's position in the input.
    pub image_id: usize,
    pub default_dimensions: Dimensions,
    pub padding: Padding,
    pub uvs: UvRect,
}

/// The frame derived for `r` on `page`, the page standing at `page_id`
/// with image ids offset by `base`.
pub open spec fn frame_spec(page: PageV, page_id: int, r: RegionV, base: int) -> AnimationFrame {
    AnimationFrame {
        image_id: (base + page_id) as usize,
        default_dimensions: Dimensions { width: r.bounds.2, height: r.bounds.3 },
        padding: Padding {
            left: r.offsets.0 as i128,
            top: (r.offsets.3 - r.bounds.3) as i128,
            right: (r.offsets.2 - r.bounds.2) as i128,
            bottom: r.offsets.1 as i128,
        },
        uvs: UvRect {
            u1: Fraction { num: r.bounds.0 as u128, den: page.size.0 as u128 },
            v1: Fraction { num: r.bounds.1 as u128, den: page.size.1 as u128 },
            u2: Fraction {
                num: (r.bounds.0 + r.bounds.2) as u128,
                den: page.size.0 as u128,
            },
            v2: Fraction {
                num: (r.bounds.1 + r.bounds.3) as u128,
                den: page.size.1 as u128,
            },
        },
    }
}

/// The derived store: names give dense ids by position, and each id owns
/// the frame sequence of its name.
#[verifier::ext_equal]
pub ghost struct AnimV {
    pub names: Seq<Seq<char>>,
    pub frames: Seq<Seq<AnimationFrame>>,
}

pub open spec fn empty_anim() -> AnimV {
    AnimV { names: Seq::empty(), frames: Seq::empty() }
}

/// The dense id of `name`: the position of its first occurrence, or -1
/// when absent.
pub open spec fn name_id(names: Seq<Seq<char>>, name: Seq<char>) -> int
    decreases names.len(),
{
    if names.len() == 0 {
        -1
    } else if names[0] == name {
        0
    } else {
        let r = name_id(names.drop_first(), name);
        if r < 0 {
            -1
        } else {
            r + 1
        }
    }
}

pub proof fn lemma_name_id_absent(names: Seq<Seq<char>>, name: Seq<char>)
    requires
        forall|m: int| 0 <= m < names.len() ==> names[m] != name,
    ensures
        name_id(names, name) == -1,
    decreases names.len(),
{
    if names.len() > 0 {
        lemma_name_id_absent(names.drop_first(), name);
    }
}

pub proof fn lemma_name_id_is_first(names: Seq<Seq<char>>, name: Seq<char>, i: int)
    requires
        0 <= i < names.len(),
        names[i] == name,
        forall|m: int| 0 <= m < i ==> names[m] != name,
    ensures
        name_id(names, name) == i,
    decreases i,
{
    if i > 0 {
        lemma_name_id_is_first(names.drop_first(), name, i - 1);
    }
}

/// Every id that `name_id` hands out is in range and names `name`.
pub proof fn lemma_name_id_range(names: Seq<Seq<char>>, name: Seq<char>)
    ensures
        name_id(names, name) >= 0 ==> 0 <= name_id(names, name) < names.len() && names[name_id(
            names,
            name,
        )] == name,
    decreases names.len(),
{
    if names.len() > 0 && names[0] != name {
        lemma_name_id_range(names.drop_first(), name);
    }
}

/// Appending one frame under `name`: a known name extends its sequence, a
/// new name receives the next dense id and a singleton sequence.
pub open spec fn anim_add(a: AnimV, name: Seq<char>, f: AnimationFrame) -> AnimV {
    let i = name_id(a.names, name);
    if i < 0 {
        AnimV { names: a.names.push(name), frames: a.frames.push(seq![f]) }
    } else {
        AnimV { names: a.names, frames: a.frames.update(i, a.frames[i].push(f)) }
    }
}

/// Folding the regions of one page, in order, into the store.
pub open spec fn build_regions(
    a: AnimV,
    page: PageV,
    page_id: int,
    base: int,
    regions: Seq<RegionV>,
) -> AnimV
    decreases regions.len(),
{
    if regions.len() == 0 {
        a
    } else {
        anim_add(
            build_regions(a, page, page_id, base, regions.drop_last()),
            regions.last().name,
            frame_spec(page, page_id, regions.last(), base),
        )
    }
}

/// Folding all pages, in order, into the store.
pub open spec fn build_pages(a: AnimV, pages: Seq<PageV>, base: int) -> AnimV
    decreases pages.len(),
{
    if pages.len() == 0 {
        a
    } else {
        build_regions(
            build_pages(a, pages.drop_last(), base),
            pages.last(),
            pages.len() - 1,
            base,
            pages.last().regions,
        )
    }
}

/// A page whose texture coordinates cannot be normalized: it has regions
/// but a zero width or height.
pub open spec fn degenerate_page(p: PageV) -> bool {
    p.regions.len() > 0 && (p.size.0 == 0 || p.size.1 == 0)
}

pub open spec fn has_degenerate_page(pages: Seq<PageV>) -> bool {
    exists|k: int| 0 <= k < pages.len() && degenerate_page(pages[k])
}

/// The whole derivation: fatal on degenerate geometry, otherwise the fold
/// of every region occurrence in file order.
pub open spec fn new_anim_spec(pages: Seq<PageV>, base: int) -> Result<AnimV, AtlasError> {
    if has_degenerate_page(pages) {
        Err(AtlasError::DegenerateGeometry)
    } else {
        Ok(build_pages(empty_anim(), pages, base))
    }
}

/// The clamped frame of a non-empty sequence: an index at or past the end
/// falls back to the last frame.
pub open spec fn frame_at(frames: Seq<AnimationFrame>, i: int) -> AnimationFrame {
    if i >= frames.len() {
        frames[frames.len() - 1]
    } else {
        frames[i]
    }
}

/// The frame index selected by progress `num / den` over `len` frames:
/// `floor(len * num / den)`, negative progress treated as zero, and the
/// result clamped to the last frame.
pub open spec fn progress_index(len: int, num: int, den: int) -> int {
    if num <= 0 {
        0
    } else {
        let q = (len * num) / den;
        if q >= len {
            len - 1
        } else {
            q
        }
    }
}

/// An exact-index query: an unknown or empty region id fails, anything
/// else clamps.
pub open spec fn spec_get_indexed_frame_exact(a: AnimV, region: int, frame: int) -> Result<
    AnimationFrame,
    AtlasError,
> {
    if 0 <= region < a.frames.len() && a.frames[region].len() > 0 {
        Ok(frame_at(a.frames[region], frame))
    } else {
        Err(AtlasError::UnknownRegion)
    }
}

/// A fractional query against a region id.
pub open spec fn spec_get_indexed_frame(a: AnimV, region: int, num: int, den: int) -> Result<
    AnimationFrame,
    AtlasError,
> {
    if 0 <= region < a.frames.len() && a.frames[region].len() > 0 {
        Ok(a.frames[region][progress_index(a.frames[region].len() as int, num, den)])
    } else {
        Err(AtlasError::UnknownRegion)
    }
}

/// An exact-index query by name: an unknown name fails.
pub open spec fn spec_get_frame_exact(a: AnimV, name: Seq<char>, frame: int) -> Result<
    AnimationFrame,
    AtlasError,
> {
    let id = name_id(a.names, name);
    if id < 0 {
        Err(AtlasError::UnknownRegion)
    } else {
        spec_get_indexed_frame_exact(a, id, frame)
    }
}

/// A fractional query by name: an unknown name fails.
pub open spec fn spec_get_frame(a: AnimV, name: Seq<char>, num: int, den: int) -> Result<
    AnimationFrame,
    AtlasError,
> {
    let id = name_id(a.names, name);
    if id < 0 {
        Err(AtlasError::UnknownRegion)
    } else {
        spec_get_indexed_frame(a, id, num, den)
    }
}

/// A fractional progress value `num / den`, the exact counterpart of a
/// floating progress in [0, 1). Values at or above one clamp to the last
/// frame; negative values select the first.
#[derive(Clone, Copy, Debug, PartialEq, Eq, Structural)]
pub struct Progress {
    pub num: isize,
    pub den: usize,
}

/// Point queries against the derived store, by name or dense id, by exact
/// index or fractional progress. Every accessor returns the frame by
/// value; the store is never exposed mutably.
pub trait AtlasAnimation {
    spec fn anim(&self) -> AnimV;

    fn get_frame(&self, region: &str, frame: Progress) -> (r: Result<AnimationFrame, AtlasError>)
        requires
            frame.den > 0,
        ensures
            r == spec_get_frame(self.anim(), region@, frame.num as int, frame.den as int),
    ;

    fn get_frame_exact(&self, region: &str, frame: usize) -> (r: Result<
        AnimationFrame,
        AtlasError,
    >)
        ensures
            r == spec_get_frame_exact(self.anim(), region@, frame as int),
    ;

    fn get_indexed_frame(&self, region: usize, frame: Progress) -> (r: Result<
        AnimationFrame,
        AtlasError,
    >)
        requires
            frame.den > 0,
        ensures
            r == spec_get_indexed_frame(
                self.anim(),
                region as int,
                frame.num as int,
                frame.den as int,
            ),
    ;

    fn get_indexed_frame_exact(&self, region: usize, frame: usize) -> (r: Result<
        AnimationFrame,
        AtlasError,
    >)
        ensures
            r == spec_get_indexed_frame_exact(self.anim(), region as int, frame as int),
    ;
}

/// The derived store: `region_names[i]` is the name with dense id `i`, and
/// `region_frames[i]` its frames in encounter order.
#[derive(Debug)]
pub struct ConcreteAtlasAnimation {
    pub region_names: Vec<String>,
    pub region_frames: Vec<Vec<AnimationFrame>>,
}

pub open spec fn frames_view(v: Seq<Vec<AnimationFrame>>) -> Seq<Seq<AnimationFrame>> {
    v.map_values(|f: Vec<AnimationFrame>| f@)
}

impl View for ConcreteAtlasAnimation {
    type V = AnimV;

    open spec fn view(&self) -> AnimV {
        AnimV { names: strs_view(self.region_names@), frames: frames_view(self.region_frames@) }
    }
}

fn find_name(names: &Vec<String>, name: &str) -> (r: Option<usize>)
    ensures
        ({
            let id = name_id(strs_view(names@), name@);
            match r {
                Some(k) => k as int == id,
                None => id == -1,
            }
        }),
{
    let key = String::from_str(name);
    let mut k: usize = 0;
    while k < names.len()
        invariant
            0 <= k <= names@.len(),
            key@ == name@,
            forall|m: int| 0 <= m < k ==> strs_view(names@)[m] != name@,
        decreases names@.len() - k,
    {
        if names[k] == key {
            proof {
                lemma_name_id_is_first(strs_view(names@), name@, k as int);
            }
            return Some(k);
        }
        k = k + 1;
    }
    proof {
        lemma_name_id_absent(strs_view(names@), name@);
    }
    None
}

impl ConcreteAtlasAnimation {
    /// Derives the whole store from parsed pages, with image ids offset by
    /// `base_image_index`. Fails exactly when some page has regions but a
    /// zero dimension.
    pub fn new(pages: Vec<Page>, base_image_index: usize) -> (r: Result<
        ConcreteAtlasAnimation,
        AtlasError,
    >)
        requires
            base_image_index + pages@.len() <= usize::MAX,
        ensures
            ({
                match (r, new_anim_spec(pages_view(pages@), base_image_index as int)) {
                    (Ok(a), Ok(s)) => a@ == s,
                    (Err(e1), Err(e2)) => e1 == e2,
                    _ => false,
                }
            }),
    {
        let ghost pv = pages_view(pages@);
        let mut region_names: Vec<String> = Vec::new();
        let mut region_frames: Vec<Vec<AnimationFrame>> = Vec::new();
        let mut page_id: usize = 0;
        proof {
            assert(pv.subrange(0, 0) =~= Seq::<PageV>::empty());
            assert(AnimV {
                names: strs_view(region_names@),
                frames: frames_view(region_frames@),
            } =~= empty_anim());
        }
        while page_id < pages.len()
            invariant
                0 <= page_id <= pages@.len(),
                pv == pages_view(pages@),
                pv.len() == pages@.len(),
                base_image_index + pages@.len() <= usize::MAX,
                region_names@.len() == region_frames@.len(),
                forall|k: int| 0 <= k < page_id ==> !degenerate_page(pv[k]),
                (AnimV { names: strs_view(region_names@), frames: frames_view(region_frames@) })
                    == build_pages(empty_anim(), pv.subrange(0, page_id as int), base_image_index as int),
            decreases pages@.len() - page_id,
        {
            let ghost prev = build_pages(
                empty_anim(),
                pv.subrange(0, page_id as int),
                base_image_index as int,
            );
            let page = &pages[page_id];
            proof {
                assert(pv[page_id as int] == page@);
            }
            let wp = page.size.0;
            let hp = page.size.1;
            if page.regions.len() > 0 && (wp == 0 || hp == 0) {
                proof {
                    assert(degenerate_page(pv[page_id as int]));
                    assert(has_degenerate_page(pv));
                }
                return Err(AtlasError::DegenerateGeometry);
            }
            let mut j: usize = 0;
            proof {
                assert(page@.regions.subrange(0, 0) =~= Seq::<RegionV>::empty());
            }
            while j < page.regions.len()
                invariant
                    0 <= j <= page.regions@.len(),
                    page == &pages[page_id as int],
                    pv == pages_view(pages@),
                    pv.len() == pages@.len(),
                    0 <= page_id < pages@.len(),
                    pv[page_id as int] == page@,
                    base_image_index + pages@.len() <= usize::MAX,
                    wp == page.size.0,
                    hp == page.size.1,
                    page.regions@.len() > 0 ==> (wp > 0 && hp > 0),
                    region_names@.len() == region_frames@.len(),
                    prev == build_pages(
                        empty_anim(),
                        pv.subrange(0, page_id as int),
                        base_image_index as int,
                    ),
                    (AnimV { names: strs_view(region_names@), frames: frames_view(region_frames@) })
                        == build_regions(
                        prev,
                        page@,
                        page_id as int,
                        base_image_index as int,
                        page@.regions.subrange(0, j as int),
                    ),
                decreases page.regions@.len() - j,
            {
                let ghost cur = build_regions(
                    prev,
                    page@,
                    page_id as int,
                    base_image_index as int,
                    page@.regions.subrange(0, j as int),
                );
                let region = &page.regions[j];
                proof {
                    assert(page@.regions[j as int] == region@);
                    assert(page@.regions.subrange(0, j as int + 1).drop_last() =~= page@
                        .regions.subrange(0, j as int));
                }
                let image_id: usize = base_image_index + page_id;
                let frame = AnimationFrame {
                    image_id,
                    default_dimensions: Dimensions {
                        width: region.bounds.2,
                        height: region.bounds.3,
                    },
                    padding: Padding {
                        left: region.offsets.0 as i128,
                        top: region.offsets.3 as i128 - region.bounds.3 as i128,
                        right: region.offsets.2 as i128 - region.bounds.2 as i128,
                        bottom: region.offsets.1 as i128,
                    },
                    uvs: UvRect {
                        u1: Fraction { num: region.bounds.0 as u128, den: wp as u128 },
                        v1: Fraction { num: region.bounds.1 as u128, den: hp as u128 },
                        u2: Fraction {
                            num: region.bounds.0 as u128 + region.bounds.2 as u128,
                            den: wp as u128,
                        },
                        v2: Fraction {
                            num: region.bounds.1 as u128 + region.bounds.3 as u128,
                            den: hp as u128,
                        },
                    },
                };
                proof {
                    assert(frame == frame_spec(
                        page@,
                        page_id as int,
                        region@,
                        base_image_index as int,
                    ));
                }
                match find_name(&region_names, region.name.as_str()) {
                    Some(id) => {
                        proof {
                            lemma_name_id_range(strs_view(region_names@), region.name@);
                        }
                        region_frames[id].push(frame);
                        proof {
                            assert(frames_view(region_frames@) =~= cur.frames.update(
                                id as int,
                                cur.frames[id as int].push(frame),
                            ));
                            assert(AnimV {
                                names: strs_view(region_names@),
                                frames: frames_view(region_frames@),
                            } =~= anim_add(cur, region@.name, frame));
                        }
                    },
                    None => {
                        region_names.push(region.name.clone());
                        let mut nv: Vec<AnimationFrame> = Vec::new();
                        nv.push(frame);
                        region_frames.push(nv);
                        proof {
                            assert(strs_view(region_names@) =~= cur.names.push(region@.name));
                            assert(frames_view(region_frames@) =~= cur.frames.push(seq![frame]));
                            assert(AnimV {
                                names: strs_view(region_names@),
                                frames: frames_view(region_frames@),
                            } =~= anim_add(cur, region@.name, frame));
                        }
                    },
                }
                j = j + 1;
            }
            proof {
                assert(pv.subrange(0, page_id as int + 1).drop_last() =~= pv.subrange(
                    0,
                    page_id as int,
                ));
                assert(page@.regions.subrange(0, page.regions@.len() as int) =~= page@.regions);
            }
            page_id = page_id + 1;
        }
        proof {
            assert(pv.subrange(0, pages@.len() as int) =~= pv);
            assert(!has_degenerate_page(pv));
        }
        Ok(ConcreteAtlasAnimation { region_names, region_frames })
    }
}

impl AtlasAnimation for ConcreteAtlasAnimation {
    open spec fn anim(&self) -> AnimV {
        self@
    }

    fn get_frame(&self, region: &str, frame: Progress) -> (r: Result<AnimationFrame, AtlasError>) {
        match find_name(&self.region_names, region) {
            Some(id) => self.get_indexed_frame(id, frame),
            None => Err(AtlasError::UnknownRegion),
        }
    }

    fn get_frame_exact(&self, region: &str, frame: usize) -> (r: Result<
        AnimationFrame,
        AtlasError,
    >) {
        match find_name(&self.region_names, region) {
            Some(id) => self.get_indexed_frame_exact(id, frame),
            None => Err(AtlasError::UnknownRegion),
        }
    }

    fn get_indexed_frame(&self, region: usize, frame: Progress) -> (r: Result<
        AnimationFrame,
        AtlasError,
    >) {
        if region >= self.region_frames.len() {
            return Err(AtlasError::UnknownRegion);
        }
        let inner: &Vec<AnimationFrame> = &self.region_frames[region];
        let n = inner.len();
        proof {
            assert(self@.frames[region as int] == inner@);
        }
        if n == 0 {
            return Err(AtlasError::UnknownRegion);
        }
        let idx: usize = if frame.num <= 0 {
            0
        } else {
            proof {
                assert((n as u128) * (frame.num as u128) <= u64::MAX as u128 * u64::MAX as u128)
                    by (nonlinear_arith)
                    requires
                        n as u128 <= u64::MAX as u128,
                        frame.num as u128 <= u64::MAX as u128,
                ;
            }
            let q: u128 = (n as u128) * (frame.num as u128) / (frame.den as u128);
            proof {
                assert(n as u128 * frame.num as u128 == n as int * frame.num as int);
                assert(q as int == (n as int * frame.num as int) / (frame.den as int));
            }
            if q >= n as u128 {
                n - 1
            } else {
                q as usize
            }
        };
        proof {
            assert(idx as int == progress_index(n as int, frame.num as int, frame.den as int));
        }
        Ok(inner[idx])
    }

    fn get_indexed_frame_exact(&self, region: usize, frame: usize) -> (r: Result<
        AnimationFrame,
        AtlasError,
    >) {
        if region >= self.region_frames.len() {
            return Err(AtlasError::UnknownRegion);
        }
        let inner: &Vec<AnimationFrame> = &self.region_frames[region];
        let n = inner.len();
        proof {
            assert(self@.frames[region as int] == inner@);
        }
        if n == 0 {
            return Err(AtlasError::UnknownRegion);
        }
        let k = if frame >= n {
            n - 1
        } else {
            frame
        };
        Ok(inner[k])
    }
}

} // verus!
