//! One packed image sheet: rendering metadata plus its ordered regions.

use crate::page_filter::PageFilter;
use crate::page_format::PageFormat;
use crate::page_repeat::PageRepeat;
use crate::region::Region;
use crate::region::RegionV;
use crate::region::finalise_spec;
use vstd::prelude::*;

verus! {

/// A page: one packed source image plus its rendering metadata and the
/// regions cropped from it.
#[derive(Debug)]
pub struct Page {
    /// The sheet's identifier, taken verbatim from the first non-blank line
    /// of its block.
    pub name: String,
    /// (width, height) in pixels; (0, 0) until a `size:` line is seen.
    pub size: (usize, usize),
    pub format: PageFormat,
    /// (minification, magnification) filter modes.
    pub filter: (PageFilter, PageFilter),
    pub repeat: PageRepeat,
    pub pre_multiplexed_alpha_enabled: bool,
    /// Ordered regions; insertion order is file order.
    pub regions: Vec<Region>,
}

/// The mathematical value of a [`Page`].
#[verifier::ext_equal]
pub ghost struct PageV {
    pub name: Seq<char>,
    pub size: (usize, usize),
    pub format: PageFormat,
    pub filter: (PageFilter, PageFilter),
    pub repeat: PageRepeat,
    pub pre_multiplexed_alpha_enabled: bool,
    pub regions: Seq<RegionV>,
}

/// The view of a sequence of regions as a sequence of their values.
pub open spec fn regions_view(v: Seq<Region>) -> Seq<RegionV> {
    v.map_values(|r: Region| r@)
}

/// The view of a sequence of pages as a sequence of their values.
pub open spec fn pages_view(v: Seq<Page>) -> Seq<PageV> {
    v.map_values(|p: Page| p@)
}

impl View for Page {
    type V = PageV;

    open spec fn view(&self) -> PageV {
        PageV {
            name: self.name@,
            size: self.size,
            format: self.format,
            filter: self.filter,
            repeat: self.repeat,
            pre_multiplexed_alpha_enabled: self.pre_multiplexed_alpha_enabled,
            regions: regions_view(self.regions@),
        }
    }
}

/// A fresh page carrying only its name; every other attribute at its
/// default: size (0, 0), format RGBA8888, filters (Nearest, Nearest),
/// repeat none, premultiplied alpha off, no regions.
pub open spec fn new_page_spec(name: Seq<char>) -> PageV {
    PageV {
        name: name,
        size: (0usize, 0usize),
        format: PageFormat::RGBA8888,
        filter: (PageFilter::Nearest, PageFilter::Nearest),
        repeat: PageRepeat::NoRepeat,
        pre_multiplexed_alpha_enabled: false,
        regions: Seq::empty(),
    }
}

/// Appending a region to a page finalises the region first.
pub open spec fn add_region_spec(p: PageV, r: RegionV) -> PageV {
    PageV { regions: p.regions.push(finalise_spec(r)), ..p }
}

impl Default for Page {
    fn default() -> (p: Page)
        ensures
            p@ == new_page_spec(Seq::<char>::empty()),
    {
        let p = Page {
            name: String::new(),
            size: (0, 0),
            format: PageFormat::RGBA8888,
            filter: (PageFilter::Nearest, PageFilter::Nearest),
            repeat: PageRepeat::NoRepeat,
            pre_multiplexed_alpha_enabled: false,
            regions: Vec::new(),
        };
        proof {
            assert(p@ =~= new_page_spec(Seq::<char>::empty()));
        }
        p
    }
}

impl Page {
    pub fn new(name: &str) -> (p: Page)
        ensures
            p@ == new_page_spec(name@),
    {
        let mut p = Page::default();
        p.name = String::from_str(name);
        proof {
            assert(p@ =~= new_page_spec(name@));
        }
        p
    }

    /// Appends `region`, finalised, to this page's region list.
    pub fn add_region(self, region: Region) -> (p: Page)
        ensures
            p@ == add_region_spec(self@, region@),
    {
        let ghost orig = self@;
        let mut p = self;
        let r = region.finalise();
        p.regions.push(r);
        proof {
            assert(regions_view(p.regions@) =~= orig.regions.push(finalise_spec(region@)));
            assert(p@ =~= add_region_spec(orig, region@));
        }
        p
    }
}

} // verus!
