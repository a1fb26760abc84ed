//! The texture filter mode of a page, parsed from its exact-case textual
//! spelling. A page carries a pair of these: minification and magnification.

use vstd::prelude::*;

verus! {

#[derive(Clone, Copy, Debug, PartialEq, Eq, Structural)]
pub enum PageFilter {
    Nearest,
    Linear,
    MipMap,
    MipMapNearestNearest,
    MipMapLinearNearest,
    MipMapNearestLinear,
    MipMapLinearLinear,
}

/// The closed string-to-variant mapping for `filter:` values; unmatched
/// spellings are rejected.
pub open spec fn page_filter_from_text_spec(t: Seq<char>) -> Option<PageFilter> {
    if t == "Nearest"@ {
        Some(PageFilter::Nearest)
    } else if t == "Linear"@ {
        Some(PageFilter::Linear)
    } else if t == "MipMap"@ {
        Some(PageFilter::MipMap)
    } else if t == "MipMapNearestNearest"@ {
        Some(PageFilter::MipMapNearestNearest)
    } else if t == "MipMapLinearNearest"@ {
        Some(PageFilter::MipMapLinearNearest)
    } else if t == "MipMapNearestLinear"@ {
        Some(PageFilter::MipMapNearestLinear)
    } else if t == "MipMapLinearLinear"@ {
        Some(PageFilter::MipMapLinearLinear)
    } else {
        None
    }
}

impl PageFilter {
    pub fn from_text(s: &String) -> (r: Option<PageFilter>)
        ensures
            r == page_filter_from_text_spec(s@),
    {
        if *s == String::from_str("Nearest") {
            Some(PageFilter::Nearest)
        } else if *s == String::from_str("Linear") {
            Some(PageFilter::Linear)
        } else if *s == String::from_str("MipMap") {
            Some(PageFilter::MipMap)
        } else if *s == String::from_str("MipMapNearestNearest") {
            Some(PageFilter::MipMapNearestNearest)
        } else if *s == String::from_str("MipMapLinearNearest") {
            Some(PageFilter::MipMapLinearNearest)
        } else if *s == String::from_str("MipMapNearestLinear") {
            Some(PageFilter::MipMapNearestLinear)
        } else if *s == String::from_str("MipMapLinearLinear") {
            Some(PageFilter::MipMapLinearLinear)
        } else {
            None
        }
    }
}

} // verus!
