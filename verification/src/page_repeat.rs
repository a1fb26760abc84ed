//! The tiling (repeat) mode of a page. Unlike the other enumerations, its
//! spellings are compared case-insensitively: the trimmed value is held,
//! lower-cased, against the lower-case spellings.

use crate::text::eq_ignore_ascii_case_spec;
use crate::text::str_eq_ignore_ascii_case;
use vstd::prelude::*;

verus! {

#[derive(Clone, Copy, Debug, PartialEq, Eq, Structural)]
pub enum PageRepeat {
    NoRepeat,
    X,
    Y,
    XY,
}

/// The closed string-to-variant mapping for `repeat:` values: a lower-cased
/// comparison against `none`, `x`, `y` and `xy`; unmatched spellings are
/// rejected.
pub open spec fn page_repeat_from_text_spec(t: Seq<char>) -> Option<PageRepeat> {
    if eq_ignore_ascii_case_spec(t, "none"@) {
        Some(PageRepeat::NoRepeat)
    } else if eq_ignore_ascii_case_spec(t, "x"@) {
        Some(PageRepeat::X)
    } else if eq_ignore_ascii_case_spec(t, "y"@) {
        Some(PageRepeat::Y)
    } else if eq_ignore_ascii_case_spec(t, "xy"@) {
        Some(PageRepeat::XY)
    } else {
        None
    }
}

impl PageRepeat {
    pub fn from_text(s: &String) -> (r: Option<PageRepeat>)
        ensures
            r == page_repeat_from_text_spec(s@),
    {
        if str_eq_ignore_ascii_case(s.as_str(), "none") {
            Some(PageRepeat::NoRepeat)
        } else if str_eq_ignore_ascii_case(s.as_str(), "x") {
            Some(PageRepeat::X)
        } else if str_eq_ignore_ascii_case(s.as_str(), "y") {
            Some(PageRepeat::Y)
        } else if str_eq_ignore_ascii_case(s.as_str(), "xy") {
            Some(PageRepeat::XY)
        } else {
            None
        }
    }
}

} // verus!
