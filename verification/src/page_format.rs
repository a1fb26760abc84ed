//! The pixel format of a page, parsed from its exact-case textual spelling.

use vstd::prelude::*;

verus! {

#[derive(Clone, Copy, Debug, PartialEq, Eq, Structural)]
pub enum PageFormat {
    Alpha,
    Intensity,
    LuminanceAlpha,
    RGB565,
    RGBA4444,
    RGB888,
    RGBA8888,
}

/// The closed string-to-variant mapping for `format:` values; unmatched
/// spellings are rejected.
pub open spec fn page_format_from_text_spec(t: Seq<char>) -> Option<PageFormat> {
    if t == "Alpha"@ {
        Some(PageFormat::Alpha)
    } else if t == "Intensity"@ {
        Some(PageFormat::Intensity)
    } else if t == "LuminanceAlpha"@ {
        Some(PageFormat::LuminanceAlpha)
    } else if t == "RGB565"@ {
        Some(PageFormat::RGB565)
    } else if t == "RGBA4444"@ {
        Some(PageFormat::RGBA4444)
    } else if t == "RGB888"@ {
        Some(PageFormat::RGB888)
    } else if t == "RGBA8888"@ {
        Some(PageFormat::RGBA8888)
    } else {
        None
    }
}

impl PageFormat {
    pub fn from_text(s: &String) -> (r: Option<PageFormat>)
        ensures
            r == page_format_from_text_spec(s@),
    {
        if *s == String::from_str("Alpha") {
            Some(PageFormat::Alpha)
        } else if *s == String::from_str("Intensity") {
            Some(PageFormat::Intensity)
        } else if *s == String::from_str("LuminanceAlpha") {
            Some(PageFormat::LuminanceAlpha)
        } else if *s == String::from_str("RGB565") {
            Some(PageFormat::RGB565)
        } else if *s == String::from_str("RGBA4444") {
            Some(PageFormat::RGBA4444)
        } else if *s == String::from_str("RGB888") {
            Some(PageFormat::RGB888)
        } else if *s == String::from_str("RGBA8888") {
            Some(PageFormat::RGBA8888)
        } else {
            None
        }
    }
}

} // verus!
