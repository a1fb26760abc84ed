//! The stateful atlas parser: an ordered sequence of text lines in, an
//! ordered sequence of pages out.
//!
//! Each line is trimmed, then classified by the parser's state: outside any
//! page a non-blank line opens a page; inside a page a line is either a page
//! attribute (first matching key prefix wins) or the name of the first
//! region; inside a region a line is a region attribute, the name of the
//! next region, or — when blank — the end of the block. The whole process
//! is specified by [`parse_spec`], a pure function of the line sequence,
//! and the executable parser is proved to return exactly its result.

use crate::error::AtlasError;
use crate::page::Page;
use crate::page::PageV;
use crate::page::add_region_spec;
use crate::page::new_page_spec;
use crate::page::pages_view;
use crate::page_filter::PageFilter;
use crate::page_filter::page_filter_from_text_spec;
use crate::page_format::PageFormat;
use crate::page_format::page_format_from_text_spec;
use crate::page_repeat::PageRepeat;
use crate::page_repeat::page_repeat_from_text_spec;
use crate::region::Region;
use crate::region::RegionV;
use crate::region::new_region_spec;
use crate::text::extract_value;
use crate::text::extract_value_spec;
use crate::text::parse_bool;
use crate::text::parse_bool_spec;
use crate::text::parse_isize;
use crate::text::parse_isize_spec;
use crate::text::parse_usize;
use crate::text::parse_usize_spec;
use crate::text::split_commas;
use crate::text::split_commas_spec;
use crate::text::starts_with_spec;
use crate::text::str_starts_with;
use crate::text::strs_view;
use crate::text::trim_spec;
use crate::text::trim_str;
use vstd::prelude::*;

verus! {

/// An atlas parser: lines in, pages out, exactly as [`parse_spec`] says.
pub trait AtlasParser {
    fn parse(&self, lines: &Vec<String>) -> (r: Result<Vec<Page>, AtlasError>)
        ensures
            parse_result_matches(r, strs_view(lines@)),
    ;
}

pub struct ConcreteAtlasParser {}

/// The parser's working state: completed pages, the page being built, and
/// the region being built.
#[verifier::ext_equal]
pub ghost struct ParseState {
    pub pages: Seq<PageV>,
    pub cur_page: Option<PageV>,
    pub cur_region: Option<RegionV>,
}

pub open spec fn init_state() -> ParseState {
    ParseState { pages: Seq::empty(), cur_page: None, cur_region: None }
}

pub open spec fn opt_page_view(p: Option<Page>) -> Option<PageV> {
    match p {
        Some(x) => Some(x@),
        None => None,
    }
}

pub open spec fn opt_region_view(r: Option<Region>) -> Option<RegionV> {
    match r {
        Some(x) => Some(x@),
        None => None,
    }
}

/// The view of a `(completed pages, pending page, pending region)` triple.
pub open spec fn triple_view(t: (Vec<Page>, Option<Page>, Option<Region>)) -> ParseState {
    ParseState {
        pages: pages_view(t.0@),
        cur_page: opt_page_view(t.1),
        cur_region: opt_region_view(t.2),
    }
}

/// A 2-wide unsigned tuple read from the value part of an attribute line:
/// split on commas, each piece trimmed and parsed; the arity must be exact.
pub open spec fn extract_2usize_spec(line: Seq<char>) -> Option<(usize, usize)> {
    let pieces = split_commas_spec(extract_value_spec(line));
    if pieces.len() == 2 {
        match (parse_usize_spec(trim_spec(pieces[0])), parse_usize_spec(trim_spec(pieces[1]))) {
            (Some(a), Some(b)) => Some((a, b)),
            _ => None,
        }
    } else {
        None
    }
}

/// A 4-wide unsigned tuple read from the value part of an attribute line.
pub open spec fn extract_4usize_spec(line: Seq<char>) -> Option<(usize, usize, usize, usize)> {
    let pieces = split_commas_spec(extract_value_spec(line));
    if pieces.len() == 4 {
        match (
            parse_usize_spec(trim_spec(pieces[0])),
            parse_usize_spec(trim_spec(pieces[1])),
            parse_usize_spec(trim_spec(pieces[2])),
            parse_usize_spec(trim_spec(pieces[3])),
        ) {
            (Some(a), Some(b), Some(c), Some(d)) => Some((a, b, c, d)),
            _ => None,
        }
    } else {
        None
    }
}

/// A 4-wide signed tuple read from the value part of an attribute line.
pub open spec fn extract_4isize_spec(line: Seq<char>) -> Option<(isize, isize, isize, isize)> {
    let pieces = split_commas_spec(extract_value_spec(line));
    if pieces.len() == 4 {
        match (
            parse_isize_spec(trim_spec(pieces[0])),
            parse_isize_spec(trim_spec(pieces[1])),
            parse_isize_spec(trim_spec(pieces[2])),
            parse_isize_spec(trim_spec(pieces[3])),
        ) {
            (Some(a), Some(b), Some(c), Some(d)) => Some((a, b, c, d)),
            _ => None,
        }
    } else {
        None
    }
}

/// The pair of filter modes read from a `filter:` line: exactly two
/// comma-separated enumerated values.
pub open spec fn extract_filter_spec(line: Seq<char>) -> Option<(PageFilter, PageFilter)> {
    let pieces = split_commas_spec(extract_value_spec(line));
    if pieces.len() == 2 {
        match (
            page_filter_from_text_spec(trim_spec(pieces[0])),
            page_filter_from_text_spec(trim_spec(pieces[1])),
        ) {
            (Some(a), Some(b)) => Some((a, b)),
            _ => None,
        }
    } else {
        None
    }
}

/// A `rotate:` value: the words `false` and `true` mean 0 and 90 degrees;
/// anything else must parse as an unsigned integer.
pub open spec fn rotate_spec(v: Seq<char>) -> Option<usize> {
    if v == "false"@ {
        Some(0usize)
    } else if v == "true"@ {
        Some(90usize)
    } else {
        parse_usize_spec(v)
    }
}

/// One trimmed, non-blank line seen while a page is pending and no region
/// is: either a page attribute (keys tried in order: `size:`, `format:`,
/// `filter:`, `repeat:`, `pma:`) or the name of the page's first region.
pub open spec fn page_step_spec(page: PageV, line: Seq<char>) -> Result<
    (PageV, Option<RegionV>),
    AtlasError,
> {
    if starts_with_spec(line, "size:"@) {
        match extract_2usize_spec(line) {
            Some(sz) => Ok((PageV { size: sz, ..page }, None)),
            None => Err(AtlasError::MalformedAttribute),
        }
    } else if starts_with_spec(line, "format:"@) {
        match page_format_from_text_spec(extract_value_spec(line)) {
            Some(f) => Ok((PageV { format: f, ..page }, None)),
            None => Err(AtlasError::MalformedAttribute),
        }
    } else if starts_with_spec(line, "filter:"@) {
        match extract_filter_spec(line) {
            Some(f) => Ok((PageV { filter: f, ..page }, None)),
            None => Err(AtlasError::MalformedAttribute),
        }
    } else if starts_with_spec(line, "repeat:"@) {
        match page_repeat_from_text_spec(extract_value_spec(line)) {
            Some(rp) => Ok((PageV { repeat: rp, ..page }, None)),
            None => Err(AtlasError::MalformedAttribute),
        }
    } else if starts_with_spec(line, "pma:"@) {
        match parse_bool_spec(extract_value_spec(line)) {
            Some(b) => Ok((PageV { pre_multiplexed_alpha_enabled: b, ..page }, None)),
            None => Err(AtlasError::MalformedAttribute),
        }
    } else {
        Ok((page, Some(new_region_spec(line))))
    }
}

/// One trimmed, non-blank line seen while a region is pending: either a
/// region attribute (keys tried in order: `index:`, `bounds:`, `offsets:`,
/// `rotate:`, `split:`, `pad:`) or the name of the next region, which
/// finalises the pending one into the page.
pub open spec fn region_step_spec(page: PageV, region: RegionV, line: Seq<char>) -> Result<
    (PageV, RegionV),
    AtlasError,
> {
    if starts_with_spec(line, "index:"@) {
        match parse_isize_spec(extract_value_spec(line)) {
            Some(i) => Ok(
                (
                    page,
                    RegionV {
                        index: if i < 0 {
                            None
                        } else {
                            Some(i as usize)
                        },
                        ..region
                    },
                ),
            ),
            None => Err(AtlasError::MalformedAttribute),
        }
    } else if starts_with_spec(line, "bounds:"@) {
        match extract_4usize_spec(line) {
            Some(b) => Ok((page, RegionV { bounds: b, ..region })),
            None => Err(AtlasError::MalformedAttribute),
        }
    } else if starts_with_spec(line, "offsets:"@) {
        match extract_4usize_spec(line) {
            Some(o) => Ok((page, RegionV { offsets: o, ..region })),
            None => Err(AtlasError::MalformedAttribute),
        }
    } else if starts_with_spec(line, "rotate:"@) {
        match rotate_spec(extract_value_spec(line)) {
            Some(rt) => Ok((page, RegionV { rotate: rt, ..region })),
            None => Err(AtlasError::MalformedAttribute),
        }
    } else if starts_with_spec(line, "split:"@) {
        match extract_4usize_spec(line) {
            Some(sp) => Ok((page, RegionV { split: Some(sp), ..region })),
            None => Err(AtlasError::MalformedAttribute),
        }
    } else if starts_with_spec(line, "pad:"@) {
        match extract_4isize_spec(line) {
            Some(pd) => Ok((page, RegionV { pad: Some(pd), ..region })),
            None => Err(AtlasError::MalformedAttribute),
        }
    } else {
        Ok((add_region_spec(page, region), new_region_spec(line)))
    }
}

/// One raw line: trimmed, then dispatched on the parser's state.
pub open spec fn line_step_spec(st: ParseState, raw: Seq<char>) -> Result<
    ParseState,
    AtlasError,
> {
    let line = trim_spec(raw);
    match (st.cur_page, st.cur_region) {
        (None, None) => if line.len() == 0 {
            Ok(st)
        } else {
            Ok(ParseState { pages: st.pages, cur_page: Some(new_page_spec(line)), cur_region: None })
        },
        (Some(p), None) => match page_step_spec(p, line) {
            Ok((p2, r2)) => Ok(ParseState { pages: st.pages, cur_page: Some(p2), cur_region: r2 }),
            Err(e) => Err(e),
        },
        (Some(p), Some(r)) => if line.len() == 0 {
            Ok(
                ParseState {
                    pages: st.pages.push(add_region_spec(p, r)),
                    cur_page: None,
                    cur_region: None,
                },
            )
        } else {
            match region_step_spec(p, r, line) {
                Ok((p2, r2)) => Ok(
                    ParseState { pages: st.pages, cur_page: Some(p2), cur_region: Some(r2) },
                ),
                Err(e) => Err(e),
            }
        },
        (None, Some(_)) => Err(AtlasError::InvariantViolation),
    }
}

/// The parser's state after consuming `lines`, starting from `st`.
pub open spec fn run_spec(st: ParseState, lines: Seq<Seq<char>>) -> Result<
    ParseState,
    AtlasError,
>
    decreases lines.len(),
{
    if lines.len() == 0 {
        Ok(st)
    } else {
        match run_spec(st, lines.drop_last()) {
            Ok(s) => line_step_spec(s, lines.last()),
            Err(e) => Err(e),
        }
    }
}

/// End-of-input flush: a still-pending region is finalised into its page,
/// and a still-pending page is appended to the output, so a trailing block
/// needs no trailing blank line.
pub open spec fn flush_spec(st: ParseState) -> Seq<PageV> {
    match (st.cur_page, st.cur_region) {
        (Some(p), Some(r)) => st.pages.push(add_region_spec(p, r)),
        (Some(p), None) => st.pages.push(p),
        _ => st.pages,
    }
}

/// The whole parse as a pure function of the raw line sequence.
pub open spec fn parse_spec(lines: Seq<Seq<char>>) -> Result<Seq<PageV>, AtlasError> {
    match run_spec(init_state(), lines) {
        Ok(st) => Ok(flush_spec(st)),
        Err(e) => Err(e),
    }
}

/// How an executable parse result corresponds to [`parse_spec`].
pub open spec fn parse_result_matches(
    r: Result<Vec<Page>, AtlasError>,
    lines: Seq<Seq<char>>,
) -> bool {
    match (r, parse_spec(lines)) {
        (Ok(v), Ok(s)) => pages_view(v@) == s,
        (Err(a), Err(b)) => a == b,
        _ => false,
    }
}

/// Running on a longer prefix keeps an error already reached.
proof fn lemma_run_spec_err_extends(
    st: ParseState,
    lines: Seq<Seq<char>>,
    i: int,
    e: AtlasError,
)
    requires
        0 <= i <= lines.len(),
        run_spec(st, lines.subrange(0, i)) == Err::<ParseState, AtlasError>(e),
    ensures
        run_spec(st, lines) == Err::<ParseState, AtlasError>(e),
    decreases lines.len(),
{
    if lines.len() == i {
        assert(lines.subrange(0, i) =~= lines);
    } else {
        assert(lines.drop_last().subrange(0, i) =~= lines.subrange(0, i));
        lemma_run_spec_err_extends(st, lines.drop_last(), i, e);
    }
}

proof fn lemma_key_gives_colon(line: Seq<char>, key: Seq<char>, k: int)
    requires
        starts_with_spec(line, key),
        0 <= k < key.len(),
        key[k] == ':',
    ensures
        line.contains(':'),
{
    assert(line[k] == ':') by {
        assert(line.subrange(0, key.len() as int)[k] == ':');
    }
    assert(line.contains(':')) by {
        assert(0 <= k < line.len() && line[k] == ':');
    }
}

/// A 2-wide unsigned tuple from an attribute line; `None` is a malformed
/// attribute.
pub fn extract_2usize(line: &str) -> (r: Option<(usize, usize)>)
    requires
        line@.contains(':'),
    ensures
        r == extract_2usize_spec(line@),
{
    let v = extract_value(line);
    let pieces = split_commas(v.as_str());
    if pieces.len() != 2 {
        return None;
    }
    let t0 = trim_str(pieces[0].as_str());
    let t1 = trim_str(pieces[1].as_str());
    match (parse_usize(t0.as_str()), parse_usize(t1.as_str())) {
        (Some(a), Some(b)) => Some((a, b)),
        _ => None,
    }
}

/// A 4-wide unsigned tuple from an attribute line; `None` is a malformed
/// attribute.
pub fn extract_4usize(line: &str) -> (r: Option<(usize, usize, usize, usize)>)
    requires
        line@.contains(':'),
    ensures
        r == extract_4usize_spec(line@),
{
    let v = extract_value(line);
    let pieces = split_commas(v.as_str());
    if pieces.len() != 4 {
        return None;
    }
    let t0 = trim_str(pieces[0].as_str());
    let t1 = trim_str(pieces[1].as_str());
    let t2 = trim_str(pieces[2].as_str());
    let t3 = trim_str(pieces[3].as_str());
    match (
        parse_usize(t0.as_str()),
        parse_usize(t1.as_str()),
        parse_usize(t2.as_str()),
        parse_usize(t3.as_str()),
    ) {
        (Some(a), Some(b), Some(c), Some(d)) => Some((a, b, c, d)),
        _ => None,
    }
}

/// A 4-wide signed tuple from an attribute line; `None` is a malformed
/// attribute.
pub fn extract_4isize(line: &str) -> (r: Option<(isize, isize, isize, isize)>)
    requires
        line@.contains(':'),
    ensures
        r == extract_4isize_spec(line@),
{
    let v = extract_value(line);
    let pieces = split_commas(v.as_str());
    if pieces.len() != 4 {
        return None;
    }
    let t0 = trim_str(pieces[0].as_str());
    let t1 = trim_str(pieces[1].as_str());
    let t2 = trim_str(pieces[2].as_str());
    let t3 = trim_str(pieces[3].as_str());
    match (
        parse_isize(t0.as_str()),
        parse_isize(t1.as_str()),
        parse_isize(t2.as_str()),
        parse_isize(t3.as_str()),
    ) {
        (Some(a), Some(b), Some(c), Some(d)) => Some((a, b, c, d)),
        _ => None,
    }
}

fn extract_filter(line: &str) -> (r: Option<(PageFilter, PageFilter)>)
    requires
        line@.contains(':'),
    ensures
        r == extract_filter_spec(line@),
{
    let v = extract_value(line);
    let pieces = split_commas(v.as_str());
    if pieces.len() != 2 {
        return None;
    }
    let t0 = trim_str(pieces[0].as_str());
    let t1 = trim_str(pieces[1].as_str());
    match (PageFilter::from_text(&t0), PageFilter::from_text(&t1)) {
        (Some(a), Some(b)) => Some((a, b)),
        _ => None,
    }
}

/// Processes one trimmed, non-blank line in the *page present, no region*
/// state.
pub fn parse_current_page_section(
    rest_of_pages: Vec<Page>,
    current_page: Page,
    line: &str,
) -> (r: Result<(Vec<Page>, Option<Page>, Option<Region>), AtlasError>)
    ensures
        ({
            match (r, page_step_spec(current_page@, line@)) {
                (Ok(t), Ok(sp)) => triple_view(t) == (ParseState {
                    pages: pages_view(rest_of_pages@),
                    cur_page: Some(sp.0),
                    cur_region: sp.1,
                }),
                (Err(e1), Err(e2)) => e1 == e2,
                _ => false,
            }
        }),
{
    if str_starts_with(line, "size:") {
        proof {
            reveal_strlit("size:");
            lemma_key_gives_colon(line@, "size:"@, 4);
        }
        match extract_2usize(line) {
            Some(sz) => {
                let mut p = current_page;
                p.size = sz;
                Ok((rest_of_pages, Some(p), None))
            },
            None => Err(AtlasError::MalformedAttribute),
        }
    } else if str_starts_with(line, "format:") {
        proof {
            reveal_strlit("format:");
            lemma_key_gives_colon(line@, "format:"@, 6);
        }
        let v = extract_value(line);
        match PageFormat::from_text(&v) {
            Some(f) => {
                let mut p = current_page;
                p.format = f;
                Ok((rest_of_pages, Some(p), None))
            },
            None => Err(AtlasError::MalformedAttribute),
        }
    } else if str_starts_with(line, "filter:") {
        proof {
            reveal_strlit("filter:");
            lemma_key_gives_colon(line@, "filter:"@, 6);
        }
        match extract_filter(line) {
            Some(f) => {
                let mut p = current_page;
                p.filter = f;
                Ok((rest_of_pages, Some(p), None))
            },
            None => Err(AtlasError::MalformedAttribute),
        }
    } else if str_starts_with(line, "repeat:") {
        proof {
            reveal_strlit("repeat:");
            lemma_key_gives_colon(line@, "repeat:"@, 6);
        }
        let v = extract_value(line);
        match PageRepeat::from_text(&v) {
            Some(rp) => {
                let mut p = current_page;
                p.repeat = rp;
                Ok((rest_of_pages, Some(p), None))
            },
            None => Err(AtlasError::MalformedAttribute),
        }
    } else if str_starts_with(line, "pma:") {
        proof {
            reveal_strlit("pma:");
            lemma_key_gives_colon(line@, "pma:"@, 3);
        }
        let v = extract_value(line);
        match parse_bool(&v) {
            Some(b) => {
                let mut p = current_page;
                p.pre_multiplexed_alpha_enabled = b;
                Ok((rest_of_pages, Some(p), None))
            },
            None => Err(AtlasError::MalformedAttribute),
        }
    } else {
        Ok((rest_of_pages, Some(current_page), Some(Region::new(line))))
    }
}

/// Processes one trimmed, non-blank line in the *page present, region
/// present* state.
pub fn parse_current_region_section(
    rest_of_pages: Vec<Page>,
    current_page: Page,
    current_region: Region,
    line: &str,
) -> (r: Result<(Vec<Page>, Option<Page>, Option<Region>), AtlasError>)
    ensures
        ({
            match (r, region_step_spec(current_page@, current_region@, line@)) {
                (Ok(t), Ok(sp)) => triple_view(t) == (ParseState {
                    pages: pages_view(rest_of_pages@),
                    cur_page: Some(sp.0),
                    cur_region: Some(sp.1),
                }),
                (Err(e1), Err(e2)) => e1 == e2,
                _ => false,
            }
        }),
{
    if str_starts_with(line, "index:") {
        proof {
            reveal_strlit("index:");
            lemma_key_gives_colon(line@, "index:"@, 5);
        }
        let v = extract_value(line);
        match parse_isize(v.as_str()) {
            Some(i) => {
                let mut rg = current_region;
                rg.index = if i < 0 {
                    None
                } else {
                    Some(i as usize)
                };
                Ok((rest_of_pages, Some(current_page), Some(rg)))
            },
            None => Err(AtlasError::MalformedAttribute),
        }
    } else if str_starts_with(line, "bounds:") {
        proof {
            reveal_strlit("bounds:");
            lemma_key_gives_colon(line@, "bounds:"@, 6);
        }
        match extract_4usize(line) {
            Some(b) => {
                let mut rg = current_region;
                rg.bounds = b;
                Ok((rest_of_pages, Some(current_page), Some(rg)))
            },
            None => Err(AtlasError::MalformedAttribute),
        }
    } else if str_starts_with(line, "offsets:") {
        proof {
            reveal_strlit("offsets:");
            lemma_key_gives_colon(line@, "offsets:"@, 7);
        }
        match extract_4usize(line) {
            Some(o) => {
                let mut rg = current_region;
                rg.offsets = o;
                Ok((rest_of_pages, Some(current_page), Some(rg)))
            },
            None => Err(AtlasError::MalformedAttribute),
        }
    } else if str_starts_with(line, "rotate:") {
        proof {
            reveal_strlit("rotate:");
            lemma_key_gives_colon(line@, "rotate:"@, 6);
        }
        let v = extract_value(line);
        let rot: Option<usize> = if v == String::from_str("false") {
            Some(0)
        } else if v == String::from_str("true") {
            Some(90)
        } else {
            parse_usize(v.as_str())
        };
        match rot {
            Some(rt) => {
                let mut rg = current_region;
                rg.rotate = rt;
                Ok((rest_of_pages, Some(current_page), Some(rg)))
            },
            None => Err(AtlasError::MalformedAttribute),
        }
    } else if str_starts_with(line, "split:") {
        proof {
            reveal_strlit("split:");
            lemma_key_gives_colon(line@, "split:"@, 5);
        }
        match extract_4usize(line) {
            Some(sp) => {
                let mut rg = current_region;
                rg.split = Some(sp);
                Ok((rest_of_pages, Some(current_page), Some(rg)))
            },
            None => Err(AtlasError::MalformedAttribute),
        }
    } else if str_starts_with(line, "pad:") {
        proof {
            reveal_strlit("pad:");
            lemma_key_gives_colon(line@, "pad:"@, 3);
        }
        match extract_4isize(line) {
            Some(pd) => {
                let mut rg = current_region;
                rg.pad = Some(pd);
                Ok((rest_of_pages, Some(current_page), Some(rg)))
            },
            None => Err(AtlasError::MalformedAttribute),
        }
    } else {
        let p = current_page.add_region(current_region);
        Ok((rest_of_pages, Some(p), Some(Region::new(line))))
    }
}

impl AtlasParser for ConcreteAtlasParser {
    fn parse(&self, lines: &Vec<String>) -> (r: Result<Vec<Page>, AtlasError>) {
        let ghost lv = strs_view(lines@);
        let mut rest_of_pages: Vec<Page> = Vec::new();
        let mut current_page: Option<Page> = None;
        let mut current_region: Option<Region> = None;
        let mut i: usize = 0;
        proof {
            assert(lv.subrange(0, 0) =~= Seq::<Seq<char>>::empty());
            assert(triple_view((rest_of_pages, current_page, current_region)) =~= init_state());
        }
        while i < lines.len()
            invariant
                0 <= i <= lines.len(),
                lv == strs_view(lines@),
                lv.len() == lines@.len(),
                run_spec(init_state(), lv.subrange(0, i as int)) == Ok::<
                    ParseState,
                    AtlasError,
                >(triple_view((rest_of_pages, current_page, current_region))),
            decreases lines.len() - i,
        {
            let ghost st = triple_view((rest_of_pages, current_page, current_region));
            proof {
                assert(lv.subrange(0, i as int + 1).drop_last() =~= lv.subrange(0, i as int));
                assert(lv[i as int] == lines@[i as int]@);
            }
            let ghost raw = lv[i as int];
            let trimmed = trim_str(lines[i].as_str());
            let blank = trimmed.as_str().unicode_len() == 0;
            // A blank line while a page is pending but no region is matches
            // no key prefix, so like any other unmatched line it opens a
            // region — one with an empty name.
            if current_page.is_none() && current_region.is_none() {
                if !blank {
                    current_page = Some(Page::new(trimmed.as_str()));
                    proof {
                        assert(triple_view((rest_of_pages, current_page, current_region)) =~= (
                        ParseState {
                            pages: st.pages,
                            cur_page: Some(new_page_spec(trim_spec(raw))),
                            cur_region: None,
                        }));
                    }
                }
            } else if current_page.is_some() && current_region.is_none() {
                let cp = current_page.unwrap();
                match parse_current_page_section(rest_of_pages, cp, trimmed.as_str()) {
                    Ok((ps, p2, r2)) => {
                        rest_of_pages = ps;
                        current_page = p2;
                        current_region = r2;
                        proof {
                            assert(triple_view((rest_of_pages, current_page, current_region))
                                =~= triple_view((ps, p2, r2)));
                        }
                    },
                    Err(e) => {
                        proof {
                            lemma_run_spec_err_extends(init_state(), lv, i as int + 1, e);
                        }
                        return Err(e);
                    },
                }
            } else if current_page.is_some() && current_region.is_some() {
                let cp = current_page.unwrap();
                let cr = current_region.unwrap();
                if blank {
                    let page_updated = cp.add_region(cr);
                    proof {
                        assert(pages_view(rest_of_pages@.push(page_updated)) =~= st.pages.push(
                            page_updated@,
                        ));
                    }
                    rest_of_pages.push(page_updated);
                    current_page = None;
                    current_region = None;
                    proof {
                        assert(triple_view((rest_of_pages, current_page, current_region)) =~= (
                        ParseState {
                            pages: st.pages.push(page_updated@),
                            cur_page: None,
                            cur_region: None,
                        }));
                    }
                } else {
                    match parse_current_region_section(
                        rest_of_pages,
                        cp,
                        cr,
                        trimmed.as_str(),
                    ) {
                        Ok((ps, p2, r2)) => {
                            rest_of_pages = ps;
                            current_page = p2;
                            current_region = r2;
                            proof {
                                assert(triple_view(
                                    (rest_of_pages, current_page, current_region),
                                ) =~= triple_view((ps, p2, r2)));
                            }
                        },
                        Err(e) => {
                            proof {
                                lemma_run_spec_err_extends(init_state(), lv, i as int + 1, e);
                            }
                            return Err(e);
                        },
                    }
                }
            } else {
                let e = AtlasError::InvariantViolation;
                proof {
                    lemma_run_spec_err_extends(init_state(), lv, i as int + 1, e);
                }
                return Err(e);
            }
            proof {
                assert(line_step_spec(st, raw) == Ok::<ParseState, AtlasError>(
                    triple_view((rest_of_pages, current_page, current_region)),
                ));
            }
            i = i + 1;
        }
        let ghost st = triple_view((rest_of_pages, current_page, current_region));
        proof {
            assert(lv.subrange(0, lines@.len() as int) =~= lv);
        }
        match current_region {
            Some(cr) => {
                match current_page {
                    Some(cp) => {
                        let p = cp.add_region(cr);
                        proof {
                            assert(pages_view(rest_of_pages@.push(p)) =~= st.pages.push(p@));
                        }
                        rest_of_pages.push(p);
                    },
                    None => {},
                }
            },
            None => {
                match current_page {
                    Some(cp) => {
                        proof {
                            assert(pages_view(rest_of_pages@.push(cp)) =~= st.pages.push(cp@));
                        }
                        rest_of_pages.push(cp);
                    },
                    None => {},
                }
            },
        }
        proof {
            assert(pages_view(rest_of_pages@) == flush_spec(st));
        }
        Ok(rest_of_pages)
    }
}

} // verus!
