//! The library's general laws, stated over the specification functions
//! that the executable functions are proved against.

use crate::animation::AnimV;
use crate::animation::empty_anim;
use crate::animation::AnimationFrame;
use crate::animation::Fraction;
use crate::animation::anim_add;
use crate::animation::build_pages;
use crate::animation::build_regions;
use crate::animation::degenerate_page;
use crate::animation::frac_eq;
use crate::animation::frame_spec;
use crate::animation::lemma_name_id_range;
use crate::animation::name_id;
use crate::animation::new_anim_spec;
use crate::animation::spec_get_frame;
use crate::animation::spec_get_frame_exact;
use crate::error::AtlasError;
use crate::page::PageV;
use crate::page::add_region_spec;
use crate::parser::ParseState;
use crate::parser::flush_spec;
use crate::parser::init_state;
use crate::parser::line_step_spec;
use crate::parser::parse_spec;
use crate::parser::run_spec;
use crate::region::RegionV;
use crate::text::starts_with_spec;
use crate::text::trim_spec;
use vstd::prelude::*;

verus! {

/// Parsing is a pure function of the line sequence: identical inputs give
/// identical page sequences. Together with the parser's postcondition —
/// its result equals `parse_spec` of its input — re-parsing the same lines
/// always rebuilds the same pages.
pub proof fn lemma_parse_deterministic(l1: Seq<Seq<char>>, l2: Seq<Seq<char>>)
    requires
        l1 == l2,
    ensures
        parse_spec(l1) == parse_spec(l2),
{
}

/// Running the parser over concatenated input is running it over the
/// first part, then the second from where it left off.
pub proof fn lemma_run_spec_append(st: ParseState, a: Seq<Seq<char>>, b: Seq<Seq<char>>)
    ensures
        run_spec(st, a + b) == (match run_spec(st, a) {
            Ok(s) => run_spec(s, b),
            Err(e) => Err(e),
        }),
    decreases b.len(),
{
    if b.len() == 0 {
        assert(a + b =~= a);
    } else {
        assert((a + b).drop_last() =~= a + b.drop_last());
        lemma_run_spec_append(st, a, b.drop_last());
        assert((a + b).last() == b.last());
    }
}

/// Running the parser over a single line is stepping it once.
proof fn lemma_run_one(st: ParseState, l: Seq<char>)
    ensures
        run_spec(st, seq![l]) == line_step_spec(st, l),
{
    reveal_with_fuel(run_spec, 2);
    assert(seq![l].drop_last() =~= Seq::<Seq<char>>::empty());
    assert(seq![l].last() == l);
    assert(run_spec(st, seq![l].drop_last()) == Ok::<ParseState, AtlasError>(st));
}

/// A trailing block with no trailing blank line is still included: when
/// the input ends with a page and a region pending, the output is the
/// completed pages followed by that page, with the region finalised into
/// it.
pub proof fn lemma_trailing_block_flushed(
    lines: Seq<Seq<char>>,
    st: ParseState,
    p: PageV,
    r: RegionV,
)
    requires
        run_spec(init_state(), lines) == Ok::<ParseState, AtlasError>(st),
        st.cur_page == Some(p),
        st.cur_region == Some(r),
    ensures
        parse_spec(lines) == Ok::<Seq<PageV>, AtlasError>(st.pages.push(add_region_spec(p, r))),
{
}

/// Ending the input inside a region block gives exactly the same pages as
/// closing that block with one more blank line.
pub proof fn lemma_trailing_blank_equal(lines: Seq<Seq<char>>, blank: Seq<char>)
    requires
        trim_spec(blank).len() == 0,
        match run_spec(init_state(), lines) {
            Ok(st) => (st.cur_page is Some && st.cur_region is Some) || (st.cur_page is None
                && st.cur_region is None),
            Err(_) => false,
        },
    ensures
        parse_spec(lines.push(blank)) == parse_spec(lines),
{
    assert(lines.push(blank).drop_last() =~= lines);
}

/// Two consecutive blank lines between blocks behave exactly as one: once
/// a blank line has closed the open block (or none was open), a second
/// blank line changes nothing, whatever follows.
pub proof fn lemma_double_blank_idempotent(
    prefix: Seq<Seq<char>>,
    b1: Seq<char>,
    b2: Seq<char>,
    suffix: Seq<Seq<char>>,
)
    requires
        trim_spec(b1).len() == 0,
        trim_spec(b2).len() == 0,
        match run_spec(init_state(), prefix) {
            Ok(st) => (st.cur_page is Some && st.cur_region is Some) || (st.cur_page is None
                && st.cur_region is None),
            Err(_) => false,
        },
    ensures
        parse_spec(prefix + seq![b1, b2] + suffix) == parse_spec(prefix + seq![b1] + suffix),
{
    let st = match run_spec(init_state(), prefix) {
        Ok(s) => s,
        Err(_) => init_state(),
    };
    let closed = match line_step_spec(st, b1) {
        Ok(s) => s,
        Err(_) => init_state(),
    };
    assert(closed.cur_page is None && closed.cur_region is None);
    let a1 = prefix + seq![b1];
    assert(a1.drop_last() =~= prefix);
    assert(run_spec(init_state(), a1) == Ok::<ParseState, AtlasError>(closed)) by {
        lemma_run_spec_append(init_state(), prefix, seq![b1]);
        lemma_run_one(st, b1);
    }
    let a2 = a1 + seq![b2];
    assert(run_spec(init_state(), a2) == Ok::<ParseState, AtlasError>(closed)) by {
        lemma_run_spec_append(init_state(), a1, seq![b2]);
        lemma_run_one(closed, b2);
        assert(line_step_spec(closed, b2) == Ok::<ParseState, AtlasError>(closed));
    }
    lemma_run_spec_append(init_state(), a2, suffix);
    lemma_run_spec_append(init_state(), a1, suffix);
    assert(prefix + seq![b1, b2] + suffix =~= a2 + suffix);
    assert(prefix + seq![b1] + suffix =~= a1 + suffix);
}

/// A region finalised with the default offsets: exactly
/// `(0, 0, bounds.width, bounds.height)`.
pub open spec fn offsets_defaulted(r: RegionV) -> bool {
    r.offsets == (0usize, 0usize, r.bounds.2, r.bounds.3)
}

/// A pending region whose `offsets` was never set.
pub open spec fn offsets_untouched(r: RegionV) -> bool {
    r.offsets == (0usize, 0usize, 0usize, 0usize)
}

pub open spec fn page_offsets_defaulted(p: PageV) -> bool {
    forall|k: int| 0 <= k < p.regions.len() ==> offsets_defaulted(#[trigger] p.regions[k])
}

pub open spec fn state_offsets_defaulted(st: ParseState) -> bool {
    &&& forall|i: int| 0 <= i < st.pages.len() ==> page_offsets_defaulted(#[trigger] st.pages[i])
    &&& match st.cur_page {
        Some(p) => page_offsets_defaulted(p),
        None => true,
    }
    &&& match st.cur_region {
        Some(r) => offsets_untouched(r),
        None => true,
    }
}

/// No line of the input is an `offsets:` attribute.
pub open spec fn no_offsets_line(lines: Seq<Seq<char>>) -> bool {
    forall|i: int|
        0 <= i < lines.len() ==> !starts_with_spec(trim_spec(#[trigger] lines[i]), "offsets:"@)
}

proof fn lemma_step_keeps_offsets_defaulted(st: ParseState, line: Seq<char>, st2: ParseState)
    requires
        state_offsets_defaulted(st),
        !starts_with_spec(trim_spec(line), "offsets:"@),
        line_step_spec(st, line) == Ok::<ParseState, AtlasError>(st2),
    ensures
        state_offsets_defaulted(st2),
{
}

proof fn lemma_run_keeps_offsets_defaulted(st: ParseState, lines: Seq<Seq<char>>, st2: ParseState)
    requires
        state_offsets_defaulted(st),
        no_offsets_line(lines),
        run_spec(st, lines) == Ok::<ParseState, AtlasError>(st2),
    ensures
        state_offsets_defaulted(st2),
    decreases lines.len(),
{
    if lines.len() > 0 {
        let mid = match run_spec(st, lines.drop_last()) {
            Ok(s) => s,
            Err(_) => init_state(),
        };
        assert(no_offsets_line(lines.drop_last()));
        lemma_run_keeps_offsets_defaulted(st, lines.drop_last(), mid);
        assert(!starts_with_spec(trim_spec(lines[lines.len() - 1]), "offsets:"@));
        lemma_step_keeps_offsets_defaulted(mid, lines.last(), st2);
    }
}

/// The finalisation invariant at the whole-parse level: when the input
/// has no `offsets:` line, every region of every parsed page carries
/// offsets `(0, 0, bounds.width, bounds.height)`.
pub proof fn lemma_offsets_default(lines: Seq<Seq<char>>, pages: Seq<PageV>)
    requires
        parse_spec(lines) == Ok::<Seq<PageV>, AtlasError>(pages),
        no_offsets_line(lines),
    ensures
        forall|i: int, k: int|
            0 <= i < pages.len() && 0 <= k < pages[i].regions.len() ==> offsets_defaulted(
                #[trigger] pages[i].regions[k],
            ),
{
    let st = match run_spec(init_state(), lines) {
        Ok(s) => s,
        Err(_) => init_state(),
    };
    lemma_run_keeps_offsets_defaulted(init_state(), lines, st);
    assert(pages == flush_spec(st));
    assert forall|i: int, k: int|
        0 <= i < pages.len() && 0 <= k < pages[i].regions.len() implies offsets_defaulted(
        #[trigger] pages[i].regions[k],
    ) by {
        if i < st.pages.len() {
            assert(page_offsets_defaulted(st.pages[i]));
        }
    }
}

/// Whether a trimmed line matches one of the region attribute keys.
pub open spec fn is_region_attr_key(line: Seq<char>) -> bool {
    ||| starts_with_spec(line, "index:"@)
    ||| starts_with_spec(line, "bounds:"@)
    ||| starts_with_spec(line, "offsets:"@)
    ||| starts_with_spec(line, "rotate:"@)
    ||| starts_with_spec(line, "split:"@)
    ||| starts_with_spec(line, "pad:"@)
}

/// The marks carried beside the parser's state: for every region, whether
/// an `offsets:` line has appeared in its own block so far. A region's
/// block runs from its name line to the line that closes it — the next
/// region's name, a blank line, or the end of input.
#[verifier::ext_equal]
pub ghost struct OffsetMarks {
    /// One mark per region of each completed page.
    pub done: Seq<Seq<bool>>,
    /// The marks of the regions already folded into the pending page.
    pub cur_page_marks: Seq<bool>,
    /// The pending region's mark.
    pub cur_mark: bool,
}

pub open spec fn init_marks() -> OffsetMarks {
    OffsetMarks { done: Seq::empty(), cur_page_marks: Seq::empty(), cur_mark: false }
}

/// How one line moves the marks, alongside [`line_step_spec`] on `st`.
pub open spec fn mark_step(m: OffsetMarks, st: ParseState, raw: Seq<char>) -> OffsetMarks {
    let line = trim_spec(raw);
    match (st.cur_page, st.cur_region) {
        (None, None) => if line.len() == 0 {
            m
        } else {
            OffsetMarks { done: m.done, cur_page_marks: Seq::empty(), cur_mark: false }
        },
        (Some(p), None) => m,
        (Some(p), Some(r)) => if line.len() == 0 {
            OffsetMarks {
                done: m.done.push(m.cur_page_marks.push(m.cur_mark)),
                cur_page_marks: Seq::empty(),
                cur_mark: false,
            }
        } else if starts_with_spec(line, "offsets:"@) {
            OffsetMarks { cur_mark: true, ..m }
        } else if is_region_attr_key(line) {
            m
        } else {
            OffsetMarks {
                done: m.done,
                cur_page_marks: m.cur_page_marks.push(m.cur_mark),
                cur_mark: false,
            }
        },
        (None, Some(_)) => m,
    }
}

/// The marks after consuming `lines`; they advance only while the parse
/// itself advances.
pub open spec fn marks_run(lines: Seq<Seq<char>>) -> OffsetMarks
    decreases lines.len(),
{
    if lines.len() == 0 {
        init_marks()
    } else {
        match run_spec(init_state(), lines.drop_last()) {
            Ok(st) => mark_step(marks_run(lines.drop_last()), st, lines.last()),
            Err(_) => marks_run(lines.drop_last()),
        }
    }
}

/// End-of-input flush of the marks, mirroring [`flush_spec`].
pub open spec fn flush_marks(m: OffsetMarks, st: ParseState) -> Seq<Seq<bool>> {
    match (st.cur_page, st.cur_region) {
        (Some(p), Some(r)) => m.done.push(m.cur_page_marks.push(m.cur_mark)),
        (Some(p), None) => m.done.push(m.cur_page_marks),
        _ => m.done,
    }
}

/// For each page and each region of the parse, whether an `offsets:` line
/// appeared in that region's block.
pub open spec fn offsets_marks_spec(lines: Seq<Seq<char>>) -> Seq<Seq<bool>> {
    match run_spec(init_state(), lines) {
        Ok(st) => flush_marks(marks_run(lines), st),
        Err(_) => Seq::empty(),
    }
}

pub open spec fn marks_all_false(m: OffsetMarks) -> bool {
    &&& !m.cur_mark
    &&& forall|k: int| 0 <= k < m.cur_page_marks.len() ==> !(#[trigger] m.cur_page_marks[k])
    &&& forall|i: int, k: int|
        0 <= i < m.done.len() && 0 <= k < m.done[i].len() ==> !(#[trigger] m.done[i][k])
}

/// When no line of the whole input is an `offsets:` line, no region's
/// block contains one: the per-block marks are all clear.
pub proof fn lemma_marks_clear_without_offsets(lines: Seq<Seq<char>>)
    requires
        no_offsets_line(lines),
    ensures
        marks_all_false(marks_run(lines)),
    decreases lines.len(),
{
    if lines.len() > 0 {
        assert(no_offsets_line(lines.drop_last()));
        lemma_marks_clear_without_offsets(lines.drop_last());
        assert(!starts_with_spec(trim_spec(lines[lines.len() - 1]), "offsets:"@));
    }
}

spec fn marks_invariant(st: ParseState, m: OffsetMarks) -> bool {
    &&& m.done.len() == st.pages.len()
    &&& forall|i: int|
        0 <= i < st.pages.len() ==> (#[trigger] m.done[i]).len() == st.pages[i].regions.len()
    &&& forall|i: int, k: int|
        0 <= i < st.pages.len() && 0 <= k < st.pages[i].regions.len() && !m.done[i][k]
            ==> offsets_defaulted(#[trigger] st.pages[i].regions[k])
    &&& match st.cur_page {
        Some(p) => m.cur_page_marks.len() == p.regions.len() && forall|k: int|
            0 <= k < p.regions.len() && !m.cur_page_marks[k] ==> offsets_defaulted(
                #[trigger] p.regions[k],
            ),
        None => m.cur_page_marks.len() == 0,
    }
    &&& match st.cur_region {
        Some(r) => !m.cur_mark ==> offsets_untouched(r),
        None => true,
    }
}

proof fn lemma_marks_invariant(lines: Seq<Seq<char>>)
    ensures
        match run_spec(init_state(), lines) {
            Ok(st) => marks_invariant(st, marks_run(lines)),
            Err(_) => true,
        },
    decreases lines.len(),
{
    if lines.len() > 0 {
        lemma_marks_invariant(lines.drop_last());
    }
}

/// The finalisation invariant, conditioned per block: every region in
/// whose own block no `offsets:` line appeared carries offsets
/// `(0, 0, bounds.width, bounds.height)`.
pub proof fn lemma_offsets_default_per_block(lines: Seq<Seq<char>>, pages: Seq<PageV>)
    requires
        parse_spec(lines) == Ok::<Seq<PageV>, AtlasError>(pages),
    ensures
        ({
            let marks = offsets_marks_spec(lines);
            &&& marks.len() == pages.len()
            &&& forall|i: int| 0 <= i < pages.len() ==> (#[trigger] marks[i]).len() == pages[i].regions.len()
            &&& forall|i: int, k: int|
                0 <= i < pages.len() && 0 <= k < pages[i].regions.len() && !marks[i][k]
                    ==> offsets_defaulted(#[trigger] pages[i].regions[k])
        }),
{
    lemma_marks_invariant(lines);
}

/// The exact horizontal and vertical UV span of one derived frame:
/// `u2 - u1 == bounds.width / page.size.width` and
/// `v2 - v1 == bounds.height / page.size.height`, as rationals.
pub proof fn lemma_uv_rectangle(page: PageV, page_id: int, r: RegionV, base: int)
    requires
        page.size.0 > 0,
        page.size.1 > 0,
    ensures
        ({
            let f = frame_spec(page, page_id, r, base);
            &&& f.uvs.u1.den == page.size.0 as u128 && f.uvs.u2.den == page.size.0 as u128
            &&& f.uvs.v1.den == page.size.1 as u128 && f.uvs.v2.den == page.size.1 as u128
            &&& f.uvs.u2.num - f.uvs.u1.num == r.bounds.2 as int
            &&& f.uvs.v2.num - f.uvs.v1.num == r.bounds.3 as int
            &&& frac_eq(
                Fraction { num: (f.uvs.u2.num - f.uvs.u1.num) as u128, den: f.uvs.u1.den },
                Fraction { num: r.bounds.2 as u128, den: page.size.0 as u128 },
            )
            &&& frac_eq(
                Fraction { num: (f.uvs.v2.num - f.uvs.v1.num) as u128, den: f.uvs.v1.den },
                Fraction { num: r.bounds.3 as u128, den: page.size.1 as u128 },
            )
        }),
{
}

/// The UV span invariant carried by every frame: matching non-zero
/// denominators, and numerators that differ by exactly the crop size.
pub open spec fn uv_span_consistent(f: AnimationFrame) -> bool {
    &&& f.uvs.u1.den == f.uvs.u2.den && f.uvs.u1.den > 0
    &&& f.uvs.v1.den == f.uvs.v2.den && f.uvs.v1.den > 0
    &&& f.uvs.u2.num == f.uvs.u1.num + f.default_dimensions.width
    &&& f.uvs.v2.num == f.uvs.v1.num + f.default_dimensions.height
}

/// The derived store's structural invariant: one frame sequence per name,
/// none empty, every frame's UV rectangle consistent.
pub open spec fn anim_ok(a: AnimV) -> bool {
    &&& a.names.len() == a.frames.len()
    &&& forall|i: int| 0 <= i < a.frames.len() ==> (#[trigger] a.frames[i]).len() > 0
    &&& forall|i: int, j: int|
        0 <= i < a.frames.len() && 0 <= j < a.frames[i].len() ==> uv_span_consistent(
            #[trigger] a.frames[i][j],
        )
}

proof fn lemma_anim_add_ok(a: AnimV, name: Seq<char>, f: AnimationFrame)
    requires
        anim_ok(a),
        uv_span_consistent(f),
    ensures
        anim_ok(anim_add(a, name, f)),
{
    lemma_name_id_range(a.names, name);
    let a2 = anim_add(a, name, f);
    assert forall|i: int, j: int|
        0 <= i < a2.frames.len() && 0 <= j < a2.frames[i].len() implies uv_span_consistent(
        #[trigger] a2.frames[i][j],
    ) by {
        if i < a.frames.len() {
            if a2.frames[i][j] != f {
                assert(a2.frames[i][j] == a.frames[i][j]);
            }
        }
    }
}

proof fn lemma_build_regions_ok(
    a: AnimV,
    page: PageV,
    page_id: int,
    base: int,
    regions: Seq<RegionV>,
)
    requires
        anim_ok(a),
        page.size.0 > 0,
        page.size.1 > 0,
    ensures
        anim_ok(build_regions(a, page, page_id, base, regions)),
    decreases regions.len(),
{
    if regions.len() > 0 {
        lemma_build_regions_ok(a, page, page_id, base, regions.drop_last());
        let f = frame_spec(page, page_id, regions.last(), base);
        assert(uv_span_consistent(f));
        lemma_anim_add_ok(
            build_regions(a, page, page_id, base, regions.drop_last()),
            regions.last().name,
            f,
        );
    }
}

proof fn lemma_build_pages_ok(a: AnimV, pages: Seq<PageV>, base: int)
    requires
        anim_ok(a),
        forall|k: int| 0 <= k < pages.len() ==> !degenerate_page(#[trigger] pages[k]),
    ensures
        anim_ok(build_pages(a, pages, base)),
    decreases pages.len(),
{
    if pages.len() > 0 {
        lemma_build_pages_ok(a, pages.drop_last(), base);
        let prev = build_pages(a, pages.drop_last(), base);
        let last = pages.last();
        if last.regions.len() == 0 {
            assert(build_regions(prev, last, pages.len() - 1, base, last.regions) == prev);
        } else {
            assert(!degenerate_page(last));
            lemma_build_regions_ok(prev, last, pages.len() - 1, base, last.regions);
        }
    }
}

/// Every successfully derived store is well-formed: ids map one-to-one to
/// non-empty frame sequences, and every frame's UV rectangle spans exactly
/// its crop size over the page dimension.
pub proof fn lemma_derived_store_ok(pages: Seq<PageV>, base: int, a: AnimV)
    requires
        new_anim_spec(pages, base) == Ok::<AnimV, AtlasError>(a),
    ensures
        anim_ok(a),
{
    lemma_build_pages_ok(empty_anim(), pages, base);
}

/// An exact query at or past the frame count returns the same frame as
/// the query at the last index.
pub proof fn lemma_frame_exact_clamps(a: AnimV, name: Seq<char>, i: int)
    requires
        ({
            let id = name_id(a.names, name);
            0 <= id < a.frames.len() && i >= a.frames[id].len()
        }),
    ensures
        spec_get_frame_exact(a, name, i) == spec_get_frame_exact(
            a,
            name,
            a.frames[name_id(a.names, name)].len() - 1,
        ),
{
}

/// Progress zero selects a region's first frame.
pub proof fn lemma_progress_zero_first(a: AnimV, name: Seq<char>, den: int)
    requires
        den > 0,
        ({
            let id = name_id(a.names, name);
            0 <= id < a.frames.len() && a.frames[id].len() > 0
        }),
    ensures
        spec_get_frame(a, name, 0, den) == Ok::<AnimationFrame, AtlasError>(
            a.frames[name_id(a.names, name)][0],
        ),
{
}

/// Progress approaching one from below — at or above `(n-1)/n` but below
/// one — selects a region's last frame.
pub proof fn lemma_progress_near_one_last(a: AnimV, name: Seq<char>, num: int, den: int)
    requires
        den > 0,
        num < den,
        ({
            let id = name_id(a.names, name);
            &&& 0 <= id < a.frames.len()
            &&& a.frames[id].len() > 0
            &&& a.frames[id].len() * num >= (a.frames[id].len() - 1) * den
        }),
    ensures
        spec_get_frame(a, name, num, den) == Ok::<AnimationFrame, AtlasError>(
            a.frames[name_id(a.names, name)].last(),
        ),
{
    let id = name_id(a.names, name);
    let n = a.frames[id].len() as int;
    if num <= 0 {
        assert(n * num <= 0) by (nonlinear_arith)
            requires
                n > 0,
                num <= 0,
        ;
        assert((n - 1) * den <= 0);
        assert(n == 1) by (nonlinear_arith)
            requires
                n >= 1,
                den > 0,
                (n - 1) * den <= 0,
        ;
    } else {
        let q = (n * num) / den;
        assert(q == n - 1) by (nonlinear_arith)
            requires
                n > 0,
                den > 0,
                0 < num < den,
                n * num >= (n - 1) * den,
                q == (n * num) / den,
        ;
    }
}

} // verus!
