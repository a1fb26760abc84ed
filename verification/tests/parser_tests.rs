use atlas::error::AtlasError;
use atlas::page::Page;
use atlas::page_filter::PageFilter;
use atlas::page_format::PageFormat;
use atlas::page_repeat::PageRepeat;
use atlas::parser::AtlasParser;
use atlas::parser::ConcreteAtlasParser;
use atlas::region::Region;
use atlas::text::parse_isize;
use atlas::text::parse_usize;

fn lines_of(doc: &[&str]) -> Vec<String> {
    doc.iter().map(|s| s.to_string()).collect()
}

fn parse_doc(doc: &[&str]) -> Result<Vec<Page>, AtlasError> {
    let parser = ConcreteAtlasParser {};
    parser.parse(&lines_of(doc))
}

fn regions_equal(a: &Region, b: &Region) -> bool {
    a.name == b.name && a.index == b.index && a.bounds == b.bounds && a.offsets == b.offsets
        && a.rotate == b.rotate && a.split == b.split && a.pad == b.pad
}

fn pages_equal(a: &[Page], b: &[Page]) -> bool {
    a.len() == b.len()
        && a.iter().zip(b.iter()).all(|(x, y)| {
            x.name == y.name && x.size == y.size && x.format == y.format && x.filter == y.filter
                && x.repeat == y.repeat
                && x.pre_multiplexed_alpha_enabled == y.pre_multiplexed_alpha_enabled
                && x.regions.len() == y.regions.len()
                && x.regions.iter().zip(y.regions.iter()).all(|(r, s)| regions_equal(r, s))
        })
}

const EXAMPLE: &[&str] = &[
    "sheet.png",
    "size: 100, 50",
    "format: RGBA8888",
    "filter: Nearest,Nearest",
    "repeat: none",
    "pma: false",
    "hero_walk_0",
    "bounds: 0,0,10,10",
    "hero_walk_1",
    "bounds: 10,0,10,10",
];

#[test]
fn example_document_parses_to_one_page_with_two_regions() {
    let pages = parse_doc(EXAMPLE).unwrap();
    assert_eq!(pages.len(), 1);
    let page = &pages[0];
    assert_eq!(page.name, "sheet.png");
    assert_eq!(page.size, (100, 50));
    assert_eq!(page.format, PageFormat::RGBA8888);
    assert_eq!(page.filter, (PageFilter::Nearest, PageFilter::Nearest));
    assert_eq!(page.repeat, PageRepeat::NoRepeat);
    assert!(!page.pre_multiplexed_alpha_enabled);
    assert_eq!(page.regions.len(), 2);
    assert_eq!(page.regions[0].name, "hero_walk_0");
    assert_eq!(page.regions[0].bounds, (0, 0, 10, 10));
    assert_eq!(page.regions[1].name, "hero_walk_1");
    assert_eq!(page.regions[1].bounds, (10, 0, 10, 10));
}

#[test]
fn reparsing_identical_lines_gives_identical_pages() {
    let first = parse_doc(EXAMPLE).unwrap();
    let second = parse_doc(EXAMPLE).unwrap();
    assert!(pages_equal(&first, &second));
}

#[test]
fn trailing_block_without_blank_line_is_flushed() {
    let with_blank = parse_doc(&[
        "a.png", "size: 4, 4", "r0", "bounds: 0,0,1,1", "",
    ])
    .unwrap();
    let without_blank = parse_doc(&["a.png", "size: 4, 4", "r0", "bounds: 0,0,1,1"]).unwrap();
    assert!(pages_equal(&with_blank, &without_blank));
    assert_eq!(without_blank.len(), 1);
    assert_eq!(without_blank[0].regions.len(), 1);
}

#[test]
fn two_blank_lines_between_blocks_act_as_one() {
    let one_blank = parse_doc(&[
        "a.png", "size: 4, 4", "r0", "bounds: 0,0,1,1", "", "b.png", "size: 8, 8", "r1",
        "bounds: 1,1,2,2",
    ])
    .unwrap();
    let two_blanks = parse_doc(&[
        "a.png", "size: 4, 4", "r0", "bounds: 0,0,1,1", "", "", "b.png", "size: 8, 8", "r1",
        "bounds: 1,1,2,2",
    ])
    .unwrap();
    assert!(pages_equal(&one_blank, &two_blanks));
    assert_eq!(one_blank.len(), 2);
}

#[test]
fn offsets_default_to_bounds_size_when_absent() {
    let pages = parse_doc(&["a.png", "size: 32, 32", "r0", "bounds: 3,4,5,6"]).unwrap();
    assert_eq!(pages[0].regions[0].offsets, (0, 0, 5, 6));
}

#[test]
fn explicit_offsets_are_kept() {
    let pages = parse_doc(&[
        "a.png", "size: 32, 32", "r0", "bounds: 3,4,5,6", "offsets: 1,2,9,9",
    ])
    .unwrap();
    assert_eq!(pages[0].regions[0].offsets, (1, 2, 9, 9));
}

#[test]
fn surrounding_whitespace_is_trimmed_everywhere() {
    let pages = parse_doc(&[
        "  a.png  ", "  size:  100 , 50  ", "  r0  ", "  bounds: 1 , 2 , 3 , 4  ",
    ])
    .unwrap();
    assert_eq!(pages[0].name, "a.png");
    assert_eq!(pages[0].size, (100, 50));
    assert_eq!(pages[0].regions[0].name, "r0");
    assert_eq!(pages[0].regions[0].bounds, (1, 2, 3, 4));
}

#[test]
fn unicode_whitespace_is_trimmed_too() {
    let pages = parse_doc(&[
        "\u{a0}a.png\u{a0}",
        "size:\u{2003}100 ,\u{a0}50\u{2028}",
        "\u{3000}r0\u{3000}",
        "bounds: 1,2,3,4",
    ])
    .unwrap();
    assert_eq!(pages[0].name, "a.png");
    assert_eq!(pages[0].size, (100, 50));
    assert_eq!(pages[0].regions[0].name, "r0");
}

#[test]
fn empty_and_blank_only_inputs_give_no_pages() {
    assert_eq!(parse_doc(&[]).unwrap().len(), 0);
    assert_eq!(parse_doc(&["", "   ", "\t"]).unwrap().len(), 0);
}

#[test]
fn blank_line_directly_after_page_attributes_opens_empty_region() {
    // In the page-but-no-region state a blank line matches no key prefix,
    // so it is taken as a region name, like any other unmatched line.
    let pages = parse_doc(&["a.png", "size: 4, 4", ""]).unwrap();
    assert_eq!(pages.len(), 1);
    assert_eq!(pages[0].regions.len(), 1);
    assert_eq!(pages[0].regions[0].name, "");
}

#[test]
fn wrong_tuple_arity_is_malformed() {
    assert!(matches!(parse_doc(&["a.png", "size: 1,2,3"]), Err(AtlasError::MalformedAttribute)));
    assert!(matches!(parse_doc(&["a.png", "size: 4,4", "r0", "bounds: 1,2,3"]), Err(AtlasError::MalformedAttribute)));
    assert!(matches!(parse_doc(&["a.png", "size: 4,4", "r0", "bounds: 1,2,3,4,5"]), Err(AtlasError::MalformedAttribute)));
}

#[test]
fn non_numeric_tuple_piece_is_malformed() {
    assert!(matches!(parse_doc(&["a.png", "size: 4,4", "r0", "bounds: a,b,c,d"]), Err(AtlasError::MalformedAttribute)));
}

#[test]
fn unknown_enumeration_spellings_are_malformed() {
    assert!(matches!(parse_doc(&["a.png", "format: Foo"]), Err(AtlasError::MalformedAttribute)));
    // Format and filter are exact-case; lower-cased spellings fail there.
    assert!(matches!(parse_doc(&["a.png", "format: rgba8888"]), Err(AtlasError::MalformedAttribute)));
    assert!(matches!(parse_doc(&["a.png", "filter: nearest,nearest"]), Err(AtlasError::MalformedAttribute)));
    assert!(matches!(parse_doc(&["a.png", "repeat: xz"]), Err(AtlasError::MalformedAttribute)));
    assert!(matches!(parse_doc(&["a.png", "repeat: nonee"]), Err(AtlasError::MalformedAttribute)));
    assert!(matches!(parse_doc(&["a.png", "filter: Nearest"]), Err(AtlasError::MalformedAttribute)));
    assert!(matches!(parse_doc(&["a.png", "pma: yes"]), Err(AtlasError::MalformedAttribute)));
}

#[test]
fn all_format_spellings_parse() {
    let cases = [
        ("Alpha", PageFormat::Alpha),
        ("Intensity", PageFormat::Intensity),
        ("LuminanceAlpha", PageFormat::LuminanceAlpha),
        ("RGB565", PageFormat::RGB565),
        ("RGBA4444", PageFormat::RGBA4444),
        ("RGB888", PageFormat::RGB888),
        ("RGBA8888", PageFormat::RGBA8888),
    ];
    for (text, expected) in cases.iter() {
        let doc = ["a.png".to_string(), format!("format: {}", text)];
        let parser = ConcreteAtlasParser {};
        let pages = parser.parse(&doc.to_vec()).unwrap();
        assert_eq!(pages[0].format, *expected);
    }
}

#[test]
fn all_filter_spellings_parse() {
    let cases = [
        ("Nearest", PageFilter::Nearest),
        ("Linear", PageFilter::Linear),
        ("MipMap", PageFilter::MipMap),
        ("MipMapNearestNearest", PageFilter::MipMapNearestNearest),
        ("MipMapLinearNearest", PageFilter::MipMapLinearNearest),
        ("MipMapNearestLinear", PageFilter::MipMapNearestLinear),
        ("MipMapLinearLinear", PageFilter::MipMapLinearLinear),
    ];
    for (text, expected) in cases.iter() {
        let doc = ["a.png".to_string(), format!("filter: {},Linear", text)];
        let parser = ConcreteAtlasParser {};
        let pages = parser.parse(&doc.to_vec()).unwrap();
        assert_eq!(pages[0].filter, (*expected, PageFilter::Linear));
    }
}

#[test]
fn all_repeat_spellings_parse() {
    // The repeat spellings are case-insensitive.
    let cases = [
        ("none", PageRepeat::NoRepeat),
        ("NONE", PageRepeat::NoRepeat),
        ("None", PageRepeat::NoRepeat),
        ("x", PageRepeat::X),
        ("X", PageRepeat::X),
        ("y", PageRepeat::Y),
        ("Y", PageRepeat::Y),
        ("xy", PageRepeat::XY),
        ("Xy", PageRepeat::XY),
        ("XY", PageRepeat::XY),
    ];
    for (text, expected) in cases.iter() {
        let doc = ["a.png".to_string(), format!("repeat: {}", text)];
        let parser = ConcreteAtlasParser {};
        let pages = parser.parse(&doc.to_vec()).unwrap();
        assert_eq!(pages[0].repeat, *expected);
    }
}

#[test]
fn pma_true_parses() {
    let pages = parse_doc(&["a.png", "pma: true"]).unwrap();
    assert!(pages[0].pre_multiplexed_alpha_enabled);
}

#[test]
fn rotate_words_and_numbers() {
    let pages = parse_doc(&[
        "a.png", "size: 8,8", "r0", "rotate: false", "r1", "rotate: true", "r2", "rotate: 45",
    ])
    .unwrap();
    assert_eq!(pages[0].regions[0].rotate, 0);
    assert_eq!(pages[0].regions[1].rotate, 90);
    assert_eq!(pages[0].regions[2].rotate, 45);
    assert!(matches!(parse_doc(&["a.png", "size: 8,8", "r0", "rotate: maybe"]), Err(AtlasError::MalformedAttribute)));
}

#[test]
fn negative_index_means_absent() {
    let pages = parse_doc(&[
        "a.png", "size: 8,8", "r0", "index: -1", "r1", "index: 3",
    ])
    .unwrap();
    assert_eq!(pages[0].regions[0].index, None);
    assert_eq!(pages[0].regions[1].index, Some(3));
    assert!(matches!(parse_doc(&["a.png", "size: 8,8", "r0", "index: many"]), Err(AtlasError::MalformedAttribute)));
}

#[test]
fn split_and_pad_are_stored() {
    let pages = parse_doc(&[
        "a.png", "size: 8,8", "r0", "split: 1,2,3,4", "pad: -1,2,-3,4",
    ])
    .unwrap();
    assert_eq!(pages[0].regions[0].split, Some((1, 2, 3, 4)));
    assert_eq!(pages[0].regions[0].pad, Some((-1, 2, -3, 4)));
}

#[test]
fn page_attributes_freeze_once_a_region_begins() {
    // After the first region line, "size:" is no longer a page key; it
    // does not match any region key either, so it opens a region of that
    // name.
    let pages = parse_doc(&["a.png", "r0", "size: 9,9"]).unwrap();
    assert_eq!(pages[0].size, (0, 0));
    assert_eq!(pages[0].regions.len(), 2);
    assert_eq!(pages[0].regions[1].name, "size: 9,9");
}

#[test]
fn decimal_parsing_edges() {
    assert_eq!(parse_usize("+7"), Some(7));
    assert_eq!(parse_usize("0"), Some(0));
    assert_eq!(parse_usize(""), None);
    assert_eq!(parse_usize("+"), None);
    assert_eq!(parse_usize("1 2"), None);
    assert_eq!(parse_usize("18446744073709551615"), Some(usize::MAX));
    assert_eq!(parse_usize("18446744073709551616"), None);
    assert_eq!(parse_isize("-1"), Some(-1));
    assert_eq!(parse_isize("+8"), Some(8));
    assert_eq!(parse_isize("--1"), None);
    assert_eq!(parse_isize("-9223372036854775808"), Some(isize::MIN));
    assert_eq!(parse_isize("-9223372036854775809"), None);
    assert_eq!(parse_isize("9223372036854775807"), Some(isize::MAX));
    assert_eq!(parse_isize("9223372036854775808"), None);
}
