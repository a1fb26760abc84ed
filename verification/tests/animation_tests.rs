use atlas::animation::AtlasAnimation;
use atlas::animation::ConcreteAtlasAnimation;
use atlas::animation::Progress;
use atlas::error::AtlasError;
use atlas::page::Page;
use atlas::parser::AtlasParser;
use atlas::parser::ConcreteAtlasParser;

fn parse_pages(doc: &[&str]) -> Vec<Page> {
    let lines: Vec<String> = doc.iter().map(|s| s.to_string()).collect();
    let parser = ConcreteAtlasParser {};
    parser.parse(&lines).unwrap()
}

const EXAMPLE: &[&str] = &[
    "sheet.png",
    "size: 100, 50",
    "format: RGBA8888",
    "filter: Nearest,Nearest",
    "repeat: none",
    "pma: false",
    "hero_walk_0",
    "bounds: 0,0,10,10",
    "hero_walk_1",
    "bounds: 10,0,10,10",
];

// Two pages whose "run" regions form one two-frame animation.
const TWO_PAGE_RUN: &[&str] = &[
    "a.png",
    "size: 10, 10",
    "run",
    "bounds: 0,0,5,5",
    "",
    "b.png",
    "size: 20, 20",
    "run",
    "bounds: 5,5,5,5",
];

#[test]
fn example_frames_have_expected_uvs() {
    let anim = ConcreteAtlasAnimation::new(parse_pages(EXAMPLE), 0).unwrap();
    let f0 = anim.get_frame_exact("hero_walk_0", 0).unwrap();
    assert_eq!(f0.image_id, 0);
    assert_eq!(f0.default_dimensions.width, 10);
    assert_eq!(f0.default_dimensions.height, 10);
    // uv (0,0) - (0.1, 0.2): 0/100 to 10/100 and 0/50 to 10/50.
    assert_eq!((f0.uvs.u1.num, f0.uvs.u1.den), (0, 100));
    assert_eq!((f0.uvs.v1.num, f0.uvs.v1.den), (0, 50));
    assert_eq!((f0.uvs.u2.num, f0.uvs.u2.den), (10, 100));
    assert_eq!((f0.uvs.v2.num, f0.uvs.v2.den), (10, 50));
    assert_eq!(f0.uvs.u2.num as f32 / f0.uvs.u2.den as f32, 0.1);
    assert_eq!(f0.uvs.v2.num as f32 / f0.uvs.v2.den as f32, 0.2);
    let f1 = anim.get_frame_exact("hero_walk_1", 0).unwrap();
    // uv (0.1, 0) - (0.2, 0.2).
    assert_eq!((f1.uvs.u1.num, f1.uvs.u1.den), (10, 100));
    assert_eq!((f1.uvs.u2.num, f1.uvs.u2.den), (20, 100));
    assert_eq!((f1.uvs.v2.num, f1.uvs.v2.den), (10, 50));
    // No offsets lines: padding is all zero.
    assert_eq!(f1.padding.left, 0);
    assert_eq!(f1.padding.top, 0);
    assert_eq!(f1.padding.right, 0);
    assert_eq!(f1.padding.bottom, 0);
}

#[test]
fn dense_ids_follow_first_encounter_order() {
    let anim = ConcreteAtlasAnimation::new(parse_pages(EXAMPLE), 0).unwrap();
    let by_name = anim.get_frame_exact("hero_walk_0", 0).unwrap();
    let by_id = anim.get_indexed_frame_exact(0, 0).unwrap();
    assert_eq!(by_name, by_id);
    let by_name1 = anim.get_frame_exact("hero_walk_1", 0).unwrap();
    let by_id1 = anim.get_indexed_frame_exact(1, 0).unwrap();
    assert_eq!(by_name1, by_id1);
}

#[test]
fn repeated_names_across_pages_form_frame_sequences() {
    let anim = ConcreteAtlasAnimation::new(parse_pages(TWO_PAGE_RUN), 0).unwrap();
    let f0 = anim.get_frame_exact("run", 0).unwrap();
    let f1 = anim.get_frame_exact("run", 1).unwrap();
    assert_eq!(f0.image_id, 0);
    assert_eq!(f1.image_id, 1);
    assert_eq!((f0.uvs.u1.num, f0.uvs.u1.den), (0, 10));
    assert_eq!((f1.uvs.u1.num, f1.uvs.u1.den), (5, 20));
}

#[test]
fn base_image_index_offsets_every_frame() {
    let anim = ConcreteAtlasAnimation::new(parse_pages(TWO_PAGE_RUN), 7).unwrap();
    assert_eq!(anim.get_frame_exact("run", 0).unwrap().image_id, 7);
    assert_eq!(anim.get_frame_exact("run", 1).unwrap().image_id, 8);
}

#[test]
fn exact_index_past_the_end_clamps_to_last() {
    let anim = ConcreteAtlasAnimation::new(parse_pages(TWO_PAGE_RUN), 0).unwrap();
    let last = anim.get_frame_exact("run", 1).unwrap();
    assert_eq!(anim.get_frame_exact("run", 2).unwrap(), last);
    assert_eq!(anim.get_frame_exact("run", 100).unwrap(), last);
    assert_eq!(anim.get_indexed_frame_exact(0, 100).unwrap(), last);
}

#[test]
fn progress_zero_gives_first_and_near_one_gives_last() {
    let anim = ConcreteAtlasAnimation::new(parse_pages(TWO_PAGE_RUN), 0).unwrap();
    let first = anim.get_frame_exact("run", 0).unwrap();
    let last = anim.get_frame_exact("run", 1).unwrap();
    assert_eq!(anim.get_frame("run", Progress { num: 0, den: 1 }).unwrap(), first);
    assert_eq!(anim.get_frame("run", Progress { num: 999, den: 1000 }).unwrap(), last);
    assert_eq!(anim.get_frame("run", Progress { num: 499, den: 1000 }).unwrap(), first);
    assert_eq!(anim.get_frame("run", Progress { num: 500, den: 1000 }).unwrap(), last);
    // At or above one, and below zero, the index still clamps.
    assert_eq!(anim.get_frame("run", Progress { num: 1, den: 1 }).unwrap(), last);
    assert_eq!(anim.get_frame("run", Progress { num: 5, den: 2 }).unwrap(), last);
    assert_eq!(anim.get_frame("run", Progress { num: -3, den: 4 }).unwrap(), first);
}

#[test]
fn unknown_region_name_fails() {
    let anim = ConcreteAtlasAnimation::new(parse_pages(EXAMPLE), 0).unwrap();
    assert_eq!(anim.get_frame_exact("missing", 0), Err(AtlasError::UnknownRegion));
    assert_eq!(
        anim.get_frame("missing", Progress { num: 0, den: 1 }),
        Err(AtlasError::UnknownRegion)
    );
    assert_eq!(anim.get_indexed_frame_exact(99, 0), Err(AtlasError::UnknownRegion));
    assert_eq!(
        anim.get_indexed_frame(99, Progress { num: 0, den: 1 }),
        Err(AtlasError::UnknownRegion)
    );
}

#[test]
fn zero_sized_page_with_regions_is_degenerate() {
    let pages = parse_pages(&["a.png", "r0", "bounds: 0,0,1,1"]);
    assert!(matches!(
        ConcreteAtlasAnimation::new(pages, 0),
        Err(AtlasError::DegenerateGeometry)
    ));
    let pages2 = parse_pages(&["a.png", "size: 8,0", "r0", "bounds: 0,0,1,1"]);
    assert!(matches!(
        ConcreteAtlasAnimation::new(pages2, 0),
        Err(AtlasError::DegenerateGeometry)
    ));
}

#[test]
fn zero_sized_page_without_regions_is_fine() {
    let pages = parse_pages(&["a.png", "size: 0,0"]);
    let anim = ConcreteAtlasAnimation::new(pages, 0).unwrap();
    assert_eq!(anim.get_frame_exact("anything", 0), Err(AtlasError::UnknownRegion));
}

#[test]
fn padding_follows_offsets() {
    let pages = parse_pages(&[
        "a.png", "size: 64, 64", "r0", "bounds: 0,0,10,12", "offsets: 3,4,20,15",
    ]);
    let anim = ConcreteAtlasAnimation::new(pages, 0).unwrap();
    let f = anim.get_frame_exact("r0", 0).unwrap();
    assert_eq!(f.padding.left, 3);
    assert_eq!(f.padding.bottom, 4);
    assert_eq!(f.padding.right, 10); // 20 - 10
    assert_eq!(f.padding.top, 3); // 15 - 12
    // An original size smaller than the crop gives negative padding.
    let pages2 = parse_pages(&[
        "a.png", "size: 64, 64", "r0", "bounds: 0,0,10,12", "offsets: 0,0,5,5",
    ]);
    let anim2 = ConcreteAtlasAnimation::new(pages2, 0).unwrap();
    let f2 = anim2.get_frame_exact("r0", 0).unwrap();
    assert_eq!(f2.padding.right, -5);
    assert_eq!(f2.padding.top, -7);
}

#[test]
fn uv_corners_come_in_fixed_winding_order() {
    let anim = ConcreteAtlasAnimation::new(parse_pages(EXAMPLE), 0).unwrap();
    let f = anim.get_frame_exact("hero_walk_1", 0).unwrap();
    let c0 = f.uvs.corner(0);
    let c1 = f.uvs.corner(1);
    let c2 = f.uvs.corner(2);
    let c3 = f.uvs.corner(3);
    assert_eq!(c0, (f.uvs.u1, f.uvs.v1));
    assert_eq!(c1, (f.uvs.u2, f.uvs.v1));
    assert_eq!(c2, (f.uvs.u2, f.uvs.v2));
    assert_eq!(c3, (f.uvs.u1, f.uvs.v2));
}

#[test]
fn uv_span_equals_bounds_over_page_size() {
    let anim = ConcreteAtlasAnimation::new(parse_pages(TWO_PAGE_RUN), 0).unwrap();
    for i in 0..2 {
        let f = anim.get_frame_exact("run", i).unwrap();
        // u2 - u1 == width / page_width, as exact rationals.
        let du = f.uvs.u2.num - f.uvs.u1.num;
        assert_eq!(du * f.uvs.u1.den, f.default_dimensions.width as u128 * f.uvs.u1.den);
        let dv = f.uvs.v2.num - f.uvs.v1.num;
        assert_eq!(dv, f.default_dimensions.height as u128);
        assert_eq!(f.uvs.u1.den, f.uvs.u2.den);
        assert_eq!(f.uvs.v1.den, f.uvs.v2.den);
    }
}
