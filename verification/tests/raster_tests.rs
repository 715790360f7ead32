//! The raster extractor, the tracer pipeline, recoloring and region keys.

use territory_engine::border_trace::ring_area;
use territory_engine::geometry::rings_union;
use territory_engine::raster::{
    country_color_key, country_color_map, hex_color_key, province_borders, raster_region_rings,
    recolor_raster, state_color_map, Raster,
};
use territory_engine::state_history::{State, SubState};

fn solid_raster(width: usize, height: usize, color: u32) -> Raster {
    Raster { width, height, pixels: vec![color; width * height] }
}

fn total_area(rings: &Vec<Vec<(i64, i64)>>) -> u128 {
    rings.iter().map(ring_area).sum()
}

#[test]
fn single_color_raster_gives_one_region() {
    let raster = solid_raster(4, 4, 0x112233);
    let borders = province_borders(&raster);
    assert_eq!(borders.len(), 1);
    assert_eq!(borders[0].0, 0x112233);
    assert!(!borders[0].1.is_empty());
}

#[test]
fn four_by_four_raster_traces_one_ring_of_area_sixteen() {
    let raster = solid_raster(4, 4, 0x112233);
    let regions = raster_region_rings(&raster);
    assert_eq!(regions.len(), 1);
    let rings = &regions[0].1;
    assert_eq!(rings.len(), 1);
    let ring = &rings[0];
    // One closed ring whose four corners enclose the whole raster.
    assert_eq!(ring.first(), ring.last());
    assert_eq!(ring.len(), 5);
    assert_eq!(ring_area(ring), 16);
}

#[test]
fn split_raster_traces_two_rings_whose_union_restores_the_square() {
    // The same 4x4 raster split into two 2x4 colors: two rings of area 8
    // whose union rebuilds the 16-area region.
    let mut pixels = Vec::new();
    for _y in 0..4 {
        pixels.extend_from_slice(&[0xAA0000, 0xAA0000, 0x00BB00, 0x00BB00]);
    }
    let raster = Raster { width: 4, height: 4, pixels };
    let regions = raster_region_rings(&raster);
    assert_eq!(regions.len(), 2);
    for (_color, rings) in &regions {
        assert_eq!(rings.len(), 1);
        assert_eq!(total_area(rings), 8);
    }
    let union = rings_union(&regions[0].1, &regions[1].1);
    assert_eq!(total_area(&union), 16);
}

#[test]
fn region_with_hole_traces_outer_and_inner_ring() {
    // A 4x4 frame around a 2x2 island: the frame's edge set closes two
    // rings, the outline of area 16 and the hole of area 4.
    let f = 0x111111;
    let i = 0x222222;
    let pixels = vec![
        f, f, f, f,
        f, i, i, f,
        f, i, i, f,
        f, f, f, f,
    ];
    let raster = Raster { width: 4, height: 4, pixels };
    let regions = raster_region_rings(&raster);
    assert_eq!(regions.len(), 2);
    for (color, rings) in &regions {
        if *color == f {
            assert_eq!(rings.len(), 2);
            let mut areas: Vec<u128> = rings.iter().map(ring_area).collect();
            areas.sort();
            assert_eq!(areas, vec![4, 16]);
        } else {
            assert_eq!(rings.len(), 1);
            assert_eq!(ring_area(&rings[0]), 4);
        }
    }
}

#[test]
fn recolor_maps_provinces_to_parent_and_unmapped_to_black() {
    let mut pixels = Vec::new();
    for _y in 0..2 {
        pixels.extend_from_slice(&[0xAA0000, 0x00BB00, 0x123456]);
    }
    let raster = Raster { width: 3, height: 2, pixels };
    let color_map = vec![(0xAA0000, 0xAA0000), (0x00BB00, 0xAA0000)];
    let recolored = recolor_raster(&raster, &color_map);
    assert_eq!(recolored.width, 3);
    assert_eq!(recolored.height, 2);
    assert_eq!(recolored.pixels, vec![0xAA0000, 0xAA0000, 0, 0xAA0000, 0xAA0000, 0]);
}

#[test]
fn recolored_raster_traces_aggregated_border() {
    // Recoloring both halves to one parent color and re-running the same
    // extractor and tracer yields the parent-level border.
    let mut pixels = Vec::new();
    for _y in 0..4 {
        pixels.extend_from_slice(&[0xAA0000, 0xAA0000, 0x00BB00, 0x00BB00]);
    }
    let raster = Raster { width: 4, height: 4, pixels };
    let color_map = vec![(0xAA0000, 0xAA0000), (0x00BB00, 0xAA0000)];
    let recolored = recolor_raster(&raster, &color_map);
    let regions = raster_region_rings(&recolored);
    assert_eq!(regions.len(), 1);
    assert_eq!(regions[0].0, 0xAA0000);
    assert_eq!(total_area(&regions[0].1), 16);
}

#[test]
fn hex_color_key_parses_region_keys() {
    assert_eq!(hex_color_key("x0000FF"), Some(255));
    assert_eq!(hex_color_key("xABCDEF"), Some(0xABCDEF));
    assert_eq!(hex_color_key("xabcdef"), Some(0xABCDEF));
    assert_eq!(hex_color_key("x000000"), Some(0));
}

fn history(name: &str, subs: Vec<SubState>) -> State {
    State { name: String::from(name), sub_states: subs, homelands: vec![], claims: vec![] }
}

fn sub(owner: &str, provinces: &[&str]) -> SubState {
    SubState {
        provinces: provinces.iter().map(|p| String::from(*p)).collect(),
        owner: String::from(owner),
    }
}

#[test]
fn state_color_map_keys_every_province_to_the_first_ones_color() {
    let states = vec![
        history("S1", vec![sub("AAA", &["x000001", "x000002"])]),
        history("S2", vec![sub("BBB", &["x000002", "x000003"]), sub("CCC", &[])]),
    ];
    // The second sub-state re-keys province 2 to its own parent; the empty
    // sub-state contributes nothing.
    let map = state_color_map(&states);
    assert_eq!(map, vec![(1, 1), (2, 2), (3, 2)]);
}

#[test]
fn state_color_map_skips_invalid_keys() {
    let states = vec![history("S1", vec![
        sub("AAA", &["bogus", "x000002"]),
        sub("BBB", &["x000005", "nope", "x000006"]),
    ])];
    // A sub-state whose first key is invalid contributes nothing; an
    // invalid key in the middle is skipped.
    let map = state_color_map(&states);
    assert_eq!(map, vec![(5, 5), (6, 5)]);
}

#[test]
fn country_color_map_keys_state_colors_to_country_colors() {
    let countries = vec![
        (
            String::from("AAA"),
            vec![history("S1", vec![sub("AAA", &["x000001", "x000009"])])],
        ),
        (String::from("BB"), vec![history("S2", vec![sub("BB", &["x000002"])])]),
        (String::from("CCC"), vec![history("S3", vec![sub("CCC", &["x000001"])])]),
    ];
    // Only each sub-state's first key is mapped; a two-byte tag names no
    // color; the last country overwrites the shared state color.
    let map = country_color_map(&countries);
    assert_eq!(map, vec![(1, 0x434343)]);
}

#[test]
fn country_color_key_reads_the_tags_first_three_bytes() {
    assert_eq!(country_color_key("AAA"), Some(0x414141));
    assert_eq!(country_color_key("GBR"), Some(0x474252));
    assert_eq!(country_color_key("ABCD"), Some(0x414243));
    assert_eq!(country_color_key("AB"), None);
    assert_eq!(country_color_key(""), None);
}

#[test]
fn hex_color_key_refuses_malformed_keys() {
    assert_eq!(hex_color_key("y000000"), None);
    assert_eq!(hex_color_key("x00000"), None);
    assert_eq!(hex_color_key("x0000000"), None);
    assert_eq!(hex_color_key("x00G000"), None);
    assert_eq!(hex_color_key(""), None);
}
