//! Setup records, cache bookkeeping and the remaining data types.

use territory_engine::buildings::{Building, ProductionMethod, ProductionMethodGroup};
use territory_engine::cache::{CacheConfig, DdsToPng};
use territory_engine::pops::StatePopulation;
use territory_engine::setup::{CountrySetup, Technology};

#[test]
fn new_cache_config_is_empty() {
    let config = CacheConfig::new();
    assert!(config.game_folder.is_none());
    assert!(config.working_dir.is_none());
}

#[test]
fn new_country_setup_starts_at_the_highest_tier() {
    let setup = CountrySetup::new();
    assert_eq!(setup.base_tech.as_deref(), Some("tier_7"));
    assert!(setup.technologies_researched.is_empty());
}

#[test]
fn base_tech_takes_the_lowest_set_tier_flag() {
    let r = CountrySetup::base_tech_from_tier_flags([false, false, true, false, true, false, false]);
    assert_eq!(r.as_deref(), Some("tier_3"));
    let none = CountrySetup::base_tech_from_tier_flags([false; 7]);
    assert!(none.is_none());
}

#[test]
fn country_setup_equality_ignores_research_order() {
    let a = CountrySetup {
        base_tech: Some(String::from("tier_2")),
        technologies_researched: vec![String::from("alpha"), String::from("beta")],
    };
    let b = CountrySetup {
        base_tech: Some(String::from("tier_2")),
        technologies_researched: vec![String::from("beta"), String::from("alpha")],
    };
    assert!(a == b);
}

#[test]
fn country_setup_equality_sees_differing_research() {
    let a = CountrySetup {
        base_tech: Some(String::from("tier_2")),
        technologies_researched: vec![String::from("alpha")],
    };
    let b = CountrySetup {
        base_tech: Some(String::from("tier_2")),
        technologies_researched: vec![String::from("alpha"), String::from("alpha")],
    };
    assert!(!(a == b));

    let c = CountrySetup { base_tech: None, technologies_researched: vec![String::from("alpha")] };
    let d = CountrySetup {
        base_tech: Some(String::from("tier_1")),
        technologies_researched: vec![String::from("alpha")],
    };
    assert!(!(c == d));
}

#[test]
fn png_file_path_replaces_the_extension_under_the_cache_dir() {
    let dds = DdsToPng { dds_file_path: String::from("game/gfx/map/textures/flatmap_votp.dds") };
    let path = dds.png_file_path(String::from("cache"));
    assert_eq!(path, "cache/flatmap_votp.png");
}

#[test]
fn png_file_path_appends_png_when_there_is_no_extension() {
    let dds = DdsToPng { dds_file_path: String::from("textures/land_mask") };
    let path = dds.png_file_path(String::from("out"));
    assert_eq!(path, "out/land_mask.png");
}

#[test]
fn catalog_types_hold_their_fields() {
    let b = Building {
        name: String::from("port"),
        production_method_groups: vec![ProductionMethodGroup {
            name: String::from("pm_group"),
            production_methods: vec![ProductionMethod { name: String::from("pm") }],
        }],
        buildable: true,
        unique: false,
    };
    assert_eq!(b.production_method_groups[0].production_methods[0].name, "pm");

    let t = Technology {
        name: String::from("railway"),
        era: String::from("era_2"),
        category: String::from("production"),
    };
    assert_eq!(t.era, "era_2");

    let sp = StatePopulation { pops: vec![] };
    assert!(sp.pops.is_empty());
}
