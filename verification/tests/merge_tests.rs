//! The population and building merge rules.

use territory_engine::buildings::{merge_state_buildings, StateBuilding};
use territory_engine::pops::{merge_pops, Pop};

fn pop(culture: &str, size: i64) -> Pop {
    Pop { culture: String::from(culture), religion: None, size, pop_type: None }
}

fn building(name: &str, level: Option<i64>) -> StateBuilding {
    StateBuilding {
        name: String::from(name),
        level,
        reserves: None,
        activate_production_methods: None,
        condition: None,
        ownership: None,
    }
}

#[test]
fn merging_pops_sums_same_identity_and_keeps_the_rest() {
    let left = vec![pop("A", 5)];
    let right = vec![pop("A", 3), pop("B", 2)];
    let merged = merge_pops(left, right);
    assert_eq!(merged.len(), 2);
    assert_eq!(merged[0].culture, "A");
    assert_eq!(merged[0].size, 8);
    assert_eq!(merged[1].culture, "B");
    assert_eq!(merged[1].size, 2);
}

#[test]
fn pops_differing_in_religion_are_not_merged() {
    let left = vec![Pop {
        culture: String::from("A"),
        religion: Some(String::from("r1")),
        size: 5,
        pop_type: None,
    }];
    let right = vec![Pop {
        culture: String::from("A"),
        religion: Some(String::from("r2")),
        size: 3,
        pop_type: None,
    }];
    let merged = merge_pops(left, right);
    assert_eq!(merged.len(), 2);
    assert_eq!(merged[0].size, 5);
    assert_eq!(merged[1].size, 3);
}

#[test]
fn merging_pops_never_drops_a_group() {
    let left = vec![pop("A", 1), pop("B", 2)];
    let right = vec![pop("C", 3), pop("A", 4)];
    let merged = merge_pops(left, right);
    assert_eq!(merged.len(), 3);
    let total: i64 = merged.iter().map(|p| p.size).sum();
    assert_eq!(total, 10);
}

#[test]
fn merging_buildings_sums_levels_defined_on_both_sides() {
    let left = vec![building("port", Some(2))];
    let right = vec![building("port", Some(1))];
    let merged = merge_state_buildings(left, right);
    assert_eq!(merged.len(), 1);
    assert_eq!(merged[0].name, "port");
    assert_eq!(merged[0].level, Some(3));
}

#[test]
fn merging_buildings_appends_new_names() {
    let left = vec![building("port", Some(2))];
    let right = vec![building("mine", Some(4))];
    let merged = merge_state_buildings(left, right);
    assert_eq!(merged.len(), 2);
    assert_eq!(merged[0].name, "port");
    assert_eq!(merged[1].name, "mine");
    assert_eq!(merged[1].level, Some(4));
}

#[test]
fn merging_buildings_keeps_the_one_defined_level() {
    let left = vec![building("port", Some(2))];
    let right = vec![building("port", None)];
    let merged = merge_state_buildings(left, right);
    assert_eq!(merged.len(), 1);
    assert_eq!(merged[0].level, Some(2));

    let left = vec![building("port", None)];
    let right = vec![building("port", Some(1))];
    let merged = merge_state_buildings(left, right);
    assert_eq!(merged.len(), 1);
    assert_eq!(merged[0].level, Some(1));
}
