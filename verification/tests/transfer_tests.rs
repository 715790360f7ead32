//! The ownership transfer engine on concrete countries.

use std::collections::HashSet;

use territory_engine::border_trace::ring_area;
use territory_engine::buildings::StateBuilding;
use territory_engine::country::{Country, MergeStates, State};
use territory_engine::pops::Pop;
use territory_engine::setup::{CountryDefinition, CountrySetup};
use territory_engine::transfer::{transfer_province, transfer_state, TransferError};

fn rect(x0: i64, y0: i64, x1: i64, y1: i64) -> Vec<(i64, i64)> {
    vec![(x0, y0), (x1, y0), (x1, y1), (x0, y1), (x0, y0)]
}

fn total_area(rings: &Vec<Vec<(i64, i64)>>) -> u128 {
    rings.iter().map(ring_area).sum()
}

fn pop(culture: &str, size: i64) -> Pop {
    Pop { culture: String::from(culture), religion: None, size, pop_type: None }
}

fn building(name: &str, level: Option<i64>) -> StateBuilding {
    StateBuilding {
        name: String::from(name),
        level,
        reserves: None,
        activate_production_methods: None,
        condition: None,
        ownership: None,
    }
}

fn state(
    name: &str,
    provinces: &[&str],
    coordinates: Vec<Vec<(i64, i64)>>,
    pops: Vec<Pop>,
    buildings: Vec<StateBuilding>,
) -> State {
    State {
        name: String::from(name),
        provinces: provinces.iter().map(|p| String::from(*p)).collect(),
        coordinates,
        pops,
        state_buildings: buildings,
    }
}

fn country(name: &str, states: Vec<State>, coordinates: Vec<Vec<(i64, i64)>>) -> Country {
    Country {
        name: String::from(name),
        color: (10, 20, 30),
        states,
        coordinates,
        setup: CountrySetup::new(),
    }
}

fn all_provinces(c: &Country) -> Vec<String> {
    let mut out = Vec::new();
    for st in &c.states {
        for p in &st.provinces {
            out.push(p.clone());
        }
    }
    out
}

#[test]
fn transfer_state_moves_state_and_geometry() {
    let from = country(
        "AAA",
        vec![state(
            "STATE_A",
            &["x000001", "x000002"],
            vec![rect(0, 0, 4, 8)],
            vec![pop("A", 5)],
            vec![],
        )],
        vec![rect(0, 0, 8, 8)],
    );
    let to = country("BBB", vec![], vec![]);

    let response = transfer_state(from, to, "STATE_A").unwrap();
    let from_after = response.from_country;
    let to_after = response.to_country;

    assert_eq!(from_after.states.len(), 0);
    assert_eq!(to_after.states.len(), 1);
    assert_eq!(to_after.states[0].name, "STATE_A");
    assert_eq!(to_after.states[0].provinces, vec!["x000001", "x000002"]);
    assert_eq!(to_after.states[0].pops.len(), 1);
    // The moved state keeps its own border geometry.
    assert_eq!(total_area(&to_after.states[0].coordinates), 8);
    assert_eq!(total_area(&from_after.coordinates), 8);
    assert_eq!(total_area(&to_after.coordinates), 8);
}

#[test]
fn transfer_state_merges_same_named_state() {
    let from = country(
        "AAA",
        vec![state(
            "STATE_A",
            &["x000001"],
            vec![rect(0, 0, 4, 8)],
            vec![pop("A", 5)],
            vec![building("port", Some(2))],
        )],
        vec![rect(0, 0, 4, 8)],
    );
    let to = country(
        "BBB",
        vec![state(
            "STATE_A",
            &["x000002"],
            vec![rect(4, 0, 8, 8)],
            vec![pop("A", 3), pop("B", 2)],
            vec![building("port", Some(1))],
        )],
        vec![rect(4, 0, 8, 8)],
    );

    let response = transfer_state(from, to, "STATE_A").unwrap();
    let to_after = response.to_country;
    assert_eq!(to_after.states.len(), 1);
    let merged = &to_after.states[0];
    assert_eq!(merged.provinces, vec!["x000002", "x000001"]);
    assert_eq!(merged.pops.len(), 2);
    assert_eq!(merged.pops[0].size, 8);
    assert_eq!(merged.pops[1].size, 2);
    assert_eq!(merged.state_buildings.len(), 1);
    assert_eq!(merged.state_buildings[0].level, Some(3));
    // The merged state's border is the union of the two states' borders.
    assert_eq!(total_area(&merged.coordinates), 16);
    assert_eq!(total_area(&to_after.coordinates), 16);
    assert_eq!(total_area(&response.from_country.coordinates), 0);
}

#[test]
fn transfer_state_preserves_province_partition() {
    let from = country(
        "AAA",
        vec![
            state("STATE_A", &["x000001", "x000002"], vec![rect(0, 0, 4, 8)], vec![], vec![]),
            state("STATE_B", &["x000003"], vec![rect(4, 0, 8, 8)], vec![], vec![]),
        ],
        vec![rect(0, 0, 8, 8)],
    );
    let to = country(
        "BBB",
        vec![state("STATE_C", &["x000004"], vec![rect(10, 0, 12, 8)], vec![], vec![])],
        vec![],
    );

    let before: HashSet<String> =
        all_provinces(&from).into_iter().chain(all_provinces(&to)).collect();
    let response = transfer_state(from, to, "STATE_A").unwrap();
    let after_list: Vec<String> = all_provinces(&response.from_country)
        .into_iter()
        .chain(all_provinces(&response.to_country))
        .collect();
    let after: HashSet<String> = after_list.iter().cloned().collect();
    assert_eq!(before, after);
    // No province is claimed twice.
    assert_eq!(after_list.len(), after.len());
}

#[test]
fn transfer_state_of_missing_state_is_refused() {
    let from = country("AAA", vec![], vec![]);
    let to = country("BBB", vec![], vec![]);
    let err = transfer_state(from, to, "STATE_A").unwrap_err();
    assert_eq!(err, TransferError::StateNotFound);
}

#[test]
fn transfer_province_moves_key_and_keeps_payload_with_source() {
    let from = country(
        "AAA",
        vec![state(
            "STATE_A",
            &["x000001", "x000002"],
            vec![rect(0, 0, 8, 8)],
            vec![pop("A", 5)],
            vec![building("port", Some(2))],
        )],
        vec![rect(0, 0, 8, 8)],
    );
    let to = country("BBB", vec![], vec![]);
    let response =
        transfer_province(from, to, "STATE_A", "x000002", &vec![rect(4, 0, 8, 8)]).unwrap();

    let from_after = response.from_country;
    let to_after = response.to_country;
    assert_eq!(from_after.states.len(), 1);
    assert_eq!(from_after.states[0].provinces, vec!["x000001"]);
    // The source keeps its payload while provinces remain.
    assert_eq!(from_after.states[0].pops.len(), 1);
    assert_eq!(from_after.states[0].state_buildings.len(), 1);
    // The source state's border loses the moved province's geometry; the
    // new target state's border is exactly that geometry.
    assert_eq!(total_area(&from_after.states[0].coordinates), 8);
    assert_eq!(to_after.states.len(), 1);
    assert_eq!(to_after.states[0].name, "STATE_A");
    assert_eq!(to_after.states[0].provinces, vec!["x000002"]);
    assert_eq!(total_area(&to_after.states[0].coordinates), 8);
    assert_eq!(to_after.states[0].pops.len(), 0);
    assert_eq!(total_area(&from_after.coordinates), 8);
    assert_eq!(total_area(&to_after.coordinates), 8);
}

#[test]
fn transfer_last_province_moves_whole_payload() {
    let from = country(
        "AAA",
        vec![state(
            "STATE_A",
            &["x000001"],
            vec![rect(0, 0, 8, 8)],
            vec![pop("A", 5)],
            vec![building("port", Some(2))],
        )],
        vec![rect(0, 0, 8, 8)],
    );
    let to = country("BBB", vec![], vec![]);
    let response =
        transfer_province(from, to, "STATE_A", "x000001", &vec![rect(0, 0, 8, 8)]).unwrap();

    assert_eq!(response.from_country.states.len(), 0);
    let moved = &response.to_country.states[0];
    assert_eq!(moved.provinces, vec!["x000001"]);
    assert_eq!(moved.pops.len(), 1);
    assert_eq!(moved.pops[0].size, 5);
    assert_eq!(moved.state_buildings.len(), 1);
}

#[test]
fn transfer_province_into_same_named_state_appends_key() {
    let from = country(
        "AAA",
        vec![state("STATE_A", &["x000001", "x000002"], vec![rect(0, 0, 8, 8)], vec![], vec![])],
        vec![rect(0, 0, 8, 8)],
    );
    let to = country(
        "BBB",
        vec![state("STATE_A", &["x000003"], vec![rect(10, 0, 14, 8)], vec![], vec![])],
        vec![],
    );
    let response =
        transfer_province(from, to, "STATE_A", "x000001", &vec![rect(0, 0, 4, 8)]).unwrap();
    assert_eq!(response.to_country.states[0].provinces, vec!["x000003", "x000001"]);
    // The target state's border gains the province's geometry: its own
    // 8-area rectangle plus the 8-area province.
    assert_eq!(total_area(&response.to_country.states[0].coordinates), 16);
}

#[test]
fn transfer_province_preserves_province_partition() {
    let from = country(
        "AAA",
        vec![state("STATE_A", &["x000001", "x000002"], vec![rect(0, 0, 8, 8)], vec![], vec![])],
        vec![rect(0, 0, 8, 8)],
    );
    let to = country(
        "BBB",
        vec![state("STATE_B", &["x000003"], vec![rect(10, 0, 12, 8)], vec![], vec![])],
        vec![],
    );
    let before: HashSet<String> =
        all_provinces(&from).into_iter().chain(all_provinces(&to)).collect();
    let response =
        transfer_province(from, to, "STATE_A", "x000001", &vec![rect(0, 0, 4, 8)]).unwrap();
    let after_list: Vec<String> = all_provinces(&response.from_country)
        .into_iter()
        .chain(all_provinces(&response.to_country))
        .collect();
    let after: HashSet<String> = after_list.iter().cloned().collect();
    assert_eq!(before, after);
    assert_eq!(after_list.len(), after.len());
}

#[test]
fn transfer_province_of_missing_state_is_refused() {
    let from = country("AAA", vec![], vec![]);
    let to = country("BBB", vec![], vec![]);
    let err = transfer_province(from, to, "STATE_A", "x000001", &vec![]).unwrap_err();
    assert_eq!(err, TransferError::StateNotFound);
}

#[test]
fn transfer_of_missing_province_is_refused() {
    let from = country(
        "AAA",
        vec![state("STATE_A", &["x000001"], vec![], vec![], vec![])],
        vec![],
    );
    let to = country("BBB", vec![], vec![]);
    let err = transfer_province(from, to, "STATE_A", "x000009", &vec![]).unwrap_err();
    assert_eq!(err, TransferError::ProvinceNotFound);
}

#[test]
fn create_country_from_state_is_a_transfer_to_a_fresh_country() {
    let from = country(
        "AAA",
        vec![state("STATE_A", &["x000001"], vec![rect(0, 0, 4, 8)], vec![pop("A", 5)], vec![])],
        vec![rect(0, 0, 4, 8)],
    );
    let fresh = Country::new(CountryDefinition { tag: String::from("CCC"), color: (1, 2, 3) });
    assert_eq!(fresh.name, "CCC");
    assert!(fresh.states.is_empty());
    assert!(fresh.coordinates.is_empty());

    let response = transfer_state(from, fresh, "STATE_A").unwrap();
    assert_eq!(response.to_country.name, "CCC");
    assert_eq!(response.to_country.states.len(), 1);
    assert_eq!(total_area(&response.to_country.coordinates), 8);
}

#[test]
fn merge_states_concatenates_and_sums() {
    let merged = MergeStates.call(
        state(
            "STATE_A",
            &["x000002"],
            vec![rect(4, 0, 8, 8)],
            vec![pop("A", 3)],
            vec![building("port", Some(1))],
        ),
        state(
            "STATE_A",
            &["x000001"],
            vec![rect(0, 0, 4, 8)],
            vec![pop("A", 5)],
            vec![building("port", Some(2))],
        ),
    );
    assert_eq!(merged.provinces, vec!["x000001", "x000002"]);
    assert_eq!(merged.pops.len(), 1);
    assert_eq!(merged.pops[0].size, 8);
    assert_eq!(merged.state_buildings[0].level, Some(3));
    // The merged state's border unions the two borders.
    assert_eq!(total_area(&merged.coordinates), 16);
}
