use parks_api::catalog::AppState;
use parks_api::catalog::Park;
use parks_api::catalog::State;

fn park(id: u32, name: &str, description: &str) -> Park {
    Park {
        id,
        name: name.to_string(),
        image: String::new(),
        location: String::new(),
        established: String::new(),
        area: String::new(),
        visitors: 0,
        description: description.to_string(),
    }
}

fn state(id: u32, name: &str, total_parks: Option<u32>) -> State {
    State {
        id,
        state: name.to_string(),
        total_parks,
        exclusive_parks: None,
        shared_parks: None,
    }
}

fn sample() -> AppState {
    AppState::new(
        vec![
            park(1, "Test Park", "a park for tests"),
            park(7, "Yellowstone", "geysers and wildlife"),
            park(3, "Grand Canyon", "a very large canyon"),
        ],
        vec![
            state(1, "California", Some(9)),
            state(2, "Wyoming", None),
        ],
    )
}

#[test]
fn get_park_by_known_id_returns_the_record() {
    let data = sample();
    let found = data.get_park_by_id(1).expect("id 1 is present");
    assert_eq!(found.id, 1);
    assert_eq!(found.name, "Test Park");
}

#[test]
fn get_park_by_unknown_id_is_not_found() {
    let data = sample();
    let err = data.get_park_by_id(99999).expect_err("id 99999 is absent");
    assert_eq!(err.status, "error");
    assert_eq!(err.message, "Park not found");
}

#[test]
fn get_state_by_unknown_id_is_not_found() {
    let data = sample();
    let err = data.get_state_by_id(99).expect_err("id 99 is absent");
    assert_eq!(err.status, "error");
    assert_eq!(err.message, "State not found");
}

#[test]
fn get_all_returns_every_record_in_load_order() {
    let data = sample();
    let parks = data.get_all_parks();
    assert_eq!(parks.len(), 3);
    assert_eq!(parks[0].id, 1);
    assert_eq!(parks[1].id, 7);
    assert_eq!(parks[2].id, 3);
    let states = data.get_all_states();
    assert_eq!(states.len(), 2);
    assert_eq!(states[0].state, "California");
    assert_eq!(states[1].state, "Wyoming");
}

#[test]
fn search_returns_all_hits_and_only_hits() {
    let data = sample();
    let hits = data.find_parks_by_query("park");
    assert_eq!(hits.len(), 1);
    assert_eq!(hits[0].name, "Test Park");

    let hits = data.find_parks_by_query("a");
    assert_eq!(hits.len(), 3);
    assert_eq!(hits[0].id, 1);
    assert_eq!(hits[1].id, 7);
    assert_eq!(hits[2].id, 3);
}

#[test]
fn search_matches_on_description_too() {
    let data = sample();
    let hits = data.find_parks_by_query("geyser");
    assert_eq!(hits.len(), 1);
    assert_eq!(hits[0].name, "Yellowstone");
}

#[test]
fn search_without_hits_returns_an_empty_vec() {
    let data = sample();
    let hits = data.find_parks_by_query("xyz123");
    assert!(hits.is_empty());
    let hits = data.find_states_by_query("xyz123");
    assert!(hits.is_empty());
}

#[test]
fn state_search_scenario_finds_california() {
    let data = AppState::new(vec![], vec![state(1, "California", Some(9))]);
    let hits = data.find_states_by_query("calif");
    assert_eq!(hits.len(), 1);
    assert_eq!(hits[0].id, 1);
    assert_eq!(hits[0].state, "California");
    assert_eq!(hits[0].total_parks, Some(9));
    let err = data.get_state_by_id(99).expect_err("id 99 is absent");
    assert_eq!(err.status, "error");
    assert_eq!(err.message, "State not found");
}

#[test]
fn repeated_identical_queries_return_identical_results() {
    let data = sample();
    assert_eq!(data.find_parks_by_query("an"), data.find_parks_by_query("an"));
    assert_eq!(data.get_all_parks(), data.get_all_parks());
    assert_eq!(data.get_park_by_id(3), data.get_park_by_id(3));
    assert_eq!(data.find_states_by_query("w"), data.find_states_by_query("w"));
}
