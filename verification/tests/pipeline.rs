//! End-to-end tests of the command pipeline: response bodies go through
//! the real JSON tokenizer, and each scenario checks the exact reply and
//! the store's state afterwards.

use weatherbot::handler::{
    direct_step, error_reply, forecast_step, geo_step, no_saved_reply, not_found_reply,
    resolve_location, GeoStep, Resolution,
};
use weatherbot::store::LocationStore;

// ---------------------------------------------------------------------------
// Resolving the effective location
// ---------------------------------------------------------------------------
#[test]
fn no_argument_and_no_saved_location() {
    let st = LocationStore::new();
    assert!(matches!(resolve_location(&st, "alice", ""), Resolution::ReplyNoSaved));
    assert_eq!(no_saved_reply(), "No saved location");
}

#[test]
fn no_argument_falls_back_to_saved_location() {
    let mut st = LocationStore::new();
    st.put("alice", "Paris");
    match resolve_location(&st, "alice", "") {
        Resolution::UseLocation(l) => assert_eq!(l, "Paris"),
        _ => panic!("expected the saved location"),
    }
}

#[test]
fn argument_wins_over_saved_location() {
    let mut st = LocationStore::new();
    st.put("alice", "Paris");
    match resolve_location(&st, "alice", "Tokyo") {
        Resolution::UseLocation(l) => assert_eq!(l, "Tokyo"),
        _ => panic!("expected the argument"),
    }
}

// ---------------------------------------------------------------------------
// The geocode stage
// ---------------------------------------------------------------------------
#[test]
fn geocode_success_extracts_coordinates() {
    let body = "{\"status\":\"OK\",\"results\":[{\"formatted_address\":\"Paris, France\",\
                \"geometry\":{\"location\":{\"lat\":48.8566,\"lng\":2.3522}}}]}";
    match geo_step(body) {
        GeoStep::Located(g) => {
            assert_eq!(g.address, "Paris, France");
            assert_eq!(g.lat, "48.8566");
            assert_eq!(g.lon, "2.3522");
        },
        GeoStep::Abort => panic!("expected coordinates"),
    }
}

#[test]
fn geocode_bad_status_aborts_silently() {
    let body = "{\"status\":\"REQUEST_DENIED\",\"results\":[]}";
    assert!(matches!(geo_step(body), GeoStep::Abort));
}

#[test]
fn geocode_empty_results_abort_silently() {
    let body = "{\"status\":\"OK\",\"results\":[]}";
    assert!(matches!(geo_step(body), GeoStep::Abort));
}

#[test]
fn geocode_malformed_bodies_abort_silently() {
    assert!(matches!(geo_step("not json at all"), GeoStep::Abort));
    assert!(matches!(geo_step("{\"status\":\"OK\"}"), GeoStep::Abort));
    assert!(matches!(
        geo_step("{\"status\":\"OK\",\"results\":[{\"formatted_address\":\"X\"}]}"),
        GeoStep::Abort
    ));
}

// ---------------------------------------------------------------------------
// The forecast stage
// ---------------------------------------------------------------------------
#[test]
fn forecast_success_formats_and_remembers() {
    let mut st = LocationStore::new();
    let body = "{\"currently\":{\"summary\":\"Clear\",\"temperature\":21.5,\
                \"humidity\":0.93,\"windSpeed\":10}}";
    let reply = forecast_step(&mut st, "alice", "Paris", "Paris, France", body);
    assert_eq!(
        reply,
        Some("Paris, France: Clear 22C, 36 km/hr wind, 93% humidity".to_string())
    );
    assert_eq!(st.get("alice"), Some(&"Paris".to_string()));
}

#[test]
fn forecast_survives_a_simulated_restart() {
    let mut st = LocationStore::new();
    let body = "{\"currently\":{\"summary\":\"Clear\",\"temperature\":3,\
                \"humidity\":0.5,\"windSpeed\":2}}";
    let reply = forecast_step(&mut st, "alice", "Oslo", "Oslo, Norway", body);
    assert!(reply.is_some());
    let persisted = st.encode();
    let reloaded = LocationStore::decode(&persisted).expect("the persisted store must decode");
    assert_eq!(reloaded.get("alice"), Some(&"Oslo".to_string()));
}

#[test]
fn forecast_malformed_bodies_stay_silent() {
    let mut st = LocationStore::new();
    assert_eq!(forecast_step(&mut st, "alice", "Paris", "Paris", "not json"), None);
    assert_eq!(forecast_step(&mut st, "alice", "Paris", "Paris", "{}"), None);
    let missing_wind = "{\"currently\":{\"summary\":\"Clear\",\"temperature\":3,\
                        \"humidity\":0.5}}";
    assert_eq!(forecast_step(&mut st, "alice", "Paris", "Paris", missing_wind), None);
    assert!(st.get("alice").is_none());
}

// ---------------------------------------------------------------------------
// The direct weather stage
// ---------------------------------------------------------------------------
#[test]
fn cod_string_404_names_the_argument() {
    let mut st = LocationStore::new();
    let reply = direct_step(&mut st, "alice", "Nowhere", "Nowhere", "{\"cod\":\"404\"}");
    assert_eq!(reply, Some("Location (Nowhere) not found".to_string()));
    assert!(st.get("alice").is_none());
    assert_eq!(not_found_reply("Nowhere"), "Location (Nowhere) not found");
}

#[test]
fn cod_number_500_is_the_generic_error() {
    let mut st = LocationStore::new();
    let reply = direct_step(&mut st, "alice", "Paris", "Paris", "{\"cod\":500}");
    assert_eq!(reply, Some("Error".to_string()));
    assert!(st.get("alice").is_none());
    assert_eq!(error_reply(), "Error");
}

#[test]
fn cod_of_another_shape_is_silent() {
    let mut st = LocationStore::new();
    assert_eq!(direct_step(&mut st, "alice", "Paris", "Paris", "{\"cod\":null}"), None);
    assert_eq!(direct_step(&mut st, "alice", "Paris", "Paris", "{\"cod\":\"500\"}"), None);
    assert_eq!(direct_step(&mut st, "alice", "Paris", "Paris", "{}"), None);
    assert!(st.get("alice").is_none());
}

#[test]
fn direct_success_formats_and_remembers() {
    let mut st = LocationStore::new();
    let body = "{\"cod\":200,\"name\":\"London\",\"sys\":{\"country\":\"GB\"},\
                \"weather\":[{\"main\":\"Clouds\",\"description\":\"overcast clouds\"}],\
                \"main\":{\"temp\":11.9,\"humidity\":87},\"wind\":{\"speed\":10}}";
    let reply = direct_step(&mut st, "alice", "London", "london", body);
    assert_eq!(
        reply,
        Some("London, GB: Clouds (overcast clouds) 12C, 36 km/hr wind, 87% humidity".to_string())
    );
    assert_eq!(st.get("alice"), Some(&"London".to_string()));
}

#[test]
fn direct_success_without_region() {
    let mut st = LocationStore::new();
    let body = "{\"cod\":200,\"name\":\"Atlantis\",\
                \"weather\":[{\"main\":\"Mist\",\"description\":\"sunken mist\"}],\
                \"main\":{\"temp\":-0.5,\"humidity\":100},\"wind\":{\"speed\":0}}";
    let reply = direct_step(&mut st, "alice", "Atlantis", "Atlantis", body);
    assert_eq!(
        reply,
        Some("Atlantis: Mist (sunken mist) -1C, 0 km/hr wind, 100% humidity".to_string())
    );
}

#[test]
fn cod_number_too_large_to_read_is_still_the_generic_error() {
    let mut st = LocationStore::new();
    let reply = direct_step(&mut st, "alice", "Paris", "Paris", "{\"cod\":1000000000}");
    assert_eq!(reply, Some("Error".to_string()));
    assert!(st.get("alice").is_none());
}

#[test]
fn long_digit_runs_abort_silently() {
    let mut st = LocationStore::new();
    let body = "{\"cod\":1e999999999999999999}";
    assert_eq!(direct_step(&mut st, "alice", "Paris", "Paris", body), None);
    assert!(matches!(geo_step("{\"n\":123456789012345678901}"), GeoStep::Abort));
    assert_eq!(forecast_step(&mut st, "alice", "Paris", "Paris", body), None);
    assert!(st.get("alice").is_none());
}

#[test]
fn oversized_bodies_abort_silently() {
    let mut st = LocationStore::new();
    let body = format!("{{\"pad\":\"{}\"}}", "x".repeat(70000));
    assert_eq!(direct_step(&mut st, "alice", "Paris", "Paris", &body), None);
    assert_eq!(forecast_step(&mut st, "alice", "Paris", "Paris", &body), None);
    assert!(matches!(geo_step(&body), GeoStep::Abort));
    assert!(st.get("alice").is_none());
}

#[test]
fn direct_missing_weather_array_is_silent() {
    let mut st = LocationStore::new();
    let body = "{\"cod\":200,\"name\":\"London\",\
                \"main\":{\"temp\":11.9,\"humidity\":87},\"wind\":{\"speed\":10}}";
    assert_eq!(direct_step(&mut st, "alice", "London", "london", body), None);
    assert!(st.get("alice").is_none());
}

#[test]
fn direct_empty_weather_array_is_silent() {
    let mut st = LocationStore::new();
    let body = "{\"cod\":200,\"name\":\"London\",\"weather\":[],\
                \"main\":{\"temp\":11.9,\"humidity\":87},\"wind\":{\"speed\":10}}";
    assert_eq!(direct_step(&mut st, "alice", "London", "london", body), None);
    assert!(st.get("alice").is_none());
}
