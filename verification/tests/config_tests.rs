use wit::config::{new_location_slug, resolve_location_name, snapshot_file, tracked_index, tracked_slug, LocationEntry, Settings, WitConfig};
use wit::error::WitError;
use wit::journal::{add_message, location_snap_message, log_scope, now_label, past_label, snap_message, status_locations};
use wit::chart::{chart_locations, chart_width};

fn config_with(entries: &[(&str, &str)]) -> WitConfig {
    let mut c = WitConfig::default();
    for (slug, name) in entries {
        c.add_location(slug.to_string(), name.to_string());
    }
    c
}

#[test]
fn default_config_is_imperial_and_empty() {
    let c = WitConfig::default();
    assert_eq!(c.settings.units, "imperial");
    assert!(c.locations.is_empty());
    assert_eq!(Settings::default().units, "imperial");
}

#[test]
fn added_location_is_tracked() {
    let mut c = WitConfig::default();
    assert!(!c.has_location("tokyo"));
    c.add_location("tokyo".to_string(), "Tokyo, Tokyo, Japan".to_string());
    assert!(c.has_location("tokyo"));
    assert!(!c.has_location("boston"));
    assert_eq!(c.find_location("tokyo"), Some(0));
    assert_eq!(c.find_location("boston"), None);
}

#[test]
fn find_returns_first_match() {
    let c = config_with(&[("a", "A1"), ("b", "B"), ("a", "A2")]);
    assert_eq!(c.find_location("a"), Some(0));
    assert_eq!(c.find_location("b"), Some(1));
}

#[test]
fn location_names_are_slugified() {
    let c = config_with(&[("new-york", "New York, USA"), ("sao-paulo", "São Paulo, Brazil")]);
    assert_eq!(resolve_location_name("NEW york", Some(&c)), Ok("New York, USA".to_string()));
    assert_eq!(resolve_location_name("  --São Paulo!", Some(&c)), Ok("São Paulo, Brazil".to_string()));
}

#[test]
fn location_name_uses_tracked_name() {
    let c = config_with(&[("new-york", "New York, New York, United States")]);
    assert_eq!(
        resolve_location_name("New York", Some(&c)),
        Ok("New York, New York, United States".to_string())
    );
    assert_eq!(resolve_location_name("paris", Some(&c)), Ok("paris".to_string()));
    assert_eq!(resolve_location_name("New York", None), Ok("New York".to_string()));
}

#[test]
fn snapshot_paths() {
    assert_eq!(snapshot_file("tokyo"), "locations/tokyo/current.toml");
}

#[test]
fn commit_messages() {
    assert_eq!(snap_message(&["Tokyo 44F Light drizzle".to_string(), "Boston 52F Overcast".to_string()]),
        "snap: Tokyo 44F Light drizzle | Boston 52F Overcast");
    assert_eq!(snap_message(&[]), "snap: ");
    assert_eq!(location_snap_message("Tokyo", "44F Fog"), "snap: Tokyo 44F Fog");
    assert_eq!(add_message("Tokyo, Tokyo, Japan", "44F Fog"), "add: Tokyo, Tokyo, Japan (44F Fog)");
    assert_eq!(past_label("Tokyo"), "Tokyo (past)");
    assert_eq!(now_label("Tokyo"), "Tokyo (now)");
}

#[test]
fn status_selection_filters_by_slug() {
    let empty = WitConfig::default();
    assert_eq!(status_locations(&empty, None), Err(WitError::NoLocations));
    let c = config_with(&[("tokyo", "Tokyo"), ("new-york", "New York"), ("boston", "Boston")]);
    assert_eq!(status_locations(&c, None), Ok(vec![0, 1, 2]));
    assert_eq!(status_locations(&c, Some("New York")), Ok(vec![1]));
    assert_eq!(status_locations(&c, Some("paris")), Ok(vec![]));
}

#[test]
fn log_scope_for_location_or_all() {
    let c = config_with(&[("tokyo", "Tokyo, Tokyo, Japan")]);
    assert_eq!(log_scope(&c, None), Ok((None, "all locations".to_string())));
    assert_eq!(
        log_scope(&c, Some("Tokyo")),
        Ok((Some("locations/tokyo/current.toml".to_string()), "Tokyo, Tokyo, Japan".to_string()))
    );
    assert_eq!(log_scope(&c, Some("Paris")), Err(WitError::LocationNotFound("Paris".to_string())));
}

#[test]
fn chart_location_selection() {
    let c = config_with(&[("tokyo", "Tokyo"), ("boston", "Boston")]);
    assert_eq!(chart_locations(&c, &[]), Ok(vec![0, 1]));
    assert_eq!(chart_locations(&c, &["Boston".to_string(), "tokyo".to_string()]), Ok(vec![1, 0]));
    assert_eq!(
        chart_locations(&c, &["Boston".to_string(), "Paris".to_string(), "Rome".to_string()]),
        Err(WitError::LocationNotFound("Paris".to_string()))
    );
    assert_eq!(chart_locations(&WitConfig::default(), &[]), Err(WitError::NoLocations));
}

#[test]
fn chart_widths() {
    assert_eq!(chart_width(2), (60, 30));
    assert_eq!(chart_width(9), (90, 45));
    assert_eq!(chart_width(30), (120, 60));
}

#[test]
fn location_entries_hold_slug_and_name() {
    let e = LocationEntry { slug: "x".to_string(), name: "X".to_string() };
    assert_eq!(e.slug, "x");
    assert_eq!(e.name, "X");
}

#[test]
fn tracked_locations_are_found_by_slug() {
    let c = config_with(&[("tokyo", "Tokyo, Tokyo, Japan"), ("new-york", "New York, USA")]);
    assert_eq!(tracked_slug("New York", Some(&c)), Some("new-york".to_string()));
    assert_eq!(tracked_slug("paris", Some(&c)), None);
    assert_eq!(tracked_slug("tokyo", None), None);
    assert_eq!(tracked_index(&c, "NEW YORK"), Ok(1));
    assert_eq!(tracked_index(&c, "Paris"), Err(WitError::LocationNotFound("Paris".to_string())));
}

#[test]
fn adding_a_tracked_place_is_refused() {
    let c = config_with(&[("tokyo", "Tokyo, Tokyo, Japan")]);
    assert_eq!(new_location_slug(&c, "Boston", "Boston, MA, USA"), Ok("boston".to_string()));
    assert_eq!(
        new_location_slug(&c, "Tokyo", "Tokyo, Tokyo, Japan"),
        Err(WitError::LocationExists("Tokyo, Tokyo, Japan".to_string()))
    );
}
