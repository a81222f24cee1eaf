use wit::display::{
    describe_weather_code, metric_unit, speed_unit, temp_color_name, temp_letter, temp_unit,
    wind_direction_str, wind_unit, GeoName,
};
use wit::error::WitError;

#[test]
fn compass_points() {
    assert_eq!(wind_direction_str(0), "N");
    assert_eq!(wind_direction_str(22), "N");
    assert_eq!(wind_direction_str(23), "NE");
    assert_eq!(wind_direction_str(45), "NE");
    assert_eq!(wind_direction_str(90), "E");
    assert_eq!(wind_direction_str(135), "SE");
    assert_eq!(wind_direction_str(180), "S");
    assert_eq!(wind_direction_str(225), "SW");
    assert_eq!(wind_direction_str(270), "W");
    assert_eq!(wind_direction_str(315), "NW");
    assert_eq!(wind_direction_str(337), "NW");
    assert_eq!(wind_direction_str(338), "N");
    assert_eq!(wind_direction_str(360), "N");
    assert_eq!(wind_direction_str(405), "NE");
}

#[test]
fn compass_negative_directions() {
    assert_eq!(wind_direction_str(-30), "N");
    assert_eq!(wind_direction_str(-100), "?");
}

#[test]
fn compass_matches_float_formula() {
    for deg in -1000..1000 {
        let sector = ((deg as f64 + 22.5) / 45.0) as i32 % 8;
        let expect = match sector {
            0 => "N",
            1 => "NE",
            2 => "E",
            3 => "SE",
            4 => "S",
            5 => "SW",
            6 => "W",
            7 => "NW",
            _ => "?",
        };
        assert_eq!(wind_direction_str(deg), expect, "degrees {}", deg);
    }
}

#[test]
fn unit_labels() {
    assert_eq!(temp_letter("metric"), "C");
    assert_eq!(temp_letter("imperial"), "F");
    assert_eq!(speed_unit("metric"), "km/h");
    assert_eq!(speed_unit("imperial"), "mph");
    assert_eq!(temp_unit(true), "fahrenheit");
    assert_eq!(temp_unit(false), "celsius");
    assert_eq!(wind_unit(true), "mph");
    assert_eq!(wind_unit(false), "kmh");
}

#[test]
fn metric_units() {
    assert_eq!(metric_unit("temp", "metric"), "°C");
    assert_eq!(metric_unit("feels_like", "imperial"), "°F");
    assert_eq!(metric_unit("humidity", "metric"), "%");
    assert_eq!(metric_unit("cloud", "metric"), "%");
    assert_eq!(metric_unit("pressure", "metric"), "hPa");
    assert_eq!(metric_unit("gusts", "metric"), "km/h");
    assert_eq!(metric_unit("wind", "imperial"), "mph");
    assert_eq!(metric_unit("uv", "metric"), "");
    assert_eq!(metric_unit("precip", "imperial"), "mm");
    assert_eq!(metric_unit("snow", "imperial"), "");
}

#[test]
fn temperature_bands() {
    assert_eq!(temp_color_name(32), "blue");
    assert_eq!(temp_color_name(33), "cyan");
    assert_eq!(temp_color_name(60), "green");
    assert_eq!(temp_color_name(85), "yellow");
    assert_eq!(temp_color_name(100), "red");
    assert_eq!(temp_color_name(101), "magenta");
    assert_eq!(temp_color_name(-40), "blue");
}

#[test]
fn weather_codes() {
    assert_eq!(describe_weather_code(3), ("Overcast", "🌥"));
    assert_eq!(describe_weather_code(51), ("Light drizzle", "🌦"));
    assert_eq!(describe_weather_code(53), ("Moderate drizzle", "🌦"));
    assert_eq!(describe_weather_code(0).0, "Clear sky");
    assert_eq!(describe_weather_code(200).0, "Unknown");
}

#[test]
fn place_display_names() {
    let full = GeoName {
        name: "Tokyo".to_string(),
        admin1: Some("Tokyo".to_string()),
        country: Some("Japan".to_string()),
    };
    assert_eq!(full.display_name(), "Tokyo, Tokyo, Japan");
    let bare = GeoName { name: "Atlantis".to_string(), admin1: None, country: None };
    assert_eq!(bare.display_name(), "Atlantis");
    let country_only = GeoName { name: "Monaco".to_string(), admin1: None, country: Some("Monaco".to_string()) };
    assert_eq!(country_only.display_name(), "Monaco, Monaco");
}

#[test]
fn error_messages() {
    assert_eq!(WitError::NotInitialized.message(), "wit repo not initialized — run `wit init` first");
    assert_eq!(
        WitError::LocationNotFound("Atlantis".to_string()).message(),
        "location 'Atlantis' not found — check spelling or try a nearby city"
    );
    assert_eq!(WitError::LocationExists("Tokyo".to_string()).message(), "location 'Tokyo' is already tracked");
    assert_eq!(WitError::NoLocations.message(), "no tracked locations — run `wit add <city>` first");
    assert_eq!(WitError::NoSnapshots.message(), "no snapshots yet — run `wit snap` first");
    assert_eq!(
        WitError::InvalidTime("soon".to_string()).message(),
        "could not resolve time 'soon' — try formats like 7d, 2w, 3m, 1y, yesterday"
    );
    assert_eq!(
        WitError::AmbiguousLocation { name: "x".to_string(), options: "a\nb".to_string() }.message(),
        "ambiguous location 'x' — did you mean one of these?\na\nb"
    );
    assert_eq!(WitError::Api("down".to_string()).message(), "API error: down");
    assert_eq!(WitError::Git("bad".to_string()).message(), "git error: bad");
    assert_eq!(WitError::Other("plain".to_string()).message(), "plain");
}
