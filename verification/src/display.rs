//! Presentation rules: unit labels, compass directions, weather-code
//! descriptions, temperature colour bands and place names.

use vstd::prelude::*;

use crate::text::same_text;

verus! {

/// Rust's integer division, which truncates toward zero.
pub open spec fn trunc_div(a: int, b: int) -> int {
    if a >= 0 { a / b } else { -((-a) / b) }
}

/// Rust's integer remainder, which takes the sign of the dividend.
pub open spec fn trunc_rem(a: int, b: int) -> int {
    a - b * trunc_div(a, b)
}

/// The compass sector (0 = N, 1 = NE, ... 7 = NW) of a wind direction, as
/// `((degrees as f64 + 22.5) / 45.0) as i32 % 8` computes it. Since
/// `degrees + 22.5` is never a multiple of 45 and is exact in `f64`, the
/// float quotient truncates to the same integer as `(2 * degrees + 45) / 90`;
/// directions far enough below zero give a negative remainder.
pub open spec fn compass_sector(degrees: int) -> int {
    trunc_rem(trunc_div(2 * degrees + 45, 90), 8)
}

/// The compass point for a sector, or "?" for a negative one.
pub open spec fn compass_name(sector: int) -> Seq<char> {
    if sector == 0 { "N"@ }
    else if sector == 1 { "NE"@ }
    else if sector == 2 { "E"@ }
    else if sector == 3 { "SE"@ }
    else if sector == 4 { "S"@ }
    else if sector == 5 { "SW"@ }
    else if sector == 6 { "W"@ }
    else if sector == 7 { "NW"@ }
    else { "?"@ }
}

/// The compass point a wind direction in degrees falls in.
pub fn wind_direction_str(degrees: i32) -> (r: &'static str)
    ensures
        r@ == compass_name(compass_sector(degrees as int)),
{
    let x: i64 = 2 * (degrees as i64) + 45;
    let q: i64 = if x >= 0 { x / 90 } else { -((-x) / 90) };
    let s: i64 = if q >= 0 { q % 8 } else { -((-q) % 8) };
    assert(s == trunc_rem(q as int, 8)) by {
        if q < 0 {
            assert((-q) % 8 == (-q) - 8 * ((-q) / 8));
        }
    }
    match s {
        0 => "N",
        1 => "NE",
        2 => "E",
        3 => "SE",
        4 => "S",
        5 => "SW",
        6 => "W",
        7 => "NW",
        _ => "?",
    }
}

/// Wind directions repeat every full turn, and every direction from -22
/// degrees up lands on one of the eight compass points.
pub proof fn law_compass_turn(d: int)
    requires
        d >= -22,
    ensures
        compass_sector(d + 360) == compass_sector(d),
        0 <= compass_sector(d) < 8,
{
    let x = 2 * d + 45;
    assert(x >= 0);
    assert((x + 720) / 90 == x / 90 + 8);
    let q = x / 90;
    assert(q >= 0);
    assert((q + 8) % 8 == q % 8);
}

/// Whether the units setting selects metric units.
pub open spec fn is_metric(units: Seq<char>) -> bool {
    units == "metric"@
}

/// The temperature letter for a units setting: "C" for metric, else "F".
pub fn temp_letter(units: &str) -> (r: &'static str)
    ensures
        r@ == (if is_metric(units@) { "C"@ } else { "F"@ }),
{
    if same_text(units, "metric") { "C" } else { "F" }
}

/// The wind-speed unit for a units setting: "km/h" for metric, else "mph".
pub fn speed_unit(units: &str) -> (r: &'static str)
    ensures
        r@ == (if is_metric(units@) { "km/h"@ } else { "mph"@ }),
{
    if same_text(units, "metric") { "km/h" } else { "mph" }
}

/// The temperature unit name the forecast service is asked for.
pub fn temp_unit(imperial: bool) -> (r: &'static str)
    ensures
        r@ == (if imperial { "fahrenheit"@ } else { "celsius"@ }),
{
    if imperial { "fahrenheit" } else { "celsius" }
}

/// The wind-speed unit name the forecast service is asked for.
pub fn wind_unit(imperial: bool) -> (r: &'static str)
    ensures
        r@ == (if imperial { "mph"@ } else { "kmh"@ }),
{
    if imperial { "mph" } else { "kmh" }
}

/// The metrics whose values are temperatures.
pub open spec fn is_temperature_metric(m: Seq<char>) -> bool {
    m == "temp"@ || m == "temperature"@ || m == "feels"@ || m == "feels_like"@ || m == "high"@
        || m == "low"@
}

/// The unit label a chart shows for a metric.
pub open spec fn metric_label(m: Seq<char>, units: Seq<char>) -> Seq<char> {
    if is_temperature_metric(m) {
        if is_metric(units) { "°C"@ } else { "°F"@ }
    } else if m == "humidity"@ || m == "cloud"@ || m == "cloud_cover"@ {
        "%"@
    } else if m == "pressure"@ {
        "hPa"@
    } else if m == "wind"@ || m == "wind_speed"@ || m == "gusts"@ {
        if is_metric(units) { "km/h"@ } else { "mph"@ }
    } else if m == "precip"@ || m == "precipitation"@ {
        "mm"@
    } else {
        ""@
    }
}

/// The unit label a chart shows for a metric under a units setting.
pub fn metric_unit(metric: &str, units: &str) -> (r: &'static str)
    ensures
        r@ == metric_label(metric@, units@),
{
    let metric_units = same_text(units, "metric");
    if same_text(metric, "temp") || same_text(metric, "temperature") || same_text(metric, "feels")
        || same_text(metric, "feels_like") || same_text(metric, "high") || same_text(metric, "low") {
        if metric_units { "°C" } else { "°F" }
    } else if same_text(metric, "humidity") || same_text(metric, "cloud") || same_text(
        metric,
        "cloud_cover",
    ) {
        "%"
    } else if same_text(metric, "pressure") {
        "hPa"
    } else if same_text(metric, "wind") || same_text(metric, "wind_speed") || same_text(
        metric,
        "gusts",
    ) {
        if metric_units { "km/h" } else { "mph" }
    } else if same_text(metric, "precip") || same_text(metric, "precipitation") {
        "mm"
    } else {
        ""
    }
}

/// The colour band of a temperature in whole degrees Fahrenheit.
pub open spec fn temp_band(f: int) -> Seq<char> {
    if f <= 32 { "blue"@ }
    else if f <= 50 { "cyan"@ }
    else if f <= 70 { "green"@ }
    else if f <= 85 { "yellow"@ }
    else if f <= 100 { "red"@ }
    else { "magenta"@ }
}

/// The colour name for a temperature in whole degrees Fahrenheit.
pub fn temp_color_name(f: i32) -> (r: &'static str)
    ensures
        r@ == temp_band(f as int),
{
    if f <= 32 {
        "blue"
    } else if f <= 50 {
        "cyan"
    } else if f <= 70 {
        "green"
    } else if f <= 85 {
        "yellow"
    } else if f <= 100 {
        "red"
    } else {
        "magenta"
    }
}

/// The description and icon of a WMO weather interpretation code, as the
/// forecast service documents the codes.
pub open spec fn weather_code_text(code: u8) -> (Seq<char>, Seq<char>) {
    if code == 0 {
        ("Clear sky"@, "☀️"@)
    } else if code == 1 {
        ("Mainly clear"@, "🌤"@)
    } else if code == 2 {
        ("Partly cloudy"@, "⛅"@)
    } else if code == 3 {
        ("Overcast"@, "🌥"@)
    } else if code == 45 {
        ("Fog"@, "🌫"@)
    } else if code == 48 {
        ("Depositing rime fog"@, "🌫"@)
    } else if code == 51 {
        ("Light drizzle"@, "🌦"@)
    } else if code == 53 {
        ("Moderate drizzle"@, "🌦"@)
    } else if code == 55 {
        ("Dense drizzle"@, "🌦"@)
    } else if code == 56 {
        ("Light freezing drizzle"@, "🌧"@)
    } else if code == 57 {
        ("Dense freezing drizzle"@, "🌧"@)
    } else if code == 61 {
        ("Slight rain"@, "🌧"@)
    } else if code == 63 {
        ("Moderate rain"@, "🌧"@)
    } else if code == 65 {
        ("Heavy rain"@, "🌧"@)
    } else if code == 66 {
        ("Light freezing rain"@, "🌧"@)
    } else if code == 67 {
        ("Heavy freezing rain"@, "🌧"@)
    } else if code == 71 {
        ("Slight snow fall"@, "🌨"@)
    } else if code == 73 {
        ("Moderate snow fall"@, "🌨"@)
    } else if code == 75 {
        ("Heavy snow fall"@, "🌨"@)
    } else if code == 77 {
        ("Snow grains"@, "🌨"@)
    } else if code == 80 {
        ("Slight rain showers"@, "🌦"@)
    } else if code == 81 {
        ("Moderate rain showers"@, "🌦"@)
    } else if code == 82 {
        ("Violent rain showers"@, "🌦"@)
    } else if code == 85 {
        ("Slight snow showers"@, "🌨"@)
    } else if code == 86 {
        ("Heavy snow showers"@, "🌨"@)
    } else if code == 95 {
        ("Thunderstorm"@, "⛈"@)
    } else if code == 96 {
        ("Thunderstorm with slight hail"@, "⛈"@)
    } else if code == 99 {
        ("Thunderstorm with heavy hail"@, "⛈"@)
    } else {
        ("Unknown"@, "❓"@)
    }
}

/// The description and icon of a WMO weather interpretation code.
pub fn describe_weather_code(code: u8) -> (r: (&'static str, &'static str))
    ensures
        r.0@ == weather_code_text(code).0,
        r.1@ == weather_code_text(code).1,
{
    match code {
        0 => ("Clear sky", "☀️"),
        1 => ("Mainly clear", "🌤"),
        2 => ("Partly cloudy", "⛅"),
        3 => ("Overcast", "🌥"),
        45 => ("Fog", "🌫"),
        48 => ("Depositing rime fog", "🌫"),
        51 => ("Light drizzle", "🌦"),
        53 => ("Moderate drizzle", "🌦"),
        55 => ("Dense drizzle", "🌦"),
        56 => ("Light freezing drizzle", "🌧"),
        57 => ("Dense freezing drizzle", "🌧"),
        61 => ("Slight rain", "🌧"),
        63 => ("Moderate rain", "🌧"),
        65 => ("Heavy rain", "🌧"),
        66 => ("Light freezing rain", "🌧"),
        67 => ("Heavy freezing rain", "🌧"),
        71 => ("Slight snow fall", "🌨"),
        73 => ("Moderate snow fall", "🌨"),
        75 => ("Heavy snow fall", "🌨"),
        77 => ("Snow grains", "🌨"),
        80 => ("Slight rain showers", "🌦"),
        81 => ("Moderate rain showers", "🌦"),
        82 => ("Violent rain showers", "🌦"),
        85 => ("Slight snow showers", "🌨"),
        86 => ("Heavy snow showers", "🌨"),
        95 => ("Thunderstorm", "⛈"),
        96 => ("Thunderstorm with slight hail", "⛈"),
        99 => ("Thunderstorm with heavy hail", "⛈"),
        _ => ("Unknown", "❓"),
    }
}

/// A place as the geocoder names it: the place, its first-level region
/// and its country, when known.
pub struct GeoName {
    pub name: String,
    pub admin1: Option<String>,
    pub country: Option<String>,
}

/// The display form of a place: its name, region and country, the known
/// ones joined by ", ".
pub open spec fn place_text(name: Seq<char>, admin1: Option<Seq<char>>, country: Option<Seq<char>>) -> Seq<char> {
    let with_admin = match admin1 {
        Some(a) => name + ", "@ + a,
        None => name,
    };
    match country {
        Some(c) => with_admin + ", "@ + c,
        None => with_admin,
    }
}

/// The model of an optional string.
pub open spec fn opt_view(o: Option<String>) -> Option<Seq<char>> {
    match o {
        Some(s) => Some(s@),
        None => None,
    }
}

impl GeoName {
    /// "Name, Region, Country", leaving out the parts that are unknown.
    pub fn display_name(&self) -> (r: String)
        ensures
            r@ == place_text(self.name@, opt_view(self.admin1), opt_view(self.country)),
    {
        let mut r = self.name.clone();
        if let Some(a) = &self.admin1 {
            r.append(", ");
            r.append(a.as_str());
        }
        if let Some(c) = &self.country {
            r.append(", ");
            r.append(c.as_str());
        }
        r
    }
}

} // verus!
