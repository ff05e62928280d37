//! Defensive interpretation of the providers' JSON replies.
//!
//! Every nested lookup returns an option; any missing key or mis-typed
//! value anywhere along a chain makes the whole reply malformed, never a
//! partial or defaulted reading. A weather number beyond the decimal
//! model's nine integer digits reads as mis-typed too — no thermometer or
//! anemometer is owed more. Two status conventions are covered: the
//! geocoder's `status` string, and the direct weather provider's `cod`
//! field, which may itself be a JSON string or a JSON number; an
//! unreadably large numeric `cod` is still a provider-reported failure.

use vstd::prelude::*;
use vstd::string::*;
use crate::json::JsonValue;
use crate::json::spec_find;
use crate::json::spec_as_string;
use crate::json::spec_as_array;
use crate::json::spec_as_number;
use crate::num::Fixed;
use crate::num::fixed_wf;
use crate::num::spec_parse_fixed;
use crate::num::micros_rounded;
use crate::num::parse_fixed;
use crate::strutil::str_eq;

verus! {

/// A string directly under `key`.
pub open spec fn field_string(j: JsonValue, key: Seq<char>) -> Option<Seq<char>> {
    match spec_find(j, key) {
        Some(v) => spec_as_string(v),
        None => None,
    }
}

/// A number directly under `key`, in micro-units.
pub open spec fn field_number(j: JsonValue, key: Seq<char>) -> Option<int> {
    match spec_find(j, key) {
        Some(v) => spec_as_number(v),
        None => None,
    }
}

/// The decimal text of a numeric node, kept only where it reads as a number.
pub open spec fn spec_num_text(j: JsonValue) -> Option<Seq<char>> {
    match j {
        JsonValue::Num(t) => if spec_parse_fixed(t@) is Some {
            Some(t@)
        } else {
            None
        },
        _ => None,
    }
}

/// The decimal text of a numeric field under `key`.
pub open spec fn field_num_text(j: JsonValue, key: Seq<char>) -> Option<Seq<char>> {
    match spec_find(j, key) {
        Some(v) => spec_num_text(v),
        None => None,
    }
}

// ---------------------------------------------------------------------------
// The geocoding reply.
// ---------------------------------------------------------------------------
/// Coordinates in the provider's own decimal text, and the canonical
/// address of the best match.
pub struct GeoResult {
    pub lat: String,
    pub lon: String,
    pub address: String,
}

/// The ghost image of a [`GeoResult`].
pub struct GeoView {
    pub lat: Seq<char>,
    pub lon: Seq<char>,
    pub address: Seq<char>,
}

impl View for GeoResult {
    type V = GeoView;

    open spec fn view(&self) -> GeoView {
        GeoView { lat: self.lat@, lon: self.lon@, address: self.address@ }
    }
}

/// What a geocoding reply amounts to; exactly one case holds.
pub enum GeoOutcome {
    Success(GeoResult),
    NotFound,
    ProviderError,
    Malformed,
}

/// The ghost image of a [`GeoOutcome`].
pub enum GeoOutcomeView {
    Success(GeoView),
    NotFound,
    ProviderError,
    Malformed,
}

impl View for GeoOutcome {
    type V = GeoOutcomeView;

    open spec fn view(&self) -> GeoOutcomeView {
        match self {
            GeoOutcome::Success(g) => GeoOutcomeView::Success(g@),
            GeoOutcome::NotFound => GeoOutcomeView::NotFound,
            GeoOutcome::ProviderError => GeoOutcomeView::ProviderError,
            GeoOutcome::Malformed => GeoOutcomeView::Malformed,
        }
    }
}

/// How a geocoding reply is read: the `status` string must be `OK`, an
/// empty results array means no match, and the best match must carry an
/// address and numeric coordinates.
pub open spec fn spec_geo(j: JsonValue) -> GeoOutcomeView {
    match field_string(j, "status"@) {
        None => GeoOutcomeView::Malformed,
        Some(st) => if st != "OK"@ {
            GeoOutcomeView::ProviderError
        } else {
            match spec_find(j, "results"@) {
                None => GeoOutcomeView::Malformed,
                Some(rs) => match spec_as_array(rs) {
                    None => GeoOutcomeView::Malformed,
                    Some(arr) => if arr.len() == 0 {
                        GeoOutcomeView::NotFound
                    } else {
                        spec_geo_best(arr[0])
                    },
                },
            }
        },
    }
}

/// The fields read out of the best geocoding match.
pub open spec fn spec_geo_best(r0: JsonValue) -> GeoOutcomeView {
    match field_string(r0, "formatted_address"@) {
        None => GeoOutcomeView::Malformed,
        Some(addr) => match spec_find(r0, "geometry"@) {
            None => GeoOutcomeView::Malformed,
            Some(g) => match spec_find(g, "location"@) {
                None => GeoOutcomeView::Malformed,
                Some(lv) => match (field_num_text(lv, "lat"@), field_num_text(lv, "lng"@)) {
                    (Some(lat), Some(lon)) => GeoOutcomeView::Success(
                        GeoView { lat: lat, lon: lon, address: addr },
                    ),
                    _ => GeoOutcomeView::Malformed,
                },
            },
        },
    }
}

/// Read a geocoding reply.
pub fn interpret_geo(j: &JsonValue) -> (r: GeoOutcome)
    ensures
        r@ == spec_geo(*j),
{
    let st = match j.find("status") {
        Some(v) => match v.as_string() {
            Some(s) => s,
            None => {
                return GeoOutcome::Malformed;
            },
        },
        None => {
            return GeoOutcome::Malformed;
        },
    };
    if !str_eq(st, "OK") {
        return GeoOutcome::ProviderError;
    }
    let arr = match j.find("results") {
        Some(v) => match v.as_array() {
            Some(a) => a,
            None => {
                return GeoOutcome::Malformed;
            },
        },
        None => {
            return GeoOutcome::Malformed;
        },
    };
    if arr.len() == 0 {
        return GeoOutcome::NotFound;
    }
    let r0 = &arr[0];
    let addr = match r0.find("formatted_address") {
        Some(v) => match v.as_string() {
            Some(s) => s,
            None => {
                return GeoOutcome::Malformed;
            },
        },
        None => {
            return GeoOutcome::Malformed;
        },
    };
    let g = match r0.find("geometry") {
        Some(v) => v,
        None => {
            return GeoOutcome::Malformed;
        },
    };
    let lv = match g.find("location") {
        Some(v) => v,
        None => {
            return GeoOutcome::Malformed;
        },
    };
    let lat = match num_text_field(lv, "lat") {
        Some(t) => t,
        None => {
            return GeoOutcome::Malformed;
        },
    };
    let lon = match num_text_field(lv, "lng") {
        Some(t) => t,
        None => {
            return GeoOutcome::Malformed;
        },
    };
    GeoOutcome::Success(
        GeoResult { lat: lat.to_owned(), lon: lon.to_owned(), address: addr.to_owned() },
    )
}

/// The decimal text of a numeric field under `key`.
fn num_text_field<'a>(j: &'a JsonValue, key: &str) -> (r: Option<&'a str>)
    ensures
        match r {
            Some(t) => field_num_text(*j, key@) == Some(t@),
            None => field_num_text(*j, key@) is None,
        },
{
    match j.find(key) {
        Some(v) => match v {
            JsonValue::Num(t) => match parse_fixed(t.as_str()) {
                Some(_) => Some(t.as_str()),
                None => None,
            },
            _ => None,
        },
        None => None,
    }
}

// ---------------------------------------------------------------------------
// The forecast reply, read by coordinates.
// ---------------------------------------------------------------------------
/// The current conditions of the forecast provider: temperature in
/// Celsius, wind speed in m/s, humidity as a 0..1 fraction.
pub struct ForecastReading {
    pub summary: String,
    pub temperature: Fixed,
    pub humidity: Fixed,
    pub wind_speed: Fixed,
}

/// The ghost image of a [`ForecastReading`], numbers in micro-units.
pub struct ForecastView {
    pub summary: Seq<char>,
    pub temperature: int,
    pub humidity: int,
    pub wind_speed: int,
}

impl View for ForecastReading {
    type V = ForecastView;

    open spec fn view(&self) -> ForecastView {
        ForecastView {
            summary: self.summary@,
            temperature: self.temperature.micros as int,
            humidity: self.humidity.micros as int,
            wind_speed: self.wind_speed.micros as int,
        }
    }
}

/// How a forecast reply is read: everything lives under `currently`, and
/// each required field must be present and well-typed.
pub open spec fn spec_forecast(j: JsonValue) -> Option<ForecastView> {
    match spec_find(j, "currently"@) {
        None => None,
        Some(cur) => match (
            field_string(cur, "summary"@),
            field_number(cur, "temperature"@),
            field_number(cur, "humidity"@),
            field_number(cur, "windSpeed"@),
        ) {
            (Some(summary), Some(temperature), Some(humidity), Some(wind)) => Some(
                ForecastView {
                    summary: summary,
                    temperature: temperature,
                    humidity: humidity,
                    wind_speed: wind,
                },
            ),
            _ => None,
        },
    }
}

/// Read a forecast reply; `None` is a malformed reply.
pub fn interpret_forecast(j: &JsonValue) -> (r: Option<ForecastReading>)
    ensures
        match r {
            Some(w) => spec_forecast(*j) == Some(w@) && fixed_wf(w.temperature) && fixed_wf(
                w.humidity,
            ) && fixed_wf(w.wind_speed),
            None => spec_forecast(*j) is None,
        },
{
    let cur = match j.find("currently") {
        Some(v) => v,
        None => {
            return None;
        },
    };
    let summary = match cur.find("summary") {
        Some(v) => match v.as_string() {
            Some(s) => s,
            None => {
                return None;
            },
        },
        None => {
            return None;
        },
    };
    let temperature = match number_field(cur, "temperature") {
        Some(f) => f,
        None => {
            return None;
        },
    };
    let humidity = match number_field(cur, "humidity") {
        Some(f) => f,
        None => {
            return None;
        },
    };
    let wind_speed = match number_field(cur, "windSpeed") {
        Some(f) => f,
        None => {
            return None;
        },
    };
    Some(ForecastReading { summary: summary.to_owned(), temperature, humidity, wind_speed })
}

/// The value of a numeric field under `key`.
fn number_field(j: &JsonValue, key: &str) -> (r: Option<Fixed>)
    ensures
        match r {
            Some(f) => field_number(*j, key@) == Some(f.micros as int) && fixed_wf(f),
            None => field_number(*j, key@) is None,
        },
{
    match j.find(key) {
        Some(v) => v.as_number(),
        None => None,
    }
}

// ---------------------------------------------------------------------------
// The direct weather reply, read by place name.
// ---------------------------------------------------------------------------
/// What the `cod` status field of the direct provider says.
#[derive(PartialEq, Eq, Structural)]
pub enum CodCheck {
    /// The lookup succeeded; the reading can be extracted.
    Accepted,
    /// The JSON string `"404"`: the place is unknown.
    NotFound,
    /// A number other than 200: the code rounded to a whole number where
    /// its text reads as a decimal, `None` where it does not (the number
    /// is then too large for the library's numeric model, but is still a
    /// provider-reported failure).
    ProviderError(Option<i64>),
    /// A missing `cod`, or some JSON type that is neither string nor
    /// number.
    Malformed,
}

/// How the `cod` field is classified: the string `"404"` is no-match, any
/// other string is malformed; the number 200 is acceptance, any other
/// number — readable or not — a provider error; every other shape is
/// malformed.
pub open spec fn spec_cod(j: JsonValue) -> CodCheck {
    match spec_find(j, "cod"@) {
        None => CodCheck::Malformed,
        Some(c) => match c {
            JsonValue::Str(s) => if s@ == "404"@ {
                CodCheck::NotFound
            } else {
                CodCheck::Malformed
            },
            JsonValue::Num(t) => match spec_parse_fixed(t@) {
                None => CodCheck::ProviderError(None),
                Some(m) => if m == 200000000 {
                    CodCheck::Accepted
                } else {
                    CodCheck::ProviderError(Some(micros_rounded(m) as i64))
                },
            },
            _ => CodCheck::Malformed,
        },
    }
}

/// Classify the `cod` status field of a direct weather reply.
pub fn check_cod(j: &JsonValue) -> (r: CodCheck)
    ensures
        r == spec_cod(*j),
{
    let c = match j.find("cod") {
        Some(v) => v,
        None => {
            return CodCheck::Malformed;
        },
    };
    match c {
        JsonValue::Str(s) => {
            if str_eq(s.as_str(), "404") {
                CodCheck::NotFound
            } else {
                CodCheck::Malformed
            }
        },
        JsonValue::Num(t) => {
            match parse_fixed(t.as_str()) {
                None => CodCheck::ProviderError(None),
                Some(f) => {
                    if f.micros == 200000000 {
                        CodCheck::Accepted
                    } else {
                        CodCheck::ProviderError(Some(crate::num::round_to_unit(&f)))
                    }
                },
            }
        },
        _ => CodCheck::Malformed,
    }
}

/// The current conditions of the direct provider: temperature in Celsius,
/// wind speed in m/s, humidity already a percentage.
pub struct CurrentReading {
    pub label: String,
    pub region: Option<String>,
    pub condition: String,
    pub description: String,
    pub temperature: Fixed,
    pub wind_speed: Fixed,
    pub humidity: Fixed,
}

/// The ghost image of a [`CurrentReading`], numbers in micro-units.
pub struct CurrentView {
    pub label: Seq<char>,
    pub region: Option<Seq<char>>,
    pub condition: Seq<char>,
    pub description: Seq<char>,
    pub temperature: int,
    pub wind_speed: int,
    pub humidity: int,
}

impl View for CurrentReading {
    type V = CurrentView;

    open spec fn view(&self) -> CurrentView {
        CurrentView {
            label: self.label@,
            region: match self.region {
                Some(s) => Some(s@),
                None => None,
            },
            condition: self.condition@,
            description: self.description@,
            temperature: self.temperature.micros as int,
            wind_speed: self.wind_speed.micros as int,
            humidity: self.humidity.micros as int,
        }
    }
}

/// The country of the best match, where the reply carries one.
pub open spec fn spec_region(j: JsonValue) -> Option<Seq<char>> {
    match spec_find(j, "sys"@) {
        Some(s) => field_string(s, "country"@),
        None => None,
    }
}

/// How a direct weather reply's reading is extracted once its `cod` was
/// accepted: the place label, the first entry of the `weather` array with
/// its condition and description, and the numbers under `main` and `wind`.
/// The country under `sys` is optional; everything else is required.
pub open spec fn spec_current(j: JsonValue) -> Option<CurrentView> {
    match (spec_find(j, "weather"@), spec_find(j, "main"@), spec_find(j, "wind"@)) {
        (Some(w), Some(main), Some(wind)) => match spec_as_array(w) {
            None => None,
            Some(arr) => if arr.len() == 0 {
                None
            } else {
                match (
                    field_string(j, "name"@),
                    field_string(arr[0], "main"@),
                    field_string(arr[0], "description"@),
                    field_number(main, "temp"@),
                    field_number(main, "humidity"@),
                    field_number(wind, "speed"@),
                ) {
                    (
                        Some(label),
                        Some(condition),
                        Some(description),
                        Some(temperature),
                        Some(humidity),
                        Some(speed),
                    ) => Some(
                        CurrentView {
                            label: label,
                            region: spec_region(j),
                            condition: condition,
                            description: description,
                            temperature: temperature,
                            wind_speed: speed,
                            humidity: humidity,
                        },
                    ),
                    _ => None,
                }
            },
        },
        _ => None,
    }
}

/// Read the reading out of a direct weather reply; `None` is a malformed
/// reply.
pub fn interpret_current(j: &JsonValue) -> (r: Option<CurrentReading>)
    ensures
        match r {
            Some(w) => spec_current(*j) == Some(w@) && fixed_wf(w.temperature) && fixed_wf(
                w.wind_speed,
            ) && fixed_wf(w.humidity),
            None => spec_current(*j) is None,
        },
{
    let w = match j.find("weather") {
        Some(v) => v,
        None => {
            return None;
        },
    };
    let main = match j.find("main") {
        Some(v) => v,
        None => {
            return None;
        },
    };
    let wind = match j.find("wind") {
        Some(v) => v,
        None => {
            return None;
        },
    };
    let arr = match w.as_array() {
        Some(a) => a,
        None => {
            return None;
        },
    };
    if arr.len() == 0 {
        return None;
    }
    let w0 = &arr[0];
    let label = match j.find("name") {
        Some(v) => match v.as_string() {
            Some(s) => s,
            None => {
                return None;
            },
        },
        None => {
            return None;
        },
    };
    let condition = match w0.find("main") {
        Some(v) => match v.as_string() {
            Some(s) => s,
            None => {
                return None;
            },
        },
        None => {
            return None;
        },
    };
    let description = match w0.find("description") {
        Some(v) => match v.as_string() {
            Some(s) => s,
            None => {
                return None;
            },
        },
        None => {
            return None;
        },
    };
    let temperature = match number_field(main, "temp") {
        Some(f) => f,
        None => {
            return None;
        },
    };
    let humidity = match number_field(main, "humidity") {
        Some(f) => f,
        None => {
            return None;
        },
    };
    let speed = match number_field(wind, "speed") {
        Some(f) => f,
        None => {
            return None;
        },
    };
    let region: Option<String> = match j.find("sys") {
        Some(s) => match s.find("country") {
            Some(v) => match v.as_string() {
                Some(c) => Some(c.to_owned()),
                None => None,
            },
            None => None,
        },
        None => None,
    };
    Some(
        CurrentReading {
            label: label.to_owned(),
            region,
            condition: condition.to_owned(),
            description: description.to_owned(),
            temperature,
            wind_speed: speed,
            humidity,
        },
    )
}

} // verus!
