//! The weather command itself.
//!
//! The handler is written as decision steps from plain values to plain
//! values: the loop around it resolves the user's location, performs one
//! blocking fetch per stage, and hands each response body back. Every
//! decision — which location to look up, what a body means, what reply to
//! send, when the store is updated — is made and proved here. A step that
//! yields no reply is a silent abort; the store changes only when a
//! weather stage succeeds.

use vstd::prelude::*;
use vstd::string::*;
use crate::store::LocationStore;
use crate::json::json_of;
use crate::json::parse_json;
use crate::json::check_tame_body;
use crate::json::tame_json_body;
use crate::interpret::GeoOutcome;
use crate::interpret::GeoOutcomeView;
use crate::interpret::GeoResult;
use crate::interpret::spec_geo;
use crate::interpret::interpret_geo;
use crate::interpret::ForecastReading;
use crate::interpret::ForecastView;
use crate::interpret::spec_forecast;
use crate::interpret::interpret_forecast;
use crate::interpret::CodCheck;
use crate::interpret::spec_cod;
use crate::interpret::check_cod;
use crate::interpret::CurrentView;
use crate::interpret::spec_current;
use crate::interpret::interpret_current;
use crate::num::dec_int;
use crate::num::micros_rounded;
use crate::num::ms_to_kmh_micros;
use crate::num::ms_to_kmh;
use crate::num::fraction_to_percent;
use crate::num::round_to_unit;
use crate::num::push_i64;

verus! {

/// The reply for a bare command with no stored location.
pub fn no_saved_reply() -> (r: String)
    ensures
        r@ == "No saved location"@,
{
    String::from_str("No saved location")
}

/// The reply when the direct provider knows no such place.
pub open spec fn not_found_text(arg: Seq<char>) -> Seq<char> {
    "Location ("@ + arg + ") not found"@
}

/// The reply for a provider-reported failure of the direct provider.
pub fn error_reply() -> (r: String)
    ensures
        r@ == "Error"@,
{
    String::from_str("Error")
}

/// How the effective lookup location is resolved.
pub enum Resolution {
    /// Look this location up.
    UseLocation(String),
    /// Send the no-saved-location reply and stop; no lookup happens.
    ReplyNoSaved,
}

/// Resolve the effective location: a non-empty argument wins, a bare
/// command falls back to the user's stored location, and without either
/// the user is told there is nothing saved.
pub fn resolve_location(store: &LocationStore, user: &str, args: &str) -> (r: Resolution)
    requires
        store.wf(),
    ensures
        args@.len() > 0 ==> (r matches Resolution::UseLocation(l) && l@ == args@),
        args@.len() == 0 && store@.contains_key(user@) ==> (r matches Resolution::UseLocation(l)
            && l@ == store@[user@]),
        args@.len() == 0 && !store@.contains_key(user@) ==> r is ReplyNoSaved,
{
    if !args.is_empty() {
        Resolution::UseLocation(args.to_owned())
    } else {
        match store.get(user) {
            Some(l) => Resolution::UseLocation(l.clone()),
            None => Resolution::ReplyNoSaved,
        }
    }
}

/// The success reply of the forecast pipeline: temperature rounded to a
/// whole degree Celsius, wind converted from m/s to km/h, the 0..1
/// humidity as a percentage.
pub open spec fn forecast_reply_text(address: Seq<char>, w: ForecastView) -> Seq<char> {
    address + ": "@ + w.summary + " "@ + dec_int(micros_rounded(w.temperature)) + "C, "@ + dec_int(
        micros_rounded(ms_to_kmh_micros(w.wind_speed)),
    ) + " km/hr wind, "@ + dec_int(micros_rounded(100 * w.humidity)) + "% humidity"@
}

/// Format the forecast success reply.
pub fn format_forecast_reply(address: &str, w: &ForecastReading) -> (r: String)
    requires
        crate::num::fixed_wf(w.temperature),
        crate::num::fixed_wf(w.humidity),
        crate::num::fixed_wf(w.wind_speed),
    ensures
        r@ == forecast_reply_text(address@, w@),
{
    let mut out = address.to_owned();
    out.append(": ");
    out.append(w.summary.as_str());
    out.append(" ");
    push_i64(&mut out, round_to_unit(&w.temperature));
    out.append("C, ");
    let kmh = ms_to_kmh(&w.wind_speed);
    push_i64(&mut out, round_to_unit(&kmh));
    out.append(" km/hr wind, ");
    let pct = fraction_to_percent(&w.humidity);
    push_i64(&mut out, round_to_unit(&pct));
    out.append("% humidity");
    proof {
        assert(out@ =~= forecast_reply_text(address@, w@));
    }
    out
}

/// The success reply of the direct pipeline: place label with its country
/// when one came back, condition with its description, temperature rounded
/// to a whole degree, wind converted from m/s to km/h, humidity passed
/// through as the percentage the provider reports.
pub open spec fn current_reply_text(w: CurrentView) -> Seq<char> {
    (match w.region {
        Some(rg) => w.label + ", "@ + rg,
        None => w.label,
    }) + ": "@ + w.condition + " ("@ + w.description + ") "@ + dec_int(
        micros_rounded(w.temperature),
    ) + "C, "@ + dec_int(micros_rounded(ms_to_kmh_micros(w.wind_speed))) + " km/hr wind, "@
        + dec_int(micros_rounded(w.humidity)) + "% humidity"@
}

/// Format the direct success reply.
pub fn format_current_reply(w: &crate::interpret::CurrentReading) -> (r: String)
    requires
        crate::num::fixed_wf(w.temperature),
        crate::num::fixed_wf(w.wind_speed),
        crate::num::fixed_wf(w.humidity),
    ensures
        r@ == current_reply_text(w@),
{
    let mut out = w.label.clone();
    match &w.region {
        Some(rg) => {
            out.append(", ");
            out.append(rg.as_str());
        },
        None => {},
    }
    out.append(": ");
    out.append(w.condition.as_str());
    out.append(" (");
    out.append(w.description.as_str());
    out.append(") ");
    push_i64(&mut out, round_to_unit(&w.temperature));
    out.append("C, ");
    let kmh = ms_to_kmh(&w.wind_speed);
    push_i64(&mut out, round_to_unit(&kmh));
    out.append(" km/hr wind, ");
    push_i64(&mut out, round_to_unit(&w.humidity));
    out.append("% humidity");
    proof {
        assert(out@ =~= current_reply_text(w@));
    }
    out
}

/// The not-found reply of the direct pipeline, naming the argument as
/// given.
pub fn not_found_reply(arg: &str) -> (r: String)
    ensures
        r@ == not_found_text(arg@),
{
    let mut out = String::from_str("Location (");
    out.append(arg);
    out.append(") not found");
    proof {
        assert(out@ =~= not_found_text(arg@));
    }
    out
}

/// What the geocode stage decides.
pub enum GeoStep {
    /// Stop silently: transport-level and parse-level geocoding failures
    /// never reach the channel.
    Abort,
    /// Go on to the weather stage with these coordinates and address.
    Located(GeoResult),
}

/// Decide on a geocoding response body: only a well-formed reply with
/// status `OK` and a non-empty result list goes forward; everything else
/// aborts silently.
pub fn geo_step(body: &str) -> (r: GeoStep)
    ensures
        !tame_json_body(body) ==> r is Abort,
        tame_json_body(body) ==> match json_of(body@) {
            None => r is Abort,
            Some(j) => match spec_geo(j) {
                GeoOutcomeView::Success(gv) => r matches GeoStep::Located(g) && g@ == gv,
                _ => r is Abort,
            },
        },
{
    if !check_tame_body(body) {
        return GeoStep::Abort;
    }
    match parse_json(body) {
        None => GeoStep::Abort,
        Some(j) => match interpret_geo(&j) {
            GeoOutcome::Success(g) => GeoStep::Located(g),
            _ => GeoStep::Abort,
        },
    }
}

/// Decide on a forecast response body. A malformed body yields no reply
/// and leaves the store as it was; a good reading yields the formatted
/// reply, and only then is the user's location remembered.
pub fn forecast_step(
    store: &mut LocationStore,
    user: &str,
    location: &str,
    address: &str,
    body: &str,
) -> (r: Option<String>)
    requires
        old(store).wf(),
    ensures
        final(store).wf(),
        !tame_json_body(body) ==> r is None && final(store)@ == old(store)@,
        tame_json_body(body) ==> match json_of(body@) {
            None => r is None && final(store)@ == old(store)@,
            Some(j) => match spec_forecast(j) {
                None => r is None && final(store)@ == old(store)@,
                Some(w) => (r matches Some(t) && t@ == forecast_reply_text(address@, w)) && final(store)@ == old(store)@.insert(user@, location@),
            },
        },
{
    if !check_tame_body(body) {
        return None;
    }
    match parse_json(body) {
        None => None,
        Some(j) => match interpret_forecast(&j) {
            None => None,
            Some(w) => {
                store.put(user, location);
                Some(format_forecast_reply(address, &w))
            },
        },
    }
}

/// Decide on a direct weather response body. The `cod` status decides
/// first: the string `"404"` names the argument in a not-found reply, a
/// number other than 200 yields the generic error reply, anything
/// malformed stays silent — and none of those touches the store. Only an
/// accepted status with a full reading yields the weather reply and
/// remembers the location.
pub fn direct_step(
    store: &mut LocationStore,
    user: &str,
    location: &str,
    argument: &str,
    body: &str,
) -> (r: Option<String>)
    requires
        old(store).wf(),
    ensures
        final(store).wf(),
        !tame_json_body(body) ==> r is None && final(store)@ == old(store)@,
        tame_json_body(body) ==> match json_of(body@) {
            None => r is None && final(store)@ == old(store)@,
            Some(j) => match spec_cod(j) {
                CodCheck::NotFound => (r matches Some(t) && t@ == not_found_text(argument@))
                    && final(store)@ == old(store)@,
                CodCheck::ProviderError(_) => (r matches Some(t) && t@ == "Error"@) && final(store)@ == old(store)@,
                CodCheck::Malformed => r is None && final(store)@ == old(store)@,
                CodCheck::Accepted => match spec_current(j) {
                    None => r is None && final(store)@ == old(store)@,
                    Some(w) => (r matches Some(t) && t@ == current_reply_text(w))
                        && final(store)@ == old(store)@.insert(user@, location@),
                },
            },
        },
{
    if !check_tame_body(body) {
        return None;
    }
    match parse_json(body) {
        None => None,
        Some(j) => match check_cod(&j) {
            CodCheck::NotFound => Some(not_found_reply(argument)),
            CodCheck::ProviderError(_) => Some(error_reply()),
            CodCheck::Malformed => None,
            CodCheck::Accepted => match interpret_current(&j) {
                None => None,
                Some(w) => {
                    store.put(user, location);
                    Some(format_current_reply(&w))
                },
            },
        },
    }
}

} // verus!
