//! The steps of serving a month: request validation, the schedule and config
//! caches read against the clock, the upstream URL, and error reporting.
use vstd::prelude::*;

use crate::cache::TtlCache;
use crate::calendar::{get_month_bounds, is_valid_ym, month_length, month_of, two_digits, valid_ym, year_of};

verus! {

/// Blob key of the display configuration document.
pub const CONFIG_DISPLAY: &'static str = "shift-display.config.json";

/// Blob key of the styling configuration document.
pub const CONFIG_STYLING: &'static str = "shift-styling.config.json";

/// Seconds a configuration document is served from cache unless configured otherwise.
pub const DEFAULT_CONFIG_TTL_SECONDS: u64 = 300;

/// Whether a text is one well-formed JSON document.
pub uninterp spec fn is_json(s: Seq<char>) -> bool;

/// Relies on `chrono::Utc::now` and `DateTime::timestamp`: the current Unix
/// time in seconds, of which nothing is promised.
#[verifier::external_body]
fn now_seconds() -> (r: i64) {
    chrono::Utc::now().timestamp()
}

/// Relies on `serde_json::from_str::<serde_json::Value>`: whether the text
/// parses as a JSON value, which depends on the text alone.
#[verifier::external_body]
fn json_well_formed(s: &str) -> (r: bool)
    ensures
        r == is_json(s@),
{
    serde_json::from_str::<serde_json::Value>(s).is_ok()
}

/// Why a month could not be served.
pub enum ScheduleError {
    /// The service's own settings are missing.
    Config,
    /// No `ym` parameter.
    MissingParam,
    /// A `ym` that is not a well-formed key.
    InvalidYm,
    /// The upstream call ran out of time on every attempt.
    UpstreamTimeout,
    /// The upstream answered with a non-success status.
    UpstreamStatus(u16),
    /// The upstream could not be reached.
    UpstreamTransport,
    /// The upstream payload did not have the expected shape.
    Parse,
}

/// HTTP status reported for each error.
pub open spec fn status_of(e: ScheduleError) -> u16 {
    match e {
        ScheduleError::Config => 500,
        ScheduleError::MissingParam => 400,
        ScheduleError::InvalidYm => 400,
        ScheduleError::UpstreamTimeout => 504,
        ScheduleError::UpstreamStatus(_) => 502,
        ScheduleError::UpstreamTransport => 502,
        ScheduleError::Parse => 500,
    }
}

/// The HTTP status reported for an error.
pub fn error_status(e: &ScheduleError) -> (r: u16)
    ensures
        r == status_of(*e),
{
    match e {
        ScheduleError::Config => 500,
        ScheduleError::MissingParam => 400,
        ScheduleError::InvalidYm => 400,
        ScheduleError::UpstreamTimeout => 504,
        ScheduleError::UpstreamStatus(_) => 502,
        ScheduleError::UpstreamTransport => 502,
        ScheduleError::Parse => 500,
    }
}

/// The machine-readable code reported for an error.
pub fn error_code(e: &ScheduleError) -> (r: &'static str)
    ensures
        r@ == match *e {
            ScheduleError::Config => "CONFIG_ERROR"@,
            ScheduleError::MissingParam => "MISSING_PARAM"@,
            ScheduleError::InvalidYm => "INVALID_YM"@,
            ScheduleError::UpstreamTimeout => "UPSTREAM_TIMEOUT"@,
            ScheduleError::UpstreamStatus(_) => "UPSTREAM_ERROR"@,
            ScheduleError::UpstreamTransport => "UPSTREAM_ERROR"@,
            ScheduleError::Parse => "PARSE_ERROR"@,
        },
{
    match e {
        ScheduleError::Config => "CONFIG_ERROR",
        ScheduleError::MissingParam => "MISSING_PARAM",
        ScheduleError::InvalidYm => "INVALID_YM",
        ScheduleError::UpstreamTimeout => "UPSTREAM_TIMEOUT",
        ScheduleError::UpstreamStatus(_) => "UPSTREAM_ERROR",
        ScheduleError::UpstreamTransport => "UPSTREAM_ERROR",
        ScheduleError::Parse => "PARSE_ERROR",
    }
}

/// Checks the `ym` parameter of a request before any cache or network access.
pub fn check_month_param(ym: Option<&str>) -> (r: Result<(), ScheduleError>)
    ensures
        ym is None ==> r matches Err(ScheduleError::MissingParam),
        ym matches Some(s) ==> (r is Ok <==> valid_ym(s@)),
        ym matches Some(s) ==> (!valid_ym(s@) ==> r matches Err(ScheduleError::InvalidYm)),
{
    match ym {
        None => Err(ScheduleError::MissingParam),
        Some(s) => if is_valid_ym(s) {
            Ok(())
        } else {
            Err(ScheduleError::InvalidYm)
        },
    }
}

/// The upstream schedule URL for the month of `ym`: its first and last
/// dates, the token, and the live schedule version.
pub fn schedule_url(base: &str, token: &str, ym: &str) -> (r: Option<String>)
    ensures
        r is Some <==> valid_ym(ym@),
        r matches Some(u) ==> u@ == base@ + "/public/schedule?token="@ + token@ + "&startDate="@
            + ym@ + "-01"@ + "&endDate="@ + ym@ + seq!['-'] + two_digits(
            month_length(year_of(ym@), month_of(ym@)),
        ) + "&scheduleVersion=live"@,
{
    match get_month_bounds(ym) {
        None => None,
        Some((start, end)) => {
            proof {
                reveal_strlit("-01");
                assert(start@ =~= ym@ + "-01"@);
            }
            let mut url = String::from_str(base);
            url.append("/public/schedule?token=");
            url.append(token);
            url.append("&startDate=");
            url.append(start.as_str());
            url.append("&endDate=");
            url.append(end.as_str());
            url.append("&scheduleVersion=live");
            proof {
                assert(url@ =~= base@ + "/public/schedule?token="@ + token@ + "&startDate="@ + ym@
                    + "-01"@ + "&endDate="@ + ym@ + seq!['-'] + two_digits(
                    month_length(year_of(ym@), month_of(ym@)),
                ) + "&scheduleVersion=live"@);
            }
            Some(url)
        },
    }
}

/// The cached payload of month `ym`, read against the clock: none when the TTL
/// is zero; else the stored payload when it is fresh, a stale one being evicted.
pub fn get_cached_schedule(cache: &mut TtlCache, ym: &str, ttl_seconds: u64) -> (r: Option<String>)
    ensures
        ttl_seconds == 0 ==> r is None && final(cache)@ == old(cache)@,
        r matches Some(v) ==> old(cache)@.contains_key(ym@) && v@ == old(cache)@[ym@].0
            && final(cache)@ == old(cache)@,
        r is None ==> final(cache)@ == old(cache)@ || final(cache)@ == old(cache)@.remove(ym@),
{
    let now = now_seconds();
    cache.get(ym, now, ttl_seconds)
}

/// Stores the payload of month `ym` as fetched now, whatever the TTL.
pub fn store_schedule_in_cache(cache: &mut TtlCache, ym: &str, json: String)
    ensures
        final(cache)@.dom() == old(cache)@.dom().insert(ym@),
        final(cache)@[ym@].0 == json@,
        forall|k: Seq<char>| k != ym@ && #[trigger] old(cache)@.contains_key(k) ==> final(cache)@[k]
            == old(cache)@[k],
{
    let now = now_seconds();
    cache.put(String::from_str(ym), json, now);
}

/// The blob key of a configuration name (`shift-display`, `shift-styling`).
pub fn config_key(name: &str) -> (r: Option<&'static str>)
    ensures
        r is Some <==> (name@ == "shift-display"@ || name@ == "shift-styling"@),
        name@ == "shift-display"@ ==> r == Some(CONFIG_DISPLAY),
        name@ == "shift-styling"@ ==> r == Some(CONFIG_STYLING),
{
    proof {
        reveal_strlit("shift-display");
        reveal_strlit("shift-styling");
        assert("shift-display"@[6] != "shift-styling"@[6]);
    }
    if crate::text::str_eq(name, "shift-display") {
        Some(CONFIG_DISPLAY)
    } else if crate::text::str_eq(name, "shift-styling") {
        Some(CONFIG_STYLING)
    } else {
        None
    }
}

/// A configuration document still fresh in the cache, read against the clock.
pub fn cached_config(cache: &TtlCache, key: &str, ttl_seconds: u64) -> (r: Option<String>)
    ensures
        ttl_seconds == 0 ==> r is None,
        r matches Some(v) ==> cache@.contains_key(key@) && v@ == cache@[key@].0,
        !cache@.contains_key(key@) ==> r is None,
{
    let now = now_seconds();
    cache.peek_fresh(key, now, ttl_seconds)
}

/// Why a fetched configuration document was refused.
pub enum ConfigError {
    InvalidJson,
}

/// What a configuration blob fetched after a cache miss becomes: an absent
/// blob is the empty document `{}` and is not cached; a well-formed one is
/// cached as fetched now and returned; a malformed one is refused.
pub fn accept_config_blob(cache: &mut TtlCache, key: &str, blob: Option<String>) -> (r: Result<
    String,
    ConfigError,
>)
    ensures
        blob is None ==> r is Ok && r->Ok_0@ == "{}"@ && final(cache)@ == old(cache)@,
        blob matches Some(b) ==> (is_json(b@) ==> r is Ok && r->Ok_0@ == b@ && final(cache)@.dom()
            == old(cache)@.dom().insert(key@) && final(cache)@[key@].0 == b@),
        blob matches Some(b) ==> (!is_json(b@) ==> r is Err && final(cache)@ == old(cache)@),
{
    match blob {
        None => Ok(String::from_str("{}")),
        Some(text) => {
            if json_well_formed(text.as_str()) {
                let now = now_seconds();
                cache.put(String::from_str(key), text.clone(), now);
                Ok(text)
            } else {
                Err(ConfigError::InvalidJson)
            }
        },
    }
}

/// Empties a configuration cache.
pub fn clear_config_cache(cache: &mut TtlCache)
    ensures
        final(cache)@ == Map::<Seq<char>, (Seq<char>, int)>::empty(),
{
    cache.clear();
}

} // verus!
