//! Month-grid aggregation of shift schedules: shift-code normalisation,
//! calendar arithmetic, grid building, response caching and retry policy.
pub mod access;
pub mod cache;
pub mod calendar;
pub mod config;
pub mod grid;
pub mod pipeline;
pub mod retry;
pub mod telemetry;
pub mod text;

pub use access::{cookie_grants_access, has_access_token, verify_access_token};
pub use cache::{CacheEntry, TtlCache};
pub use calendar::{days_in_month, get_month_bounds, is_valid_ym, month_days, parse_ym};
pub use config::{
    extract_shift_code, ConditionalUnderline, RawShiftDisplayConfig, ShiftDisplayConfig,
    ShiftStylingConfig, TextMap,
};
pub use grid::{
    extract_day_from_datetime, parse_usize, person_id, person_name, transform_to_month_shifts,
    MonthShifts, Person, RawShift,
};
pub use pipeline::{
    accept_config_blob, cached_config, check_month_param, clear_config_cache, config_key,
    error_code, error_status, get_cached_schedule, schedule_url, store_schedule_in_cache,
    ConfigError, ScheduleError, CONFIG_DISPLAY, CONFIG_STYLING, DEFAULT_CONFIG_TTL_SECONDS,
};
pub use retry::{decide, AttemptOutcome, RetryDecision, RetryState};
pub use telemetry::{TelemetryBuffer, TelemetryIngestResult};
