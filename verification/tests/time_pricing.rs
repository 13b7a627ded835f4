use aether::clock::{MAX_UNIX_MS, MIN_UNIX_MS};
use aether::json::{Json, JsonMap, JsonNumber};
use aether::time_pricing::{
    parse_time_pricing, parse_time_pricing_catalog_state, resolve_time_pricing_window,
    weekday_index, window_covering, TimePricingCatalogState, TimePricingConfig, Weekday,
};
use chrono::{NaiveDate, NaiveTime, TimeZone, Utc};

fn to_json(value: &serde_json::Value) -> Json {
    match value {
        serde_json::Value::Null => Json::Null,
        serde_json::Value::Bool(b) => Json::Bool(*b),
        serde_json::Value::Number(n) => {
            if let Some(u) = n.as_u64() {
                Json::Number(JsonNumber::PosInt(u))
            } else if let Some(i) = n.as_i64() {
                Json::Number(JsonNumber::NegInt(i))
            } else {
                Json::Number(JsonNumber::Float(n.as_f64().unwrap_or(0.0).to_bits()))
            }
        }
        serde_json::Value::String(s) => Json::String(s.clone()),
        serde_json::Value::Array(items) => Json::Array(items.iter().map(to_json).collect()),
        serde_json::Value::Object(entries) => {
            let mut map = JsonMap::new();
            for (key, item) in entries {
                map.insert(key.clone(), to_json(item));
            }
            Json::Object(map)
        }
    }
}

fn parse(text: &str) -> Json {
    to_json(&serde_json::from_str::<serde_json::Value>(text).expect("valid JSON"))
}

fn workday_config() -> TimePricingConfig {
    parse_time_pricing(
        "models.tiered_pricing",
        Some(&parse(
            r#"{
                "time_pricing": {
                    "timezone": "Asia/Shanghai",
                    "windows": [
                        {
                            "id": "workday-morning-peak",
                            "weekdays": ["monday", "tuesday", "wednesday", "thursday", "friday"],
                            "start": "09:00",
                            "end": "12:00",
                            "price_multiplier": 2
                        },
                        {
                            "id": "workday-afternoon-peak",
                            "weekdays": ["monday", "tuesday", "wednesday", "thursday", "friday"],
                            "start": "14:00",
                            "end": "18:00",
                            "price_multiplier": 2
                        }
                    ]
                }
            }"#,
        )),
    )
    .expect("config should parse")
    .expect("config should be present")
}

fn shanghai_millis(date: &str, time: &str) -> i64 {
    let date = NaiveDate::parse_from_str(date, "%Y-%m-%d").expect("naive date");
    let time = NaiveTime::parse_from_str(time, "%H:%M").expect("naive time");
    let naive = date.and_time(time);
    chrono_tz::Asia::Shanghai
        .from_local_datetime(&naive)
        .single()
        .expect("unambiguous local time")
        .timestamp_millis()
}

#[test]
fn resolves_boundary_minutes_as_half_open_windows() {
    let config = workday_config();
    // 2026-09-21 is a Monday.
    for (time, expected) in [
        ("08:59", None),
        ("09:00", Some("workday-morning-peak")),
        ("11:59", Some("workday-morning-peak")),
        ("12:00", None),
        ("13:59", None),
        ("14:00", Some("workday-afternoon-peak")),
        ("17:59", Some("workday-afternoon-peak")),
        ("18:00", None),
    ] {
        let resolved = resolve_time_pricing_window(&config, shanghai_millis("2026-09-21", time));
        assert_eq!(
            resolved.map(|window| window.id.as_str()),
            expected,
            "unexpected window for {time}"
        );
    }
}

#[test]
fn weekend_is_never_peak() {
    let config = workday_config();
    // 2026-09-20 is a Sunday.
    assert!(resolve_time_pricing_window(&config, shanghai_millis("2026-09-20", "10:00")).is_none());
    assert!(resolve_time_pricing_window(&config, shanghai_millis("2026-09-19", "15:00")).is_none());
}

#[test]
fn configuration_timezone_governs_not_the_utc_hour() {
    let config = workday_config();
    // 2026-09-21 01:30 UTC is 09:30 in Shanghai, so it is peak.
    let utc = NaiveDate::from_ymd_opt(2026, 9, 21).unwrap().and_hms_opt(1, 30, 0).unwrap();
    let at = Utc.from_utc_datetime(&utc).timestamp_millis();
    assert_eq!(
        resolve_time_pricing_window(&config, at).map(|window| window.id.as_str()),
        Some("workday-morning-peak")
    );
}

#[test]
fn absent_config_is_not_an_error() {
    assert!(parse_time_pricing("models.tiered_pricing", None)
        .expect("absent catalog")
        .is_none());
    assert!(parse_time_pricing("models.tiered_pricing", Some(&parse(r#"{"tiers": []}"#)))
        .expect("catalog without time pricing")
        .is_none());
}

#[test]
fn catalog_state_distinguishes_inheritance_from_explicit_disable() {
    assert_eq!(
        parse_time_pricing_catalog_state("models.tiered_pricing", Some(&parse("{}")))
            .expect("missing field should inherit"),
        TimePricingCatalogState::Inherit
    );
    assert_eq!(
        parse_time_pricing_catalog_state(
            "models.tiered_pricing",
            Some(&parse(r#"{"time_pricing": null}"#)),
        )
        .expect("null should explicitly disable"),
        TimePricingCatalogState::Disabled
    );
}

#[test]
fn rejects_malformed_configurations() {
    for (label, value) in [
        ("unknown timezone", r#"{"timezone": "Mars/Olympus", "windows": []}"#),
        ("empty windows", r#"{"timezone": "Asia/Shanghai", "windows": []}"#),
        (
            "bad time",
            r#"{"timezone": "Asia/Shanghai", "windows": [{"id": "a", "weekdays": ["monday"], "start": "9:00", "end": "12:00", "price_multiplier": 2}]}"#,
        ),
        (
            "reversed range",
            r#"{"timezone": "Asia/Shanghai", "windows": [{"id": "a", "weekdays": ["monday"], "start": "12:00", "end": "09:00", "price_multiplier": 2}]}"#,
        ),
        (
            "negative multiplier",
            r#"{"timezone": "Asia/Shanghai", "windows": [{"id": "a", "weekdays": ["monday"], "start": "09:00", "end": "12:00", "price_multiplier": -1}]}"#,
        ),
        (
            "excessive multiplier",
            r#"{"timezone": "Asia/Shanghai", "windows": [{"id": "a", "weekdays": ["monday"], "start": "09:00", "end": "12:00", "price_multiplier": 101}]}"#,
        ),
        (
            "unknown weekday",
            r#"{"timezone": "Asia/Shanghai", "windows": [{"id": "a", "weekdays": ["funday"], "start": "09:00", "end": "12:00", "price_multiplier": 2}]}"#,
        ),
        (
            "empty weekdays",
            r#"{"timezone": "Asia/Shanghai", "windows": [{"id": "a", "weekdays": [], "start": "09:00", "end": "12:00", "price_multiplier": 2}]}"#,
        ),
        (
            "duplicate id",
            r#"{"timezone": "Asia/Shanghai", "windows": [
                {"id": "a", "weekdays": ["monday"], "start": "09:00", "end": "12:00", "price_multiplier": 2},
                {"id": "a", "weekdays": ["tuesday"], "start": "09:00", "end": "12:00", "price_multiplier": 2}
            ]}"#,
        ),
        (
            "overlapping windows",
            r#"{"timezone": "Asia/Shanghai", "windows": [
                {"id": "a", "weekdays": ["monday"], "start": "09:00", "end": "12:00", "price_multiplier": 2},
                {"id": "b", "weekdays": ["monday"], "start": "11:00", "end": "13:00", "price_multiplier": 3}
            ]}"#,
        ),
    ] {
        let body = format!(r#"{{ "time_pricing": {value} }}"#);
        let error = parse_time_pricing("models.tiered_pricing", Some(&parse(&body))).unwrap_err();
        assert!(!error.is_empty(), "{label} should be rejected");
    }
}

#[test]
fn adjacent_windows_do_not_count_as_overlapping() {
    parse_time_pricing(
        "models.tiered_pricing",
        Some(&parse(
            r#"{
                "time_pricing": {
                    "timezone": "Asia/Shanghai",
                    "windows": [
                        {"id": "a", "weekdays": ["monday"], "start": "09:00", "end": "12:00", "price_multiplier": 2},
                        {"id": "b", "weekdays": ["monday"], "start": "12:00", "end": "14:00", "price_multiplier": 2}
                    ]
                }
            }"#,
        )),
    )
    .expect("adjacent windows are valid");
}

fn error_for(block: &str) -> String {
    let body = format!(r#"{{ "time_pricing": {block} }}"#);
    parse_time_pricing_catalog_state("models.tiered_pricing", Some(&parse(&body))).unwrap_err()
}

#[test]
fn reports_each_complaint_with_its_path() {
    assert_eq!(error_for("[]"), "models.tiered_pricing.time_pricing must be an object");
    assert_eq!(
        error_for(r#"{"timezone": "  "}"#),
        "models.tiered_pricing.time_pricing.timezone must be a non-empty IANA timezone"
    );
    assert_eq!(
        error_for(r#"{"timezone": " Mars/Olympus ", "windows": []}"#),
        "models.tiered_pricing.time_pricing.timezone `Mars/Olympus` is not a known IANA timezone"
    );
    assert_eq!(
        error_for(r#"{"timezone": "Asia/Shanghai", "windows": {}}"#),
        "models.tiered_pricing.time_pricing.windows must be an array"
    );
    assert_eq!(
        error_for(r#"{"timezone": "Asia/Shanghai", "windows": []}"#),
        "models.tiered_pricing.time_pricing.windows must contain at least one window"
    );
    let window = |w: &str| format!(r#"{{"timezone": "Asia/Shanghai", "windows": [{w}]}}"#);
    assert_eq!(
        error_for(&window("3")),
        "models.tiered_pricing.time_pricing.windows[0] must be an object"
    );
    assert_eq!(
        error_for(&window(r#"{"id": " "}"#)),
        "models.tiered_pricing.time_pricing.windows[0].id must be a non-empty string"
    );
    assert_eq!(
        error_for(&window(r#"{"id": "a", "weekdays": ["mon", 3]}"#)),
        "models.tiered_pricing.time_pricing.windows[0].weekdays must contain weekday names only"
    );
    assert_eq!(
        error_for(&window(r#"{"id": "a", "weekdays": [" Funday "]}"#)),
        "models.tiered_pricing.time_pricing.windows[0].weekdays contains unknown weekday `Funday`"
    );
    assert_eq!(
        error_for(&window(r#"{"id": "a", "weekdays": "monday"}"#)),
        "models.tiered_pricing.time_pricing.windows[0].weekdays must be a non-empty array of weekday names"
    );
    assert_eq!(
        error_for(&window(r#"{"id": "a", "weekdays": ["Mon"], "start": "24:30", "end": "12:00"}"#)),
        "models.tiered_pricing.time_pricing.windows[0].start must be a `HH:MM` time of day"
    );
    assert_eq!(
        error_for(&window(r#"{"id": "a", "weekdays": ["Mon"], "start": "09:00", "end": 12}"#)),
        "models.tiered_pricing.time_pricing.windows[0].end must be a `HH:MM` time of day"
    );
    assert_eq!(
        error_for(&window(r#"{"id": "a", "weekdays": ["Mon"], "start": "09:00", "end": "09:00"}"#)),
        "models.tiered_pricing.time_pricing.windows[0] must satisfy start < end; windows cannot wrap across midnight"
    );
    assert_eq!(
        error_for(&window(r#"{"id": "a", "weekdays": ["Mon"], "start": "09:00", "end": "24:00", "price_multiplier": "2"}"#)),
        "models.tiered_pricing.time_pricing.windows[0].price_multiplier must be a non-negative finite number"
    );
    assert_eq!(
        error_for(&window(r#"{"id": "a", "weekdays": ["Mon"], "start": "09:00", "end": "24:00", "price_multiplier": 100.5}"#)),
        "models.tiered_pricing.time_pricing.windows[0].price_multiplier must be between 0 and 100"
    );
    let pair = r#"{"timezone": "Asia/Shanghai", "windows": [
        {"id": "a", "weekdays": ["monday"], "start": "09:00", "end": "12:00", "price_multiplier": 2},
        {"id": "b", "weekdays": ["monday"], "start": "12:00", "end": "13:00", "price_multiplier": 2},
        {"id": "c", "weekdays": ["monday", "sun"], "start": "11:00", "end": "12:30", "price_multiplier": 2},
        {"id": "b", "weekdays": ["sunday"], "start": "01:00", "end": "02:00", "price_multiplier": 0}
    ]}"#;
    assert_eq!(
        error_for(pair),
        "models.tiered_pricing.time_pricing.windows contains duplicate window id `b`"
    );
    let overlap = r#"{"timezone": "Asia/Shanghai", "windows": [
        {"id": "a", "weekdays": ["monday"], "start": "09:00", "end": "12:00", "price_multiplier": 2},
        {"id": "b", "weekdays": ["tuesday"], "start": "11:00", "end": "13:00", "price_multiplier": 2},
        {"id": "c", "weekdays": ["tue"], "start": "12:59", "end": "14:00", "price_multiplier": 1.5}
    ]}"#;
    assert_eq!(
        error_for(overlap),
        "models.tiered_pricing.time_pricing.windows windows `b` and `c` overlap"
    );
}

#[test]
fn parses_windows_and_multipliers() {
    let config = parse_time_pricing(
        "p",
        Some(&parse(
            r#"{"time_pricing": {"timezone": " UTC ", "windows": [
                {"id": " night ", "weekdays": [" SAT", "sunday"], "start": "00:00", "end": "24:00", "price_multiplier": 0.5},
                {"id": "zero", "weekdays": ["Wed"], "start": "10:00", "end": "10:01", "price_multiplier": 0}
            ]}}"#,
        )),
    )
    .unwrap()
    .unwrap();
    assert_eq!(config.timezone, "UTC");
    assert_eq!(config.windows.len(), 2);
    let night = &config.windows[0];
    assert_eq!(night.id, "night");
    assert_eq!(night.weekdays, [false, false, false, false, false, true, true]);
    assert_eq!(night.start_minute_of_day, 0);
    assert_eq!(night.end_minute_of_day, 1440);
    assert_eq!(night.price_multiplier, JsonNumber::Float(0.5f64.to_bits()));
    assert_eq!(config.windows[1].price_multiplier, JsonNumber::PosInt(0));
    assert_eq!(
        window_covering(&config, Weekday::Sun, 1439).map(|w| w.id.as_str()),
        Some("night")
    );
    assert_eq!(window_covering(&config, Weekday::Wed, 600).map(|w| w.id.as_str()), Some("zero"));
    assert_eq!(window_covering(&config, Weekday::Wed, 601), None);
    // 2026-09-19T23:59:00Z is a Saturday in UTC.
    let at = Utc.with_ymd_and_hms(2026, 9, 19, 23, 59, 0).unwrap().timestamp_millis();
    assert_eq!(resolve_time_pricing_window(&config, at).map(|w| w.id.as_str()), Some("night"));
}

#[test]
fn weekday_names_and_abbreviations() {
    assert_eq!(weekday_index("monday"), Some(0));
    assert_eq!(weekday_index(" Tue "), Some(1));
    assert_eq!(weekday_index("WEDNESDAY"), Some(2));
    assert_eq!(weekday_index("thu"), Some(3));
    assert_eq!(weekday_index("Fri"), Some(4));
    assert_eq!(weekday_index("sat"), Some(5));
    assert_eq!(weekday_index("Sunday"), Some(6));
    assert_eq!(weekday_index("t"), None);
    assert_eq!(weekday_index("th"), None);
    assert_eq!(weekday_index("   "), None);
    assert_eq!(weekday_index("mondays"), None);
}

#[test]
fn unknown_zone_resolves_to_no_window() {
    let mut config = workday_config();
    config.timezone = "Mars/Olympus".to_string();
    assert!(resolve_time_pricing_window(&config, shanghai_millis("2026-09-21", "10:00")).is_none());
}

#[test]
fn instants_outside_chronos_range_resolve_to_no_window() {
    assert!(Utc.timestamp_millis_opt(MAX_UNIX_MS).single().is_some());
    assert!(Utc.timestamp_millis_opt(MAX_UNIX_MS + 1).single().is_none());
    assert!(Utc.timestamp_millis_opt(MIN_UNIX_MS).single().is_some());
    assert!(Utc.timestamp_millis_opt(MIN_UNIX_MS - 1).single().is_none());
    let config = workday_config();
    assert!(resolve_time_pricing_window(&config, MAX_UNIX_MS + 1).is_none());
    assert!(resolve_time_pricing_window(&config, MIN_UNIX_MS - 1).is_none());
    assert!(resolve_time_pricing_window(&config, i64::MAX).is_none());
}
