use std::collections::BTreeMap;
use weather_landscape::preset::{time, Interval, Preset, PresetConfig, Presets, Settings, Time};

fn window(start_time: Time, end_time: Time) -> Interval {
    Interval {
        start_time,
        end_time,
        ..Default::default()
    }
}

#[test]
fn interval() {
    let interval = window(time(0, 30, 0, 0), time(23, 30, 0, 0));
    assert!(!interval.contains(time(23, 30, 0, 0).on(2025, 1, 1)));
    assert!(!interval.contains(time(0, 0, 0, 0).on(2025, 1, 1)));
    assert!(interval.contains(time(0, 30, 0, 0).on(2025, 1, 1)));
    assert!(interval.contains(time(1, 0, 0, 0).on(2025, 1, 1)));
}

#[test]
fn interval_wraps_over_midnight() {
    let interval = window(time(23, 30, 0, 0), time(0, 30, 0, 0));
    assert!(interval.contains(time(23, 30, 0, 0).on(2025, 1, 1)));
    assert!(interval.contains(time(0, 0, 0, 0).on(2025, 1, 1)));
    assert!(!interval.contains(time(0, 30, 0, 0).on(2025, 1, 1)));
    assert!(!interval.contains(time(1, 0, 0, 0).on(2025, 1, 1)));
}

#[test]
fn interval_24hours() {
    let interval = window(time(0, 0, 0, 0), time(0, 0, 0, 0));
    assert!(interval.contains(time(0, 0, 0, 0).on(2025, 1, 1)));
    assert!(interval.contains(time(1, 0, 0, 0).on(2025, 1, 1)));
    assert!(interval.contains(time(23, 0, 0, 0).on(2025, 1, 1)));
}

#[test]
fn empty_presets() {
    assert_eq!(
        Presets(Vec::new()).get_settings_for(time(0, 0, 0, 0).on(2025, 1, 1)),
        Settings::default()
    );
}

#[test]
fn presets() {
    let settings = Settings {
        wreck_havoc: Some(true),
        ..Default::default()
    };

    let presets = Presets(vec![
        Preset {
            interval: window(time(23, 30, 0, 0), time(0, 30, 0, 0)),
            settings: settings.clone(),
            ..Default::default()
        },
        Preset {
            interval: window(time(20, 0, 0, 0), time(23, 30, 0, 0)),
            ..Default::default()
        },
    ]);

    assert_eq!(
        presets.get_settings_for(time(23, 30, 0, 0).on(2025, 1, 1)),
        settings.clone()
    );
    assert_eq!(
        presets.get_settings_for(time(23, 29, 59, 0).on(2025, 1, 1)),
        Settings::default()
    );
    assert_eq!(
        presets.get_settings_for(time(19, 59, 59, 999).on(2025, 1, 1)),
        Settings::default()
    );
}

#[test]
fn merge_overlapping_presets() {
    let presets = Presets(vec![
        Preset {
            name: "preset1".into(),
            interval: window(time(23, 30, 0, 0), time(0, 30, 0, 0)),
            settings: Settings {
                wreck_havoc: Some(true),
                esp_deep_sleep_seconds: None,
            },
        },
        Preset {
            name: "preset2".into(),
            interval: window(time(0, 0, 0, 0), time(2, 0, 0, 0)),
            settings: Settings {
                wreck_havoc: Some(false),
                esp_deep_sleep_seconds: Some(10),
            },
        },
        Preset {
            name: "preset3".into(),
            interval: window(time(0, 10, 0, 0), time(1, 0, 0, 0)),
            settings: Settings {
                wreck_havoc: None,
                esp_deep_sleep_seconds: Some(20),
            },
        },
    ]);

    assert_eq!(
        presets.get_settings_for(time(0, 15, 0, 0).on(2025, 1, 1)),
        Settings {
            wreck_havoc: Some(false),
            esp_deep_sleep_seconds: Some(20),
        }
    );
}

#[test]
fn presets_new() {
    let mut configs: BTreeMap<String, PresetConfig> = BTreeMap::new();
    configs.insert(
        "my-preset1".into(),
        PresetConfig {
            enabled: false,
            start_date: None,
            start_time: time(1, 0, 0, 0),
            end_date: None,
            end_time: time(1, 0, 0, 0),
            wreck_havoc: None,
            esp_deep_sleep_seconds: None,
        },
    );
    configs.insert(
        "preset2".into(),
        PresetConfig {
            start_date: None,
            enabled: true,
            start_time: time(1, 0, 0, 0),
            end_date: None,
            end_time: time(1, 0, 0, 0),
            wreck_havoc: None,
            esp_deep_sleep_seconds: Some(10),
        },
    );

    let entries: Vec<(String, PresetConfig)> = configs.into_iter().collect();
    let presets = Presets::new(&entries);
    assert_eq!(
        presets.0,
        vec![Preset {
            name: "preset2".into(),
            interval: window(time(1, 0, 0, 0), time(1, 0, 0, 0)),
            settings: Settings {
                esp_deep_sleep_seconds: Some(10),
                wreck_havoc: None
            }
        }]
    );
}

#[test]
fn interval_respects_dates() {
    let mut interval = window(time(0, 0, 0, 0), time(0, 0, 0, 0));
    interval.start_date = Some(weather_landscape::preset::Date { year: 2025, month: 3, day: 1 });
    interval.end_date = Some(weather_landscape::preset::Date { year: 2025, month: 3, day: 31 });
    assert!(!interval.contains(time(12, 0, 0, 0).on(2025, 2, 28)));
    assert!(interval.contains(time(12, 0, 0, 0).on(2025, 3, 1)));
    assert!(interval.contains(time(12, 0, 0, 0).on(2025, 3, 31)));
    assert!(!interval.contains(time(12, 0, 0, 0).on(2025, 4, 1)));
}

#[test]
fn deep_sleep_header() {
    let settings = Settings {
        esp_deep_sleep_seconds: Some(600),
        wreck_havoc: None,
    };
    assert_eq!(
        settings.configure_response(),
        Some(("x-esp-deep-sleep-seconds", 600))
    );
    assert_eq!(Settings::default().configure_response(), None);
}
