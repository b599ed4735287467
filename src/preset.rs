//! Time-based presets: settings that apply during a daily time window.
use vstd::prelude::*;

verus! {

/// A wall-clock time of day.
#[derive(Clone, Copy, Debug, Default, PartialEq, Eq, Structural)]
pub struct Time {
    pub hour: i8,
    pub minute: i8,
    pub second: i8,
    pub subsec_nanosecond: i32,
}

/// A calendar date.
#[derive(Clone, Copy, Debug, Default, PartialEq, Eq, Structural)]
pub struct Date {
    pub year: i16,
    pub month: i8,
    pub day: i8,
}

/// A date and a time of day.
#[derive(Clone, Copy, Debug, Default, PartialEq, Eq, Structural)]
pub struct DateTime {
    pub date: Date,
    pub time: Time,
}

/// Nanoseconds since midnight.
pub open spec fn time_key(t: Time) -> int {
    ((t.hour * 60 + t.minute) * 60 + t.second) * 1_000_000_000 + t.subsec_nanosecond
}

/// Orders dates by year, then month, then day.
pub open spec fn date_key(d: Date) -> int {
    (d.year * 13 + d.month) * 32 + d.day
}

impl Time {
    pub open spec fn valid(&self) -> bool {
        &&& 0 <= self.hour <= 23
        &&& 0 <= self.minute <= 59
        &&& 0 <= self.second <= 59
        &&& 0 <= self.subsec_nanosecond <= 999_999_999
    }

    /// This time on the date `year`-`month`-`day`.
    pub fn on(self, year: i16, month: i8, day: i8) -> (r: DateTime)
        requires
            1 <= month <= 12,
            1 <= day <= 31,
        ensures
            r.time == self,
            r.date == (Date { year, month, day }),
    {
        DateTime { date: Date { year, month, day }, time: self }
    }
}

/// The time `hour`:`minute`:`second` and `subsec_nanosecond` nanoseconds.
pub fn time(hour: i8, minute: i8, second: i8, subsec_nanosecond: i32) -> (r: Time)
    requires
        0 <= hour <= 23,
        0 <= minute <= 59,
        0 <= second <= 59,
        0 <= subsec_nanosecond <= 999_999_999,
    ensures
        r == (Time { hour, minute, second, subsec_nanosecond }),
        r.valid(),
{
    Time { hour, minute, second, subsec_nanosecond }
}

fn time_before(a: Time, b: Time) -> (r: bool)
    ensures
        r == (time_key(a) < time_key(b)),
{
    let ka: i128 = ((a.hour as i128 * 60 + a.minute as i128) * 60 + a.second as i128) * 1_000_000_000
        + a.subsec_nanosecond as i128;
    let kb: i128 = ((b.hour as i128 * 60 + b.minute as i128) * 60 + b.second as i128) * 1_000_000_000
        + b.subsec_nanosecond as i128;
    ka < kb
}

fn date_before(a: Date, b: Date) -> (r: bool)
    ensures
        r == (date_key(a) < date_key(b)),
{
    let ka: i64 = (a.year as i64 * 13 + a.month as i64) * 32 + a.day as i64;
    let kb: i64 = (b.year as i64 * 13 + b.month as i64) * 32 + b.day as i64;
    ka < kb
}

/// A daily time window, optionally limited to a range of dates.
#[derive(Clone, Copy, Debug, Default, PartialEq, Eq, Structural)]
pub struct Interval {
    /// The optional first date of the interval.
    pub start_date: Option<Date>,
    /// The time of day the window opens.
    pub start_time: Time,
    /// The optional last date of the interval.
    pub end_date: Option<Date>,
    /// The time of day the window closes.
    pub end_time: Time,
}

impl Interval {
    /// The dates allow the instant, and its time of day lies in the window: from the start
    /// time up to but not including the end time, wrapping over midnight when the end is not
    /// after the start (equal times mean the whole day).
    pub open spec fn spec_contains(&self, instant: DateTime) -> bool {
        let d = date_key(instant.date);
        let t = time_key(instant.time);
        let s = time_key(self.start_time);
        let e = time_key(self.end_time);
        &&& self.start_date matches Some(sd) ==> d >= date_key(sd)
        &&& self.end_date matches Some(ed) ==> d <= date_key(ed)
        &&& if s < e {
            s <= t && t < e
        } else {
            s <= t || t < e
        }
    }

    /// An interval from a preset's configuration.
    pub fn from_config(config: &PresetConfig) -> (r: Interval)
        ensures
            r.start_date == config.start_date,
            r.start_time == config.start_time,
            r.end_date == config.end_date,
            r.end_time == config.end_time,
    {
        Interval {
            start_date: config.start_date,
            start_time: config.start_time,
            end_date: config.end_date,
            end_time: config.end_time,
        }
    }

    /// Whether the instant falls within the interval.
    pub fn contains(&self, instant: DateTime) -> (r: bool)
        ensures
            r == self.spec_contains(instant),
    {
        let date = instant.date;
        let t = instant.time;
        if let Some(start_date) = self.start_date {
            if date_before(date, start_date) {
                return false;
            }
        }
        if let Some(end_date) = self.end_date {
            if date_before(end_date, date) {
                return false;
            }
        }
        if time_before(self.start_time, self.end_time) {
            !time_before(t, self.start_time) && time_before(t, self.end_time)
        } else {
            !time_before(t, self.start_time) || time_before(t, self.end_time)
        }
    }
}

/// What a preset changes.
#[derive(Clone, Copy, Debug, Default, PartialEq, Eq, Structural)]
pub struct Settings {
    /// Deep sleep time sent back to the display the next time it asks for an image.
    pub esp_deep_sleep_seconds: Option<u64>,
    /// Whether to add a lot of randomness to the weather data.
    pub wreck_havoc: Option<bool>,
}

/// `b`'s value where it has one, else `a`'s.
pub open spec fn or_else<T>(b: Option<T>, a: Option<T>) -> Option<T> {
    if b is Some {
        b
    } else {
        a
    }
}

/// Header that carries the deep sleep time to the display.
pub const HEADER_X_ESP_DEEP_SLEEP_SECONDS: &'static str = "x-esp-deep-sleep-seconds";

impl Settings {
    pub open spec fn spec_merge(self, other: Settings) -> Settings {
        Settings {
            esp_deep_sleep_seconds: or_else(other.esp_deep_sleep_seconds, self.esp_deep_sleep_seconds),
            wreck_havoc: or_else(other.wreck_havoc, self.wreck_havoc),
        }
    }

    /// `other` laid over `self`: each setting of `other` wins where it is set.
    pub fn merge(&self, other: &Settings) -> (r: Settings)
        ensures
            r == self.spec_merge(*other),
    {
        Settings {
            esp_deep_sleep_seconds: match other.esp_deep_sleep_seconds {
                Some(v) => Some(v),
                None => self.esp_deep_sleep_seconds,
            },
            wreck_havoc: match other.wreck_havoc {
                Some(v) => Some(v),
                None => self.wreck_havoc,
            },
        }
    }

    /// Settings from a preset's configuration.
    pub fn from_config(config: &PresetConfig) -> (r: Settings)
        ensures
            r.esp_deep_sleep_seconds == config.esp_deep_sleep_seconds,
            r.wreck_havoc == config.wreck_havoc,
    {
        Settings {
            esp_deep_sleep_seconds: config.esp_deep_sleep_seconds,
            wreck_havoc: config.wreck_havoc,
        }
    }

    /// The header to add to the response that carries the image: the deep sleep time, if
    /// one is set.
    pub fn configure_response(&self) -> (r: Option<(&'static str, u64)>)
        ensures
            match self.esp_deep_sleep_seconds {
                Some(s) => r == Some((HEADER_X_ESP_DEEP_SLEEP_SECONDS, s)),
                None => r is None,
            },
    {
        match self.esp_deep_sleep_seconds {
            Some(s) => Some((HEADER_X_ESP_DEEP_SLEEP_SECONDS, s)),
            None => None,
        }
    }
}

/// The configuration of one preset.
#[derive(Clone, Debug, PartialEq, Eq)]
pub struct PresetConfig {
    pub enabled: bool,
    pub start_date: Option<Date>,
    pub start_time: Time,
    pub end_date: Option<Date>,
    pub end_time: Time,
    pub wreck_havoc: Option<bool>,
    pub esp_deep_sleep_seconds: Option<u64>,
}

/// A named time window with its settings.
#[derive(Clone, Debug, Default, PartialEq, Eq)]
pub struct Preset {
    pub name: String,
    pub interval: Interval,
    pub settings: Settings,
}

impl Preset {
    /// A preset from its name and configuration.
    pub fn from_config(name: &str, config: &PresetConfig) -> (r: Preset)
        ensures
            r.name@ == name@,
            r.interval == Interval::from_config_spec(*config),
            r.settings == Settings::from_config_spec(*config),
    {
        Preset {
            name: name.to_owned(),
            interval: Interval::from_config(config),
            settings: Settings::from_config(config),
        }
    }
}

impl Interval {
    pub open spec fn from_config_spec(config: PresetConfig) -> Interval {
        Interval {
            start_date: config.start_date,
            start_time: config.start_time,
            end_date: config.end_date,
            end_time: config.end_time,
        }
    }
}

impl Settings {
    pub open spec fn from_config_spec(config: PresetConfig) -> Settings {
        Settings {
            esp_deep_sleep_seconds: config.esp_deep_sleep_seconds,
            wreck_havoc: config.wreck_havoc,
        }
    }
}

/// The settings in force at `time`: the settings of every preset whose window holds it,
/// each laid over those before it, starting from none.
pub open spec fn settings_at(presets: Seq<Preset>, time: DateTime) -> Settings
    decreases presets.len(),
{
    if presets.len() == 0 {
        Settings { esp_deep_sleep_seconds: None, wreck_havoc: None }
    } else {
        let acc = settings_at(presets.drop_last(), time);
        if presets.last().interval.spec_contains(time) {
            acc.spec_merge(presets.last().settings)
        } else {
            acc
        }
    }
}

/// The enabled presets among named configurations, in their order.
pub open spec fn enabled_presets(configs: Seq<(String, PresetConfig)>) -> Seq<(Seq<char>, Interval, Settings)>
    decreases configs.len(),
{
    if configs.len() == 0 {
        seq![]
    } else {
        let rest = enabled_presets(configs.drop_last());
        let (name, config) = configs.last();
        if config.enabled {
            rest.push(
                (name@, Interval::from_config_spec(config), Settings::from_config_spec(config)),
            )
        } else {
            rest
        }
    }
}

/// The presets of a configuration.
#[derive(Clone, Debug)]
pub struct Presets(pub Vec<Preset>);

impl Presets {
    /// The presets of the enabled configurations, in the order given (by name, for a
    /// configuration read from a map).
    pub fn new(configs: &Vec<(String, PresetConfig)>) -> (r: Presets)
        ensures
            r.0@.len() == enabled_presets(configs@).len(),
            forall|i: int|
                0 <= i < r.0@.len() ==> {
                    let p = #[trigger] r.0@[i];
                    (p.name@, p.interval, p.settings) == enabled_presets(configs@)[i]
                },
    {
        let mut presets: Vec<Preset> = Vec::new();
        let mut i: usize = 0;
        while i < configs.len()
            invariant
                i <= configs@.len(),
                presets@.len() == enabled_presets(configs@.subrange(0, i as int)).len(),
                forall|k: int|
                    0 <= k < presets@.len() ==> {
                        let p = #[trigger] presets@[k];
                        (p.name@, p.interval, p.settings) == enabled_presets(
                            configs@.subrange(0, i as int),
                        )[k]
                    },
            decreases configs@.len() - i,
        {
            proof {
                assert(configs@.subrange(0, i + 1).drop_last() =~= configs@.subrange(0, i as int));
            }
            let (name, config) = &configs[i];
            if config.enabled {
                let p = Preset::from_config(name.as_str(), config);
                presets.push(p);
            }
            i = i + 1;
        }
        assert(configs@.subrange(0, configs@.len() as int) =~= configs@);
        Presets(presets)
    }

    /// The settings for `time`: those of all presets whose window holds it, merged in order;
    /// none set where no preset applies.
    pub fn get_settings_for(&self, time: DateTime) -> (r: Settings)
        ensures
            r == settings_at(self.0@, time),
    {
        let mut acc = Settings { esp_deep_sleep_seconds: None, wreck_havoc: None };
        let mut i: usize = 0;
        while i < self.0.len()
            invariant
                i <= self.0@.len(),
                acc == settings_at(self.0@.subrange(0, i as int), time),
            decreases self.0@.len() - i,
        {
            proof {
                assert(self.0@.subrange(0, i + 1).drop_last() =~= self.0@.subrange(0, i as int));
            }
            let preset = &self.0[i];
            if preset.interval.contains(time) {
                acc = acc.merge(&preset.settings);
            }
            i = i + 1;
        }
        assert(self.0@.subrange(0, self.0@.len() as int) =~= self.0@);
        acc
    }
}

} // verus!
