//! Weather data in fixed-point units, and the weather condition codes.
use crate::chance::random_range;
use crate::error::Error;
use rand::rngs::StdRng;
use vstd::prelude::*;
use vstd::string::StringSliceAdditionalSpecFns;

verus! {

/// The sky's condition, without the day or night and light or heavy variants.
#[derive(Clone, Copy, Debug, PartialEq, Eq, Structural)]
#[non_exhaustive]
pub enum Condition {
    ClearSky,
    Cloudy,
    Fair,
    Fog,
    PartlyCloudy,
    Rain,
    Sleet,
    Snow,
    Unknown,
}

impl Default for Condition {
    fn default() -> (c: Condition)
        ensures
            c == Condition::Unknown,
    {
        Condition::Unknown
    }
}

/// Where the forecast is for: degrees in millionths, altitude in meters.
#[derive(Clone, Copy, Debug, Default, PartialEq, Eq)]
pub struct Coords {
    pub longitude: i64,
    pub latitude: i64,
    pub altitude: i64,
}

/// One sample of the weather. Temperatures are in tenths of a degree Celsius, fractions in
/// tenths of a percent, precipitation in tenths of a millimeter, directions in tenths of a
/// degree, speeds in tenths of a meter per second, pressure in tenths of a hectopascal,
/// the probability of thunder in thousandths, and the time in seconds since the epoch.
#[derive(Clone, Copy, Debug, PartialEq, Eq)]
pub struct DataPoint {
    pub air_pressure_at_sea_level: i64,
    pub air_temperature: i64,
    pub cloud_area_fraction: i64,
    pub condition: Condition,
    pub fog_area_fraction: i64,
    pub precipitation_amount: i64,
    pub probability_of_thunder: i64,
    pub timestamp: i64,
    pub wind_from_direction: i64,
    pub wind_speed: i64,
}

/// The current weather and the hourly forecast after it, earliest first.
#[derive(Clone, Debug)]
pub struct WeatherData {
    pub coords: Coords,
    pub current: DataPoint,
    pub forecasts: Vec<DataPoint>,
}

/// `s` with every trailing copy of `suffix` removed.
pub open spec fn trim_end_all(s: Seq<u8>, suffix: Seq<u8>) -> Seq<u8>
    decreases s.len(),
{
    if suffix.len() > 0 && s.len() >= suffix.len() && s.subrange(
        s.len() - suffix.len(),
        s.len() as int,
    ) == suffix {
        trim_end_all(s.subrange(0, s.len() - suffix.len()), suffix)
    } else {
        s
    }
}

/// `s` with every leading copy of `prefix` removed.
pub open spec fn trim_start_all(s: Seq<u8>, prefix: Seq<u8>) -> Seq<u8>
    decreases s.len(),
{
    if prefix.len() > 0 && s.len() >= prefix.len() && s.subrange(0, prefix.len() as int)
        == prefix {
        trim_start_all(s.subrange(prefix.len() as int, s.len() as int), prefix)
    } else {
        s
    }
}

/// A condition code without its `_day` or `_night` suffix and its `light` or `heavy` prefix.
pub open spec fn normalized(s: Seq<u8>) -> Seq<u8> {
    trim_start_all(
        trim_start_all(
            trim_end_all(trim_end_all(s, "_day".spec_bytes()), "_night".spec_bytes()),
            "light".spec_bytes(),
        ),
        "heavy".spec_bytes(),
    )
}

/// The condition a normalized code names, if any.
pub open spec fn condition_of(n: Seq<u8>) -> Option<Condition> {
    if n == "clearsky".spec_bytes() {
        Some(Condition::ClearSky)
    } else if n == "cloudy".spec_bytes() {
        Some(Condition::Cloudy)
    } else if n == "fair".spec_bytes() {
        Some(Condition::Fair)
    } else if n == "fog".spec_bytes() {
        Some(Condition::Fog)
    } else if n == "partlycloudy".spec_bytes() {
        Some(Condition::PartlyCloudy)
    } else if n == "rain".spec_bytes() || n == "rainshowers".spec_bytes() || n
        == "rainandthunder".spec_bytes() || n == "rainshowersandthunder".spec_bytes() {
        Some(Condition::Rain)
    } else if n == "sleet".spec_bytes() || n == "sleetshowers".spec_bytes() || n
        == "sleetandthunder".spec_bytes() || n == "sleetshowersandthunder".spec_bytes() || n
        == "ssleetshowersandthunder".spec_bytes() {
        Some(Condition::Sleet)
    } else if n == "snow".spec_bytes() || n == "snowshowers".spec_bytes() || n
        == "snowandthunder".spec_bytes() || n == "snowshowersandthunder".spec_bytes() || n
        == "ssnowshowersandthunder".spec_bytes() {
        Some(Condition::Snow)
    } else {
        None
    }
}

fn bytes_eq(a: &[u8], b: &[u8]) -> (r: bool)
    ensures
        r == (a@ == b@),
{
    if a.len() != b.len() {
        return false;
    }
    let mut i: usize = 0;
    while i < a.len()
        invariant
            a@.len() == b@.len(),
            i <= a@.len(),
            a@.subrange(0, i as int) == b@.subrange(0, i as int),
        decreases a@.len() - i,
    {
        if a[i] != b[i] {
            assert(a@[i as int] != b@[i as int]);
            return false;
        }
        assert(a@.subrange(0, i + 1) =~= a@.subrange(0, i as int).push(a@[i as int]));
        assert(b@.subrange(0, i + 1) =~= b@.subrange(0, i as int).push(b@[i as int]));
        i = i + 1;
    }
    assert(a@ =~= a@.subrange(0, i as int));
    assert(b@ =~= b@.subrange(0, i as int));
    true
}

/// Whether `s[from..from + p.len()]` is `p`.
fn matches_at(s: &[u8], from: usize, p: &[u8]) -> (r: bool)
    requires
        from + p@.len() <= s@.len(),
    ensures
        r == (s@.subrange(from as int, from + p@.len()) == p@),
{
    let mut i: usize = 0;
    while i < p.len()
        invariant
            from + p@.len() <= s@.len(),
            i <= p@.len(),
            s@.subrange(from as int, from + i) == p@.subrange(0, i as int),
        decreases p@.len() - i,
    {
        let slen = s.len();
        assert(from + i < slen);
        if s[from + i] != p[i] {
            assert(s@.subrange(from as int, from + p@.len())[i as int] != p@[i as int]);
            return false;
        }
        assert(s@.subrange(from as int, from + i + 1) =~= s@.subrange(from as int, from + i).push(
            s@[from + i],
        ));
        assert(p@.subrange(0, i + 1) =~= p@.subrange(0, i as int).push(p@[i as int]));
        i = i + 1;
    }
    assert(p@ =~= p@.subrange(0, i as int));
    true
}

/// Narrows `s[start..end]` by every trailing copy of `p`.
fn trim_end_range(s: &[u8], start: usize, end: usize, p: &[u8]) -> (r: usize)
    requires
        start <= end <= s@.len(),
    ensures
        start <= r <= end,
        s@.subrange(start as int, r as int) == trim_end_all(
            s@.subrange(start as int, end as int),
            p@,
        ),
{
    let mut e = end;
    while p.len() > 0 && e - start >= p.len() && matches_at(s, e - p.len(), p)
        invariant
            start <= e <= end <= s@.len(),
            trim_end_all(s@.subrange(start as int, e as int), p@) == trim_end_all(
                s@.subrange(start as int, end as int),
                p@,
            ),
        decreases e,
    {
        let ghost cur = s@.subrange(start as int, e as int);
        assert(cur.subrange(cur.len() - p@.len(), cur.len() as int) =~= s@.subrange(
            e - p@.len(),
            e as int,
        ));
        assert(cur.subrange(0, cur.len() - p@.len()) =~= s@.subrange(
            start as int,
            e - p@.len(),
        ));
        e = e - p.len();
    }
    proof {
        let cur = s@.subrange(start as int, e as int);
        if p@.len() > 0 && cur.len() >= p@.len() {
            assert(cur.subrange(cur.len() - p@.len(), cur.len() as int) =~= s@.subrange(
                e - p@.len(),
                e as int,
            ));
        }
    }
    e
}

/// Narrows `s[start..end]` by every leading copy of `p`.
fn trim_start_range(s: &[u8], start: usize, end: usize, p: &[u8]) -> (r: usize)
    requires
        start <= end <= s@.len(),
    ensures
        start <= r <= end,
        s@.subrange(r as int, end as int) == trim_start_all(
            s@.subrange(start as int, end as int),
            p@,
        ),
{
    let mut b = start;
    while p.len() > 0 && end - b >= p.len() && matches_at(s, b, p)
        invariant
            start <= b <= end <= s@.len(),
            trim_start_all(s@.subrange(b as int, end as int), p@) == trim_start_all(
                s@.subrange(start as int, end as int),
                p@,
            ),
        decreases end - b,
    {
        let ghost cur = s@.subrange(b as int, end as int);
        assert(cur.subrange(0, p@.len() as int) =~= s@.subrange(b as int, b + p@.len()));
        assert(cur.subrange(p@.len() as int, cur.len() as int) =~= s@.subrange(
            b + p@.len(),
            end as int,
        ));
        b = b + p.len();
    }
    proof {
        let cur = s@.subrange(b as int, end as int);
        if p@.len() > 0 && cur.len() >= p@.len() {
            assert(cur.subrange(0, p@.len() as int) =~= s@.subrange(b as int, b + p@.len()));
        }
    }
    b
}

fn range_is(s: &[u8], start: usize, end: usize, p: &str) -> (r: bool)
    requires
        start <= end <= s@.len(),
    ensures
        r == (s@.subrange(start as int, end as int) == p.spec_bytes()),
{
    let pb = p.as_bytes();
    if end - start != pb.len() {
        return false;
    }
    matches_at(s, start, pb)
}

impl Condition {
    /// Reads a condition code such as `lightrainshowers_day`: the `_day` and `_night`
    /// suffixes and the `light` and `heavy` prefixes are dropped, and what is left must name
    /// a condition.
    pub fn parse(s: &str) -> (r: Result<Condition, Error>)
        ensures
            match condition_of(normalized(s.spec_bytes())) {
                Some(c) => r == Ok::<Condition, Error>(c),
                None => r == Err::<Condition, Error>(Error::UnknownCondition),
            },
    {
        let b = s.as_bytes();
        let n = b.len();
        let e1 = trim_end_range(b, 0, n, "_day".as_bytes());
        let e2 = trim_end_range(b, 0, e1, "_night".as_bytes());
        let s1 = trim_start_range(b, 0, e2, "light".as_bytes());
        let s2 = trim_start_range(b, s1, e2, "heavy".as_bytes());
        assert(b@.subrange(0, n as int) =~= b@);
        assert(b@.subrange(s2 as int, e2 as int) == normalized(s.spec_bytes()));
        if range_is(b, s2, e2, "clearsky") {
            Ok(Condition::ClearSky)
        } else if range_is(b, s2, e2, "cloudy") {
            Ok(Condition::Cloudy)
        } else if range_is(b, s2, e2, "fair") {
            Ok(Condition::Fair)
        } else if range_is(b, s2, e2, "fog") {
            Ok(Condition::Fog)
        } else if range_is(b, s2, e2, "partlycloudy") {
            Ok(Condition::PartlyCloudy)
        } else if range_is(b, s2, e2, "rain") || range_is(b, s2, e2, "rainshowers") || range_is(
            b,
            s2,
            e2,
            "rainandthunder",
        ) || range_is(b, s2, e2, "rainshowersandthunder") {
            Ok(Condition::Rain)
        } else if range_is(b, s2, e2, "sleet") || range_is(b, s2, e2, "sleetshowers") || range_is(
            b,
            s2,
            e2,
            "sleetandthunder",
        ) || range_is(b, s2, e2, "sleetshowersandthunder") || range_is(
            b,
            s2,
            e2,
            "ssleetshowersandthunder",
        ) {
            Ok(Condition::Sleet)
        } else if range_is(b, s2, e2, "snow") || range_is(b, s2, e2, "snowshowers") || range_is(
            b,
            s2,
            e2,
            "snowandthunder",
        ) || range_is(b, s2, e2, "snowshowersandthunder") || range_is(
            b,
            s2,
            e2,
            "ssnowshowersandthunder",
        ) {
            Ok(Condition::Snow)
        } else {
            Err(Error::UnknownCondition)
        }
    }
}

/// The readings of one sample of a forecast, in the units of `DataPoint`; a reading the
/// forecast lacks is `None`. The symbol code, precipitation and probability of thunder (in
/// tenths of a percent) are those of the hour that follows the sample.
#[derive(Clone, Debug)]
pub struct Readings {
    pub time: i64,
    pub air_pressure_at_sea_level: Option<i64>,
    pub air_temperature: Option<i64>,
    pub cloud_area_fraction: Option<i64>,
    pub fog_area_fraction: Option<i64>,
    pub wind_from_direction: Option<i64>,
    pub wind_speed: Option<i64>,
    pub symbol_code: Option<String>,
    pub precipitation_amount: Option<i64>,
    pub probability_of_thunder: Option<i64>,
}

pub open spec fn or_zero(v: Option<i64>) -> i64 {
    match v {
        Some(x) => x,
        None => 0,
    }
}

fn or_zero_exec(v: Option<i64>) -> (r: i64)
    ensures
        r == or_zero(v),
{
    match v {
        Some(x) => x,
        None => 0,
    }
}

/// The condition a symbol code names; unknown where there is none or it names none.
pub open spec fn condition_of_code(code: Option<String>) -> Condition {
    match code {
        Some(s) => match condition_of(normalized(vstd::utf8::encode_utf8(s@))) {
            Some(c) => c,
            None => Condition::Unknown,
        },
        None => Condition::Unknown,
    }
}

impl DataPoint {
    /// A sample from its readings: a missing reading counts as zero, an unknown or missing
    /// symbol code as an unknown condition, and the probability of thunder is kept within
    /// certainty.
    pub fn from_time_series(series: &Readings) -> (r: DataPoint)
        ensures
            r.timestamp == series.time,
            r.air_pressure_at_sea_level == or_zero(series.air_pressure_at_sea_level),
            r.air_temperature == or_zero(series.air_temperature),
            r.cloud_area_fraction == or_zero(series.cloud_area_fraction),
            r.fog_area_fraction == or_zero(series.fog_area_fraction),
            r.wind_from_direction == or_zero(series.wind_from_direction),
            r.wind_speed == or_zero(series.wind_speed),
            r.precipitation_amount == or_zero(series.precipitation_amount),
            r.probability_of_thunder == (if or_zero(series.probability_of_thunder) < 0 {
                0
            } else if or_zero(series.probability_of_thunder) > 1000 {
                1000
            } else {
                or_zero(series.probability_of_thunder)
            }),
            r.condition == condition_of_code(series.symbol_code),
    {
        let condition = match &series.symbol_code {
            Some(code) => match Condition::parse(code.as_str()) {
                Ok(c) => c,
                Err(_) => Condition::Unknown,
            },
            None => Condition::Unknown,
        };
        let p = or_zero_exec(series.probability_of_thunder);
        let probability_of_thunder = if p < 0 {
            0
        } else if p > 1000 {
            1000
        } else {
            p
        };
        DataPoint {
            air_pressure_at_sea_level: or_zero_exec(series.air_pressure_at_sea_level),
            air_temperature: or_zero_exec(series.air_temperature),
            cloud_area_fraction: or_zero_exec(series.cloud_area_fraction),
            condition,
            fog_area_fraction: or_zero_exec(series.fog_area_fraction),
            precipitation_amount: or_zero_exec(series.precipitation_amount),
            probability_of_thunder,
            timestamp: series.time,
            wind_from_direction: or_zero_exec(series.wind_from_direction),
            wind_speed: or_zero_exec(series.wind_speed),
        }
    }
}

/// Samples of a day of forecast after the current one.
pub const FORECAST_HOURS: usize = 24;

impl WeatherData {
    /// The current weather from the first sample and the forecast from the next 24. Fails on
    /// an empty series, and on one with fewer than 24 samples after the first.
    pub fn from_body(coords: Coords, series: &Vec<Readings>) -> (r: Result<WeatherData, Error>)
        ensures
            series@.len() == 0 ==> r == Err::<WeatherData, Error>(Error::EmptyTimeSeries),
            1 <= series@.len() < 25 ==> r == Err::<WeatherData, Error>(Error::NotEnoughForecasts),
            series@.len() >= 25 ==> (r matches Ok(d) && {
                &&& d.coords == coords
                &&& d.current == DataPoint::spec_from(series@[0])
                &&& d.forecasts@.len() == 24
                &&& forall|i: int|
                    0 <= i < 24 ==> #[trigger] d.forecasts@[i] == DataPoint::spec_from(
                        series@[i + 1],
                    )
            }),
    {
        if series.len() == 0 {
            return Err(Error::EmptyTimeSeries);
        }
        if series.len() < FORECAST_HOURS + 1 {
            return Err(Error::NotEnoughForecasts);
        }
        let current = DataPoint::from_time_series(&series[0]);
        let mut forecasts: Vec<DataPoint> = Vec::new();
        let mut i: usize = 1;
        while i <= FORECAST_HOURS
            invariant
                1 <= i <= FORECAST_HOURS + 1,
                series@.len() >= 25,
                forecasts@.len() == i - 1,
                forall|k: int|
                    0 <= k < i - 1 ==> #[trigger] forecasts@[k] == DataPoint::spec_from(
                        series@[k + 1],
                    ),
            decreases FORECAST_HOURS + 1 - i,
        {
            forecasts.push(DataPoint::from_time_series(&series[i]));
            i = i + 1;
        }
        Ok(WeatherData { coords, current, forecasts })
    }
}

impl DataPoint {
    /// The sample `from_time_series` makes of `series`.
    pub open spec fn spec_from(series: Readings) -> DataPoint {
        DataPoint {
            air_pressure_at_sea_level: or_zero(series.air_pressure_at_sea_level),
            air_temperature: or_zero(series.air_temperature),
            cloud_area_fraction: or_zero(series.cloud_area_fraction),
            condition: condition_of_code(series.symbol_code),
            fog_area_fraction: or_zero(series.fog_area_fraction),
            precipitation_amount: or_zero(series.precipitation_amount),
            probability_of_thunder: if or_zero(series.probability_of_thunder) < 0 {
                0
            } else if or_zero(series.probability_of_thunder) > 1000 {
                1000
            } else {
                or_zero(series.probability_of_thunder)
            },
            timestamp: series.time,
            wind_from_direction: or_zero(series.wind_from_direction),
            wind_speed: or_zero(series.wind_speed),
        }
    }
}

/// `v` kept within `lo..=hi`.
pub open spec fn clamp(v: int, lo: int, hi: int) -> int {
    if v < lo {
        lo
    } else if v > hi {
        hi
    } else {
        v
    }
}

fn clamp_exec(v: i64, lo: i64, hi: i64) -> (r: i64)
    requires
        lo <= hi,
    ensures
        r == clamp(v as int, lo as int, hi as int),
{
    if v < lo {
        lo
    } else if v > hi {
        hi
    } else {
        v
    }
}

/// `b` is `a` shaken up: the temperature moved by up to two degrees, pressure, cloud and fog
/// cover, precipitation, wind direction and speed grown, the condition one of fog, rain,
/// sleet and snow, a new chance of thunder, the same time, and values a scene can be drawn
/// from.
pub open spec fn randomized(a: DataPoint, b: DataPoint) -> bool {
    &&& b.valid()
    &&& a.air_temperature - 20 <= b.air_temperature <= a.air_temperature + 20
    &&& b.air_pressure_at_sea_level >= a.air_pressure_at_sea_level
    &&& b.cloud_area_fraction >= a.cloud_area_fraction
    &&& b.fog_area_fraction >= a.fog_area_fraction
    &&& b.precipitation_amount >= a.precipitation_amount
    &&& b.wind_from_direction >= a.wind_from_direction
    &&& b.wind_speed >= a.wind_speed
    &&& (b.condition == Condition::Fog || b.condition == Condition::Rain || b.condition
        == Condition::Sleet || b.condition == Condition::Snow)
    &&& 0 <= b.probability_of_thunder < 1000
    &&& b.timestamp == a.timestamp
}

impl DataPoint {
    /// Shakes the sample up: the temperature moves by up to two degrees, pressure, cloud and
    /// fog cover, precipitation, wind direction and speed grow by random amounts, the
    /// condition becomes fog, rain, sleet or snow, and the chance of thunder is drawn anew;
    /// everything stays within the values a scene can be drawn from.
    pub fn add_randomness(&mut self, rng: &mut StdRng)
        requires
            old(self).valid(),
        ensures
            randomized(*old(self), *final(self)),
    {
        let pressure = clamp_exec(random_range(rng, -2000, 2001), 0, 20000);
        self.air_pressure_at_sea_level = clamp_exec(
            self.air_pressure_at_sea_level + pressure,
            0,
            10_000_000,
        );
        let t = self.air_temperature + random_range(rng, -20, 21);
        self.air_temperature = clamp_exec(t, -crate::layout::TEMPERATURE_LIMIT, crate::layout::TEMPERATURE_LIMIT);
        let cloud = clamp_exec(random_range(rng, -500, 500), 0, 1000);
        self.cloud_area_fraction = clamp_exec(self.cloud_area_fraction + cloud, 0, 1000);
        let k = random_range(rng, 0, 4);
        self.condition = if k == 0 {
            Condition::Fog
        } else if k == 1 {
            Condition::Rain
        } else if k == 2 {
            Condition::Sleet
        } else {
            Condition::Snow
        };
        let fog = clamp_exec(random_range(rng, -500, 500), 0, 1000);
        self.fog_area_fraction = clamp_exec(self.fog_area_fraction + fog, 0, 1000);
        let rain = clamp_exec(random_range(rng, -50, 50), 0, 500);
        self.precipitation_amount = clamp_exec(self.precipitation_amount + rain, 0, 100000);
        self.probability_of_thunder = random_range(rng, 0, 1000);
        let turn = clamp_exec(random_range(rng, -900, 900), 0, 3600);
        self.wind_from_direction = clamp_exec(self.wind_from_direction + turn, 0, 3600);
        let gust = random_range(rng, -100, 101);
        let gust = if gust < 0 { 0 } else { gust };
        self.wind_speed = clamp_exec(self.wind_speed + gust, 0, 100000);
    }
}

/// Adds a lot of randomness to the current weather and every forecast, to make the weather
/// seem unpredictable.
pub fn wreck_havoc(weather: &mut WeatherData, rng: &mut StdRng)
    requires
        old(weather).valid(),
    ensures
        final(weather).valid(),
        final(weather).forecasts@.len() == old(weather).forecasts@.len(),
        final(weather).coords == old(weather).coords,
        randomized(old(weather).current, final(weather).current),
        forall|i: int|
            0 <= i < old(weather).forecasts@.len() ==> randomized(
                #[trigger] old(weather).forecasts@[i],
                final(weather).forecasts@[i],
            ),
{
    weather.current.add_randomness(rng);
    let n = weather.forecasts.len();
    let mut i: usize = 0;
    while i < n
        invariant
            n == weather.forecasts@.len(),
            n <= 10000,
            i <= n,
            weather.current.valid(),
            weather.coords == old(weather).coords,
            forall|k: int| 0 <= k < n ==> #[trigger] weather.forecasts@[k].valid(),
            n == old(weather).forecasts@.len(),
            randomized(old(weather).current, weather.current),
            forall|k: int|
                0 <= k < i ==> randomized(
                    #[trigger] old(weather).forecasts@[k],
                    weather.forecasts@[k],
                ),
            forall|k: int| i <= k < n ==> #[trigger] weather.forecasts@[k] == old(weather).forecasts@[k],
        decreases n - i,
    {
        let mut dp = weather.forecasts[i];
        proof {
            assert(weather.forecasts@[i as int].valid());
        }
        dp.add_randomness(rng);
        weather.forecasts.set(i, dp);
        i = i + 1;
    }
}

impl std::str::FromStr for Condition {
    type Err = Error;

    fn from_str(s: &str) -> Result<Condition, Error> {
        Condition::parse(s)
    }
}

} // verus!
