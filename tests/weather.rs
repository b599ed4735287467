use rand::SeedableRng;
use weather_landscape::error::Error;
use weather_landscape::weather::{wreck_havoc, Condition, Coords, DataPoint, Readings, WeatherData};

fn readings(time: i64, temperature: i64) -> Readings {
    Readings {
        time,
        air_pressure_at_sea_level: Some(10130),
        air_temperature: Some(temperature),
        cloud_area_fraction: Some(500),
        fog_area_fraction: None,
        wind_from_direction: Some(900),
        wind_speed: Some(30),
        symbol_code: Some("lightrain_day".to_string()),
        precipitation_amount: Some(12),
        probability_of_thunder: Some(55),
    }
}

#[test]
fn condition_codes() {
    assert_eq!(Condition::parse("clearsky_day"), Ok(Condition::ClearSky));
    assert_eq!(Condition::parse("cloudy"), Ok(Condition::Cloudy));
    assert_eq!(Condition::parse("fair_night"), Ok(Condition::Fair));
    assert_eq!(Condition::parse("fog"), Ok(Condition::Fog));
    assert_eq!(Condition::parse("partlycloudy_day"), Ok(Condition::PartlyCloudy));
    assert_eq!(Condition::parse("lightrainshowers_night"), Ok(Condition::Rain));
    assert_eq!(Condition::parse("heavyrainandthunder"), Ok(Condition::Rain));
    assert_eq!(Condition::parse("sleetshowersandthunder_day"), Ok(Condition::Sleet));
    assert_eq!(Condition::parse("ssleetshowersandthunder"), Ok(Condition::Sleet));
    assert_eq!(Condition::parse("heavysnowandthunder"), Ok(Condition::Snow));
    assert_eq!(Condition::parse("ssnowshowersandthunder"), Ok(Condition::Snow));
    assert_eq!(Condition::parse("rain_day_day"), Ok(Condition::Rain));
    assert_eq!(Condition::parse("lightheavyrain"), Ok(Condition::Rain));
}

#[test]
fn unknown_condition_codes() {
    assert_eq!(Condition::parse("hail"), Err(Error::UnknownCondition));
    assert_eq!(Condition::parse(""), Err(Error::UnknownCondition));
    assert_eq!(Condition::parse("_day"), Err(Error::UnknownCondition));
    assert_eq!("snow".parse::<Condition>(), Ok(Condition::Snow));
    assert!("drizzle".parse::<Condition>().is_err());
}

#[test]
fn sample_from_readings() {
    let r = readings(100, 55);
    let dp = DataPoint::from_time_series(&r);
    assert_eq!(dp.timestamp, 100);
    assert_eq!(dp.air_temperature, 55);
    assert_eq!(dp.fog_area_fraction, 0);
    assert_eq!(dp.condition, Condition::Rain);
    assert_eq!(dp.probability_of_thunder, 55);

    let mut odd = readings(0, 0);
    odd.symbol_code = Some("meteorshower".to_string());
    odd.probability_of_thunder = Some(1500);
    let dp = DataPoint::from_time_series(&odd);
    assert_eq!(dp.condition, Condition::Unknown);
    assert_eq!(dp.probability_of_thunder, 1000);
    odd.symbol_code = None;
    assert_eq!(DataPoint::from_time_series(&odd).condition, Condition::Unknown);
}

#[test]
fn series_needs_a_day_of_forecasts() {
    let coords = Coords::default();
    assert_eq!(
        WeatherData::from_body(coords, &Vec::new()).unwrap_err(),
        Error::EmptyTimeSeries
    );
    let short: Vec<Readings> = (0..10).map(|i| readings(i * 3600, 10)).collect();
    assert_eq!(
        WeatherData::from_body(coords, &short).unwrap_err(),
        Error::NotEnoughForecasts
    );
    let long: Vec<Readings> = (0..30).map(|i| readings(i * 3600, i)).collect();
    let data = WeatherData::from_body(coords, &long).unwrap();
    assert_eq!(data.current.air_temperature, 0);
    assert_eq!(data.forecasts.len(), 24);
    assert_eq!(data.forecasts[0].air_temperature, 1);
    assert_eq!(data.forecasts[23].air_temperature, 24);
}

#[test]
fn havoc_keeps_data_drawable() {
    let long: Vec<Readings> = (0..25).map(|i| readings(i * 3600, i * 10)).collect();
    let mut data = WeatherData::from_body(Coords::default(), &long).unwrap();
    let before = data.clone();
    let mut rng = rand::rngs::StdRng::seed_from_u64(7);
    wreck_havoc(&mut data, &mut rng);
    assert!(data.is_valid());
    assert_eq!(data.forecasts.len(), before.forecasts.len());
    for (a, b) in before.forecasts.iter().zip(data.forecasts.iter()) {
        assert!((a.air_temperature - b.air_temperature).abs() <= 20);
        assert!(b.cloud_area_fraction >= a.cloud_area_fraction);
        assert!(matches!(
            b.condition,
            Condition::Fog | Condition::Rain | Condition::Sleet | Condition::Snow
        ));
    }
}
