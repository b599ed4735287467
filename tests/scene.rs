use rand::rngs::StdRng;
use rand::SeedableRng;
use weather_landscape::canvas::{ImageFormat, Rgba};
use weather_landscape::curve::{CurveSegment, SUBPIXEL};
use weather_landscape::error::Error;
use weather_landscape::layout::{Moment, RenderContext};
use weather_landscape::scene::{
    cloud_set, drop_test, first_with_temperature, rounded_sine, select_trees, sway_set, Renderer,
};
use weather_landscape::sprites::{sprite_names, Sprite, SpriteSheet};
use weather_landscape::weather::{Condition, Coords, DataPoint, WeatherData};

const NOW: i64 = 1_700_000_000;

fn sheet() -> SpriteSheet {
    let sprites = sprite_names()
        .into_iter()
        .map(|name| {
            let (w, h) = if name.starts_with("house") { (10, 8) } else { (3, 3) };
            let raw: Vec<u8> = (0..w * h).flat_map(|_| [0u8, 0, 0, 255]).collect();
            Sprite::from_rgba(name, w, h, &raw)
        })
        .collect();
    SpriteSheet { sprites }
}

fn moment() -> Moment {
    Moment {
        instant: NOW,
        night_end: NOW - 20000,
        dawn: NOW - 15000,
        sunrise: NOW - 10000,
        sunset: NOW + 10000,
        dusk: NOW + 15000,
        night: NOW + 20000,
        next_sunrise: NOW + 70000,
        next_sunset: NOW + 10000,
        next_midnight: NOW + 30000,
        next_noon: NOW + 73200,
    }
}

fn night() -> Moment {
    let mut m = moment();
    m.dawn = NOW + 5000;
    m
}

fn point(i: i64, temperature: i64) -> DataPoint {
    DataPoint {
        air_pressure_at_sea_level: 10130,
        air_temperature: temperature,
        cloud_area_fraction: 0,
        condition: Condition::ClearSky,
        fog_area_fraction: 0,
        precipitation_amount: 0,
        probability_of_thunder: 0,
        timestamp: NOW + i * 3600,
        wind_from_direction: 0,
        wind_speed: 0,
    }
}

/// Rises from 5 to 15 degrees over the first half of the day and falls back.
fn rise_and_fall() -> WeatherData {
    let forecasts = (0..24)
        .map(|i| {
            let t = if i <= 12 { 50 + i * 100 / 12 } else { 150 - (i - 12) * 100 / 11 };
            point(i + 1, t)
        })
        .collect();
    WeatherData {
        coords: Coords::default(),
        current: point(0, 50),
        forecasts,
    }
}

/// Straight cubic pieces through the anchors, one per pair.
fn straight_curve(points: &[(i64, i64)]) -> Vec<CurveSegment> {
    points
        .windows(2)
        .map(|w| {
            let (a, b) = (w[0], w[1]);
            let s = SUBPIXEL;
            let third = |p: i64, q: i64| p * s + (q - p) * s / 3;
            CurveSegment {
                start: (a.0 * s, a.1 * s),
                control_a: (third(a.0, b.0), third(a.1, b.1)),
                control_b: (third(b.0, a.0), third(b.1, a.1)),
                end: (b.0 * s, b.1 * s),
            }
        })
        .collect()
}

fn render(data: &WeatherData, moment: Moment, night_mode: bool, seed: u64) -> Vec<Rgba> {
    let sheet = sheet();
    let ctx = RenderContext::new(data, moment, &sheet).unwrap();
    let curve = straight_curve(&ctx.anchor_points(data));
    let mut rng = StdRng::seed_from_u64(seed);
    Renderer::new(night_mode)
        .render(data, moment, &sheet, &curve, &mut rng)
        .unwrap()
        .pixels
}

#[test]
fn cloud_buckets() {
    assert!(cloud_set(0).is_empty());
    assert!(cloud_set(19).is_empty());
    assert_eq!(cloud_set(20), vec![2]);
    assert_eq!(cloud_set(850), vec![30, 10, 10]);
    assert_eq!(cloud_set(1000), vec![50, 30, 10, 10, 5]);
}

#[test]
fn calm_wind_sways_no_tree() {
    assert!(sway_set(3).is_empty());
    assert!(sway_set(4).is_empty());
    assert_eq!(sway_set(5), vec![0]);
    assert_eq!(sway_set(124), vec![2, 2, 3, 0]);
    assert_eq!(sway_set(125), vec![3, 3, 3, 3]);
}

#[test]
fn tree_species_follow_the_wind() {
    assert_eq!(select_trees(0), vec![0, 0, 0, 0]);
    assert_eq!(select_trees(450), vec![0, 0, 1, 1]);
    assert_eq!(select_trees(2700), vec![3, 3, 3, 3]);
    assert_eq!(select_trees(3200), vec![0, 0, 3, 3]);
}

#[test]
fn rounded_sine_matches_floating_point() {
    for n in 0..500i64 {
        assert_eq!(rounded_sine(n), (n as f64).sin().round() as i64, "at {n}");
    }
}

#[test]
fn drop_chance() {
    assert!(!drop_test(0, 0, Condition::Rain));
    assert!(drop_test(0, 100, Condition::Rain));
    assert!(!drop_test(u32::MAX, 100, Condition::Rain));
    // 10 mm of snow: a drop for draws below a fifth of the range.
    assert!(drop_test(858_993_458, 100, Condition::Snow));
    assert!(!drop_test(858_993_460, 100, Condition::Snow));
}

#[test]
fn first_occurrence_is_labeled() {
    let forecasts = vec![point(1, 50), point(2, 150), point(3, 150)];
    assert_eq!(first_with_temperature(&forecasts, 150), Some(1));
    assert_eq!(first_with_temperature(&forecasts, 70), None);
}

#[test]
fn maximum_at_current_is_labeled_once() {
    let mut data = rise_and_fall();
    data.current.air_temperature = 150;
    let ctx = RenderContext::new(&data, moment(), &sheet()).unwrap();
    assert_eq!(ctx.max_temperature, 150);
    assert_eq!(first_with_temperature(&data.forecasts, ctx.max_temperature), Some(12));
}

#[test]
fn too_few_forecasts() {
    let mut data = rise_and_fall();
    data.forecasts.truncate(1);
    let sheet = sheet();
    assert_eq!(
        RenderContext::new(&data, moment(), &sheet).unwrap_err(),
        Error::NotEnoughForecasts
    );
    let mut rng = StdRng::seed_from_u64(1);
    let r = Renderer::new(false).render(&data, moment(), &sheet, &Vec::new(), &mut rng);
    assert_eq!(r.unwrap_err(), Error::NotEnoughForecasts);
}

#[test]
fn layout_of_a_day() {
    let data = rise_and_fall();
    let ctx = RenderContext::new(&data, moment(), &sheet()).unwrap();
    assert_eq!(ctx.x_offset, 10);
    assert_eq!(ctx.x_step, (296 - 10) / 23);
    assert_eq!(ctx.y_step, 50);
    assert_eq!(ctx.y_offset, 114);
    assert_eq!(ctx.min_temperature, 50);
    assert_eq!(ctx.max_temperature, 150);
    assert_eq!((ctx.dpp_num, ctx.dpp_den), (5, 1));
    assert_eq!(ctx.temperature_to_y(50), 114);
    assert_eq!(ctx.temperature_to_y(150), 94);
    assert_eq!(ctx.timestamp_to_x(NOW), 10);
    assert_eq!(ctx.timestamp_to_x(NOW + 43200), 153);
    assert_eq!(ctx.forecast_x(0), 10 + 12);
}

#[test]
fn flat_forecast_gets_half_a_degree_per_pixel() {
    let mut data = rise_and_fall();
    for f in data.forecasts.iter_mut() {
        f.air_temperature = 100;
    }
    let ctx = RenderContext::new(&data, moment(), &sheet()).unwrap();
    assert_eq!((ctx.dpp_num, ctx.dpp_den), (5, 1));
    data.forecasts[3].air_temperature = 900;
    let ctx = RenderContext::new(&data, moment(), &sheet()).unwrap();
    assert_eq!((ctx.dpp_num, ctx.dpp_den), (800, 50));
}

#[test]
fn current_reading_stays_out_of_the_range() {
    let mut data = rise_and_fall();
    for f in data.forecasts.iter_mut() {
        f.air_temperature = 100;
    }
    data.current.air_temperature = -900;
    let ctx = RenderContext::new(&data, moment(), &sheet()).unwrap();
    assert_eq!((ctx.min_temperature, ctx.max_temperature), (100, 100));
    assert_eq!((ctx.dpp_num, ctx.dpp_den), (5, 1));
    data.forecasts[23].air_temperature = -500;
    let ctx = RenderContext::new(&data, moment(), &sheet()).unwrap();
    assert_eq!(ctx.min_temperature, 100);
}

#[test]
fn warmer_is_higher_and_later_is_further_right() {
    let data = rise_and_fall();
    let ctx = RenderContext::new(&data, moment(), &sheet()).unwrap();
    let rows: Vec<i64> = (-300..300).map(|t| ctx.temperature_to_y(t)).collect();
    assert!(rows.windows(2).all(|w| w[0] >= w[1]));
    let cols: Vec<i64> = (0..100).map(|h| ctx.timestamp_to_x(NOW + h * 1800)).collect();
    assert!(cols.windows(2).all(|w| w[0] < w[1]));
}

#[test]
fn no_rain_no_drops() {
    let data = rise_and_fall();
    let sheet = sheet();
    let mut ctx = RenderContext::new(&data, moment(), &sheet).unwrap();
    ctx.populate_temperature_graph_with_lines(&data);
    let mut wet = point(0, 50);
    wet.condition = Condition::Snow;
    let before = ctx.img.pixels.clone();
    let mut rng = StdRng::seed_from_u64(3);
    Renderer::new(false).draw_precipitation(&mut ctx, &wet, 0, 10, 100, &mut rng);
    assert_eq!(ctx.img.pixels, before);
    wet.precipitation_amount = 500;
    Renderer::new(false).draw_precipitation(&mut ctx, &wet, 0, 10, 100, &mut rng);
    assert_ne!(ctx.img.pixels, before);
}

#[test]
fn calm_wind_plants_no_trees() {
    let data = rise_and_fall();
    let sheet = sheet();
    let mut ctx = RenderContext::new(&data, moment(), &sheet).unwrap();
    ctx.populate_temperature_graph_with_lines(&data);
    let before = ctx.img.pixels.clone();
    let renderer = Renderer::new(false);
    for dir in [0, 900, 1800, 2700] {
        let mut calm = point(0, 50);
        calm.wind_speed = 3;
        calm.wind_from_direction = dir;
        let mut rng = StdRng::seed_from_u64(dir as u64);
        renderer.draw_trees(&mut ctx, &sheet, &calm, 30, &mut rng);
        assert_eq!(ctx.img.pixels, before);
    }
    let mut windy = point(0, 50);
    windy.wind_speed = 200;
    let mut rng = StdRng::seed_from_u64(9);
    renderer.draw_trees(&mut ctx, &sheet, &windy, 30, &mut rng);
    assert_ne!(ctx.img.pixels, before);
}

#[test]
fn rise_and_fall_scene() {
    let data = rise_and_fall();
    let a = render(&data, moment(), true, 1);
    let b = render(&data, moment(), true, 2);
    // Nothing random is drawn: no clouds, no precipitation, no fog, no trees.
    assert_eq!(a, b);
    let at = |x: usize, y: usize| a[y * 296 + x];
    // The house stands on the row of 5 degrees.
    assert_eq!(at(0, 113), Rgba::black());
    assert_eq!(at(0, 106), Rgba::black());
    assert_eq!(at(0, 105), Rgba::white());
    // The graph has a pixel in every column up to the last forecast.
    let last_x = 10 + 12 * 24;
    for x in 0..=last_x.min(295) {
        assert!((0..128).any(|y| at(x, y) == Rgba::black()), "column {x} empty");
    }
    // Its peak is at 15 degrees, 20 rows above the house's base.
    let peak_x = 10 + 12 * 13;
    assert_eq!(at(peak_x, 94), Rgba::black());
}

#[test]
fn same_seed_same_picture() {
    let mut data = rise_and_fall();
    for (i, f) in data.forecasts.iter_mut().enumerate() {
        f.cloud_area_fraction = 850;
        f.fog_area_fraction = 400;
        f.precipitation_amount = 30;
        f.condition = Condition::Sleet;
        f.wind_speed = 60;
        f.wind_from_direction = (i as i64 * 300) % 3600;
    }
    let a = render(&data, moment(), false, 42);
    let b = render(&data, moment(), false, 42);
    assert_eq!(a, b);
    let sheet = sheet();
    let ctx = RenderContext::new(&data, moment(), &sheet).unwrap();
    let curve = straight_curve(&ctx.anchor_points(&data));
    let encode = |seed: u64| {
        let mut rng = StdRng::seed_from_u64(seed);
        let img = Renderer::new(false)
            .render(&data, moment(), &sheet, &curve, &mut rng)
            .unwrap();
        img.encode(ImageFormat::Png).unwrap().0
    };
    assert_eq!(encode(5), encode(5));
    // Another seed moves only the random elements; the layout stays.
    let other = RenderContext::new(&data, moment(), &sheet).unwrap();
    assert_eq!(other.x_step, ctx.x_step);
    assert_eq!(other.min_temperature, ctx.min_temperature);
}

#[test]
fn night_mode_inverts_in_the_dark() {
    let data = rise_and_fall();
    let day = render(&data, night(), false, 1);
    let dark = render(&data, night(), true, 1);
    let inverted: Vec<Rgba> = day
        .iter()
        .map(|p| Rgba { r: 255 - p.r, g: 255 - p.g, b: 255 - p.b, a: p.a })
        .collect();
    assert_eq!(dark, inverted);
    let lit = render(&data, moment(), true, 1);
    assert_eq!(lit, render(&data, moment(), false, 1));
}

#[test]
fn sheet_completeness() {
    let full = sheet();
    assert!(full.is_complete());
    assert!(full.has_sprite("pine_03"));
    assert!(!full.has_sprite("pine_04"));
    let mut partial = sheet();
    partial.sprites.retain(|s| s.name != "digit_07");
    assert!(!partial.is_complete());
    assert_eq!(sprite_names().len(), 50);
    assert_eq!(sprite_names()[0], "cloud_02");
}

#[test]
fn straight_graph_columns_and_flat_run() {
    let data = rise_and_fall();
    let mut ctx = RenderContext::new(&data, moment(), &sheet()).unwrap();
    ctx.populate_temperature_graph_with_lines(&data);
    let last = ctx.forecast_x(23);
    let keys: Vec<i64> = ctx.temperature_graph.keys().copied().collect();
    assert_eq!(keys, (0..=last).collect::<Vec<i64>>());
    for c in 0..ctx.x_offset {
        assert_eq!(ctx.temperature_graph[&c], 114);
    }
}

#[test]
fn duplicate_sprite_names_are_refused() {
    let mut png = image::RgbaImage::new(1, 1);
    png.put_pixel(0, 0, image::Rgba([0, 0, 0, 255]));
    let mut bytes: Vec<u8> = Vec::new();
    png.write_to(&mut std::io::Cursor::new(&mut bytes), image::ImageFormat::Png)
        .unwrap();
    let assets = vec![
        ("sun_00".to_string(), bytes.clone()),
        ("sun_00".to_string(), bytes.clone()),
    ];
    assert_eq!(
        weather_landscape::sprites::sprites(&assets).unwrap_err(),
        Error::DuplicateSprite
    );
    let one = vec![("sun_00".to_string(), bytes)];
    assert_eq!(weather_landscape::sprites::sprites(&one).unwrap().sprites.len(), 1);
}
