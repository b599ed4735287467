//! The layout of a scene: where time and temperature fall on the canvas.
use crate::canvas::{Image, PANEL_HEIGHT, PANEL_WIDTH};
use crate::curve::{
    all_in_limit, chained, covers, curve_spec, piece_holds, pixel_of, rows_bounded, sorted_x, points_in_limit, rasterize_curve, rasterize_polyline,
    round_div, round_div_exec, CurveSegment,
};
use crate::error::Error;
use crate::sprites::{sprite, SpriteSheet};
use crate::weather::{DataPoint, WeatherData};
use std::collections::BTreeMap;
use vstd::prelude::*;

verus! {

/// Seconds in a day.
pub const SECONDS_DAY: i64 = 86400;

/// Largest magnitude of a temperature, in tenths of a degree, that labels can show.
pub const TEMPERATURE_LIMIT: i64 = 994;

/// Largest distance of a timestamp from the render instant, in seconds.
pub const TIME_LIMIT: i64 = 0x10_0000_0000;

/// The render instant and the sun's phases around it, all in seconds since the epoch.
/// The phases are those of the instant's day; `next_sunrise` and `next_sunset` are the first
/// after the instant, and `next_midnight` and `next_noon` the first local midnight and noon
/// at or after it.
#[derive(Clone, Copy, Debug, PartialEq, Eq)]
pub struct Moment {
    pub instant: i64,
    pub night_end: i64,
    pub dawn: i64,
    pub sunrise: i64,
    pub sunset: i64,
    pub dusk: i64,
    pub night: i64,
    pub next_sunrise: i64,
    pub next_sunset: i64,
    pub next_midnight: i64,
    pub next_noon: i64,
}

pub open spec fn near(t: i64, instant: i64) -> bool {
    -TIME_LIMIT <= t - instant <= TIME_LIMIT
}

impl Moment {
    pub open spec fn valid(&self) -> bool {
        &&& -TIME_LIMIT <= self.instant <= TIME_LIMIT
        &&& near(self.night_end, self.instant)
        &&& near(self.dawn, self.instant)
        &&& near(self.sunrise, self.instant)
        &&& near(self.sunset, self.instant)
        &&& near(self.dusk, self.instant)
        &&& near(self.night, self.instant)
        &&& near(self.next_sunrise, self.instant)
        &&& near(self.next_sunset, self.instant)
        &&& near(self.next_midnight, self.instant)
        &&& near(self.next_noon, self.instant)
    }

    /// Whether the instant lies strictly between two phases.
    pub open spec fn between(&self, start: i64, end: i64) -> bool {
        start < self.instant && self.instant < end
    }

    /// Twilight: after sunset but before night, or after night's end but before sunrise.
    pub open spec fn is_twilight(&self) -> bool {
        self.between(self.sunset, self.night) || self.between(self.night_end, self.sunrise)
    }

    /// Dark: before dawn or after dusk.
    pub open spec fn is_dark(&self) -> bool {
        self.instant < self.dawn || self.instant > self.dusk
    }

    pub fn twilight(&self) -> (r: bool)
        ensures
            r == self.is_twilight(),
    {
        (self.sunset < self.instant && self.instant < self.night) || (self.night_end < self.instant
            && self.instant < self.sunrise)
    }

    pub fn dark(&self) -> (r: bool)
        ensures
            r == self.is_dark(),
    {
        self.instant < self.dawn || self.instant > self.dusk
    }
}

impl DataPoint {
    /// Values a scene can be drawn from.
    pub open spec fn valid(&self) -> bool {
        &&& -TEMPERATURE_LIMIT <= self.air_temperature <= TEMPERATURE_LIMIT
        &&& 0 <= self.air_pressure_at_sea_level <= 10_000_000
        &&& 0 <= self.cloud_area_fraction <= 1000
        &&& 0 <= self.fog_area_fraction <= 1000
        &&& 0 <= self.precipitation_amount <= 100000
        &&& 0 <= self.wind_from_direction <= 3600
        &&& 0 <= self.wind_speed <= 100000
    }
}

impl WeatherData {
    pub open spec fn valid(&self) -> bool {
        &&& self.current.valid()
        &&& forall|i: int| 0 <= i < self.forecasts@.len() ==> #[trigger] self.forecasts@[i].valid()
        &&& self.forecasts@.len() <= 10000
    }
}

/// The lowest of `t` and the temperatures of `s`.
pub open spec fn min_temperature(t: i64, s: Seq<DataPoint>) -> i64
    decreases s.len(),
{
    if s.len() == 0 {
        t
    } else {
        let m = min_temperature(t, s.drop_last());
        if s.last().air_temperature < m {
            s.last().air_temperature
        } else {
            m
        }
    }
}

/// The highest of `t` and the temperatures of `s`.
pub open spec fn max_temperature(t: i64, s: Seq<DataPoint>) -> i64
    decreases s.len(),
{
    if s.len() == 0 {
        t
    } else {
        let m = max_temperature(t, s.drop_last());
        if s.last().air_temperature > m {
            s.last().air_temperature
        } else {
            m
        }
    }
}

proof fn lemma_extrema_bounds(t: i64, s: Seq<DataPoint>)
    requires
        -TEMPERATURE_LIMIT <= t <= TEMPERATURE_LIMIT,
        forall|i: int| 0 <= i < s.len() ==> #[trigger] s[i].valid(),
    ensures
        -TEMPERATURE_LIMIT <= min_temperature(t, s) <= t,
        t <= max_temperature(t, s) <= TEMPERATURE_LIMIT,
        min_temperature(t, s) <= max_temperature(t, s),
        forall|i: int| 0 <= i < s.len() ==> min_temperature(t, s) <= #[trigger] s[i].air_temperature <= max_temperature(t, s),
    decreases s.len(),
{
    if s.len() > 0 {
        lemma_extrema_bounds(t, s.drop_last());
        assert(s[s.len() - 1].valid());
        assert forall|i: int| 0 <= i < s.len() implies min_temperature(t, s) <= #[trigger] s[i].air_temperature <= max_temperature(t, s) by {
            if i < s.len() - 1 {
                assert(s.drop_last()[i] == s[i]);
            }
        }
    }
}

/// The graph spans 39 percent of the canvas height, which is 50 rows.
pub proof fn lemma_y_step()
    ensures
        round_div(PANEL_WIDTH * 39, 100) == 50,
{
    assert(PANEL_WIDTH * 39 == 4992);
    assert((2 * 4992 + 100) / (2 * 100) == 50) by (nonlinear_arith);
}

/// Rows per degree: `(num, den)` says one pixel stands for `num / den` tenths of a degree.
pub open spec fn degrees_per_pixel(range: int, y_step: int) -> (int, int) {
    if range < 10 * y_step {
        (5, 1)
    } else {
        (range, y_step)
    }
}

/// `ctx` is the layout of a scene for `data` at `moment` drawn with `sheet`, before anything
/// is drawn.
pub open spec fn laid_out(ctx: RenderContext, data: WeatherData, moment: Moment, sheet: SpriteSheet) -> bool {
    let house = sheet.named("house_00"@);
    let n = data.forecasts@.len();
    &&& ctx.wf()
    &&& ctx.moment == moment
    &&& ctx.x_offset == house.width
    &&& ctx.x_step == (if PANEL_HEIGHT >= house.width {
        (PANEL_HEIGHT - house.width) / (n - 1)
    } else {
        0
    })
    &&& ctx.cloud_height == sheet.named("cloud_02"@).height
    &&& ctx.min_temperature == min_temperature(data.forecasts@[0].air_temperature, data.forecasts@.drop_last())
    &&& ctx.max_temperature == max_temperature(data.forecasts@[0].air_temperature, data.forecasts@.drop_last())
    &&& ctx.temperature_graph@ == Map::<i64, i64>::empty()
    &&& forall|i: int| 0 <= i < ctx.img.pixels@.len() ==> #[trigger] ctx.img.pixels@[i] == crate::canvas::white()
}

/// `b` is `a` with its temperature graph rasterized from `curve`.
pub open spec fn graph_from_curve(a: RenderContext, b: RenderContext, curve: Seq<CurveSegment>) -> bool {
    &&& b.wf()
    &&& b.img == a.img
    &&& b.moment == a.moment
    &&& b.x_offset == a.x_offset
    &&& b.x_step == a.x_step
    &&& b.y_offset == a.y_offset
    &&& b.y_step == a.y_step
    &&& b.min_temperature == a.min_temperature
    &&& b.max_temperature == a.max_temperature
    &&& b.dpp_num == a.dpp_num
    &&& b.dpp_den == a.dpp_den
    &&& b.cloud_height == a.cloud_height
    &&& b.temperature_graph@ == curve_spec(Map::<i64, i64>::empty(), curve, 0)
    &&& curve.len() == 0 ==> b.temperature_graph@ == Map::<i64, i64>::empty()
    &&& curve.len() > 0 && all_in_limit(curve) && chained(curve) ==> covers(
        b.temperature_graph@,
        pixel_of(curve[0].start.0),
        pixel_of(curve[curve.len() - 1].end.0),
    )
}

/// Derived per render: the canvas, where the graph sits, and the rasterized temperature
/// graph from pixel column to pixel row.
#[derive(Debug)]
pub struct RenderContext {
    pub img: Image,
    pub moment: Moment,
    /// Columns kept for the house and the current reading.
    pub x_offset: i64,
    /// Columns per forecast sample.
    pub x_step: i64,
    /// The row of the lowest temperature.
    pub y_offset: i64,
    /// Rows the graph's temperature range may span.
    pub y_step: i64,
    /// Height of the clouds.
    pub cloud_height: i64,
    /// Lowest temperature of all forecasts but the last, which lies off the canvas.
    pub min_temperature: i64,
    /// Highest temperature of all forecasts but the last.
    pub max_temperature: i64,
    /// Tenths of a degree one pixel stands for, as numerator and denominator.
    pub dpp_num: i64,
    pub dpp_den: i64,
    pub temperature_graph: BTreeMap<i64, i64>,
}

impl RenderContext {
    /// What the layout keeps true: the canvas is sound and the values stay in range.
    pub open spec fn wf(&self) -> bool {
        &&& self.img.wf()
        &&& self.img.width == PANEL_HEIGHT
        &&& self.img.height == PANEL_WIDTH
        &&& self.moment.valid()
        &&& 0 <= self.x_offset <= 0xffff_ffff
        &&& 0 <= self.x_step <= PANEL_HEIGHT
        &&& self.y_step == round_div(PANEL_WIDTH * 39, 100)
        &&& self.y_offset == PANEL_WIDTH / 2 + self.y_step
        &&& 0 <= self.cloud_height <= 0xffff_ffff
        &&& -TEMPERATURE_LIMIT <= self.min_temperature <= self.max_temperature <= TEMPERATURE_LIMIT
        &&& rows_bounded(self.temperature_graph@)
        &&& (self.dpp_num as int, self.dpp_den as int) == degrees_per_pixel(
            self.max_temperature - self.min_temperature,
            self.y_step as int,
        )
    }

    /// The row of temperature `t` (tenths of a degree): `y_offset` at the lowest temperature,
    /// one row up for each pixel's worth of degrees above it, rounded to the nearest row.
    pub open spec fn spec_temperature_to_y(&self, t: int) -> int {
        self.y_offset - round_div((t - self.min_temperature) * self.dpp_den, self.dpp_num as int)
    }

    /// The column of timestamp `ts`: `x_offset` at the render instant, the rest of the canvas
    /// for one day, rounded to the nearest column.
    pub open spec fn spec_timestamp_to_x(&self, ts: int) -> int {
        round_div((ts - self.moment.instant) * (self.img.width - self.x_offset), SECONDS_DAY as int)
            + self.x_offset
    }

    pub open spec fn spec_forecast_x(&self, i: int) -> int {
        self.x_offset + self.x_step * (i + 1)
    }

    /// Lays out a scene for `data` at `moment`. Fails when there are fewer than two
    /// forecasts: the graph then has no span to cover.
    pub fn new(data: &WeatherData, moment: Moment, sheet: &SpriteSheet) -> (r: Result<
        RenderContext,
        Error,
    >)
        requires
            data.valid(),
            moment.valid(),
            sheet.wf(),
            sheet.has("house_00"@),
            sheet.has("cloud_02"@),
        ensures
            data.forecasts@.len() < 2 ==> r == Err::<RenderContext, Error>(Error::NotEnoughForecasts),
            data.forecasts@.len() >= 2 ==> (r matches Ok(ctx) && laid_out(ctx, *data, moment, *sheet)),
    {
        let n = data.forecasts.len();
        if n < 2 {
            return Err(Error::NotEnoughForecasts);
        }
        let img = Image::new(PANEL_HEIGHT, PANEL_WIDTH);
        let house = sprite(sheet, "house_00");
        proof {
            crate::sprites::lemma_named_wf(*sheet, "house_00"@);
            crate::sprites::lemma_named_wf(*sheet, "cloud_02"@);
        }
        let x_offset: i64 = house.width as i64;
        let x_step: i64 = if PANEL_HEIGHT >= house.width {
            ((PANEL_HEIGHT - house.width) as i64) / ((n - 1) as i64)
        } else {
            0
        };
        let y_step: i64 = round_div_exec((PANEL_WIDTH as i128) * 39, 100) as i64;
        proof {
            lemma_y_step();
        }
        let y_offset: i64 = (PANEL_WIDTH as i64) / 2 + y_step;
        let cloud_height: i64 = sprite(sheet, "cloud_02").height as i64;
        let current = data.forecasts[0].air_temperature;
        proof {
            assert(data.forecasts@[0].valid());
        }
        let mut lo: i64 = current;
        let mut hi: i64 = current;
        let mut i: usize = 0;
        proof {
            lemma_extrema_bounds(current, data.forecasts@.drop_last());
        }
        while i < n - 1
            invariant
                data.valid(),
                n == data.forecasts@.len(),
                n >= 2,
                i <= n - 1,
                lo == min_temperature(current, data.forecasts@.drop_last().subrange(0, i as int)),
                hi == max_temperature(current, data.forecasts@.drop_last().subrange(0, i as int)),
                -TEMPERATURE_LIMIT <= lo <= hi <= TEMPERATURE_LIMIT,
                current == data.forecasts@[0].air_temperature,
            decreases n - 1 - i,
        {
            let t = data.forecasts[i].air_temperature;
            proof {
                let s = data.forecasts@.drop_last();
                assert(s.subrange(0, i + 1).drop_last() =~= s.subrange(0, i as int));
                assert(data.forecasts@[i as int].valid());
            }
            if t < lo {
                lo = t;
            }
            if t > hi {
                hi = t;
            }
            i = i + 1;
        }
        assert(data.forecasts@.drop_last().subrange(0, (n - 1) as int) =~= data.forecasts@.drop_last());
        let range = hi - lo;
        let (dpp_num, dpp_den) = if range < 10 * y_step {
            (5i64, 1i64)
        } else {
            (range, y_step)
        };
        Ok(RenderContext {
            img,
            moment,
            x_offset,
            x_step,
            y_offset,
            y_step,
            cloud_height,
            min_temperature: lo,
            max_temperature: hi,
            dpp_num,
            dpp_den,
            temperature_graph: BTreeMap::new(),
        })
    }

    /// The row of temperature `t`, in tenths of a degree.
    pub fn temperature_to_y(&self, t: i64) -> (y: i64)
        requires
            self.wf(),
            -TEMPERATURE_LIMIT <= t <= TEMPERATURE_LIMIT,
        ensures
            y == self.spec_temperature_to_y(t as int),
            -TEMPERATURE_LIMIT * 2 <= y <= 200 + TEMPERATURE_LIMIT * 2,
    {
        proof {
            lemma_y_step();
        }
        let delta: i128 = (t - self.min_temperature) as i128;
        let den: i128 = self.dpp_den as i128;
        let dn: i128 = self.dpp_num as i128;
        proof {
            let l = 2 * TEMPERATURE_LIMIT;
            if self.max_temperature - self.min_temperature < 10 * self.y_step {
                assert(den == 1 && dn == 5);
                assert(-l * dn <= delta * den <= l * dn);
            } else {
                assert(den == 50 && dn >= 500);
                assert(-l * dn <= delta * den <= l * dn) by (nonlinear_arith)
                    requires
                        den == 50,
                        dn >= 500,
                        -l <= delta <= l,
                        l == 1988,
                ;
            }
        }
        let num: i128 = delta * den;
        let d = round_div_exec(num, dn);
        proof {
            crate::curve::lemma_round_div_bounds(num as int, dn as int, -(2 * TEMPERATURE_LIMIT) as int, 2 * TEMPERATURE_LIMIT as int);
        }
        self.y_offset - (d as i64)
    }

    /// The column of timestamp `ts`, in seconds since the epoch.
    pub fn timestamp_to_x(&self, ts: i64) -> (x: i64)
        requires
            self.wf(),
            near(ts, self.moment.instant),
        ensures
            x == self.spec_timestamp_to_x(ts as int),
            -0x20_0000_0000_0000 <= x <= 0x20_0000_0000_0000,
    {
        let span: i128 = (self.img.width as i128) - (self.x_offset as i128);
        let dt: i128 = (ts - self.moment.instant) as i128;
        assert(-0x1_0000_0000 <= span <= 0x1_0000_0000);
        proof {
            assert(-0x10_0000_0000 * 0x1_0000_0000 <= dt * span <= 0x10_0000_0000 * 0x1_0000_0000) by (nonlinear_arith)
                requires
                    -0x10_0000_0000 <= dt <= 0x10_0000_0000,
                    -0x1_0000_0000 <= span <= 0x1_0000_0000,
            ;
        }
        let num: i128 = dt * span;
        let d = round_div_exec(num, SECONDS_DAY as i128);
        proof {
            crate::curve::lemma_round_div_bounds(num as int, SECONDS_DAY as int, -0x10_0000_0000 * 0x1_0000, (0x10_0000_0000 * 0x1_0000) as int);
        }
        (d as i64) + self.x_offset
    }

    /// The column of forecast `i`.
    pub fn forecast_x(&self, i: usize) -> (x: i64)
        requires
            self.wf(),
            i <= 10000,
        ensures
            x == self.spec_forecast_x(i as int),
            0 <= x <= 0xffff_ffff + 296 * 10001,
    {
        assert(self.x_step * (i + 1) <= 296 * 10001) by (nonlinear_arith)
            requires
                0 <= self.x_step <= 296,
                i <= 10000,
        ;
        assert(self.x_step * (i + 1) >= 0) by (nonlinear_arith)
            requires
                0 <= self.x_step,
                i >= 0,
        ;
        self.x_offset + self.x_step * (i as i64 + 1)
    }

    /// Where forecast `i` with temperature `t` sits on the graph.
    pub fn forecast_coords(&self, i: usize, data_point: &DataPoint) -> (r: (i64, i64))
        requires
            self.wf(),
            i <= 10000,
            data_point.valid(),
        ensures
            r.0 == self.spec_forecast_x(i as int),
            r.1 == self.spec_temperature_to_y(data_point.air_temperature as int),
            -TEMPERATURE_LIMIT * 2 <= r.1 <= 200 + TEMPERATURE_LIMIT * 2,
    {
        (self.forecast_x(i), self.temperature_to_y(data_point.air_temperature))
    }

    /// The points the temperature curve passes: the current reading at columns 0 and
    /// `x_offset`, then each forecast at its column.
    pub fn anchor_points(&self, data: &WeatherData) -> (r: Vec<(i64, i64)>)
        requires
            self.wf(),
            data.valid(),
        ensures
            r@.len() == data.forecasts@.len() + 2,
            r@[0] == (0i64, self.spec_temperature_to_y(data.current.air_temperature as int) as i64),
            r@[1] == (self.x_offset, self.spec_temperature_to_y(data.current.air_temperature as int) as i64),
            forall|i: int|
                0 <= i < data.forecasts@.len() ==> #[trigger] r@[i + 2] == (
                    self.spec_forecast_x(i) as i64,
                    self.spec_temperature_to_y(data.forecasts@[i].air_temperature as int) as i64,
                ),
            points_in_limit(r@),
            sorted_x(r@),
    {
        let y = self.temperature_to_y(data.current.air_temperature);
        let mut points: Vec<(i64, i64)> = Vec::new();
        points.push((0, y));
        points.push((self.x_offset, y));
        let mut i: usize = 0;
        while i < data.forecasts.len()
            invariant
                self.wf(),
                data.valid(),
                i <= data.forecasts@.len(),
                points@.len() == i + 2,
                points@[0] == (0i64, y),
                points@[1] == (self.x_offset, y),
                y == self.spec_temperature_to_y(data.current.air_temperature as int),
                -TEMPERATURE_LIMIT * 2 <= y <= 200 + TEMPERATURE_LIMIT * 2,
                forall|k: int|
                    0 <= k < i ==> #[trigger] points@[k + 2] == (
                        self.spec_forecast_x(k) as i64,
                        self.spec_temperature_to_y(data.forecasts@[k].air_temperature as int) as i64,
                    ),
                forall|k: int|
                    0 <= k < points@.len() ==> -0x2_0000_0000 <= #[trigger] points@[k].0
                        <= 0x2_0000_0000 && -0x2_0000_0000 <= points@[k].1 <= 0x2_0000_0000,
            decreases data.forecasts@.len() - i,
        {
            proof {
                assert(data.forecasts@[i as int].valid());
                assert(self.x_step * (i + 1) <= 296 * 10001) by (nonlinear_arith)
                    requires
                        0 <= self.x_step <= 296,
                        i <= 10000,
                ;
                assert(self.x_step * (i + 1) >= 0) by (nonlinear_arith)
                    requires
                        0 <= self.x_step,
                        i >= 0,
                ;
            }
            let p = self.forecast_coords(i, &data.forecasts[i]);
            points.push(p);
            i = i + 1;
        }
        proof {
            let n = data.forecasts@.len();
            assert forall|i: int, j: int| 0 <= i <= j < points@.len() implies #[trigger] points@[i].0
                <= #[trigger] points@[j].0 by {
                if j >= 2 {
                    assert(0 <= self.x_step * (j - 1) <= 296 * 10001) by (nonlinear_arith)
                        requires
                            0 <= self.x_step <= 296,
                            2 <= j <= 10001,
                    ;
                    assert(points@[(j - 2) + 2].0 == self.spec_forecast_x(j - 2) as i64);
                }
                if i >= 2 {
                    assert(self.x_step * (i - 1) <= self.x_step * (j - 1)) by (nonlinear_arith)
                        requires
                            self.x_step >= 0,
                            i <= j,
                    ;
                    assert(0 <= self.x_step * (i - 1) <= 296 * 10001) by (nonlinear_arith)
                        requires
                            0 <= self.x_step <= 296,
                            2 <= i <= 10001,
                    ;
                    assert(points@[(i - 2) + 2].0 == self.spec_forecast_x(i - 2) as i64);
                }
            }
        }
        points
    }

    /// Rasterizes a curve fitted to the anchor points into the temperature graph; with no
    /// curve (the fit failed) the graph stays empty.
    pub fn populate_temperature_graph(&mut self, curve: &Vec<CurveSegment>)
        requires
            old(self).wf(),
        ensures
            final(self).wf(),
            final(self).img == old(self).img,
            final(self).moment == old(self).moment,
            final(self).x_offset == old(self).x_offset,
            final(self).x_step == old(self).x_step,
            final(self).y_offset == old(self).y_offset,
            final(self).min_temperature == old(self).min_temperature,
            final(self).max_temperature == old(self).max_temperature,
            final(self).dpp_num == old(self).dpp_num,
            final(self).dpp_den == old(self).dpp_den,
            final(self).cloud_height == old(self).cloud_height,
            curve@.len() == 0 ==> final(self).temperature_graph@ == Map::<i64, i64>::empty(),
            curve@.len() > 0 && all_in_limit(curve@) && chained(curve@) ==> covers(
                final(self).temperature_graph@,
                pixel_of(curve@[0].start.0),
                pixel_of(curve@[curve@.len() - 1].end.0),
            ),
            graph_from_curve(*old(self), *final(self), curve@),
    {
        self.temperature_graph = rasterize_curve(curve);
    }

    /// Joins the anchor points with straight lines into the temperature graph: every column
    /// from 0 to the last forecast's has a row.
    pub fn populate_temperature_graph_with_lines(&mut self, data: &WeatherData)
        requires
            old(self).wf(),
            data.valid(),
        ensures
            final(self).wf(),
            final(self).img == old(self).img,
            final(self).moment == old(self).moment,
            final(self).x_offset == old(self).x_offset,
            final(self).x_step == old(self).x_step,
            final(self).y_offset == old(self).y_offset,
            final(self).min_temperature == old(self).min_temperature,
            final(self).max_temperature == old(self).max_temperature,
            final(self).dpp_num == old(self).dpp_num,
            final(self).dpp_den == old(self).dpp_den,
            final(self).cloud_height == old(self).cloud_height,
            covers(
                final(self).temperature_graph@,
                0,
                old(self).spec_forecast_x(data.forecasts@.len() - 1),
            ) || data.forecasts@.len() == 0,
            data.forecasts@.len() > 0 ==> forall|c: i64|
                #[trigger] final(self).temperature_graph@.contains_key(c) <==> 0 <= c
                    <= old(self).spec_forecast_x(data.forecasts@.len() - 1),
            forall|c: i64|
                0 <= c < old(self).x_offset ==> #[trigger] final(self).temperature_graph@[c]
                    == old(self).spec_temperature_to_y(data.current.air_temperature as int) as i64,
            forall|i: int|
                0 <= i < data.forecasts@.len() - 1 ==> piece_holds(
                    final(self).temperature_graph@,
                    (
                        old(self).spec_forecast_x(i) as i64,
                        old(self).spec_temperature_to_y(
                            #[trigger] data.forecasts@[i].air_temperature as int,
                        ) as i64,
                    ),
                    (
                        old(self).spec_forecast_x(i + 1) as i64,
                        old(self).spec_temperature_to_y(data.forecasts@[i + 1].air_temperature as int)
                            as i64,
                    ),
                ),
    {
        let points = self.anchor_points(data);
        self.temperature_graph = rasterize_polyline(&points);
        proof {
            let n = data.forecasts@.len();
            let yc = self.spec_temperature_to_y(data.current.air_temperature as int);
            assert(piece_holds(self.temperature_graph@, points@[0], points@[1]));
            assert forall|c: i64| 0 <= c < self.x_offset implies #[trigger] self.temperature_graph@[c]
                == yc as i64 by {
                assert(points@[0] == (0i64, yc as i64));
                assert(points@[1] == (self.x_offset, yc as i64));
            }
            assert forall|i: int| 0 <= i < n - 1 implies piece_holds(
                self.temperature_graph@,
                (
                    self.spec_forecast_x(i) as i64,
                    self.spec_temperature_to_y(#[trigger] data.forecasts@[i].air_temperature as int) as i64,
                ),
                (
                    self.spec_forecast_x(i + 1) as i64,
                    self.spec_temperature_to_y(data.forecasts@[i + 1].air_temperature as int) as i64,
                ),
            ) by {
                assert(piece_holds(self.temperature_graph@, points@[i + 2], points@[i + 3]));
                assert(points@[i + 2] == (
                    self.spec_forecast_x(i) as i64,
                    self.spec_temperature_to_y(data.forecasts@[i].air_temperature as int) as i64,
                ));
                assert(points@[i + 1 + 2] == (
                    self.spec_forecast_x(i + 1) as i64,
                    self.spec_temperature_to_y(data.forecasts@[i + 1].air_temperature as int) as i64,
                ));
            }
            if n > 0 {
                assert(points@[n - 1 + 2] == (
                    self.spec_forecast_x(n - 1) as i64,
                    self.spec_temperature_to_y(data.forecasts@[n - 1].air_temperature as int) as i64,
                ));
                assert(self.x_step * n <= 296 * 10001) by (nonlinear_arith)
                    requires
                        0 <= self.x_step <= 296,
                        n <= 10000,
                ;
                assert(self.x_step * n >= 0) by (nonlinear_arith)
                    requires
                        0 <= self.x_step,
                        n >= 0,
                ;
            }
        }
    }
}

impl Moment {
    /// Whether every phase lies within reach of the instant.
    pub fn is_valid(&self) -> (r: bool)
        ensures
            r == self.valid(),
    {
        let i = self.instant;
        let near_exec = |t: i64| -> (b: bool)
            ensures
                b == (-TIME_LIMIT <= t as int - i as int <= TIME_LIMIT),
            { (t as i128) - (i as i128) >= -(TIME_LIMIT as i128) && (t as i128) - (i as i128) <= TIME_LIMIT as i128 };
        -TIME_LIMIT <= i && i <= TIME_LIMIT && near_exec(self.night_end) && near_exec(self.dawn)
            && near_exec(self.sunrise) && near_exec(self.sunset) && near_exec(self.dusk) && near_exec(
            self.night,
        ) && near_exec(self.next_sunrise) && near_exec(self.next_sunset) && near_exec(
            self.next_midnight,
        ) && near_exec(self.next_noon)
    }
}

impl DataPoint {
    /// Whether the sample's values are ones a scene can be drawn from.
    pub fn is_valid(&self) -> (r: bool)
        ensures
            r == self.valid(),
    {
        -TEMPERATURE_LIMIT <= self.air_temperature && self.air_temperature <= TEMPERATURE_LIMIT
            && 0 <= self.air_pressure_at_sea_level && self.air_pressure_at_sea_level <= 10_000_000
            && 0 <= self.cloud_area_fraction && self.cloud_area_fraction <= 1000 && 0
            <= self.fog_area_fraction && self.fog_area_fraction <= 1000 && 0
            <= self.precipitation_amount && self.precipitation_amount <= 100000 && 0
            <= self.wind_from_direction && self.wind_from_direction <= 3600 && 0 <= self.wind_speed
            && self.wind_speed <= 100000
    }
}

impl WeatherData {
    /// Whether a scene can be drawn from the data.
    pub fn is_valid(&self) -> (r: bool)
        ensures
            r == self.valid(),
    {
        if !self.current.is_valid() || self.forecasts.len() > 10000 {
            return false;
        }
        let mut i: usize = 0;
        while i < self.forecasts.len()
            invariant
                i <= self.forecasts@.len(),
                forall|k: int| 0 <= k < i ==> #[trigger] self.forecasts@[k].valid(),
            decreases self.forecasts@.len() - i,
        {
            if !self.forecasts[i].is_valid() {
                return false;
            }
            i = i + 1;
        }
        true
    }
}

/// The column of `ts` on the panel's long side, with `start` at column 0 and a day across
/// it, kept on the panel.
pub open spec fn spec_timestamp_to_column(start: int, ts: int) -> int {
    let c = (ts - start) * PANEL_HEIGHT / SECONDS_DAY as int;
    if c > PANEL_HEIGHT - 1 {
        PANEL_HEIGHT - 1
    } else {
        c
    }
}

/// The column of `ts` on the panel's long side.
pub fn timestamp_to_column(start: i64, ts: i64) -> (c: i64)
    requires
        start <= ts,
        near(ts, start),
    ensures
        c == spec_timestamp_to_column(start as int, ts as int),
        0 <= c < PANEL_HEIGHT,
{
    let delta: i128 = (ts as i128) - (start as i128);
    let c: i128 = delta * (PANEL_HEIGHT as i128) / (SECONDS_DAY as i128);
    proof {
        assert(delta * 296 >= 0) by (nonlinear_arith)
            requires
                delta >= 0,
        ;
    }
    if c > (PANEL_HEIGHT as i128) - 1 {
        (PANEL_HEIGHT as i64) - 1
    } else {
        c as i64
    }
}

/// The layout depends on the weather, the moment and the sprites alone: two layouts of the
/// same inputs agree on every value, whatever is drawn with them afterwards.
pub proof fn lemma_layout_deterministic(
    a: RenderContext,
    b: RenderContext,
    data: WeatherData,
    moment: Moment,
    sheet: SpriteSheet,
)
    requires
        laid_out(a, data, moment, sheet),
        laid_out(b, data, moment, sheet),
    ensures
        a.x_offset == b.x_offset,
        a.x_step == b.x_step,
        a.y_offset == b.y_offset,
        a.y_step == b.y_step,
        a.cloud_height == b.cloud_height,
        a.min_temperature == b.min_temperature,
        a.max_temperature == b.max_temperature,
        a.dpp_num == b.dpp_num,
        a.dpp_den == b.dpp_den,
        a.img.pixels@ == b.img.pixels@,
{
    lemma_y_step();
    assert(a.img.pixels@ =~= b.img.pixels@);
}

proof fn lemma_round_div_monotonic(a: int, b: int, d: int)
    requires
        a <= b,
        d > 0,
    ensures
        round_div(a, d) <= round_div(b, d),
{
    if a >= 0 {
        vstd::arithmetic::div_mod::lemma_div_is_ordered(2 * a + d, 2 * b + d, 2 * d);
    } else if b < 0 {
        vstd::arithmetic::div_mod::lemma_div_is_ordered(-2 * b + d, -2 * a + d, 2 * d);
    } else {
        vstd::arithmetic::div_mod::lemma_div_pos_is_pos(-2 * a + d, 2 * d);
        vstd::arithmetic::div_mod::lemma_div_pos_is_pos(2 * b + d, 2 * d);
    }
}

/// A warmer temperature never sits lower on the canvas: its row is at most that of a
/// colder one.
pub proof fn lemma_temperature_to_y_monotonic(ctx: RenderContext, t1: int, t2: int)
    requires
        ctx.wf(),
        t1 <= t2,
    ensures
        ctx.spec_temperature_to_y(t1) >= ctx.spec_temperature_to_y(t2),
{
    lemma_y_step();
    let den = ctx.dpp_den as int;
    assert((t1 - ctx.min_temperature) * den <= (t2 - ctx.min_temperature) * den) by (nonlinear_arith)
        requires
            t1 <= t2,
            den >= 1,
    ;
    lemma_round_div_monotonic(
        (t1 - ctx.min_temperature) * den,
        (t2 - ctx.min_temperature) * den,
        ctx.dpp_num as int,
    );
}

/// A later timestamp never falls to the left of an earlier one, as long as the graph has
/// columns to the right of the house.
pub proof fn lemma_timestamp_to_x_monotonic(ctx: RenderContext, ts1: int, ts2: int)
    requires
        ctx.wf(),
        ts1 <= ts2,
        ctx.x_offset <= ctx.img.width,
    ensures
        ctx.spec_timestamp_to_x(ts1) <= ctx.spec_timestamp_to_x(ts2),
{
    let span = ctx.img.width - ctx.x_offset;
    assert((ts1 - ctx.moment.instant) * span <= (ts2 - ctx.moment.instant) * span) by (nonlinear_arith)
        requires
            ts1 <= ts2,
            span >= 0,
    ;
    lemma_round_div_monotonic(
        (ts1 - ctx.moment.instant) * span,
        (ts2 - ctx.moment.instant) * span,
        SECONDS_DAY as int,
    );
}

/// A temperature range smaller than the graph's rows gives half a degree per pixel, and no
/// range ever gives less.
pub proof fn lemma_degrees_per_pixel_floor(ctx: RenderContext)
    requires
        ctx.wf(),
    ensures
        ctx.max_temperature - ctx.min_temperature < 10 * ctx.y_step ==> ctx.dpp_num == 5
            && ctx.dpp_den == 1,
        ctx.dpp_num >= 5 * ctx.dpp_den,
        ctx.dpp_den >= 1,
{
    lemma_y_step();
}

} // verus!
