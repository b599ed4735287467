//! Turns a weather forecast into a hand-drawn-looking landscape for a monochrome e-paper
//! panel: a house, the sun and moon, clouds, fog, rain and snow, trees bent by the wind and a
//! curve of the temperature, encoded for the panel or as a PNG, GIF or BMP image.
//!
//! - `weather`: the weather data in fixed-point units and the condition codes.
//! - `layout`: where time and temperature fall on the canvas.
//! - `curve`: rasterizing the temperature curve, column by column.
//! - `scene`: the rules that decide what is drawn where.
//! - `canvas`: the pixel buffer and its encodings.
//! - `sprites`: the named bitmaps scenes are drawn with.
//! - `chance`: draws from a seedable random number generator.
//! - `preset`: settings that apply during daily time windows.
//! - `device`: what the display receives with an image.
use vstd::prelude::*;

pub mod canvas;
pub mod chance;
pub mod curve;
pub mod device;
pub mod error;
pub mod layout;
pub mod preset;
pub mod scene;
pub mod sprites;
pub mod weather;

verus! {

} // verus!
