//! RGB colors carried by entities, tiles and log messages.

use vstd::prelude::*;

verus! {

#[derive(Clone, Copy, Debug, PartialEq, Eq, Structural)]
pub struct Color {
    pub r: u8,
    pub g: u8,
    pub b: u8,
}

impl Color {
    pub fn new(r: u8, g: u8, b: u8) -> (c: Color)
        ensures
            c == (Color { r, g, b }),
    {
        Color { r, g, b }
    }
}

pub open spec fn white_spec() -> Color {
    Color { r: 255, g: 255, b: 255 }
}

pub fn white() -> (c: Color)
    ensures
        c == white_spec(),
{
    Color { r: 255, g: 255, b: 255 }
}

pub open spec fn red_spec() -> Color {
    Color { r: 255, g: 0, b: 0 }
}

pub fn red() -> (c: Color)
    ensures
        c == red_spec(),
{
    Color { r: 255, g: 0, b: 0 }
}

pub open spec fn dark_red_spec() -> Color {
    Color { r: 191, g: 0, b: 0 }
}

pub fn dark_red() -> (c: Color)
    ensures
        c == dark_red_spec(),
{
    Color { r: 191, g: 0, b: 0 }
}

pub open spec fn green_spec() -> Color {
    Color { r: 0, g: 255, b: 0 }
}

pub fn green() -> (c: Color)
    ensures
        c == green_spec(),
{
    Color { r: 0, g: 255, b: 0 }
}

pub open spec fn light_green_spec() -> Color {
    Color { r: 63, g: 255, b: 63 }
}

pub fn light_green() -> (c: Color)
    ensures
        c == light_green_spec(),
{
    Color { r: 63, g: 255, b: 63 }
}

pub open spec fn yellow_spec() -> Color {
    Color { r: 255, g: 255, b: 0 }
}

pub fn yellow() -> (c: Color)
    ensures
        c == yellow_spec(),
{
    Color { r: 255, g: 255, b: 0 }
}

pub open spec fn light_yellow_spec() -> Color {
    Color { r: 255, g: 255, b: 63 }
}

pub fn light_yellow() -> (c: Color)
    ensures
        c == light_yellow_spec(),
{
    Color { r: 255, g: 255, b: 63 }
}

pub open spec fn orange_spec() -> Color {
    Color { r: 255, g: 127, b: 0 }
}

pub fn orange() -> (c: Color)
    ensures
        c == orange_spec(),
{
    Color { r: 255, g: 127, b: 0 }
}

pub open spec fn sky_spec() -> Color {
    Color { r: 0, g: 191, b: 255 }
}

pub fn sky() -> (c: Color)
    ensures
        c == sky_spec(),
{
    Color { r: 0, g: 191, b: 255 }
}

pub open spec fn light_blue_spec() -> Color {
    Color { r: 63, g: 63, b: 255 }
}

pub fn light_blue() -> (c: Color)
    ensures
        c == light_blue_spec(),
{
    Color { r: 63, g: 63, b: 255 }
}

pub open spec fn light_violet_spec() -> Color {
    Color { r: 159, g: 63, b: 255 }
}

pub fn light_violet() -> (c: Color)
    ensures
        c == light_violet_spec(),
{
    Color { r: 159, g: 63, b: 255 }
}

pub open spec fn light_cyan_spec() -> Color {
    Color { r: 63, g: 255, b: 255 }
}

pub fn light_cyan() -> (c: Color)
    ensures
        c == light_cyan_spec(),
{
    Color { r: 63, g: 255, b: 255 }
}

pub open spec fn lighter_cyan_spec() -> Color {
    Color { r: 127, g: 255, b: 255 }
}

pub fn lighter_cyan() -> (c: Color)
    ensures
        c == lighter_cyan_spec(),
{
    Color { r: 127, g: 255, b: 255 }
}

pub open spec fn light_grey_spec() -> Color {
    Color { r: 159, g: 159, b: 159 }
}

pub fn light_grey() -> (c: Color)
    ensures
        c == light_grey_spec(),
{
    Color { r: 159, g: 159, b: 159 }
}

} // verus!
