//! How text is laid out and rendered: the configurable modes, with their defaults, and the
//! size arithmetic around the text layout engine.
use vstd::prelude::*;

verus! {

/// Where text that does not fit is cut short with an ellipsis.
#[derive(Debug, Clone, Copy, PartialEq, Eq, Structural)]
pub enum EllipsizeMode {
    NoEllipsize,
    Start,
    Middle,
    End,
}

impl Default for EllipsizeMode {
    /// In the middle.
    fn default() -> (m: Self)
        ensures
            m == EllipsizeMode::Middle,
    {
        EllipsizeMode::Middle
    }
}

/// How lines of text are aligned.
#[derive(Debug, Clone, Copy, PartialEq, Eq, Structural)]
pub enum AlignMode {
    Left,
    Center,
    Right,
}

impl Default for AlignMode {
    /// To the left.
    fn default() -> (m: Self)
        ensures
            m == AlignMode::Left,
    {
        AlignMode::Left
    }
}

/// Whether and how glyphs are smoothed; `System` keeps the display server's setting.
#[derive(Debug, Clone, Copy, PartialEq, Eq, Structural)]
pub enum Antialias {
    System,
    /// No smoothing (configured as `None`).
    NoAntialias,
    Gray,
    Subpixel,
}

impl Default for Antialias {
    /// The display server's setting.
    fn default() -> (m: Self)
        ensures
            m == Antialias::System,
    {
        Antialias::System
    }
}

/// How much glyph outlines are bent to fit the pixel grid; `System` keeps the display
/// server's setting.
#[derive(Debug, Clone, Copy, PartialEq, Eq, Structural)]
pub enum HintStyle {
    System,
    /// No hinting (configured as `None`).
    NoHinting,
    Slight,
    Medium,
    Full,
}

impl Default for HintStyle {
    /// Slight hinting.
    fn default() -> (m: Self)
        ensures
            m == HintStyle::Slight,
    {
        HintStyle::Slight
    }
}

/// Whether glyph advances are rounded to whole pixels; `System` keeps the display server's
/// setting.
#[derive(Debug, Clone, Copy, PartialEq, Eq, Structural)]
pub enum HintMetrics {
    System,
    Off,
    On,
}

impl Default for HintMetrics {
    /// Rounded.
    fn default() -> (m: Self)
        ensures
            m == HintMetrics::On,
    {
        HintMetrics::On
    }
}

/// The order of the colour elements of a display pixel, for subpixel smoothing; `System`
/// keeps the display server's setting.
#[derive(Debug, Clone, Copy, PartialEq, Eq, Structural)]
pub enum SubpixelOrder {
    System,
    Rgb,
    Bgr,
    Vrgb,
    Vbgr,
}

impl Default for SubpixelOrder {
    /// The display server's setting.
    fn default() -> (m: Self)
        ensures
            m == SubpixelOrder::System,
    {
        SubpixelOrder::System
    }
}

/// Font rendering options; each is merged over the display server's setting on its own.
#[derive(Debug, Clone, Copy, PartialEq, Eq, Structural)]
pub struct FontOptions {
    pub antialias: Antialias,
    pub hint_style: HintStyle,
    pub hint_metrics: HintMetrics,
    pub subpixel_order: SubpixelOrder,
}

impl Default for FontOptions {
    /// Each option at its own default.
    fn default() -> (o: Self)
        ensures
            o.antialias == Antialias::System,
            o.hint_style == HintStyle::Slight,
            o.hint_metrics == HintMetrics::On,
            o.subpixel_order == SubpixelOrder::System,
    {
        FontOptions {
            antialias: Antialias::default(),
            hint_style: HintStyle::default(),
            hint_metrics: HintMetrics::default(),
            subpixel_order: SubpixelOrder::default(),
        }
    }
}

/// The width or height handed to the layout engine for a largest size of `max` pixels:
/// none (-1) when `max` is negative, and otherwise `max` in the engine's units, `scale` of
/// which make a pixel.
pub open spec fn layout_extent(max: i32, scale: i32) -> int {
    if max < 0 {
        -1
    } else {
        scale * max
    }
}

/// [`layout_extent`] of `max`.
pub fn pango_extent(max: i32, scale: i32) -> (e: i32)
    requires
        max >= 0 ==> i32::MIN <= scale * max <= i32::MAX,
    ensures
        e == layout_extent(max, scale),
{
    if max < 0 {
        -1
    } else {
        scale * max
    }
}

/// The size of a text block that the layout engine measured as `width` by `height` pixels,
/// grown to at least `min_width` by `min_height`.
pub fn sized_extents(width: i32, height: i32, min_width: i32, min_height: i32) -> (r: (i32, i32))
    ensures
        r.0 == (if width < min_width {
            min_width
        } else {
            width
        }),
        r.1 == (if height < min_height {
            min_height
        } else {
            height
        }),
{
    let w = if width < min_width {
        min_width
    } else {
        width
    };
    let h = if height < min_height {
        min_height
    } else {
        height
    };
    (w, h)
}

} // verus!
