//! How a notification card looks: sizes, colours, text styles, the progress
//! bar, the thumbnail, placement and animation.
//!
//! Font sizes and gaps are fractional; they are kept here as the bit
//! patterns of their `f32` values ([`FloatBits`]), which the renderer turns
//! back into floats. Nothing in this crate computes with them.

use vstd::prelude::*;

use crate::config::color::{ColorConfig, GradientDirection, RgbaColor};
use crate::config::template::{default_layout, NotificationTemplate, TemplateTokenModel};
use crate::text::{chars_of, parse_u32, push_char, string_from_chars, u32_text};

verus! {

broadcast use vstd::string::group_string_axioms;

/// The IEEE 754 bit pattern of an `f32`.
#[derive(Clone, Copy, Debug, PartialEq, Eq, Structural)]
pub struct FloatBits(pub u32);

#[derive(Clone, Copy, Debug, PartialEq, Eq, Structural)]
pub enum AnimationDirection {
    Anchor,
    Top,
    Right,
    Bottom,
    Left,
}

#[derive(Clone, Copy, Debug, PartialEq, Eq, Structural)]
pub enum AnimationEffect {
    Off,
    Slide,
    Fade,
    SlideFade,
    Scale,
}

#[derive(Clone, Copy, Debug, PartialEq, Eq, Structural)]
pub enum AnimationEasing {
    Default,
    Linear,
    EaseIn,
    EaseOut,
    EaseInOut,
}

#[derive(Clone, Copy, Debug, PartialEq, Eq, Structural)]
pub struct TransitionConfig {
    pub effect: AnimationEffect,
    pub easing: AnimationEasing,
    pub direction: AnimationDirection,
    pub duration: u64,
}

#[derive(Clone, Copy, Debug, PartialEq, Eq, Structural)]
pub struct AnimationConfig {
    pub enabled: bool,
    pub enter: TransitionConfig,
    pub exit: TransitionConfig,
}

#[derive(Clone, Copy, Debug, PartialEq, Eq, Structural)]
pub enum Anchor {
    Top,
    TopLeft,
    TopRight,
    Bottom,
    BottomLeft,
    BottomRight,
    Left,
    Right,
}

#[derive(Clone, Copy, Debug, PartialEq, Eq, Structural)]
pub struct PositionConfig {
    pub anchor: Anchor,
    pub top_margin: u32,
    pub bottom_margin: u32,
    pub left_margin: u32,
    pub right_margin: u32,
    pub notification_gap: u32,
}

#[derive(Clone, Copy, Debug, PartialEq, Eq, Structural)]
pub struct ThumbnailConfig {
    pub size: u32,
    pub gap: u32,
}

#[derive(Clone, Copy, Debug, PartialEq, Eq, Structural)]
pub enum ProgressDirection {
    LeftToRight,
    RightToLeft,
    BottomToTop,
    TopToBottom,
}

#[derive(Clone, Copy, Debug, PartialEq, Eq, Structural)]
pub enum ProgressAlignment {
    Start,
    Center,
    End,
}

/// How thick the progress bar is: a pixel count, or a percentage (as `f32`
/// bits) of the space across the bar.
#[derive(Clone, Copy, Debug, PartialEq, Eq, Structural)]
pub enum ProgressThickness {
    Pixels(u32),
    Percent(FloatBits),
}

pub struct ProgressConfig {
    pub direction: ProgressDirection,
    pub thickness: ProgressThickness,
    pub alignment: ProgressAlignment,
    pub inset: u32,
    pub corner_radius: u32,
    pub color: ColorConfig,
}

pub struct BorderConfig {
    pub width: u32,
    pub color: ColorConfig,
}

pub struct TextStyleConfig {
    pub font_size: FloatBits,
    pub bold: bool,
    pub italic: bool,
    pub color: ColorConfig,
    pub gradient_direction: Option<GradientDirection>,
    pub font_family: Option<String>,
}

pub struct SummaryConfig {
    pub text: TextStyleConfig,
    pub bottom_gap: FloatBits,
}

pub struct BodyConfig {
    pub text: TextStyleConfig,
}

pub struct NotificationConfig {
    pub below_fullscreen: bool,
    pub animation: AnimationConfig,
    pub gradient_direction: GradientDirection,
    pub min_width: u32,
    pub max_width: u32,
    pub min_height: u32,
    pub max_height: u32,
    pub outer_padding: u32,
    pub corner_radius: u32,
    pub format: NotificationTemplate,
    pub color: ColorConfig,
    pub emoji_font: String,
    pub position: PositionConfig,
    pub progress: ProgressConfig,
    pub border: BorderConfig,
    pub thumbnail: ThumbnailConfig,
    pub summary: SummaryConfig,
    pub body: BodyConfig,
    pub app_name: TextStyleConfig,
    pub details: TextStyleConfig,
    pub literal: TextStyleConfig,
}

/// The content of a [`ProgressConfig`].
pub struct ProgressModel {
    pub direction: ProgressDirection,
    pub thickness: ProgressThickness,
    pub alignment: ProgressAlignment,
    pub inset: u32,
    pub corner_radius: u32,
    pub color: Seq<RgbaColor>,
}

/// The content of a [`BorderConfig`].
pub struct BorderModel {
    pub width: u32,
    pub color: Seq<RgbaColor>,
}

/// The content of a [`TextStyleConfig`].
pub struct TextStyleModel {
    pub font_size: FloatBits,
    pub bold: bool,
    pub italic: bool,
    pub color: Seq<RgbaColor>,
    pub gradient_direction: Option<GradientDirection>,
    pub font_family: Option<Seq<char>>,
}

/// The content of a [`SummaryConfig`].
pub struct SummaryModel {
    pub text: TextStyleModel,
    pub bottom_gap: FloatBits,
}

/// The content of a [`NotificationConfig`].
pub struct NotificationModel {
    pub below_fullscreen: bool,
    pub animation: AnimationConfig,
    pub gradient_direction: GradientDirection,
    pub min_width: u32,
    pub max_width: u32,
    pub min_height: u32,
    pub max_height: u32,
    pub outer_padding: u32,
    pub corner_radius: u32,
    pub format: Seq<TemplateTokenModel>,
    pub color: Seq<RgbaColor>,
    pub emoji_font: Seq<char>,
    pub position: PositionConfig,
    pub progress: ProgressModel,
    pub border: BorderModel,
    pub thumbnail: ThumbnailConfig,
    pub summary: SummaryModel,
    pub body: TextStyleModel,
    pub app_name: TextStyleModel,
    pub details: TextStyleModel,
    pub literal: TextStyleModel,
}

impl View for ProgressConfig {
    type V = ProgressModel;

    open spec fn view(&self) -> ProgressModel {
        ProgressModel {
            direction: self.direction,
            thickness: self.thickness,
            alignment: self.alignment,
            inset: self.inset,
            corner_radius: self.corner_radius,
            color: self.color@,
        }
    }
}

impl View for BorderConfig {
    type V = BorderModel;

    open spec fn view(&self) -> BorderModel {
        BorderModel { width: self.width, color: self.color@ }
    }
}

/// The characters of an optional string.
pub open spec fn opt_string(o: Option<String>) -> Option<Seq<char>> {
    match o {
        Some(s) => Some(s@),
        None => None,
    }
}

impl View for TextStyleConfig {
    type V = TextStyleModel;

    open spec fn view(&self) -> TextStyleModel {
        TextStyleModel {
            font_size: self.font_size,
            bold: self.bold,
            italic: self.italic,
            color: self.color@,
            gradient_direction: self.gradient_direction,
            font_family: opt_string(self.font_family),
        }
    }
}

impl View for SummaryConfig {
    type V = SummaryModel;

    open spec fn view(&self) -> SummaryModel {
        SummaryModel { text: self.text@, bottom_gap: self.bottom_gap }
    }
}

impl View for NotificationConfig {
    type V = NotificationModel;

    open spec fn view(&self) -> NotificationModel {
        NotificationModel {
            below_fullscreen: self.below_fullscreen,
            animation: self.animation,
            gradient_direction: self.gradient_direction,
            min_width: self.min_width,
            max_width: self.max_width,
            min_height: self.min_height,
            max_height: self.max_height,
            outer_padding: self.outer_padding,
            corner_radius: self.corner_radius,
            format: self.format@,
            color: self.color@,
            emoji_font: self.emoji_font@,
            position: self.position,
            progress: self.progress@,
            border: self.border@,
            thumbnail: self.thumbnail,
            summary: self.summary@,
            body: self.body.text@,
            app_name: self.app_name@,
            details: self.details@,
            literal: self.literal@,
        }
    }
}

impl ProgressDirection {
    pub fn is_horizontal(&self) -> (b: bool)
        ensures
            b == (*self == ProgressDirection::LeftToRight || *self == ProgressDirection::RightToLeft),
    {
        match self {
            ProgressDirection::LeftToRight | ProgressDirection::RightToLeft => true,
            _ => false,
        }
    }
}

impl ProgressThickness {
    /// A pixel thickness, capped at the space available; `None` for a
    /// percentage, which the renderer works out in floating point.
    pub fn resolve_pixels(&self, available: u32) -> (r: Option<u32>)
        ensures
            match *self {
                ProgressThickness::Pixels(p) => r == Some(if p < available {
                    p
                } else {
                    available
                }),
                ProgressThickness::Percent(_) => r is None,
            },
    {
        match self {
            ProgressThickness::Pixels(pixels) => Some(
                if *pixels < available {
                    *pixels
                } else {
                    available
                },
            ),
            ProgressThickness::Percent(_) => None,
        }
    }
}

impl Clone for ProgressConfig {
    fn clone(&self) -> (c: Self)
        ensures
            c@ == self@,
    {
        ProgressConfig {
            direction: self.direction,
            thickness: self.thickness,
            alignment: self.alignment,
            inset: self.inset,
            corner_radius: self.corner_radius,
            color: self.color.clone(),
        }
    }
}

impl Clone for BorderConfig {
    fn clone(&self) -> (c: Self)
        ensures
            c@ == self@,
    {
        BorderConfig { width: self.width, color: self.color.clone() }
    }
}

fn clone_opt_string(o: &Option<String>) -> (r: Option<String>)
    ensures
        opt_string(r) == opt_string(*o),
{
    match o {
        Some(s) => Some(s.clone()),
        None => None,
    }
}

impl Clone for TextStyleConfig {
    fn clone(&self) -> (c: Self)
        ensures
            c@ == self@,
    {
        TextStyleConfig {
            font_size: self.font_size,
            bold: self.bold,
            italic: self.italic,
            color: self.color.clone(),
            gradient_direction: self.gradient_direction,
            font_family: clone_opt_string(&self.font_family),
        }
    }
}

impl Clone for SummaryConfig {
    fn clone(&self) -> (c: Self)
        ensures
            c@ == self@,
    {
        SummaryConfig { text: self.text.clone(), bottom_gap: self.bottom_gap }
    }
}

impl Clone for BodyConfig {
    fn clone(&self) -> (c: Self)
        ensures
            c.text@ == self.text@,
    {
        BodyConfig { text: self.text.clone() }
    }
}

impl Clone for NotificationConfig {
    fn clone(&self) -> (c: Self)
        ensures
            c@ == self@,
    {
        NotificationConfig {
            below_fullscreen: self.below_fullscreen,
            animation: self.animation,
            gradient_direction: self.gradient_direction,
            min_width: self.min_width,
            max_width: self.max_width,
            min_height: self.min_height,
            max_height: self.max_height,
            outer_padding: self.outer_padding,
            corner_radius: self.corner_radius,
            format: self.format.clone(),
            color: self.color.clone(),
            emoji_font: self.emoji_font.clone(),
            position: self.position,
            progress: self.progress.clone(),
            border: self.border.clone(),
            thumbnail: self.thumbnail,
            summary: self.summary.clone(),
            body: self.body.clone(),
            app_name: self.app_name.clone(),
            details: self.details.clone(),
            literal: self.literal.clone(),
        }
    }
}

/// A 180 ms slide from the anchored edge.
pub open spec fn default_transition() -> TransitionConfig {
    TransitionConfig {
        effect: AnimationEffect::Slide,
        easing: AnimationEasing::Default,
        direction: AnimationDirection::Anchor,
        duration: 180,
    }
}

/// Animations on, with the default transition both ways.
pub open spec fn default_animation() -> AnimationConfig {
    AnimationConfig { enabled: true, enter: default_transition(), exit: default_transition() }
}

/// Top right, 16 pixels from the top and right edges, 8 pixels apart.
pub open spec fn default_position() -> PositionConfig {
    PositionConfig {
        anchor: Anchor::TopRight,
        top_margin: 16,
        bottom_margin: 0,
        left_margin: 0,
        right_margin: 16,
        notification_gap: 8,
    }
}

/// White 14-point text in the regular face.
pub open spec fn default_text_style() -> TextStyleModel {
    TextStyleModel {
        font_size: FloatBits(DEFAULT_FONT_SIZE),
        bold: false,
        italic: false,
        color: seq![[0xffu8, 0xffu8, 0xffu8, 0xffu8]],
        gradient_direction: None,
        font_family: None,
    }
}

impl Default for TransitionConfig {
    fn default() -> (c: Self)
        ensures
            c == default_transition(),
    {
        TransitionConfig {
            effect: AnimationEffect::Slide,
            easing: AnimationEasing::Default,
            direction: AnimationDirection::Anchor,
            duration: 180,
        }
    }
}

impl Default for AnimationConfig {
    fn default() -> (c: Self)
        ensures
            c == default_animation(),
    {
        AnimationConfig {
            enabled: true,
            enter: TransitionConfig::default(),
            exit: TransitionConfig::default(),
        }
    }
}

impl Default for Anchor {
    fn default() -> (a: Self)
        ensures
            a == Anchor::TopRight,
    {
        Anchor::TopRight
    }
}

impl Default for PositionConfig {
    fn default() -> (c: Self)
        ensures
            c == default_position(),
    {
        PositionConfig {
            anchor: Anchor::TopRight,
            top_margin: 16,
            bottom_margin: 0,
            left_margin: 0,
            right_margin: 16,
            notification_gap: 8,
        }
    }
}

impl Default for ThumbnailConfig {
    fn default() -> (c: Self)
        ensures
            c == (ThumbnailConfig { size: 64, gap: 16 }),
    {
        ThumbnailConfig { size: 64, gap: 16 }
    }
}

impl Default for ProgressDirection {
    fn default() -> (d: Self)
        ensures
            d == ProgressDirection::LeftToRight,
    {
        ProgressDirection::LeftToRight
    }
}

impl Default for ProgressAlignment {
    fn default() -> (a: Self)
        ensures
            a == ProgressAlignment::Center,
    {
        ProgressAlignment::Center
    }
}

/// The bit pattern of `100.0f32`.
pub const HUNDRED_PERCENT: u32 = 0x42c8_0000;

impl Default for ProgressConfig {
    fn default() -> (c: Self)
        ensures
            c.direction == ProgressDirection::LeftToRight,
            c.thickness == ProgressThickness::Percent(FloatBits(HUNDRED_PERCENT)),
            c.alignment == ProgressAlignment::Center,
            c.inset == 0,
            c.corner_radius == 0,
            c.color@ == seq![[0xacu8, 0x81u8, 0x5eu8, 0x80u8]],
    {
        ProgressConfig {
            direction: ProgressDirection::LeftToRight,
            thickness: ProgressThickness::Percent(FloatBits(HUNDRED_PERCENT)),
            alignment: ProgressAlignment::Center,
            inset: 0,
            corner_radius: 0,
            color: ColorConfig::solid([0xac, 0x81, 0x5e, 0x80]),
        }
    }
}

impl Default for BorderConfig {
    fn default() -> (c: Self)
        ensures
            c.width == 1,
            c.color@ == seq![[0x40u8, 0x40u8, 0x40u8, 0xffu8]],
    {
        BorderConfig { width: 1, color: ColorConfig::solid([0x40, 0x40, 0x40, 0xff]) }
    }
}

/// The bit pattern of `14.0f32`, the default font size.
pub const DEFAULT_FONT_SIZE: u32 = 0x4160_0000;

/// The bit pattern of `12.0f32`.
pub const SMALL_FONT_SIZE: u32 = 0x4140_0000;

/// The bit pattern of `18.0f32`.
pub const SUMMARY_FONT_SIZE: u32 = 0x4190_0000;

/// The bit pattern of `8.0f32`.
pub const SUMMARY_BOTTOM_GAP: u32 = 0x4100_0000;

impl Default for TextStyleConfig {
    fn default() -> (c: Self)
        ensures
            c@ == default_text_style(),
    {
        TextStyleConfig {
            font_size: FloatBits(DEFAULT_FONT_SIZE),
            bold: false,
            italic: false,
            color: ColorConfig::solid([0xff, 0xff, 0xff, 0xff]),
            gradient_direction: None,
            font_family: None,
        }
    }
}

impl Default for SummaryConfig {
    fn default() -> (c: Self)
        ensures
            c.text.font_size == FloatBits(SUMMARY_FONT_SIZE),
            c.text.bold,
            !c.text.italic,
            c.text.color@ == seq![[0xffu8, 0xffu8, 0xffu8, 0xffu8]],
            c.text.gradient_direction is None,
            c.text.font_family is None,
            c.bottom_gap == FloatBits(SUMMARY_BOTTOM_GAP),
    {
        let mut text = TextStyleConfig::default();
        text.font_size = FloatBits(SUMMARY_FONT_SIZE);
        text.bold = true;
        SummaryConfig { text, bottom_gap: FloatBits(SUMMARY_BOTTOM_GAP) }
    }
}

impl Default for BodyConfig {
    fn default() -> (c: Self)
        ensures
            c.text@ == default_text_style(),
    {
        BodyConfig { text: TextStyleConfig::default() }
    }
}

impl Default for NotificationConfig {
    fn default() -> (c: Self)
        ensures
            !c.below_fullscreen,
            c.animation == default_animation(),
            c.gradient_direction == GradientDirection::Horizontal,
            c.min_width == 240,
            c.max_width == 360,
            c.min_height == 96,
            c.max_height == 480,
            c.outer_padding == 16,
            c.corner_radius == 12,
            c.format@ == default_layout(),
            c.color@ == seq![[0x20u8, 0x20u8, 0x20u8, 0xffu8]],
            c.emoji_font@ == "Noto Color Emoji"@,
            c.position == default_position(),
            c.thumbnail == (ThumbnailConfig { size: 64, gap: 16 }),
            c.border.width == 1,
            c.app_name.font_size == FloatBits(SMALL_FONT_SIZE),
            c.app_name.bold,
            c.details.font_size == FloatBits(SMALL_FONT_SIZE),
            c.details.color@ == seq![[0xa0u8, 0xa0u8, 0xa0u8, 0xffu8]],
            c.literal@ == default_text_style(),
    {
        let mut app_name = TextStyleConfig::default();
        app_name.font_size = FloatBits(SMALL_FONT_SIZE);
        app_name.bold = true;
        let mut details = TextStyleConfig::default();
        details.font_size = FloatBits(SMALL_FONT_SIZE);
        details.color = ColorConfig::solid([0xa0, 0xa0, 0xa0, 0xff]);
        NotificationConfig {
            below_fullscreen: false,
            animation: AnimationConfig::default(),
            gradient_direction: GradientDirection::Horizontal,
            min_width: 240,
            max_width: 360,
            min_height: 96,
            max_height: 480,
            outer_padding: 16,
            corner_radius: 12,
            format: NotificationTemplate::default(),
            color: ColorConfig::solid([0x20, 0x20, 0x20, 0xff]),
            emoji_font: String::from_str("Noto Color Emoji"),
            position: PositionConfig::default(),
            progress: ProgressConfig::default(),
            border: BorderConfig::default(),
            thumbnail: ThumbnailConfig::default(),
            summary: SummaryConfig::default(),
            body: BodyConfig::default(),
            app_name,
            details,
            literal: TextStyleConfig::default(),
        }
    }
}

/// A thickness as written in the configuration, before a percentage's number
/// is read: that number is floating point, which the caller reads.
#[derive(Clone, Debug, PartialEq, Eq)]
pub enum ThicknessText {
    Pixels(u32),
    Percent(String),
}

/// Whether a text ends in the unit `px`.
pub open spec fn has_px_unit(s: Seq<char>) -> bool {
    s.len() >= 2 && s[s.len() - 2] == 'p' && s[s.len() - 1] == 'x'
}

/// Whether a text ends in the unit `%`.
pub open spec fn has_percent_unit(s: Seq<char>) -> bool {
    s.len() >= 1 && s[s.len() - 1] == '%'
}

/// The message for a pixel thickness whose number is no `u32`.
pub open spec fn pixel_message() -> Seq<char> {
    "thickness must be a non-negative pixel value"@
}

/// The message for a thickness with neither unit.
pub open spec fn unit_message() -> Seq<char> {
    "thickness must use px or % units, such as 5px or 100%"@
}

/// Splits a configured thickness into its unit and number: `px` after a
/// `u32` is a pixel count; otherwise a final `%` marks a percentage, whose
/// number text is handed back; anything else is refused.
pub fn thickness_text(value: &str) -> (r: Result<ThicknessText, String>)
    ensures
        has_px_unit(value@) ==> match u32_text(value@.take(value@.len() - 2)) {
            Some(p) => r == Ok::<ThicknessText, String>(ThicknessText::Pixels(p)),
            None => r is Err && r->Err_0@ == pixel_message(),
        },
        !has_px_unit(value@) && has_percent_unit(value@) ==> (r matches Ok(
            ThicknessText::Percent(n),
        ) && n@ == value@.drop_last()),
        !has_px_unit(value@) && !has_percent_unit(value@) ==> r is Err && r->Err_0@
            == unit_message(),
{
    let chars = chars_of(value);
    let n = chars.len();
    if n >= 2 && chars[n - 2] == 'p' && chars[n - 1] == 'x' {
        let number = chars.as_slice().split_at(n - 2).0;
        assert(number@ =~= value@.take(value@.len() - 2));
        return match parse_u32(number) {
            Some(p) => Ok(ThicknessText::Pixels(p)),
            None => Err(String::from_str("thickness must be a non-negative pixel value")),
        };
    }
    if n >= 1 && chars[n - 1] == '%' {
        let number = chars.as_slice().split_at(n - 1).0;
        assert(number@ =~= value@.drop_last());
        return Ok(ThicknessText::Percent(string_from_chars(number)));
    }
    Err(String::from_str("thickness must use px or % units, such as 5px or 100%"))
}

} // verus!
