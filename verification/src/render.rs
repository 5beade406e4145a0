//! Pixel geometry of a notification card: rounded corners, the border, the
//! progress bar and colour blending.

use vstd::prelude::*;

use crate::config::color::{gradient_color, gradient_position, min_position, GradientDirection, RgbaColor};
use crate::config::style::TextStyleConfig;
use crate::lexer::{byte_offset, char_len_utf8, lemma_byte_offset_step};
use crate::text::chars_of;
use crate::config::style::{ProgressAlignment, ProgressConfig, ProgressDirection};

verus! {

/// The smaller of two integers.
pub open spec fn min_int(a: int, b: int) -> int {
    if a < b {
        a
    } else {
        b
    }
}

/// `a - b`, or 0 when `b` is larger.
pub open spec fn sub_or_zero(a: int, b: int) -> int {
    if a >= b {
        a - b
    } else {
        0
    }
}

/// `a + b`, capped at the largest `u32`.
pub open spec fn add_capped(a: int, b: int) -> int {
    if a + b > u32::MAX {
        u32::MAX as int
    } else {
        a + b
    }
}

/// `a * b`, capped at the largest `u32`.
pub open spec fn mul_capped(a: int, b: int) -> int {
    if a * b > u32::MAX {
        u32::MAX as int
    } else {
        a * b
    }
}

/// The corner radius a `width` by `height` rectangle actually gets: the
/// requested one, at most half of either side.
pub open spec fn clamped_radius(width: u32, height: u32, radius: u32) -> int {
    min_int(min_int(radius as int, (width / 2) as int), (height / 2) as int)
}

/// Whether pixel (`x`, `y`) lies in a `width` by `height` rectangle with
/// rounded corners: inside the rectangle, and, in a corner square, with the
/// pixel's centre within the corner circle.
pub open spec fn in_rounded_rect(x: u32, y: u32, width: u32, height: u32, radius: u32) -> bool {
    if x >= width || y >= height {
        false
    } else {
        let r = clamped_radius(width, height, radius);
        if r == 0 || (r <= x && x < width - r) || (r <= y && y < height - r) {
            true
        } else {
            let cx = if x < r {
                2 * r
            } else {
                2 * (width - r)
            };
            let cy = if y < r {
                2 * r
            } else {
                2 * (height - r)
            };
            let dx = cx - (2 * x + 1);
            let dy = cy - (2 * y + 1);
            dx * dx + dy * dy <= (2 * r) * (2 * r)
        }
    }
}

fn abs_diff(a: u128, b: u128) -> (d: u128)
    ensures
        d == (if a >= b {
            a - b
        } else {
            b - a
        }),
{
    if a >= b {
        a - b
    } else {
        b - a
    }
}

/// Whether pixel (`x`, `y`) lies in a rounded rectangle. The corner test
/// is done in 128-bit arithmetic, so it cannot overflow.
pub fn rounded_rect_contains(x: u32, y: u32, width: u32, height: u32, corner_radius: u32) -> (b:
    bool)
    ensures
        b == in_rounded_rect(x, y, width, height, corner_radius),
{
    if x >= width || y >= height {
        return false;
    }
    let r0 = if corner_radius < width / 2 {
        corner_radius
    } else {
        width / 2
    };
    let radius = if r0 < height / 2 {
        r0
    } else {
        height / 2
    };
    if radius == 0 || (x >= radius && x < width - radius) || (y >= radius && y < height - radius) {
        return true;
    }
    let center_x: u128 = if x < radius {
        radius as u128 * 2
    } else {
        (width - radius) as u128 * 2
    };
    let center_y: u128 = if y < radius {
        radius as u128 * 2
    } else {
        (height - radius) as u128 * 2
    };
    let pixel_x = x as u128 * 2 + 1;
    let pixel_y = y as u128 * 2 + 1;
    let diameter = radius as u128 * 2;
    let dx = abs_diff(center_x, pixel_x);
    let dy = abs_diff(center_y, pixel_y);
    proof {
        assert(dx * dx <= 0x4_0000_0000 * 0x4_0000_0000) by (nonlinear_arith)
            requires
                dx <= 0x4_0000_0000,
        ;
        assert(dy * dy <= 0x4_0000_0000 * 0x4_0000_0000) by (nonlinear_arith)
            requires
                dy <= 0x4_0000_0000,
        ;
        assert(diameter * diameter <= 0x4_0000_0000 * 0x4_0000_0000) by (nonlinear_arith)
            requires
                diameter <= 0x4_0000_0000,
        ;
        let sx = center_x as int - pixel_x as int;
        let sy = center_y as int - pixel_y as int;
        assert(dx * dx == sx * sx) by (nonlinear_arith)
            requires
                dx == (if sx >= 0 {
                    sx
                } else {
                    -sx
                }),
        ;
        assert(dy * dy == sy * sy) by (nonlinear_arith)
            requires
                dy == (if sy >= 0 {
                    sy
                } else {
                    -sy
                }),
        ;
    }
    dx * dx + dy * dy <= diameter * diameter
}

/// The filled part of a progress bar.
#[derive(Clone, Copy, Debug, PartialEq, Eq, Structural)]
pub struct ProgressRect {
    pub x: u32,
    pub y: u32,
    pub width: u32,
    pub height: u32,
    pub corner_radius: u32,
}

/// Whether pixel (`x`, `y`) of the card lies in the filled progress bar.
pub open spec fn in_progress_rect(p: ProgressRect, x: u32, y: u32) -> bool {
    x >= p.x && y >= p.y && in_rounded_rect(
        (x - p.x) as u32,
        (y - p.y) as u32,
        p.width,
        p.height,
        p.corner_radius,
    )
}

impl ProgressRect {
    pub fn contains(self, x: u32, y: u32) -> (b: bool)
        ensures
            b == in_progress_rect(self, x, y),
    {
        x >= self.x && y >= self.y && rounded_rect_contains(
            x - self.x,
            y - self.y,
            self.width,
            self.height,
            self.corner_radius,
        )
    }
}

/// Where along the space across the bar a bar of `thickness` starts.
pub open spec fn offset_for(available: u32, thickness: u32, alignment: ProgressAlignment) -> int {
    match alignment {
        ProgressAlignment::Start => 0,
        ProgressAlignment::Center => sub_or_zero(available as int, thickness as int) / 2,
        ProgressAlignment::End => sub_or_zero(available as int, thickness as int),
    }
}

pub fn aligned_offset(available: u32, thickness: u32, alignment: &ProgressAlignment) -> (o: u32)
    ensures
        o == offset_for(available, thickness, *alignment),
{
    match alignment {
        ProgressAlignment::Start => 0,
        ProgressAlignment::Center => available.saturating_sub(thickness) / 2,
        ProgressAlignment::End => available.saturating_sub(thickness),
    }
}

/// One channel of `foreground` laid over `background` with coverage
/// `alpha` out of 255, rounded down.
pub open spec fn blend_channel_over(foreground: u8, background: u8, alpha: u8) -> int {
    (foreground * alpha + background * (255 - alpha)) / 255
}

/// `foreground` laid over `background` by the foreground's alpha; the
/// result keeps the larger alpha.
pub open spec fn blended(background: RgbaColor, foreground: RgbaColor) -> RgbaColor {
    [
        blend_channel_over(foreground[0], background[0], foreground[3]) as u8,
        blend_channel_over(foreground[1], background[1], foreground[3]) as u8,
        blend_channel_over(foreground[2], background[2], foreground[3]) as u8,
        if background[3] >= foreground[3] {
            background[3]
        } else {
            foreground[3]
        },
    ]
}

fn blend_byte(foreground: u8, background: u8, alpha: u8) -> (c: u8)
    ensures
        c == blend_channel_over(foreground, background, alpha),
        c as int == blend_channel_over(foreground, background, alpha),
{
    let a = alpha as u16;
    let inverse = 255 - a;
    proof {
        assert(foreground * a <= 255 * 255) by (nonlinear_arith)
            requires
                foreground <= 255,
                a <= 255,
        ;
        assert(background * inverse <= 255 * 255) by (nonlinear_arith)
            requires
                background <= 255,
                inverse <= 255,
        ;
        assert(foreground * a + background * inverse <= 255 * 255) by (nonlinear_arith)
            requires
                foreground <= 255,
                background <= 255,
                a + inverse == 255,
        ;
    }
    ((foreground as u16 * a + background as u16 * inverse) / 255) as u8
}

pub fn blend_color(background: RgbaColor, foreground: RgbaColor) -> (c: RgbaColor)
    ensures
        c == blended(background, foreground),
{
    let c = [
        blend_byte(foreground[0], background[0], foreground[3]),
        blend_byte(foreground[1], background[1], foreground[3]),
        blend_byte(foreground[2], background[2], foreground[3]),
        if background[3] >= foreground[3] {
            background[3]
        } else {
            foreground[3]
        },
    ];
    assert(c =~= blended(background, foreground));
    c
}

/// The background at pixel (`x`, `y`), with the progress colour laid over
/// it where the bar is filled.
pub open spec fn progress_pixel(
    background: RgbaColor,
    x: u32,
    y: u32,
    progress: Option<ProgressRect>,
    progress_color: RgbaColor,
) -> RgbaColor {
    match progress {
        Some(p) => if in_progress_rect(p, x, y) {
            blended(background, progress_color)
        } else {
            background
        },
        None => background,
    }
}

pub fn apply_progress(
    background: RgbaColor,
    x: u32,
    y: u32,
    progress: Option<ProgressRect>,
    progress_color: RgbaColor,
) -> (c: RgbaColor)
    ensures
        c == progress_pixel(background, x, y, progress, progress_color),
{
    match progress {
        Some(p) => if p.contains(x, y) {
            blend_color(background, progress_color)
        } else {
            background
        },
        None => background,
    }
}

/// The area a progress bar runs in: inside the border, less the inset.
#[derive(Clone, Copy, Debug, PartialEq, Eq, Structural)]
pub struct ProgressTrack {
    pub x: u32,
    pub y: u32,
    pub width: u32,
    pub height: u32,
}

/// The border width a `full_width` by `full_height` card actually gets: at
/// most half of either side.
pub open spec fn clamped_border(full_width: u32, full_height: u32, border_width: u32) -> int {
    min_int(min_int(border_width as int, (full_width / 2) as int), (full_height / 2) as int)
}

pub open spec fn track_for(full_width: u32, full_height: u32, border_width: u32, inset: u32) -> ProgressTrack {
    let b = clamped_border(full_width, full_height, border_width);
    let inner_w = sub_or_zero(full_width as int, mul_capped(b, 2));
    let inner_h = sub_or_zero(full_height as int, mul_capped(b, 2));
    let i = min_int(min_int(inset as int, inner_w / 2), inner_h / 2);
    ProgressTrack {
        x: add_capped(b, i) as u32,
        y: add_capped(b, i) as u32,
        width: sub_or_zero(inner_w, mul_capped(i, 2)) as u32,
        height: sub_or_zero(inner_h, mul_capped(i, 2)) as u32,
    }
}

/// `a * b`, capped at the largest `u32`.
pub fn saturating_mul_u32(a: u32, b: u32) -> (m: u32)
    ensures
        m == mul_capped(a as int, b as int),
{
    proof {
        assert(a as u64 * b as u64 <= 0xFFFF_FFFFu64 * 0xFFFF_FFFFu64) by (nonlinear_arith)
            requires
                a <= 0xFFFF_FFFFu32,
                b <= 0xFFFF_FFFFu32,
        ;
    }
    let wide = a as u64 * b as u64;
    if wide > u32::MAX as u64 {
        u32::MAX
    } else {
        wide as u32
    }
}

fn min_u32(a: u32, b: u32) -> (m: u32)
    ensures
        m == min_int(a as int, b as int),
{
    if a < b {
        a
    } else {
        b
    }
}

pub fn progress_track(full_width: u32, full_height: u32, border_width: u32, inset: u32) -> (t:
    ProgressTrack)
    ensures
        t == track_for(full_width, full_height, border_width, inset),
{
    let border = min_u32(min_u32(border_width, full_width / 2), full_height / 2);
    let inner_width = full_width.saturating_sub(saturating_mul_u32(border, 2));
    let inner_height = full_height.saturating_sub(saturating_mul_u32(border, 2));
    let inset = min_u32(min_u32(inset, inner_width / 2), inner_height / 2);
    ProgressTrack {
        x: border.saturating_add(inset),
        y: border.saturating_add(inset),
        width: inner_width.saturating_sub(saturating_mul_u32(inset, 2)),
        height: inner_height.saturating_sub(saturating_mul_u32(inset, 2)),
    }
}

/// A progress value as a percentage: clamped to `0..=100`.
pub open spec fn percent_of(value: i32) -> int {
    if value < 0 {
        0
    } else if value > 100 {
        100
    } else {
        value as int
    }
}

/// The filled bar for a progress value, in a track, with the given
/// thickness across it: `None` without a value, at 0%, or when the bar
/// would be empty. A horizontal bar fills from the left, or from the right
/// for right-to-left; a vertical one from the top, or from the bottom for
/// bottom-to-top.
pub open spec fn progress_rect_for(
    progress: Option<i32>,
    track: ProgressTrack,
    direction: ProgressDirection,
    alignment: ProgressAlignment,
    corner_radius: u32,
    thickness: u32,
) -> Option<ProgressRect> {
    match progress {
        None => None,
        Some(v) => {
            let value = percent_of(v);
            if value == 0 {
                None
            } else if direction == ProgressDirection::LeftToRight || direction
                == ProgressDirection::RightToLeft {
                let fill = mul_capped(track.width as int, value) / 100;
                if thickness == 0 || fill == 0 {
                    None
                } else {
                    Some(
                        ProgressRect {
                            x: if direction == ProgressDirection::RightToLeft {
                                add_capped(track.x as int, sub_or_zero(track.width as int, fill))
                            } else {
                                track.x as int
                            } as u32,
                            y: add_capped(
                                track.y as int,
                                offset_for(track.height, thickness, alignment),
                            ) as u32,
                            width: fill as u32,
                            height: thickness,
                            corner_radius,
                        },
                    )
                }
            } else {
                let fill = mul_capped(track.height as int, value) / 100;
                if thickness == 0 || fill == 0 {
                    None
                } else {
                    Some(
                        ProgressRect {
                            x: add_capped(
                                track.x as int,
                                offset_for(track.width, thickness, alignment),
                            ) as u32,
                            y: if direction == ProgressDirection::BottomToTop {
                                add_capped(track.y as int, sub_or_zero(track.height as int, fill))
                            } else {
                                track.y as int
                            } as u32,
                            width: thickness,
                            height: fill as u32,
                            corner_radius,
                        },
                    )
                }
            }
        },
    }
}

/// The space across a bar running in `direction` in `track`.
pub open spec fn across(track: ProgressTrack, direction: ProgressDirection) -> u32 {
    if direction == ProgressDirection::LeftToRight || direction == ProgressDirection::RightToLeft {
        track.height
    } else {
        track.width
    }
}

pub fn progress_rect(progress: Option<i32>, track: &ProgressTrack, config: &ProgressConfig, thickness: u32) -> (r:
    Option<ProgressRect>)
    ensures
        r == progress_rect_for(
            progress,
            *track,
            config.direction,
            config.alignment,
            config.corner_radius,
            thickness,
        ),
{
    let v = match progress {
        Some(v) => v,
        None => {
            return None;
        },
    };
    let value: u32 = if v < 0 {
        0
    } else if v > 100 {
        100
    } else {
        v as u32
    };
    if value == 0 {
        return None;
    }
    if config.direction.is_horizontal() {
        let fill = saturating_mul_u32(track.width, value) / 100;
        if thickness == 0 || fill == 0 {
            return None;
        }
        let y = track.y.saturating_add(aligned_offset(track.height, thickness, &config.alignment));
        let x = match config.direction {
            ProgressDirection::RightToLeft => track.x.saturating_add(track.width.saturating_sub(fill)),
            _ => track.x,
        };
        Some(ProgressRect { x, y, width: fill, height: thickness, corner_radius: config.corner_radius })
    } else {
        let fill = saturating_mul_u32(track.height, value) / 100;
        if thickness == 0 || fill == 0 {
            return None;
        }
        let x = track.x.saturating_add(aligned_offset(track.width, thickness, &config.alignment));
        let y = match config.direction {
            ProgressDirection::BottomToTop => track.y.saturating_add(track.height.saturating_sub(fill)),
            _ => track.y,
        };
        Some(ProgressRect { x, y, width: thickness, height: fill, corner_radius: config.corner_radius })
    }
}

/// The thickness of a bar given in pixels, at most the space across it;
/// `None` for a percentage, which is worked out in floating point.
pub fn pixel_thickness(config: &ProgressConfig, track: &ProgressTrack) -> (t: Option<u32>)
    ensures
        match config.thickness {
            crate::config::style::ProgressThickness::Pixels(p) => t == Some(
                min_int(p as int, across(*track, config.direction) as int) as u32,
            ),
            crate::config::style::ProgressThickness::Percent(_) => t is None,
        },
{
    let available = if config.direction.is_horizontal() {
        track.height
    } else {
        track.width
    };
    config.thickness.resolve_pixels(available)
}

/// The colour of pixel (`x`, `y`) of a card: clear outside its rounded
/// outline, the border colour in the border ring, and otherwise the
/// background with the progress bar laid over it.
pub open spec fn card_pixel(
    x: u32,
    y: u32,
    full_width: u32,
    full_height: u32,
    background: RgbaColor,
    border: RgbaColor,
    border_width: u32,
    corner_radius: u32,
    progress: Option<ProgressRect>,
    progress_color: RgbaColor,
) -> RgbaColor {
    let b = clamped_border(full_width, full_height, border_width);
    let inner_w = sub_or_zero(full_width as int, mul_capped(b, 2));
    let inner_h = sub_or_zero(full_height as int, mul_capped(b, 2));
    let inner_r = sub_or_zero(corner_radius as int, b);
    if !in_rounded_rect(x, y, full_width, full_height, corner_radius) {
        [0u8, 0u8, 0u8, 0u8]
    } else if b == 0 {
        progress_pixel(background, x, y, progress, progress_color)
    } else if inner_w > 0 && inner_h > 0 && x >= b && y >= b && in_rounded_rect(
        (x - b) as u32,
        (y - b) as u32,
        inner_w as u32,
        inner_h as u32,
        inner_r as u32,
    ) {
        progress_pixel(background, x, y, progress, progress_color)
    } else {
        border
    }
}

/// Paints a card into `canvas`, a `width` by `height` buffer of 4-byte
/// pixels in rows, for a card of `full_width` by `full_height` of which
/// the buffer shows the top-left part.
pub fn fill_notification_background(
    canvas: &mut [u8],
    width: u32,
    height: u32,
    full_width: u32,
    full_height: u32,
    background: RgbaColor,
    border: RgbaColor,
    border_width: u32,
    corner_radius: u32,
    progress: Option<ProgressRect>,
    progress_color: RgbaColor,
)
    requires
        4 * (width as int) * (height as int) <= old(canvas)@.len(),
        4 * (width as int) * (height as int) <= 0x1_0000_0000,
    ensures
        final(canvas)@.len() == old(canvas)@.len(),
        forall|p: int, k: int|
            0 <= p < (width as int) * (height as int) && 0 <= k < 4 ==> #[trigger] final(canvas)@[4 * p
                + k] == card_pixel(
                (p % (width as int)) as u32,
                (p / (width as int)) as u32,
                full_width,
                full_height,
                background,
                border,
                border_width,
                corner_radius,
                progress,
                progress_color,
            )[k],
        forall|i: int|
            4 * (width as int) * (height as int) <= i < old(canvas)@.len()
                ==> #[trigger] final(canvas)@[i] == old(canvas)@[i],
{
    let border_width_c = min_u32(min_u32(border_width, full_width / 2), full_height / 2);
    let inner_width = full_width.saturating_sub(saturating_mul_u32(border_width_c, 2));
    let inner_height = full_height.saturating_sub(saturating_mul_u32(border_width_c, 2));
    let inner_radius = corner_radius.saturating_sub(border_width_c);
    assert(4 * (width as int) * (height as int) == 4 * ((width as int) * (height as int)))
        by (nonlinear_arith);
    if width == 0 || height == 0 {
        proof {
            assert((width as int) * (height as int) == 0) by (nonlinear_arith)
                requires
                    width == 0 || height == 0,
            ;
        }
        return;
    }
    proof {
        assert((width as int) * (height as int) <= 0x4000_0000) by (nonlinear_arith)
            requires
                4 * (width as int) * (height as int) <= 0x1_0000_0000,
        ;
    }
    let total: u64 = width as u64 * height as u64;
    let ghost w = width as int;
    let ghost pixel_of = |q: int|
        card_pixel(
            (q % w) as u32,
            (q / w) as u32,
            full_width,
            full_height,
            background,
            border,
            border_width,
            corner_radius,
            progress,
            progress_color,
        );
    let mut p: u64 = 0;
    let mut x: u32 = 0;
    let mut y: u32 = 0;
    while p < total
        invariant
            w == width as int,
            width > 0,
            total == (width as int) * (height as int),
            total <= 0x4000_0000,
            4 * total <= canvas@.len(),
            canvas@.len() == old(canvas)@.len(),
            p <= total,
            x < width,
            p == (y as int) * w + (x as int),
            border_width_c == clamped_border(full_width, full_height, border_width),
            inner_width == sub_or_zero(full_width as int, mul_capped(border_width_c as int, 2)),
            inner_height == sub_or_zero(full_height as int, mul_capped(border_width_c as int, 2)),
            inner_radius == sub_or_zero(corner_radius as int, border_width_c as int),
            pixel_of == (|q: int|
                card_pixel(
                    (q % w) as u32,
                    (q / w) as u32,
                    full_width,
                    full_height,
                    background,
                    border,
                    border_width,
                    corner_radius,
                    progress,
                    progress_color,
                )),
            forall|q: int, k: int|
                0 <= q < p && 0 <= k < 4 ==> #[trigger] canvas@[4 * q + k] == pixel_of(q)[k],
            forall|i: int| 4 * p <= i < canvas@.len() ==> #[trigger] canvas@[i] == old(canvas)@[i],
        decreases total - p,
    {
        proof {
            vstd::arithmetic::div_mod::lemma_fundamental_div_mod_converse(
                p as int,
                w,
                y as int,
                x as int,
            );
            assert((y as int) < (height as int)) by (nonlinear_arith)
                requires
                    p == (y as int) * w + (x as int),
                    p < (w as int) * (height as int),
                    0 <= x,
                    w > 0,
            ;
        }
        let color = if !rounded_rect_contains(x, y, full_width, full_height, corner_radius) {
            [0u8, 0u8, 0u8, 0u8]
        } else if border_width_c == 0 {
            apply_progress(background, x, y, progress, progress_color)
        } else if inner_width > 0 && inner_height > 0 && x >= border_width_c && y >= border_width_c
            && rounded_rect_contains(
            x - border_width_c,
            y - border_width_c,
            inner_width,
            inner_height,
            inner_radius,
        ) {
            apply_progress(background, x, y, progress, progress_color)
        } else {
            border
        };
        assert(color == pixel_of(p as int));
        let base = (4 * p) as usize;
        let ghost before = canvas@;
        canvas[base] = color[0];
        canvas[base + 1] = color[1];
        canvas[base + 2] = color[2];
        canvas[base + 3] = color[3];
        proof {
            assert forall|q: int, k: int| 0 <= q < p + 1 && 0 <= k < 4 implies #[trigger] canvas@[4
                * q + k] == pixel_of(q)[k] by {
                if q < p {
                    assert(canvas@[4 * q + k] == before[4 * q + k]);
                }
            }
        }
        p = p + 1;
        if x + 1 == width {
            proof {
                assert((y as int + 1) * w == (y as int) * w + w) by (nonlinear_arith);
            }
            x = 0;
            y = y + 1;
        } else {
            x = x + 1;
        }
    }
}

/// The smallest box holding a set of pixels.
#[derive(Clone, Copy, Debug, PartialEq, Eq, Structural)]
pub struct TextBounds {
    pub min_x: u32,
    pub min_y: u32,
    pub max_x: u32,
    pub max_y: u32,
}

impl TextBounds {
    /// The box holding one pixel.
    pub fn new(x: u32, y: u32) -> (b: Self)
        ensures
            b == (TextBounds { min_x: x, min_y: y, max_x: x, max_y: y }),
    {
        TextBounds { min_x: x, min_y: y, max_x: x, max_y: y }
    }

    /// Grows the box to hold pixel (`x`, `y`) too.
    pub fn add_pixel(&mut self, x: u32, y: u32)
        ensures
            final(self).min_x == min_int(old(self).min_x as int, x as int),
            final(self).min_y == min_int(old(self).min_y as int, y as int),
            final(self).max_x == (if old(self).max_x >= x {
                old(self).max_x
            } else {
                x
            }),
            final(self).max_y == (if old(self).max_y >= y {
                old(self).max_y
            } else {
                y
            }),
    {
        self.min_x = min_u32(self.min_x, x);
        self.min_y = min_u32(self.min_y, y);
        self.max_x = if self.max_x >= x {
            self.max_x
        } else {
            x
        };
        self.max_y = if self.max_y >= y {
            self.max_y
        } else {
            y
        };
    }

    /// The number of columns from the leftmost to the rightmost pixel.
    pub fn width(&self) -> (w: u32)
        ensures
            w == add_capped(sub_or_zero(self.max_x as int, self.min_x as int), 1),
    {
        self.max_x.saturating_sub(self.min_x).saturating_add(1)
    }

    /// The number of rows from the top to the bottom pixel.
    pub fn height(&self) -> (h: u32)
        ensures
            h == add_capped(sub_or_zero(self.max_y as int, self.min_y as int), 1),
    {
        self.max_y.saturating_sub(self.min_y).saturating_add(1)
    }
}

/// Whether a box holds pixel (`x`, `y`).
pub open spec fn bounds_hold(b: TextBounds, x: u32, y: u32) -> bool {
    b.min_x <= x <= b.max_x && b.min_y <= y <= b.max_y
}

/// A rounded rectangle is symmetric: a pixel lies in it exactly when its
/// mirror image, left to right or top to bottom, does.
pub proof fn lemma_rounded_rect_mirrors(x: u32, y: u32, width: u32, height: u32, radius: u32)
    requires
        x < width,
        y < height,
    ensures
        in_rounded_rect(x, y, width, height, radius) == in_rounded_rect(
            (width - 1 - x) as u32,
            y,
            width,
            height,
            radius,
        ),
        in_rounded_rect(x, y, width, height, radius) == in_rounded_rect(
            x,
            (height - 1 - y) as u32,
            width,
            height,
            radius,
        ),
{
    let r = clamped_radius(width, height, radius);
    let mx = (width - 1 - x) as u32;
    let my = (height - 1 - y) as u32;
    assert(2 * r <= width && 2 * r <= height);
    let dx = (if x < r { 2 * r } else { 2 * (width - r) }) - (2 * x + 1);
    let mdx = (if mx < r { 2 * r } else { 2 * (width - r) }) - (2 * mx + 1);
    let dy = (if y < r { 2 * r } else { 2 * (height - r) }) - (2 * y + 1);
    let mdy = (if my < r { 2 * r } else { 2 * (height - r) }) - (2 * my + 1);
    if !(r == 0 || (r <= x && x < width - r) || (r <= y && y < height - r)) {
        assert(mdx == -dx);
        assert(mdy == -dy);
        assert(mdx * mdx == dx * dx) by (nonlinear_arith)
            requires
                mdx == -dx,
        ;
        assert(mdy * mdy == dy * dy) by (nonlinear_arith)
            requires
                mdy == -dy,
        ;
    }
}

/// A box grown by a pixel holds that pixel and every pixel it held before.
pub proof fn lemma_add_pixel_grows(before: TextBounds, after: TextBounds, x: u32, y: u32, px: u32, py: u32)
    requires
        after.min_x == min_int(before.min_x as int, x as int),
        after.min_y == min_int(before.min_y as int, y as int),
        after.max_x == (if before.max_x >= x {
            before.max_x
        } else {
            x
        }),
        after.max_y == (if before.max_y >= y {
            before.max_y
        } else {
            y
        }),
    ensures
        bounds_hold(after, x, y),
        bounds_hold(before, px, py) ==> bounds_hold(after, px, py),
{
}

/// The colour a rasterizer gave a glyph pixel, red, green, blue and alpha.
#[derive(Clone, Copy, Debug, PartialEq, Eq, Structural)]
pub struct GlyphColor {
    pub r: u8,
    pub g: u8,
    pub b: u8,
    pub a: u8,
}

/// Whether a glyph pixel has the first colour of a text style (red, green
/// and blue), which marks it as drawn in that style's colour.
pub open spec fn is_mask_color(color: GlyphColor, first: RgbaColor) -> bool {
    color.r == first[2] && color.g == first[1] && color.b == first[0]
}

pub fn is_style_mask_pixel(color: GlyphColor, config: Option<&crate::config::color::ColorConfig>) -> (b: bool)
    ensures
        b == match config {
            Some(c) => is_mask_color(color, c@[0]),
            None => false,
        },
{
    match config {
        None => false,
        Some(config) => {
            let first = config.first();
            color.r == first[2] && color.g == first[1] && color.b == first[0]
        },
    }
}

/// The colour stored for a glyph pixel: as rasterized, in the card's
/// byte order, unless it carries its style's first colour, in which case the
/// style's gradient is sampled at its place in the text's bounds, with the
/// glyph's coverage scaling the sampled alpha.
pub open spec fn text_pixel(
    color: GlyphColor,
    style: Option<TextStyleConfig>,
    x: u32,
    y: u32,
    gradient_width: u32,
    gradient_height: u32,
    default_direction: GradientDirection,
) -> RgbaColor {
    match style {
        None => [color.b, color.g, color.r, color.a],
        Some(s) => if !is_mask_color(color, s.color@[0]) {
            [color.b, color.g, color.r, color.a]
        } else {
            let direction = match s.gradient_direction {
                Some(d) => d,
                None => default_direction,
            };
            let pos = gradient_position(x, y, gradient_width, gradient_height, direction);
            let sampled = gradient_color(s.color@, pos.0, pos.1);
            [sampled[0], sampled[1], sampled[2], min_int((color.a * sampled[3]) / 255, 255) as u8]
        },
    }
}

pub fn text_pixel_color(
    color: GlyphColor,
    style: Option<&TextStyleConfig>,
    x: u32,
    y: u32,
    gradient_width: u32,
    gradient_height: u32,
    default_gradient_direction: GradientDirection,
) -> (c: RgbaColor)
    requires
        match style {
            Some(s) => (s.color@.len() - 1) * min_position(
                gradient_position(
                    x,
                    y,
                    gradient_width,
                    gradient_height,
                    match s.gradient_direction {
                        Some(d) => d,
                        None => default_gradient_direction,
                    },
                ),
            ) <= u64::MAX,
            None => true,
        },
    ensures
        c == text_pixel(
            color,
            match style {
                Some(s) => Some(*s),
                None => None,
            },
            x,
            y,
            gradient_width,
            gradient_height,
            default_gradient_direction,
        ),
{
    let style = match style {
        None => {
            return [color.b, color.g, color.r, color.a];
        },
        Some(style) => style,
    };
    let first = style.color.first();
    if color.r != first[2] || color.g != first[1] || color.b != first[0] {
        return [color.b, color.g, color.r, color.a];
    }
    let direction = match style.gradient_direction {
        Some(d) => d,
        None => default_gradient_direction,
    };
    let sampled = style.color.at(x, y, gradient_width, gradient_height, direction);
    proof {
        assert(color.a * sampled[3] <= 255 * 255) by (nonlinear_arith)
            requires
                color.a <= 255,
                sampled[3] <= 255,
        ;
    }
    let scaled = (color.a as u32 * sampled[3] as u32) / 255;
    let alpha = if scaled < 255 {
        scaled as u8
    } else {
        255u8
    };
    let c = [sampled[0], sampled[1], sampled[2], alpha];
    c
}

/// Characters drawn with the emoji font.
pub open spec fn emoji_char(c: char) -> bool {
    let v = c as u32;
    v == 0x00A9 || v == 0x00AE || v == 0x203C || v == 0x2049 || v == 0x2122 || v == 0x2139 || (
    0x2194 <= v && v <= 0x21FF) || (0x2300 <= v && v <= 0x23FF) || (0x2600 <= v && v <= 0x27BF)
        || (0x2934 <= v && v <= 0x2935) || (0x2B05 <= v && v <= 0x2B55) || v == 0x3030 || v
        == 0x303D || v == 0x3297 || v == 0x3299 || (0x1F000 <= v && v <= 0x1FAFF)
}

/// Joiners and variation selectors, which continue an emoji.
pub open spec fn emoji_sequence_char(c: char) -> bool {
    c == '\u{200D}' || c == '\u{20E3}' || c == '\u{FE0E}' || c == '\u{FE0F}'
}

pub fn is_emoji_character(character: char) -> (b: bool)
    ensures
        b == emoji_char(character),
{
    let v = character as u32;
    v == 0x00A9 || v == 0x00AE || v == 0x203C || v == 0x2049 || v == 0x2122 || v == 0x2139 || (
    0x2194 <= v && v <= 0x21FF) || (0x2300 <= v && v <= 0x23FF) || (0x2600 <= v && v <= 0x27BF)
        || (0x2934 <= v && v <= 0x2935) || (0x2B05 <= v && v <= 0x2B55) || v == 0x3030 || v
        == 0x303D || v == 0x3297 || v == 0x3299 || (0x1F000 <= v && v <= 0x1FAFF)
}

pub fn is_emoji_sequence_character(character: char) -> (b: bool)
    ensures
        b == emoji_sequence_char(character),
{
    character == '\u{200D}' || character == '\u{20E3}' || character == '\u{FE0E}' || character
        == '\u{FE0F}'
}

/// Lays a text pixel of colour `color` over the canvas pixel at byte
/// `index`, by the colour's alpha, leaving the pixel opaque.
pub fn blend_text_pixel(canvas: &mut [u8], index: usize, color: RgbaColor)
    requires
        index + 4 <= old(canvas)@.len(),
    ensures
        final(canvas)@.len() == old(canvas)@.len(),
        forall|k: int|
            0 <= k < 3 ==> #[trigger] final(canvas)@[index + k] as int == blend_channel_over(
                color[k],
                old(canvas)@[index + k],
                color[3],
            ),
        final(canvas)@[index + 3] == 0xFFu8,
        forall|i: int|
            0 <= i < old(canvas)@.len() && !(index <= i < index + 4) ==> #[trigger] final(canvas)@[i]
                == old(canvas)@[i],
{
    let ghost before = canvas@;
    let c0 = blend_byte(color[0], canvas[index], color[3]);
    canvas[index] = c0;
    let c1 = blend_byte(color[1], canvas[index + 1], color[3]);
    canvas[index + 1] = c1;
    let c2 = blend_byte(color[2], canvas[index + 2], color[3]);
    canvas[index + 2] = c2;
    canvas[index + 3] = 0xFF;
    assert(canvas@[index as int] == c0);
}

/// Whether the character at `i` is drawn with the emoji font: an emoji, or
/// a joiner or variation selector right after one.
pub open spec fn emoji_flag(s: Seq<char>, i: int) -> bool
    decreases i,
{
    if i < 0 || i >= s.len() {
        false
    } else {
        emoji_char(s[i]) || (i > 0 && emoji_flag(s, i - 1) && emoji_sequence_char(s[i]))
    }
}

/// The runs of `s`, as character ranges and whether they are emoji, found
/// by scanning from character `i` with the current run starting at `start`:
/// a run ends where the emoji flag changes, and the text's end closes the
/// last one.
pub open spec fn emoji_runs_from(s: Seq<char>, i: int, start: int) -> Seq<(int, int, bool)>
    decreases s.len() - i,
{
    if i >= s.len() || i < 0 {
        if start < s.len() {
            seq![(start, s.len() as int, emoji_flag(s, s.len() - 1))]
        } else {
            Seq::empty()
        }
    } else if i != start && emoji_flag(s, i) != emoji_flag(s, i - 1) {
        seq![(start, i, emoji_flag(s, i - 1))] + emoji_runs_from(s, i + 1, i)
    } else {
        emoji_runs_from(s, i + 1, start)
    }
}

/// A run of text drawn with one font: its byte range and whether it is emoji.
#[derive(Clone, Copy, Debug, PartialEq, Eq, Structural)]
pub struct EmojiSegment {
    pub start: usize,
    pub end: usize,
    pub is_emoji: bool,
}

/// A character range as a byte range of `s`.
pub open spec fn byte_segment(s: Seq<char>, run: (int, int, bool)) -> EmojiSegment {
    EmojiSegment {
        start: byte_offset(s, run.0) as usize,
        end: byte_offset(s, run.1) as usize,
        is_emoji: run.2,
    }
}

/// Splits text into runs drawn with the emoji font and runs drawn with the
/// text's own font.
pub fn emoji_segments(text: &str) -> (r: Vec<EmojiSegment>)
    ensures
        r@ == emoji_runs_from(text@, 0, 0).map_values(|run: (int, int, bool)| byte_segment(text@, run)),
{
    let chars = chars_of(text);
    let ghost s = text@;
    let ghost f = |run: (int, int, bool)| byte_segment(s, run);
    let mut result: Vec<EmojiSegment> = Vec::new();
    let mut start_char: usize = 0;
    let mut start_byte: usize = 0;
    let mut pos: usize = 0;
    let mut is_emoji = false;
    let mut i: usize = 0;
    proof {
        assert(s.take(0) =~= Seq::<char>::empty());
        assert(vstd::utf8::encode_utf8(Seq::<char>::empty()) =~= Seq::<u8>::empty());
    }
    let total = text.as_bytes().len();
    proof {
        assert(s.take(s.len() as int) =~= s);
    }
    while i < chars.len()
        invariant
            chars@ == s,
            s == text@,
            f == (|run: (int, int, bool)| byte_segment(s, run)),
            i <= s.len(),
            start_char <= i,
            pos == byte_offset(s, i as int),
            start_byte == byte_offset(s, start_char as int),
            byte_offset(s, s.len() as int) <= usize::MAX,
            is_emoji == (i > 0 && emoji_flag(s, i - 1)),
            i > 0 ==> start_char < i,
            emoji_runs_from(s, 0, 0).map_values(f) == result@ + emoji_runs_from(
                s,
                i as int,
                start_char as int,
            ).map_values(f),
        decreases s.len() - i,
    {
        let c = chars[i];
        let next_is_emoji = is_emoji_character(c) || (is_emoji && is_emoji_sequence_character(c));
        assert(next_is_emoji == emoji_flag(s, i as int));
        proof {
            lemma_byte_offset_step(s, i as int);
            crate::lexer::lemma_byte_offset_mono(s, i + 1, s.len() as int);
        }
        if i != start_char && next_is_emoji != is_emoji {
            let segment = EmojiSegment { start: start_byte, end: pos, is_emoji };
            let ghost before = result@;
            result.push(segment);
            proof {
                let run = (start_char as int, i as int, emoji_flag(s, i - 1));
                assert(f(run) == segment);
                let rest = emoji_runs_from(s, i + 1, i as int);
                assert((seq![run] + rest).map_values(f) =~= seq![f(run)] + rest.map_values(f));
                assert(before + (seq![f(run)] + rest.map_values(f)) =~= result@ + rest.map_values(f));
            }
            start_char = i;
            start_byte = pos;
        }
        pos = pos + char_len_utf8(c);
        is_emoji = next_is_emoji;
        i = i + 1;
    }
    if start_char != chars.len() {
        let segment = EmojiSegment { start: start_byte, end: pos, is_emoji };
        let ghost before = result@;
        result.push(segment);
        proof {
            let run = (start_char as int, s.len() as int, emoji_flag(s, s.len() - 1));
            assert(f(run) == segment);
            assert(seq![run].map_values(f) =~= seq![f(run)]);
        }
    } else {
        proof {
            assert(Seq::<(int, int, bool)>::empty().map_values(f) =~= Seq::<EmojiSegment>::empty());
            assert(result@ + Seq::<EmojiSegment>::empty() =~= result@);
        }
    }
    result
}

/// Whether `runs` cut the characters `from..to` of `s` into non-empty
/// pieces, one after another, each of one emoji flag, the flag changing
/// from each piece to the next.
pub open spec fn runs_tile(s: Seq<char>, runs: Seq<(int, int, bool)>, from: int, to: int) -> bool {
    &&& runs.len() >= 1
    &&& runs[0].0 == from
    &&& runs[runs.len() - 1].1 == to
    &&& forall|k: int| 0 <= k < runs.len() ==> (#[trigger] runs[k]).0 < runs[k].1
    &&& forall|k: int|
        0 <= k < runs.len() - 1 ==> (#[trigger] runs[k]).1 == runs[k + 1].0 && runs[k].2
            != runs[k + 1].2
    &&& forall|k: int, c: int|
        0 <= k < runs.len() && (#[trigger] runs[k]).0 <= c < runs[k].1 ==> #[trigger] emoji_flag(s, c)
            == runs[k].2
}

proof fn lemma_emoji_runs_tile(s: Seq<char>, i: int, start: int)
    requires
        0 <= start <= i <= s.len(),
        start < s.len(),
        forall|c: int| start <= c < i ==> #[trigger] emoji_flag(s, c) == emoji_flag(s, start),
    ensures
        runs_tile(s, emoji_runs_from(s, i, start), start, s.len() as int),
        emoji_runs_from(s, i, start)[0].2 == emoji_flag(s, start),
    decreases s.len() - i,
{
    if i >= s.len() {
        assert(emoji_flag(s, s.len() - 1) == emoji_flag(s, start));
    } else if i != start && emoji_flag(s, i) != emoji_flag(s, i - 1) {
        lemma_emoji_runs_tile(s, i + 1, i);
        let first = (start, i, emoji_flag(s, i - 1));
        let rest = emoji_runs_from(s, i + 1, i);
        let runs = seq![first] + rest;
        assert(emoji_runs_from(s, i, start) == runs);
        assert(emoji_flag(s, i - 1) == emoji_flag(s, start));
        assert forall|k: int| 0 <= k < runs.len() implies (#[trigger] runs[k]).0 < runs[k].1 by {
            if k > 0 {
                assert(runs[k] == rest[k - 1]);
            }
        }
        assert forall|k: int| 0 <= k < runs.len() - 1 implies (#[trigger] runs[k]).1 == runs[k + 1].0
            && runs[k].2 != runs[k + 1].2 by {
            assert(runs[k + 1] == rest[k]);
            if k > 0 {
                assert(runs[k] == rest[k - 1]);
            }
        }
        assert forall|k: int, c: int|
            0 <= k < runs.len() && (#[trigger] runs[k]).0 <= c < runs[k].1 implies #[trigger] emoji_flag(
            s,
            c,
        ) == runs[k].2 by {
            if k > 0 {
                assert(runs[k] == rest[k - 1]);
            }
        }
        assert(runs[runs.len() - 1] == rest[rest.len() - 1]);
    } else {
        assert forall|c: int| start <= c < i + 1 implies #[trigger] emoji_flag(s, c) == emoji_flag(
            s,
            start,
        ) by {
            if c == i && i != start {
                assert(emoji_flag(s, i - 1) == emoji_flag(s, start));
            }
        }
        lemma_emoji_runs_tile(s, i + 1, start);
    }
}

/// The emoji runs of a text cover it from its first character to its last,
/// one after another, without gaps or empty runs; every character of a run
/// has the run's emoji flag, and neighbouring runs differ in it. An empty
/// text has no runs. The byte segments `emoji_segments` gives follow on from
/// one another in the same way.
pub proof fn lemma_emoji_runs_cover(s: Seq<char>)
    ensures
        s.len() == 0 ==> emoji_runs_from(s, 0, 0).len() == 0,
        s.len() > 0 ==> runs_tile(s, emoji_runs_from(s, 0, 0), 0, s.len() as int),
        forall|k: int|
            0 <= k < emoji_runs_from(s, 0, 0).len() - 1 ==> (#[trigger] byte_segment(
                s,
                emoji_runs_from(s, 0, 0)[k],
            )).end == byte_segment(s, emoji_runs_from(s, 0, 0)[k + 1]).start,
{
    if s.len() > 0 {
        lemma_emoji_runs_tile(s, 0, 0);
        let runs = emoji_runs_from(s, 0, 0);
        assert forall|k: int| 0 <= k < runs.len() - 1 implies (#[trigger] byte_segment(
            s,
            runs[k],
        )).end == byte_segment(s, runs[k + 1]).start by {
            assert(runs[k].1 == runs[k + 1].0);
        }
    }
}

/// The segments of one text of several, each tagged with the text's index.
pub open spec fn tagged_segments(text: Seq<char>, index: int) -> Seq<(usize, EmojiSegment)> {
    emoji_runs_from(text, 0, 0).map_values(
        |run: (int, int, bool)| (index as usize, byte_segment(text, run)),
    )
}

/// The tagged segments of the first `n` texts, in order.
pub open spec fn segments_upto(texts: Seq<Seq<char>>, n: int) -> Seq<(usize, EmojiSegment)>
    decreases n,
{
    if n <= 0 {
        Seq::empty()
    } else {
        segments_upto(texts, n - 1) + tagged_segments(texts[n - 1], n - 1)
    }
}

/// Splits each of several texts, drawn in turn, into emoji and plain
/// segments: every segment comes with the index of the text it cuts.
pub fn emoji_run_segments(texts: &[&str]) -> (r: Vec<(usize, EmojiSegment)>)
    ensures
        r@ == segments_upto(texts@.map_values(|t: &str| t@), texts@.len() as int),
{
    let ghost views = texts@.map_values(|t: &str| t@);
    let mut result: Vec<(usize, EmojiSegment)> = Vec::new();
    let mut i: usize = 0;
    while i < texts.len()
        invariant
            i <= texts@.len(),
            views == texts@.map_values(|t: &str| t@),
            result@ == segments_upto(views, i as int),
        decreases texts@.len() - i,
    {
        let segments = emoji_segments(texts[i]);
        let ghost before = result@;
        let ghost tagged = tagged_segments(views[i as int], i as int);
        assert(views[i as int] == texts@[i as int]@);
        let mut j: usize = 0;
        while j < segments.len()
            invariant
                j <= segments@.len(),
                segments@ == emoji_runs_from(views[i as int], 0, 0).map_values(
                    |run: (int, int, bool)| byte_segment(views[i as int], run),
                ),
                tagged == tagged_segments(views[i as int], i as int),
                result@ == before + tagged.take(j as int),
            decreases segments@.len() - j,
        {
            result.push((i, segments[j]));
            proof {
                assert(tagged.take(j + 1) =~= tagged.take(j as int).push((i, segments@[j as int])));
            }
            j = j + 1;
        }
        proof {
            assert(tagged.take(j as int) =~= tagged);
            assert(segments_upto(views, i + 1) == segments_upto(views, i as int) + tagged);
        }
        i = i + 1;
    }
    result
}

} // verus!
