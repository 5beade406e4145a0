//! Colours: `#RRGGBB` / `#RRGGBBAA` strings, solid colours and gradients.
//!
//! A colour is stored as its blue, green, red and alpha bytes, in that order,
//! the layout of the ARGB8888 pixels the cards are drawn into.

use vstd::prelude::*;

use crate::text::{chars_of, push_char};

verus! {

broadcast use vstd::string::group_string_axioms;

pub type RgbaColor = [u8; 4];

/// One colour, or the colour stops of an evenly spaced gradient.
pub struct ColorConfig {
    colors: Vec<RgbaColor>,
}

#[derive(Clone, Copy, Debug, PartialEq, Eq, Structural)]
pub enum GradientDirection {
    Horizontal,
    Vertical,
    Diagonal,
    DiagonalReverse,
}

impl Default for GradientDirection {
    fn default() -> (d: Self)
        ensures
            d == GradientDirection::Horizontal,
    {
        GradientDirection::Horizontal
    }
}

/// The lower-case hexadecimal digit for `d`.
pub open spec fn hex_digit(d: nat) -> char {
    if d < 10 {
        (48 + d) as char
    } else {
        (87 + d) as char
    }
}

/// The two hexadecimal digits of a byte.
pub open spec fn hex_byte(b: u8) -> Seq<char> {
    seq![hex_digit((b / 16) as nat), hex_digit((b % 16) as nat)]
}

/// The `#rrggbb` form of an opaque colour, `#rrggbbaa` otherwise.
pub open spec fn format_color(c: RgbaColor) -> Seq<char> {
    let rgb = seq!['#'] + hex_byte(c[2]) + hex_byte(c[1]) + hex_byte(c[0]);
    if c[3] == 0xff {
        rgb
    } else {
        rgb + hex_byte(c[3])
    }
}

/// The value of a hexadecimal digit of either case.
pub open spec fn hex_value(c: char) -> Option<nat> {
    if '0' <= c && c <= '9' {
        Some(((c as u32) - 48) as nat)
    } else if 'a' <= c && c <= 'f' {
        Some(((c as u32) - 87) as nat)
    } else if 'A' <= c && c <= 'F' {
        Some(((c as u32) - 55) as nat)
    } else {
        None
    }
}

/// The byte two hexadecimal digits stand for; `None` unless both are
/// hexadecimal digits.
pub open spec fn byte_value(a: char, b: char) -> Option<u8> {
    match (hex_value(a), hex_value(b)) {
        (Some(h), Some(l)) => Some((16 * h + l) as u8),
        _ => None,
    }
}

pub open spec fn all_ascii(s: Seq<char>) -> bool {
    forall|i: int| 0 <= i < s.len() ==> (s[i] as u32) < 128
}

/// The text after an optional leading `#`.
pub open spec fn without_hash(s: Seq<char>) -> Seq<char> {
    if s.len() > 0 && s[0] == '#' {
        s.drop_first()
    } else {
        s
    }
}

pub enum ColorParseError {
    Shape,
    Digits,
}

/// The colour a `#RRGGBB` or `#RRGGBBAA` string names (the `#` may be left
/// out), or why it is rejected.
pub open spec fn parse_color(s: Seq<char>) -> Result<RgbaColor, ColorParseError> {
    let hex = without_hash(s);
    if !all_ascii(hex) || !(hex.len() == 6 || hex.len() == 8) {
        Err(ColorParseError::Shape)
    } else {
        let red = byte_value(hex[0], hex[1]);
        let green = byte_value(hex[2], hex[3]);
        let blue = byte_value(hex[4], hex[5]);
        let alpha = if hex.len() == 8 {
            byte_value(hex[6], hex[7])
        } else {
            Some(0xffu8)
        };
        match (red, green, blue, alpha) {
            (Some(r), Some(g), Some(b), Some(a)) => Ok([b, g, r, a]),
            _ => Err(ColorParseError::Digits),
        }
    }
}

/// The message for a colour string of the wrong shape.
pub open spec fn shape_message() -> Seq<char> {
    "color must be #RRGGBB or #RRGGBBAA"@
}

/// The message for a colour string with a character that is no digit.
pub open spec fn digits_message() -> Seq<char> {
    "color must contain only hexadecimal digits"@
}

/// One channel blended `numerator / denominator` of the way from `from` to
/// `to`, rounded to the nearest integer (halves up).
pub open spec fn blend_channel(from: u8, to: u8, numerator: int, denominator: int) -> int {
    ((from as int) * (denominator - numerator) + (to as int) * numerator + denominator / 2)
        / denominator
}

/// `a + b`, saturating at `u32::MAX`.
pub open spec fn sat_add(a: int, b: int) -> int {
    if a + b > u32::MAX {
        u32::MAX as int
    } else {
        a + b
    }
}

/// `a - b`, saturating at zero.
pub open spec fn sat_sub(a: int, b: int) -> int {
    if a > b {
        a - b
    } else {
        0
    }
}

/// Where a pixel lies along a gradient, and the last such position, in
/// `u32` arithmetic that saturates instead of overflowing.
pub open spec fn gradient_position(
    x: u32,
    y: u32,
    width: u32,
    height: u32,
    direction: GradientDirection,
) -> (int, int) {
    let last_x = sat_sub(width as int, 1);
    let last_y = sat_sub(height as int, 1);
    match direction {
        GradientDirection::Horizontal => (x as int, last_x),
        GradientDirection::Vertical => (y as int, last_y),
        GradientDirection::Diagonal => (sat_add(x as int, y as int), sat_add(last_x, last_y)),
        GradientDirection::DiagonalReverse => (
            sat_add(sat_sub(last_x, x as int), y as int),
            sat_add(last_x, last_y),
        ),
    }
}

/// The colour of a gradient with stops `colors` at a position `p` of
/// `0..=max`, the stops spread evenly over that range.
pub open spec fn gradient_color(colors: Seq<RgbaColor>, p: int, max: int) -> RgbaColor {
    if colors.len() == 1 || max == 0 {
        colors[0]
    } else {
        let stops = colors.len() - 1;
        let scaled = (if p < max {
            p
        } else {
            max
        }) * stops;
        let index = scaled / max;
        if index >= stops {
            colors[stops]
        } else {
            let rem = scaled % max;
            let a = colors[index];
            let b = colors[index + 1];
            [
                blend_channel(a[0], b[0], rem, max) as u8,
                blend_channel(a[1], b[1], rem, max) as u8,
                blend_channel(a[2], b[2], rem, max) as u8,
                blend_channel(a[3], b[3], rem, max) as u8,
            ]
        }
    }
}

proof fn lemma_blend_channel_bounds(from: u8, to: u8, numerator: int, denominator: int)
    requires
        0 <= numerator <= denominator,
        0 < denominator,
    ensures
        0 <= blend_channel(from, to, numerator, denominator) <= 255,
{
    let n = numerator;
    let d = denominator;
    let f = from as int;
    let t = to as int;
    assert(0 <= f * (d - n)) by (nonlinear_arith)
        requires
            0 <= f,
            0 <= d - n,
    ;
    assert(0 <= t * n) by (nonlinear_arith)
        requires
            0 <= t,
            0 <= n,
    ;
    assert(f * (d - n) + t * n <= 255 * d) by (nonlinear_arith)
        requires
            0 <= f <= 255,
            0 <= t <= 255,
            0 <= n <= d,
    ;
    let total = f * (d - n) + t * n + d / 2;
    assert(total < 256 * d);
    assert(total / d < 256) by (nonlinear_arith)
        requires
            0 <= total < 256 * d,
            d > 0,
    ;
    assert(0 <= total / d) by (nonlinear_arith)
        requires
            0 <= total,
            d > 0,
    ;
}

proof fn lemma_blend_fits(f: u8, t: u8, n: int, d: int)
    requires
        0 <= n <= d <= 0xFFFF_FFFF,
    ensures
        f * (d - n) + t * n + d / 2 <= u64::MAX,
{
    assert(f * (d - n) <= 255 * (d - n)) by (nonlinear_arith)
        requires
            f <= 255,
            n <= d,
    ;
    assert(t * n <= 255 * n) by (nonlinear_arith)
        requires
            t <= 255,
            0 <= n,
    ;
}

/// Blends two colours channel by channel, `numerator / denominator` of the
/// way from `from` to `to`.
pub fn interpolate_color(from: RgbaColor, to: RgbaColor, numerator: u64, denominator: u64) -> (c:
    RgbaColor)
    requires
        0 < denominator,
        numerator <= denominator,
        forall|k: int|
            0 <= k < 4 ==> from[k] * (denominator - numerator) + to[k] * numerator + denominator
                / 2 <= u64::MAX,
    ensures
        forall|k: int|
            0 <= k < 4 ==> c[k] as int == blend_channel(
                from[k],
                to[k],
                numerator as int,
                denominator as int,
            ),
{
    let mut result: RgbaColor = [0u8; 4];
    let mut k: usize = 0;
    while k < 4
        invariant
            k <= 4,
            0 < denominator,
            numerator <= denominator,
            forall|j: int|
                0 <= j < 4 ==> from[j] * (denominator - numerator) + to[j] * numerator
                    + denominator / 2 <= u64::MAX,
            forall|j: int|
                0 <= j < k ==> result[j] as int == blend_channel(
                    from[j],
                    to[j],
                    numerator as int,
                    denominator as int,
                ),
        decreases 4 - k,
    {
        let f = from[k] as u64;
        let t = to[k] as u64;
        proof {
            lemma_blend_channel_bounds(from[k as int], to[k as int], numerator as int, denominator as int);
            assert(f * (denominator - numerator) + t * numerator + denominator / 2 <= u64::MAX);
            assert(0 <= f * (denominator - numerator)) by (nonlinear_arith)
                requires
                    numerator <= denominator,
            ;
            assert(0 <= t * numerator) by (nonlinear_arith);
        }
        let value = (f * (denominator - numerator) + t * numerator + denominator / 2) / denominator;
        result[k] = value as u8;
        k = k + 1;
    }
    result
}

fn hex_digit_char(d: u8) -> (c: char)
    requires
        d < 16,
    ensures
        c == hex_digit(d as nat),
{
    if d < 10 {
        (48u8 + d) as char
    } else {
        (87u8 + d) as char
    }
}

fn hex_digit_value(c: char) -> (r: Option<u8>)
    ensures
        match hex_value(c) {
            Some(v) => r == Some(v as u8) && v < 16,
            None => r is None,
        },
{
    if '0' <= c && c <= '9' {
        Some(((c as u32) - 48) as u8)
    } else if 'a' <= c && c <= 'f' {
        Some(((c as u32) - 87) as u8)
    } else if 'A' <= c && c <= 'F' {
        Some(((c as u32) - 55) as u8)
    } else {
        None
    }
}

fn parse_byte(a: char, b: char) -> (r: Option<u8>)
    ensures
        r == byte_value(a, b),
{
    match (hex_digit_value(a), hex_digit_value(b)) {
        (Some(h), Some(l)) => Some(16 * h + l),
        _ => None,
    }
}

fn push_hex_byte(s: &mut String, b: u8)
    ensures
        final(s)@ == old(s)@ + hex_byte(b),
{
    push_char(s, hex_digit_char(b / 16));
    push_char(s, hex_digit_char(b % 16));
    assert(s@ =~= old(s)@ + hex_byte(b));
}

/// The `#rrggbb` text of an opaque colour, `#rrggbbaa` otherwise.
pub fn format_rgba_color(color: RgbaColor) -> (s: String)
    ensures
        s@ == format_color(color),
{
    let blue = color[0];
    let green = color[1];
    let red = color[2];
    let alpha = color[3];
    let mut value = String::new();
    push_char(&mut value, '#');
    push_hex_byte(&mut value, red);
    push_hex_byte(&mut value, green);
    push_hex_byte(&mut value, blue);
    if alpha != 0xff {
        push_hex_byte(&mut value, alpha);
    }
    assert(value@ =~= format_color(color));
    value
}

/// Parses `#RRGGBB` or `#RRGGBBAA` (the `#` may be left out).
pub fn parse_rgba_color(value: &str) -> (r: Result<RgbaColor, String>)
    ensures
        match parse_color(value@) {
            Ok(c) => r == Ok::<RgbaColor, String>(c),
            Err(ColorParseError::Shape) => r is Err && r->Err_0@ == shape_message(),
            Err(ColorParseError::Digits) => r is Err && r->Err_0@ == digits_message(),
        },
{
    let chars = chars_of(value);
    let start: usize = if chars.len() > 0 && chars[0] == '#' {
        1
    } else {
        0
    };
    let ghost hex = without_hash(value@);
    proof {
        assert(hex =~= chars@.subrange(start as int, chars@.len() as int));
    }
    let len = chars.len() - start;
    let mut ascii = true;
    let mut i: usize = start;
    while i < chars.len()
        invariant
            start <= i <= chars@.len(),
            hex == chars@.subrange(start as int, chars@.len() as int),
            ascii == (forall|j: int| start <= j < i ==> (chars@[j] as u32) < 128),
        decreases chars@.len() - i,
    {
        if (chars[i] as u32) >= 128 {
            ascii = false;
        }
        i = i + 1;
    }
    proof {
        assert(ascii == all_ascii(hex)) by {
            if ascii {
                assert forall|j: int| 0 <= j < hex.len() implies (hex[j] as u32) < 128 by {
                    assert(hex[j] == chars@[start + j]);
                }
            } else {
                let j = choose|j: int| start <= j < chars@.len() && !((chars@[j] as u32) < 128);
                assert(hex[j - start] == chars@[j]);
            }
        }
    }
    if !ascii || !(len == 6 || len == 8) {
        return Err(String::from_str("color must be #RRGGBB or #RRGGBBAA"));
    }
    let alpha = if len == 8 {
        parse_byte(chars[start + 6], chars[start + 7])
    } else {
        Some(0xffu8)
    };
    let red = parse_byte(chars[start], chars[start + 1]);
    let green = parse_byte(chars[start + 2], chars[start + 3]);
    let blue = parse_byte(chars[start + 4], chars[start + 5]);
    match (red, green, blue, alpha) {
        (Some(red), Some(green), Some(blue), Some(alpha)) => Ok([blue, green, red, alpha]),
        _ => Err(String::from_str("color must contain only hexadecimal digits")),
    }
}

proof fn lemma_hex_digit(d: nat)
    requires
        d < 16,
    ensures
        hex_value(hex_digit(d)) == Some(d),
        hex_digit(d) != '+',
        (hex_digit(d) as u32) < 128,
{
}

proof fn lemma_byte_roundtrip(b: u8)
    ensures
        byte_value(hex_byte(b)[0], hex_byte(b)[1]) == Some(b),
        (hex_byte(b)[0] as u32) < 128,
        (hex_byte(b)[1] as u32) < 128,
{
    lemma_hex_digit((b / 16) as nat);
    lemma_hex_digit((b % 16) as nat);
}

/// Parsing the text a colour is written as gives that colour back.
pub proof fn lemma_format_parse_roundtrip(c: RgbaColor)
    ensures
        parse_color(format_color(c)) == Ok::<RgbaColor, ColorParseError>(c),
{
    lemma_byte_roundtrip(c[0]);
    lemma_byte_roundtrip(c[1]);
    lemma_byte_roundtrip(c[2]);
    lemma_byte_roundtrip(c[3]);
    let s = format_color(c);
    let rgb = hex_byte(c[2]) + hex_byte(c[1]) + hex_byte(c[0]);
    let hex = if c[3] == 0xff {
        rgb
    } else {
        rgb + hex_byte(c[3])
    };
    assert(s =~= seq!['#'] + hex);
    assert(without_hash(s) =~= hex);
    assert(all_ascii(hex));
    let r = parse_color(s);
    assert(r == Ok::<RgbaColor, ColorParseError>([c[0], c[1], c[2], c[3]]));
    assert([c[0], c[1], c[2], c[3]] =~= c);
}

impl View for ColorConfig {
    type V = Seq<RgbaColor>;

    closed spec fn view(&self) -> Seq<RgbaColor> {
        self.colors@
    }
}

impl Clone for ColorConfig {
    fn clone(&self) -> (c: Self)
        ensures
            c@ == self@,
    {
        proof {
            use_type_invariant(self);
        }
        let mut colors: Vec<RgbaColor> = Vec::new();
        let mut i: usize = 0;
        while i < self.colors.len()
            invariant
                i <= self.colors@.len(),
                colors@ == self.colors@.take(i as int),
            decreases self.colors@.len() - i,
        {
            colors.push(self.colors[i]);
            assert(self.colors@.take(i + 1) =~= self.colors@.take(i as int).push(
                self.colors@[i as int],
            ));
            i = i + 1;
        }
        assert(self.colors@.take(self.colors@.len() as int) =~= self.colors@);
        ColorConfig { colors }
    }
}

impl ColorConfig {
    #[verifier::type_invariant]
    spec fn has_a_color(&self) -> bool {
        self.colors@.len() >= 1
    }

    pub fn solid(color: RgbaColor) -> (c: Self)
        ensures
            c@ == seq![color],
    {
        let c = ColorConfig { colors: vec![color] };
        assert(c@ =~= seq![color]);
        c
    }

    /// The first colour stop.
    pub fn first(&self) -> (c: RgbaColor)
        ensures
            c == self@[0],
    {
        proof {
            use_type_invariant(self);
        }
        self.colors[0]
    }

    /// The colour stops, in order.
    pub fn colors(&self) -> (c: &[RgbaColor])
        ensures
            c@ == self@,
            c@.len() >= 1,
    {
        proof {
            use_type_invariant(self);
        }
        self.colors.as_slice()
    }

    /// Whether [`ColorConfig::at`] can work out this pixel's colour: the
    /// pixel's position along the gradient times the number of steps
    /// between stops fits in a `u64`.
    pub fn at_fits(&self, x: u32, y: u32, width: u32, height: u32, direction: GradientDirection) -> (b:
        bool)
        ensures
            b == ((self@.len() - 1) * min_position(gradient_position(x, y, width, height, direction))
                <= u64::MAX),
    {
        proof {
            use_type_invariant(self);
        }
        let (position, max_position): (u32, u32) = match direction {
            GradientDirection::Horizontal => (x, width.saturating_sub(1)),
            GradientDirection::Vertical => (y, height.saturating_sub(1)),
            GradientDirection::Diagonal => (
                x.saturating_add(y),
                width.saturating_sub(1).saturating_add(height.saturating_sub(1)),
            ),
            GradientDirection::DiagonalReverse => (
                width.saturating_sub(1).saturating_sub(x).saturating_add(y),
                width.saturating_sub(1).saturating_add(height.saturating_sub(1)),
            ),
        };
        let clamped = if position < max_position { position } else { max_position };
        let steps = (self.colors.len() - 1) as u128;
        proof {
            assert(steps * (clamped as u128) <= 0xFFFF_FFFF_FFFF_FFFFint * 0xFFFF_FFFFint)
                by (nonlinear_arith)
                requires
                    steps <= 0xFFFF_FFFF_FFFF_FFFFint,
                    clamped <= 0xFFFF_FFFFu32,
            ;
        }
        steps * (clamped as u128) <= 0xFFFF_FFFF_FFFF_FFFFu128
    }

    /// The colour at pixel `(x, y)` of a `width` by `height` area, the stops
    /// spread evenly along `direction`.
    pub fn at(&self, x: u32, y: u32, width: u32, height: u32, direction: GradientDirection) -> (c:
        RgbaColor)
        requires
            (self@.len() - 1) * min_position(gradient_position(x, y, width, height, direction))
                <= u64::MAX,
        ensures
            c == gradient_color(
                self@,
                gradient_position(x, y, width, height, direction).0,
                gradient_position(x, y, width, height, direction).1,
            ),
    {
        proof {
            use_type_invariant(self);
        }
        if self.colors.len() == 1 {
            return self.colors[0];
        }
        let (position, max_position): (u32, u32) = match direction {
            GradientDirection::Horizontal => (x, width.saturating_sub(1)),
            GradientDirection::Vertical => (y, height.saturating_sub(1)),
            GradientDirection::Diagonal => (
                x.saturating_add(y),
                width.saturating_sub(1).saturating_add(height.saturating_sub(1)),
            ),
            GradientDirection::DiagonalReverse => (
                width.saturating_sub(1).saturating_sub(x).saturating_add(y),
                width.saturating_sub(1).saturating_add(height.saturating_sub(1)),
            ),
        };
        if max_position == 0 {
            return self.colors[0];
        }
        let stop_count = self.colors.len() - 1;
        let clamped = if position < max_position { position } else { max_position };
        proof {
            assert((clamped as int) * (stop_count as int) <= (max_position as int) * (
            stop_count as int)) by (nonlinear_arith)
                requires
                    clamped <= max_position,
                    0 <= stop_count,
            ;
            assert((clamped as int) * (stop_count as int) == (stop_count as int) * (
            clamped as int)) by (nonlinear_arith);
        }
        let scaled = (clamped as u64) * (stop_count as u64);
        let max_position = max_position as u64;
        proof {
            assert(scaled / max_position <= stop_count) by (nonlinear_arith)
                requires
                    scaled <= max_position * stop_count,
                    max_position > 0,
            ;
        }
        let index = (scaled / max_position) as usize;
        if index >= stop_count {
            return self.colors[stop_count];
        }
        let remainder = scaled % max_position;
        proof {
            assert(remainder < max_position);
            let a = self.colors@[index as int];
            let b = self.colors@[index + 1];
            assert forall|k: int| 0 <= k < 4 implies a[k] * (max_position - remainder) + b[k]
                * remainder + max_position / 2 <= u64::MAX by {
                lemma_blend_fits(a[k], b[k], remainder as int, max_position as int);
            }
        }
        interpolate_color(self.colors[index], self.colors[index + 1], remainder, max_position)
    }
}

/// The smaller of a gradient position and its largest position.
pub open spec fn min_position(p: (int, int)) -> int {
    if p.0 < p.1 {
        p.0
    } else {
        p.1
    }
}

/// The message for an empty list of colour stops.
pub open spec fn empty_list_message() -> Seq<char> {
    "color array must contain at least one color"@
}

/// The message a rejected colour string is reported with.
pub open spec fn parse_error_message(e: ColorParseError) -> Seq<char> {
    match e {
        ColorParseError::Shape => shape_message(),
        ColorParseError::Digits => digits_message(),
    }
}

/// The colours of `values[i..]`, or the message for the first one rejected.
pub open spec fn parse_color_list(values: Seq<Seq<char>>, i: int) -> Result<Seq<RgbaColor>, Seq<char>>
    decreases values.len() - i,
{
    if i < 0 || i >= values.len() {
        Ok(seq![])
    } else {
        match parse_color(values[i]) {
            Err(e) => Err(parse_error_message(e)),
            Ok(c) => match parse_color_list(values, i + 1) {
                Ok(rest) => Ok(seq![c] + rest),
                Err(m) => Err(m),
            },
        }
    }
}

impl ColorConfig {
    /// A solid colour from its `#RRGGBB` or `#RRGGBBAA` text.
    pub fn from_hex(value: &str) -> (r: Result<Self, String>)
        ensures
            match parse_color(value@) {
                Ok(c) => r is Ok && r->Ok_0@ == seq![c],
                Err(e) => r is Err && r->Err_0@ == parse_error_message(e),
            },
    {
        match parse_rgba_color(value) {
            Ok(color) => Ok(ColorConfig::solid(color)),
            Err(message) => Err(message),
        }
    }

    /// A gradient from the texts of its stops; the list must not be empty and
    /// every stop must parse.
    pub fn from_hex_list(values: &[String]) -> (r: Result<Self, String>)
        ensures
            ({
                let texts = values@.map_values(|v: String| v@);
                if texts.len() == 0 {
                    r is Err && r->Err_0@ == empty_list_message()
                } else {
                    match parse_color_list(texts, 0) {
                        Ok(colors) => r is Ok && r->Ok_0@ == colors,
                        Err(m) => r is Err && r->Err_0@ == m,
                    }
                }
            }),
    {
        let ghost texts = values@.map_values(|v: String| v@);
        if values.len() == 0 {
            return Err(String::from_str("color array must contain at least one color"));
        }
        let mut colors: Vec<RgbaColor> = Vec::new();
        let mut i: usize = 0;
        proof {
            match parse_color_list(texts, 0) {
                Ok(all) => {
                    assert(Seq::<RgbaColor>::empty() + all =~= all);
                },
                Err(_) => {},
            }
        }
        while i < values.len()
            invariant
                i <= values@.len(),
                texts == values@.map_values(|v: String| v@),
                parse_color_list(texts, 0) == match parse_color_list(texts, i as int) {
                    Ok(rest) => Ok(colors@ + rest),
                    Err(m) => Err::<Seq<RgbaColor>, Seq<char>>(m),
                },
            decreases values@.len() - i,
        {
            match parse_rgba_color(values[i].as_str()) {
                Ok(color) => {
                    let ghost before = colors@;
                    colors.push(color);
                    proof {
                        match parse_color_list(texts, i + 1) {
                            Ok(rest) => {
                                assert(before + (seq![color] + rest) =~= colors@ + rest);
                            },
                            Err(_) => {},
                        }
                    }
                },
                Err(message) => {
                    return Err(message);
                },
            }
            i = i + 1;
        }
        assert(colors@ + Seq::<RgbaColor>::empty() =~= colors@);
        Ok(ColorConfig { colors })
    }
}

proof fn lemma_blend_start(a: u8, b: u8, d: int)
    requires
        d > 0,
    ensures
        blend_channel(a, b, 0, d) == a,
{
    let total = (a as int) * d + d / 2;
    assert((a as int) * (d - 0) + (b as int) * 0 + d / 2 == total) by (nonlinear_arith)
        requires
            total == (a as int) * d + d / 2,
    ;
    assert(total / d == a) by (nonlinear_arith)
        requires
            total == (a as int) * d + d / 2,
            d > 0,
            0 <= d / 2 < d,
    ;
}

/// A gradient starts with its first stop and ends with its last one; a
/// single stop colours every position.
pub proof fn lemma_gradient_ends(colors: Seq<RgbaColor>, max: int)
    requires
        colors.len() >= 1,
        max >= 0,
    ensures
        gradient_color(colors, 0, max) == colors[0],
        max > 0 ==> gradient_color(colors, max, max) == colors[colors.len() - 1],
        colors.len() == 1 ==> forall|p: int| gradient_color(colors, p, max) == colors[0],
{
    if colors.len() > 1 && max > 0 {
        let stops = colors.len() - 1;
        assert(0int * stops == 0);
        assert(0int / max == 0);
        assert(0int % max == 0);
        let a = colors[0];
        let b = colors[1];
        lemma_blend_start(a[0], b[0], max);
        lemma_blend_start(a[1], b[1], max);
        lemma_blend_start(a[2], b[2], max);
        lemma_blend_start(a[3], b[3], max);
        assert(gradient_color(colors, 0, max) =~= a);
        assert((max * stops) / max == stops) by (nonlinear_arith)
            requires
                max > 0,
        ;
    }
}

/// The gradient's directions are one another seen from a turned or flipped
/// area: a vertical gradient is the horizontal one of the transposed area,
/// the reverse diagonal is the diagonal mirrored left to right, and the
/// diagonal is the horizontal gradient along a line of `width + height - 1`
/// pixels.
pub proof fn lemma_gradient_directions(colors: Seq<RgbaColor>, x: u32, y: u32, width: u32, height: u32)
    requires
        x < width,
        y < height,
        width + height <= u32::MAX,
    ensures
        gradient_position(x, y, width, height, GradientDirection::Vertical) == gradient_position(
            y,
            x,
            height,
            width,
            GradientDirection::Horizontal,
        ),
        gradient_position(x, y, width, height, GradientDirection::DiagonalReverse)
            == gradient_position((width - 1 - x) as u32, y, width, height, GradientDirection::Diagonal),
        gradient_position(x, y, width, height, GradientDirection::Diagonal) == gradient_position(
            (x + y) as u32,
            0,
            (width + height - 1) as u32,
            1,
            GradientDirection::Horizontal,
        ),
        gradient_color(
            colors,
            gradient_position(x, y, width, height, GradientDirection::Vertical).0,
            gradient_position(x, y, width, height, GradientDirection::Vertical).1,
        ) == gradient_color(
            colors,
            gradient_position(y, x, height, width, GradientDirection::Horizontal).0,
            gradient_position(y, x, height, width, GradientDirection::Horizontal).1,
        ),
        gradient_color(
            colors,
            gradient_position(x, y, width, height, GradientDirection::DiagonalReverse).0,
            gradient_position(x, y, width, height, GradientDirection::DiagonalReverse).1,
        ) == gradient_color(
            colors,
            gradient_position((width - 1 - x) as u32, y, width, height, GradientDirection::Diagonal).0,
            gradient_position((width - 1 - x) as u32, y, width, height, GradientDirection::Diagonal).1,
        ),
        gradient_color(
            colors,
            gradient_position(x, y, width, height, GradientDirection::Diagonal).0,
            gradient_position(x, y, width, height, GradientDirection::Diagonal).1,
        ) == gradient_color(
            colors,
            gradient_position((x + y) as u32, 0, (width + height - 1) as u32, 1, GradientDirection::Horizontal).0,
            gradient_position((x + y) as u32, 0, (width + height - 1) as u32, 1, GradientDirection::Horizontal).1,
        ),
{
}

/// The first stop colours the top-left pixel of a horizontal, vertical or
/// diagonal gradient.
pub proof fn lemma_gradient_first(colors: Seq<RgbaColor>, width: u32, height: u32, direction: GradientDirection)
    requires
        colors.len() >= 1,
        direction != GradientDirection::DiagonalReverse,
    ensures
        gradient_color(
            colors,
            gradient_position(0, 0, width, height, direction).0,
            gradient_position(0, 0, width, height, direction).1,
        ) == colors[0],
{
    let p = gradient_position(0, 0, width, height, direction);
    assert(p.0 == 0);
    lemma_gradient_ends(colors, p.1);
}

/// A list of colour texts gives its colours, in order, exactly when every
/// text is a colour; otherwise the first rejected text's message.
pub proof fn lemma_color_list(values: Seq<Seq<char>>, i: int)
    requires
        0 <= i <= values.len(),
    ensures
        parse_color_list(values, i) is Ok <==> forall|k: int|
            i <= k < values.len() ==> #[trigger] parse_color(values[k]) is Ok,
        parse_color_list(values, i) is Ok ==> {
            let cs = parse_color_list(values, i)->Ok_0;
            &&& cs.len() == values.len() - i
            &&& forall|k: int|
                0 <= k < cs.len() ==> parse_color(values[i + k]) == Ok::<RgbaColor, ColorParseError>(
                    #[trigger] cs[k],
                )
        },
        parse_color_list(values, i) is Err ==> exists|k: int|
            i <= k < values.len() && (forall|j: int| i <= j < k ==> #[trigger] parse_color(values[j]) is Ok)
                && parse_color(values[k]) is Err && parse_color_list(values, i)->Err_0
                == parse_error_message(parse_color(values[k])->Err_0),
    decreases values.len() - i,
{
    if i < values.len() {
        lemma_color_list(values, i + 1);
        if parse_color_list(values, i) is Ok {
            let cs = parse_color_list(values, i)->Ok_0;
            let rest = parse_color_list(values, i + 1)->Ok_0;
            assert forall|k: int| 0 <= k < cs.len() implies parse_color(values[i + k]) == Ok::<
                RgbaColor,
                ColorParseError,
            >(#[trigger] cs[k]) by {
                if k > 0 {
                    assert(cs[k] == rest[k - 1]);
                    assert(i + k == (i + 1) + (k - 1));
                }
            }
        }
        if !(forall|k: int| i <= k < values.len() ==> #[trigger] parse_color(values[k]) is Ok) {
            let k = choose|k: int| i <= k < values.len() && !(#[trigger] parse_color(values[k]) is Ok);
            if k != i && parse_color(values[i]) is Ok {
                assert(parse_color_list(values, i + 1) is Err);
            }
        }
        if parse_color_list(values, i) is Err {
            if parse_color(values[i]) is Err {
                assert(forall|j: int| i <= j < i ==> #[trigger] parse_color(values[j]) is Ok);
            } else {
                let k = choose|k: int|
                    i + 1 <= k < values.len() && (forall|j: int|
                        i + 1 <= j < k ==> #[trigger] parse_color(values[j]) is Ok)
                        && parse_color(values[k]) is Err && parse_color_list(values, i + 1)->Err_0
                        == parse_error_message(parse_color(values[k])->Err_0);
                assert(forall|j: int| i <= j < k ==> #[trigger] parse_color(values[j]) is Ok);
            }
        }
    }
}

proof fn lemma_blend_between(a: u8, b: u8, rem: int, d: int)
    requires
        0 <= rem < d,
    ensures
        (if a <= b { a as int } else { b as int }) <= blend_channel(a, b, rem, d) <= (if a <= b {
            b as int
        } else {
            a as int
        }),
{
    let f = a as int;
    let t = b as int;
    let total = f * (d - rem) + t * rem + d / 2;
    let lo = if f <= t { f } else { t };
    let hi = if f <= t { t } else { f };
    assert(lo * d <= f * (d - rem) + t * rem) by (nonlinear_arith)
        requires
            lo <= f,
            lo <= t,
            0 <= rem < d,
    ;
    assert(f * (d - rem) + t * rem <= hi * d) by (nonlinear_arith)
        requires
            f <= hi,
            t <= hi,
            0 <= rem < d,
    ;
    assert(lo * d <= total < (hi + 1) * d) by (nonlinear_arith)
        requires
            lo * d <= f * (d - rem) + t * rem,
            f * (d - rem) + t * rem <= hi * d,
            total == f * (d - rem) + t * rem + d / 2,
            d > 0,
    ;
    assert(lo <= total / d) by (nonlinear_arith)
        requires
            lo * d <= total,
            d > 0,
    ;
    assert(total / d <= hi) by (nonlinear_arith)
        requires
            total < (hi + 1) * d,
            d > 0,
            0 <= total,
    ;
}

/// The stops of a gradient sit at evenly spaced positions: wherever
/// `p * (stops - 1)` is a multiple of `max`, the colour is exactly stop
/// `p * (stops - 1) / max`. Between two such positions each channel lies
/// between those of the two neighbouring stops and nowhere else.
pub proof fn lemma_gradient_stops(colors: Seq<RgbaColor>, p: int, max: int)
    requires
        colors.len() >= 2,
        0 < max,
        0 <= p <= max,
    ensures
        (p * (colors.len() - 1)) % max == 0 ==> gradient_color(colors, p, max) == colors[(p * (
        colors.len() - 1)) / max],
        (p * (colors.len() - 1)) / max < colors.len() - 1 ==> {
            let k = (p * (colors.len() - 1)) / max;
            forall|ch: int|
                0 <= ch < 4 ==> {
                    let c = #[trigger] gradient_color(colors, p, max)[ch];
                    let x = colors[k][ch];
                    let y = colors[k + 1][ch];
                    (x <= y ==> x <= c <= y) && (y <= x ==> y <= c <= x)
                }
        },
{
    let stops = colors.len() - 1;
    let scaled = p * stops;
    assert(0 <= scaled <= max * stops) by (nonlinear_arith)
        requires
            0 <= p <= max,
            stops >= 1,
            scaled == p * stops,
    ;
    let index = scaled / max;
    assert(0 <= index <= stops) by (nonlinear_arith)
        requires
            0 <= scaled <= max * stops,
            max > 0,
            index == scaled / max,
    ;
    let rem = scaled % max;
    assert(0 <= rem < max);
    if index < stops {
        let a = colors[index];
        let b = colors[index + 1];
        lemma_blend_between(a[0], b[0], rem, max);
        lemma_blend_between(a[1], b[1], rem, max);
        lemma_blend_between(a[2], b[2], rem, max);
        lemma_blend_between(a[3], b[3], rem, max);
        if rem == 0 {
            lemma_blend_start(a[0], b[0], max);
            lemma_blend_start(a[1], b[1], max);
            lemma_blend_start(a[2], b[2], max);
            lemma_blend_start(a[3], b[3], max);
            assert(gradient_color(colors, p, max) =~= a);
        }
    }
}

} // verus!
