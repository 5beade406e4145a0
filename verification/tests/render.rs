use pigeon::config::color::{ColorConfig, GradientDirection};
use pigeon::config::style::{ProgressAlignment, ProgressConfig, ProgressDirection, TextStyleConfig};
use pigeon::render::{
    aligned_offset, apply_progress, blend_color, blend_text_pixel, emoji_run_segments, emoji_segments, fill_notification_background,
    is_emoji_character, is_emoji_sequence_character, is_style_mask_pixel, pixel_thickness,
    progress_rect, progress_track, rounded_rect_contains, saturating_mul_u32, text_pixel_color,
    EmojiSegment, GlyphColor, ProgressRect, ProgressTrack, TextBounds,
};

#[test]
fn rounded_corners_cut_off_the_corner_pixels() {
    assert!(!rounded_rect_contains(0, 0, 10, 10, 4));
    assert!(rounded_rect_contains(1, 1, 10, 10, 4));
    assert!(rounded_rect_contains(4, 0, 10, 10, 4));
    assert!(!rounded_rect_contains(9, 9, 10, 10, 4));
    assert!(rounded_rect_contains(0, 0, 10, 10, 0));
    assert!(!rounded_rect_contains(10, 0, 10, 10, 0));
    assert!(!rounded_rect_contains(0, 10, 10, 10, 0));
}

#[test]
fn huge_corner_radii_are_clamped() {
    assert!(!rounded_rect_contains(0, 0, u32::MAX, u32::MAX, u32::MAX));
    assert!(rounded_rect_contains(u32::MAX / 2, u32::MAX / 2, u32::MAX, u32::MAX, u32::MAX));
}

#[test]
fn blending_mixes_by_the_foreground_alpha() {
    assert_eq!(blend_color([10, 20, 30, 255], [200, 100, 50, 128]), [105, 60, 40, 255]);
    assert_eq!(blend_color([10, 20, 30, 100], [200, 100, 50, 255]), [200, 100, 50, 255]);
    assert_eq!(blend_color([10, 20, 30, 100], [200, 100, 50, 0]), [10, 20, 30, 100]);
}

#[test]
fn bars_align_across_the_track() {
    assert_eq!(aligned_offset(10, 4, &ProgressAlignment::Start), 0);
    assert_eq!(aligned_offset(10, 4, &ProgressAlignment::Center), 3);
    assert_eq!(aligned_offset(10, 4, &ProgressAlignment::End), 6);
    assert_eq!(aligned_offset(3, 4, &ProgressAlignment::End), 0);
}

#[test]
fn the_track_sits_inside_border_and_inset() {
    assert_eq!(
        progress_track(100, 50, 2, 3),
        ProgressTrack { x: 5, y: 5, width: 90, height: 40 }
    );
    assert_eq!(
        progress_track(4, 4, 10, 10),
        ProgressTrack { x: 2, y: 2, width: 0, height: 0 }
    );
}

fn progress(direction: ProgressDirection, alignment: ProgressAlignment) -> ProgressConfig {
    let mut config = ProgressConfig::default();
    config.direction = direction;
    config.alignment = alignment;
    config.corner_radius = 2;
    config
}

#[test]
fn horizontal_bars_fill_from_their_start() {
    let track = progress_track(100, 50, 2, 3);
    let config = progress(ProgressDirection::LeftToRight, ProgressAlignment::End);
    assert_eq!(
        progress_rect(Some(50), &track, &config, 4),
        Some(ProgressRect { x: 5, y: 41, width: 45, height: 4, corner_radius: 2 })
    );
    let config = progress(ProgressDirection::RightToLeft, ProgressAlignment::Start);
    assert_eq!(
        progress_rect(Some(50), &track, &config, 4),
        Some(ProgressRect { x: 50, y: 5, width: 45, height: 4, corner_radius: 2 })
    );
}

#[test]
fn vertical_bars_fill_from_their_start() {
    let track = progress_track(100, 50, 2, 3);
    let config = progress(ProgressDirection::BottomToTop, ProgressAlignment::Center);
    assert_eq!(
        progress_rect(Some(50), &track, &config, 6),
        Some(ProgressRect { x: 47, y: 25, width: 6, height: 20, corner_radius: 2 })
    );
    let config = progress(ProgressDirection::TopToBottom, ProgressAlignment::Start);
    assert_eq!(
        progress_rect(Some(250), &track, &config, 6),
        Some(ProgressRect { x: 5, y: 5, width: 6, height: 40, corner_radius: 2 })
    );
}

#[test]
fn empty_bars_are_not_drawn() {
    let track = progress_track(100, 50, 2, 3);
    let config = progress(ProgressDirection::LeftToRight, ProgressAlignment::Center);
    assert_eq!(progress_rect(None, &track, &config, 4), None);
    assert_eq!(progress_rect(Some(0), &track, &config, 4), None);
    assert_eq!(progress_rect(Some(-5), &track, &config, 4), None);
    assert_eq!(progress_rect(Some(50), &track, &config, 0), None);
    assert_eq!(progress_rect(Some(1), &track, &config, 4), None);
}

#[test]
fn pixel_thickness_is_capped_by_the_track() {
    let track = ProgressTrack { x: 0, y: 0, width: 90, height: 40 };
    let mut config = progress(ProgressDirection::LeftToRight, ProgressAlignment::Center);
    config.thickness = pigeon::config::style::ProgressThickness::Pixels(100);
    assert_eq!(pixel_thickness(&config, &track), Some(40));
    config.direction = ProgressDirection::TopToBottom;
    assert_eq!(pixel_thickness(&config, &track), Some(90));
    config.thickness = pigeon::config::style::ProgressThickness::Pixels(7);
    assert_eq!(pixel_thickness(&config, &track), Some(7));
    let config = ProgressConfig::default();
    assert_eq!(pixel_thickness(&config, &track), None);
}

#[test]
fn progress_tints_only_the_filled_part() {
    let bar = ProgressRect { x: 2, y: 2, width: 3, height: 1, corner_radius: 0 };
    let background = [10, 20, 30, 255];
    let tint = [200, 100, 50, 128];
    assert_eq!(apply_progress(background, 3, 2, Some(bar), tint), [105, 60, 40, 255]);
    assert_eq!(apply_progress(background, 5, 2, Some(bar), tint), background);
    assert_eq!(apply_progress(background, 3, 2, None, tint), background);
    assert!(bar.contains(2, 2));
    assert!(!bar.contains(1, 2));
}

#[test]
fn the_background_has_a_border_ring() {
    let mut canvas = vec![7u8; 3 * 3 * 4 + 4];
    let background = [1, 2, 3, 255];
    let border = [9, 9, 9, 255];
    fill_notification_background(&mut canvas, 3, 3, 3, 3, background, border, 1, 0, None, [0; 4]);
    for y in 0..3usize {
        for x in 0..3usize {
            let p = (y * 3 + x) * 4;
            let expected = if x == 1 && y == 1 { background } else { border };
            assert_eq!(&canvas[p..p + 4], &expected);
        }
    }
    assert_eq!(&canvas[36..40], &[7, 7, 7, 7]);
}

#[test]
fn rounded_cards_leave_their_corners_clear() {
    let mut canvas = vec![7u8; 10 * 10 * 4];
    fill_notification_background(&mut canvas, 10, 10, 10, 10, [1, 2, 3, 255], [9, 9, 9, 255], 0, 4, None, [0; 4]);
    assert_eq!(&canvas[0..4], &[0, 0, 0, 0]);
    let centre = (5 * 10 + 5) * 4;
    assert_eq!(&canvas[centre..centre + 4], &[1, 2, 3, 255]);
}

#[test]
fn text_bounds_grow_to_hold_their_pixels() {
    let mut bounds = TextBounds::new(5, 7);
    assert_eq!(bounds.width(), 1);
    assert_eq!(bounds.height(), 1);
    bounds.add_pixel(2, 9);
    bounds.add_pixel(8, 8);
    assert_eq!(bounds, TextBounds { min_x: 2, min_y: 7, max_x: 8, max_y: 9 });
    assert_eq!(bounds.width(), 7);
    assert_eq!(bounds.height(), 3);
}

#[test]
fn styled_glyph_pixels_take_the_gradient() {
    let glyph = GlyphColor { r: 10, g: 20, b: 30, a: 40 };
    assert_eq!(text_pixel_color(glyph, None, 0, 0, 1, 1, GradientDirection::Horizontal), [30, 20, 10, 40]);

    let mut style = TextStyleConfig::default();
    style.color = ColorConfig::from_hex_list(&["#0a141e".to_string(), "#ffffff".to_string()]).unwrap();
    assert!(is_style_mask_pixel(glyph, Some(&style.color)));
    assert_eq!(
        text_pixel_color(glyph, Some(&style), 0, 0, 10, 1, GradientDirection::Horizontal),
        [30, 20, 10, 40]
    );
    assert_eq!(
        text_pixel_color(glyph, Some(&style), 9, 0, 10, 1, GradientDirection::Horizontal),
        [255, 255, 255, 40]
    );

    let other = GlyphColor { r: 1, g: 2, b: 3, a: 4 };
    assert!(!is_style_mask_pixel(other, Some(&style.color)));
    assert!(!is_style_mask_pixel(other, None));
    assert_eq!(
        text_pixel_color(other, Some(&style), 9, 0, 10, 1, GradientDirection::Horizontal),
        [3, 2, 1, 4]
    );
}

#[test]
fn emoji_are_recognized() {
    assert!(is_emoji_character('😀'));
    assert!(is_emoji_character('©'));
    assert!(is_emoji_character('☀'));
    assert!(!is_emoji_character('a'));
    assert!(is_emoji_sequence_character('\u{FE0F}'));
    assert!(is_emoji_sequence_character('\u{200D}'));
    assert!(!is_emoji_sequence_character('😀'));
}

#[test]
fn saturating_products_stop_at_the_largest_value() {
    assert_eq!(saturating_mul_u32(6, 7), 42);
    assert_eq!(saturating_mul_u32(u32::MAX, 2), u32::MAX);
}

#[test]
fn text_splits_into_emoji_and_plain_runs() {
    assert_eq!(
        emoji_segments("hi \u{1F600}!"),
        vec![
            EmojiSegment { start: 0, end: 3, is_emoji: false },
            EmojiSegment { start: 3, end: 7, is_emoji: true },
            EmojiSegment { start: 7, end: 8, is_emoji: false },
        ]
    );
    assert_eq!(
        emoji_segments("\u{1F600}\u{FE0F}a"),
        vec![
            EmojiSegment { start: 0, end: 7, is_emoji: true },
            EmojiSegment { start: 7, end: 8, is_emoji: false },
        ]
    );
    assert_eq!(emoji_segments("plain"), vec![EmojiSegment { start: 0, end: 5, is_emoji: false }]);
    assert_eq!(emoji_segments(""), vec![]);
}

#[test]
fn glyph_pixels_blend_over_the_canvas() {
    let mut canvas = vec![0u8, 0, 0, 0, 100, 100, 100, 100];
    blend_text_pixel(&mut canvas, 4, [255, 0, 51, 51]);
    assert_eq!(canvas, vec![0, 0, 0, 0, 131, 80, 90, 255]);
}

#[test]
fn several_texts_are_split_in_turn() {
    assert_eq!(
        emoji_run_segments(&["a\u{1F600}", "", "bc"]),
        vec![
            (0, EmojiSegment { start: 0, end: 1, is_emoji: false }),
            (0, EmojiSegment { start: 1, end: 5, is_emoji: true }),
            (2, EmojiSegment { start: 0, end: 2, is_emoji: false }),
        ]
    );
    assert_eq!(emoji_run_segments(&[]), vec![]);
}
