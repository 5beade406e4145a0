use pigeon::config::style::{Anchor, PositionConfig};
use pigeon::layout::{
    edge_for, margins_for, ranges_overlap, skip_reserved_offset, sort_by_offset, stack_layout,
    stack_margins, stack_offset, stack_offsets_fit, stack_size, AnimatedEdge, LayoutSlot, Margins,
};

fn position(anchor: Anchor) -> PositionConfig {
    PositionConfig {
        anchor,
        top_margin: 16,
        bottom_margin: 16,
        left_margin: 10,
        right_margin: 20,
        notification_gap: 8,
    }
}

#[test]
fn the_stack_fills_the_output_and_cuts_the_last_card() {
    let measurements = vec![(1, 1, 100), (2, 1, 200), (3, 1, 2000), (4, 1, 50)];
    let layout = stack_layout(&measurements, 1920, 1080, 300, &position(Anchor::Top));
    assert_eq!(
        layout,
        vec![
            LayoutSlot { id: 1, generation: 1, visible_width: 300, visible_height: 100, full_width: 300, full_height: 100 },
            LayoutSlot { id: 2, generation: 1, visible_width: 300, visible_height: 200, full_width: 300, full_height: 200 },
            LayoutSlot { id: 3, generation: 1, visible_width: 300, visible_height: 732, full_width: 300, full_height: 2000 },
        ]
    );
}

#[test]
fn sideways_stacks_run_along_the_width() {
    let measurements = vec![(1, 1, 90), (2, 4, 90), (3, 1, 90), (4, 1, 90)];
    let mut pos = position(Anchor::Left);
    pos.left_margin = 10;
    pos.right_margin = 10;
    pos.notification_gap = 5;
    let layout = stack_layout(&measurements, 1000, 700, 400, &pos);
    assert_eq!(layout.len(), 3);
    assert_eq!(layout[1].generation, 4);
    assert_eq!(layout[2].visible_width, 170);
    assert_eq!(layout[2].full_width, 400);
}

#[test]
fn nothing_is_placed_without_room() {
    let measurements = vec![(1, 1, 100)];
    let layout = stack_layout(&measurements, 100, 30, 300, &position(Anchor::Bottom));
    assert!(layout.is_empty());
}

#[test]
fn spans_that_touch_do_not_overlap() {
    assert!(!ranges_overlap(0, 10, 10, 5));
    assert!(ranges_overlap(0, 11, 10, 5));
    assert!(ranges_overlap(12, 1, 10, 5));
}

#[test]
fn reserved_spans_push_a_card_past_them() {
    assert_eq!(skip_reserved_offset(10, 50, 8, &[(30, 20)]), 58);
    assert_eq!(skip_reserved_offset(100, 50, 8, &[(30, 20)]), 100);
    assert_eq!(skip_reserved_offset(10, 50, 8, &[(30, 20), (60, 10)]), 78);
}

#[test]
fn margins_stack_cards_along_the_edge() {
    let pos = position(Anchor::TopRight);
    let margins = stack_margins(&pos, &vec![100, 50], &vec![]);
    assert_eq!(
        margins,
        vec![
            Margins { top: 16, right: 20, bottom: 0, left: 0 },
            Margins { top: 124, right: 20, bottom: 0, left: 0 },
        ]
    );
    let margins = stack_margins(&pos, &vec![100, 50], &vec![(100, 40)]);
    assert_eq!(margins[0].top, 148);
    assert_eq!(margins[1].top, 256);
}

#[test]
fn reserved_spans_sort_stably_by_offset() {
    let sorted = sort_by_offset(&vec![(5, 1), (3, 2), (5, 0), (1, 9)]);
    assert_eq!(sorted, vec![(1, 9), (3, 2), (5, 1), (5, 0)]);
}

#[test]
fn anchors_pick_edges_and_margins() {
    assert_eq!(edge_for(&Anchor::Top), AnimatedEdge::Top);
    assert_eq!(edge_for(&Anchor::BottomLeft), AnimatedEdge::Bottom);
    assert_eq!(edge_for(&Anchor::Left), AnimatedEdge::Left);
    assert_eq!(edge_for(&Anchor::Right), AnimatedEdge::Right);
    let pos = position(Anchor::BottomRight);
    let m = margins_for(Anchor::BottomRight, 30, &pos);
    assert_eq!(m, Margins { top: 0, right: 20, bottom: 30, left: 0 });
    assert_eq!(stack_offset(Anchor::BottomRight, &m), 30);
    assert_eq!(stack_size(Anchor::Left, 400, 100), 400);
    assert_eq!(stack_size(Anchor::Top, 400, 100), 100);
    assert_eq!(Margins::default(), Margins { top: 0, right: 0, bottom: 0, left: 0 });
}

#[test]
fn stack_offsets_are_checked_before_stacking() {
    let pos = position(Anchor::TopRight);
    assert!(stack_offsets_fit(&pos, &vec![100, 50], &vec![]));
    assert!(stack_offsets_fit(&pos, &vec![100, 50], &vec![(100, 40)]));
    assert!(!stack_offsets_fit(&pos, &vec![i32::MAX, 50], &vec![]));
    assert!(!stack_offsets_fit(&pos, &vec![100, 50], &vec![(i32::MAX, 1)]));
    assert!(!stack_offsets_fit(&pos, &vec![100], &vec![(10, i32::MAX - 20)]));
    assert!(stack_offsets_fit(&pos, &vec![], &vec![(i32::MAX, 1)]));
}
