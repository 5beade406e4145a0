//! Where notification popups go on an output: which of the queued
//! notifications fit, how large each is shown, and the margins that stack
//! them along the anchored edge.

use vstd::prelude::*;

use crate::config::style::{Anchor, PositionConfig};

verus! {

/// The edge a popup slides in from.
#[derive(Clone, Copy, Debug, PartialEq, Eq, Structural)]
pub enum AnimatedEdge {
    Top,
    Right,
    Bottom,
    Left,
}

/// The edge popups anchored at `anchor` stack from.
pub open spec fn edge_of(anchor: Anchor) -> AnimatedEdge {
    match anchor {
        Anchor::Top | Anchor::TopLeft | Anchor::TopRight => AnimatedEdge::Top,
        Anchor::Bottom | Anchor::BottomLeft | Anchor::BottomRight => AnimatedEdge::Bottom,
        Anchor::Left => AnimatedEdge::Left,
        Anchor::Right => AnimatedEdge::Right,
    }
}

pub fn edge_for(anchor: &Anchor) -> (e: AnimatedEdge)
    ensures
        e == edge_of(*anchor),
{
    match anchor {
        Anchor::Top | Anchor::TopLeft | Anchor::TopRight => AnimatedEdge::Top,
        Anchor::Bottom | Anchor::BottomLeft | Anchor::BottomRight => AnimatedEdge::Bottom,
        Anchor::Left => AnimatedEdge::Left,
        Anchor::Right => AnimatedEdge::Right,
    }
}

/// Whether popups anchored at `anchor` stack left to right or right to
/// left, rather than top to bottom or bottom to top.
pub open spec fn stacks_sideways(anchor: Anchor) -> bool {
    anchor == Anchor::Left || anchor == Anchor::Right
}

/// A popup's margins from the edges of its output.
#[derive(Clone, Copy, Debug, PartialEq, Eq, Structural)]
pub struct Margins {
    pub top: i32,
    pub right: i32,
    pub bottom: i32,
    pub left: i32,
}

impl Default for Margins {
    fn default() -> (m: Self)
        ensures
            m == (Margins { top: 0, right: 0, bottom: 0, left: 0 }),
    {
        Margins { top: 0, right: 0, bottom: 0, left: 0 }
    }
}

/// A queued notification's place in the stack.
#[derive(Clone, Copy, Debug, PartialEq, Eq, Structural)]
pub struct LayoutSlot {
    pub id: u32,
    pub generation: u64,
    /// The size shown, cut to the space left on the output.
    pub visible_width: u32,
    pub visible_height: u32,
    /// The size the card is drawn at.
    pub full_width: u32,
    pub full_height: u32,
}

/// `a - b`, or 0 when `b` is larger.
pub open spec fn sub_or_zero(a: int, b: int) -> int {
    if a >= b {
        a - b
    } else {
        0
    }
}

/// `a + b`, capped at the largest `u32`.
pub open spec fn add_capped(a: int, b: int) -> int {
    if a + b > u32::MAX {
        u32::MAX as int
    } else {
        a + b
    }
}

/// The length of the stacking axis and the margins at its leading and
/// trailing ends, for popups anchored at `anchor`.
pub open spec fn stack_axis(anchor: Anchor, output_width: u32, output_height: u32, position: PositionConfig) -> (
    u32,
    u32,
    u32,
) {
    match anchor {
        Anchor::Top | Anchor::TopLeft | Anchor::TopRight => (
            output_height,
            position.top_margin,
            position.bottom_margin,
        ),
        Anchor::Bottom | Anchor::BottomLeft | Anchor::BottomRight => (
            output_height,
            position.bottom_margin,
            position.top_margin,
        ),
        Anchor::Left => (output_width, position.left_margin, position.right_margin),
        Anchor::Right => (output_width, position.right_margin, position.left_margin),
    }
}

/// The slots for the notifications from index `i` on, given `used` pixels
/// of the axis taken: each goes after the previous one and a gap; one that
/// does not fit whole is cut to the space left and ends the stack, and none
/// is placed once no space is left.
pub open spec fn layout_from(
    measurements: Seq<(u32, u64, u32)>,
    i: int,
    used: int,
    axis: u32,
    trailing: u32,
    width: u32,
    position: PositionConfig,
) -> Seq<LayoutSlot>
    decreases measurements.len() - i,
{
    if i < 0 || i >= measurements.len() {
        Seq::empty()
    } else {
        let (id, generation, height) = measurements[i];
        let sideways = stacks_sideways(position.anchor);
        let full_size = if sideways {
            width
        } else {
            height
        };
        let available = sub_or_zero(sub_or_zero(axis as int, trailing as int), used);
        if available == 0 {
            Seq::empty()
        } else {
            let slot = LayoutSlot {
                id,
                generation,
                visible_width: if sideways && width > available {
                    available as u32
                } else {
                    width
                },
                visible_height: if !sideways && height > available {
                    available as u32
                } else {
                    height
                },
                full_width: width,
                full_height: height,
            };
            if full_size >= available {
                seq![slot]
            } else {
                seq![slot] + layout_from(
                    measurements,
                    i + 1,
                    add_capped(add_capped(used, full_size as int), position.notification_gap as int),
                    axis,
                    trailing,
                    width,
                    position,
                )
            }
        }
    }
}

/// The stack for notifications measured as (id, generation, card height),
/// in queue order, on an output of the given size, with cards `width`
/// wide.
pub open spec fn stack_layout_for(
    measurements: Seq<(u32, u64, u32)>,
    output_width: u32,
    output_height: u32,
    width: u32,
    position: PositionConfig,
) -> Seq<LayoutSlot> {
    let (axis, leading, trailing) = stack_axis(
        position.anchor,
        output_width,
        output_height,
        position,
    );
    layout_from(measurements, 0, leading as int, axis, trailing, width, position)
}

pub fn stack_layout(
    measurements: &Vec<(u32, u64, u32)>,
    output_width: u32,
    output_height: u32,
    width: u32,
    position: &PositionConfig,
) -> (layout: Vec<LayoutSlot>)
    ensures
        layout@ == stack_layout_for(measurements@, output_width, output_height, width, *position),
{
    let (axis_size, leading_margin, trailing_margin) = match position.anchor {
        Anchor::Top | Anchor::TopLeft | Anchor::TopRight => (
            output_height,
            position.top_margin,
            position.bottom_margin,
        ),
        Anchor::Bottom | Anchor::BottomLeft | Anchor::BottomRight => (
            output_height,
            position.bottom_margin,
            position.top_margin,
        ),
        Anchor::Left => (output_width, position.left_margin, position.right_margin),
        Anchor::Right => (output_width, position.right_margin, position.left_margin),
    };
    let sideways = match position.anchor {
        Anchor::Left | Anchor::Right => true,
        _ => false,
    };
    let ghost ms = measurements@;
    let mut layout: Vec<LayoutSlot> = Vec::new();
    let mut used = leading_margin;
    let mut i: usize = 0;
    while i < measurements.len()
        invariant_except_break
            stack_layout_for(ms, output_width, output_height, width, *position) == layout@
                + layout_from(ms, i as int, used as int, axis_size, trailing_margin, width, *position),
        invariant
            ms == measurements@,
            i <= ms.len(),
            sideways == stacks_sideways(position.anchor),
            (axis_size, leading_margin, trailing_margin) == stack_axis(
                position.anchor,
                output_width,
                output_height,
                *position,
            ),
        ensures
            stack_layout_for(ms, output_width, output_height, width, *position) == layout@,
        decreases ms.len() - i,
    {
        let (id, generation, height) = measurements[i];
        let full_size = if sideways {
            width
        } else {
            height
        };
        let available = axis_size.saturating_sub(trailing_margin).saturating_sub(used);
        if available == 0 {
            proof {
                assert(layout@ + Seq::<LayoutSlot>::empty() =~= layout@);
            }
            break;
        }
        proof {
            assert(layout_from(ms, i as int, used as int, axis_size, trailing_margin, width, *position)
                == (if full_size >= available {
                seq![
                    LayoutSlot {
                        id,
                        generation,
                        visible_width: if sideways && width > available {
                            available
                        } else {
                            width
                        },
                        visible_height: if !sideways && height > available {
                            available
                        } else {
                            height
                        },
                        full_width: width,
                        full_height: height,
                    },
                ]
            } else {
                seq![
                    LayoutSlot {
                        id,
                        generation,
                        visible_width: if sideways && width > available {
                            available
                        } else {
                            width
                        },
                        visible_height: if !sideways && height > available {
                            available
                        } else {
                            height
                        },
                        full_width: width,
                        full_height: height,
                    },
                ] + layout_from(
                    ms,
                    i + 1,
                    add_capped(add_capped(used as int, full_size as int), position.notification_gap as int),
                    axis_size,
                    trailing_margin,
                    width,
                    *position,
                )
            }));
        }
        let slot = LayoutSlot {
            id,
            generation,
            visible_width: if sideways && width > available {
                available
            } else {
                width
            },
            visible_height: if !sideways && height > available {
                available
            } else {
                height
            },
            full_width: width,
            full_height: height,
        };
        let ghost before = layout@;
        layout.push(slot);
        if full_size >= available {
            proof {
                assert(before + seq![slot] =~= layout@);
                assert(layout@ + Seq::<LayoutSlot>::empty() =~= layout@);
            }
            break;
        }
        let next_used = used.saturating_add(full_size).saturating_add(position.notification_gap);
        proof {
            assert(before + (seq![slot] + layout_from(
                ms,
                i + 1,
                next_used as int,
                axis_size,
                trailing_margin,
                width,
                *position,
            )) =~= layout@ + layout_from(
                ms,
                i + 1,
                next_used as int,
                axis_size,
                trailing_margin,
                width,
                *position,
            ));
        }
        used = next_used;
        i = i + 1;
    }
    layout
}

proof fn lemma_layout_from(
    measurements: Seq<(u32, u64, u32)>,
    i: int,
    used: int,
    axis: u32,
    trailing: u32,
    width: u32,
    position: PositionConfig,
)
    requires
        0 <= i <= measurements.len(),
    ensures
        ({
            let l = layout_from(measurements, i, used, axis, trailing, width, position);
            &&& i + l.len() <= measurements.len()
            &&& forall|j: int|
                0 <= j < l.len() ==> {
                    &&& (#[trigger] l[j]).id == measurements[i + j].0
                    &&& l[j].generation == measurements[i + j].1
                    &&& l[j].full_width == width
                    &&& l[j].full_height == measurements[i + j].2
                    &&& l[j].visible_width <= l[j].full_width
                    &&& l[j].visible_height <= l[j].full_height
                }
        }),
    decreases measurements.len() - i,
{
    if 0 <= i < measurements.len() {
        let (id, generation, height) = measurements[i];
        let full_size = if stacks_sideways(position.anchor) {
            width
        } else {
            height
        };
        let next = add_capped(
            add_capped(used, full_size as int),
            position.notification_gap as int,
        );
        lemma_layout_from(measurements, i + 1, next, axis, trailing, width, position);
        let l = layout_from(measurements, i, used, axis, trailing, width, position);
        let rest = layout_from(measurements, i + 1, next, axis, trailing, width, position);
        let available = sub_or_zero(sub_or_zero(axis as int, trailing as int), used);
        if available != 0 && full_size < available {
            assert forall|j: int| 0 <= j < l.len() implies {
                &&& (#[trigger] l[j]).id == measurements[i + j].0
                &&& l[j].generation == measurements[i + j].1
                &&& l[j].full_width == width
                &&& l[j].full_height == measurements[i + j].2
                &&& l[j].visible_width <= l[j].full_width
                &&& l[j].visible_height <= l[j].full_height
            } by {
                if j > 0 {
                    assert(l[j] == rest[j - 1]);
                    assert(i + j == (i + 1) + (j - 1));
                }
            }
        }
    }
}

/// The stack keeps queue order: its slots are the first notifications of
/// the queue, in order, each shown at most at its full size.
pub proof fn lemma_stack_layout_order(
    measurements: Seq<(u32, u64, u32)>,
    output_width: u32,
    output_height: u32,
    width: u32,
    position: PositionConfig,
)
    ensures
        ({
            let l = stack_layout_for(measurements, output_width, output_height, width, position);
            &&& l.len() <= measurements.len()
            &&& forall|j: int|
                0 <= j < l.len() ==> {
                    &&& (#[trigger] l[j]).id == measurements[j].0
                    &&& l[j].generation == measurements[j].1
                    &&& l[j].visible_width <= l[j].full_width
                    &&& l[j].visible_height <= l[j].full_height
                }
        }),
{
    let (axis, leading, trailing) = stack_axis(
        position.anchor,
        output_width,
        output_height,
        position,
    );
    lemma_layout_from(measurements, 0, leading as int, axis, trailing, width, position);
}

/// Whether a value fits in an `i32`.
pub open spec fn in_i32(v: int) -> bool {
    i32::MIN <= v <= i32::MAX
}

/// Whether the span of `size` from `offset` meets the span of
/// `reserved_size` from `reserved_offset`.
pub open spec fn overlaps(offset: int, size: int, reserved_offset: int, reserved_size: int) -> bool {
    offset < reserved_offset + reserved_size && reserved_offset < offset + size
}

pub fn ranges_overlap(offset: i32, size: i32, reserved_offset: i32, reserved_size: i32) -> (b: bool)
    requires
        in_i32(offset + size),
        in_i32(reserved_offset + reserved_size),
    ensures
        b == overlaps(offset as int, size as int, reserved_offset as int, reserved_size as int),
{
    let end = offset + size;
    let reserved_end = reserved_offset + reserved_size;
    offset < reserved_end && reserved_offset < end
}

/// From reserved span `i` on, where a span of `size` starting at `offset`
/// ends up: each reserved span it meets pushes it to just past that span
/// and a gap.
pub open spec fn skip_from(offset: int, size: int, gap: int, reserved: Seq<(i32, i32)>, i: int) -> int
    decreases reserved.len() - i,
{
    if i < 0 || i >= reserved.len() {
        offset
    } else {
        let next = if overlaps(offset, size, reserved[i].0 as int, reserved[i].1 as int) {
            reserved[i].0 + reserved[i].1 + gap
        } else {
            offset
        };
        skip_from(next, size, gap, reserved, i + 1)
    }
}

/// Whether every sum `skip_from` works out, from reserved span `i` on, fits
/// in an `i32`.
pub open spec fn skip_fits(offset: int, size: int, gap: int, reserved: Seq<(i32, i32)>, i: int) -> bool
    decreases reserved.len() - i,
{
    if i < 0 || i >= reserved.len() {
        true
    } else {
        let meets = overlaps(offset, size, reserved[i].0 as int, reserved[i].1 as int);
        let next = if meets {
            reserved[i].0 + reserved[i].1 + gap
        } else {
            offset
        };
        &&& in_i32(offset + size)
        &&& in_i32(reserved[i].0 + reserved[i].1)
        &&& (meets ==> in_i32(reserved[i].0 + reserved[i].1 + gap))
        &&& skip_fits(next, size, gap, reserved, i + 1)
    }
}

/// Moves a span of `size` at `offset` past the reserved spans it meets,
/// taken in order, leaving `gap` after each.
pub fn skip_reserved_offset(offset: i32, size: i32, gap: i32, reserved: &[(i32, i32)]) -> (r: i32)
    requires
        in_i32(offset as int),
        skip_fits(offset as int, size as int, gap as int, reserved@, 0),
    ensures
        r == skip_from(offset as int, size as int, gap as int, reserved@, 0),
{
    let mut offset = offset;
    let ghost start = offset as int;
    let mut i: usize = 0;
    while i < reserved.len()
        invariant
            i <= reserved@.len(),
            skip_from(start, size as int, gap as int, reserved@, 0) == skip_from(
                offset as int,
                size as int,
                gap as int,
                reserved@,
                i as int,
            ),
            skip_fits(offset as int, size as int, gap as int, reserved@, i as int),
        decreases reserved@.len() - i,
    {
        let (reserved_offset, reserved_size) = reserved[i];
        if ranges_overlap(offset, size, reserved_offset, reserved_size) {
            offset = reserved_offset + reserved_size + gap;
        }
        i = i + 1;
    }
    offset
}

/// The margins that put a popup `offset` along the stacking edge of
/// `anchor`, with the side margin for a corner anchor.
pub open spec fn margins_at(anchor: Anchor, offset: i32, position: PositionConfig) -> Margins {
    let zero = Margins { top: 0, right: 0, bottom: 0, left: 0 };
    match anchor {
        Anchor::Top => Margins { top: offset, ..zero },
        Anchor::TopLeft => Margins { top: offset, left: position.left_margin as i32, ..zero },
        Anchor::TopRight => Margins { top: offset, right: position.right_margin as i32, ..zero },
        Anchor::Bottom => Margins { bottom: offset, ..zero },
        Anchor::BottomLeft => Margins { bottom: offset, left: position.left_margin as i32, ..zero },
        Anchor::BottomRight => Margins {
            right: position.right_margin as i32,
            bottom: offset,
            ..zero
        },
        Anchor::Left => Margins { left: offset, ..zero },
        Anchor::Right => Margins { right: offset, ..zero },
    }
}

pub fn margins_for(anchor: Anchor, offset: i32, position: &PositionConfig) -> (m: Margins)
    ensures
        m == margins_at(anchor, offset, *position),
{
    let zero = Margins { top: 0, right: 0, bottom: 0, left: 0 };
    match anchor {
        Anchor::Top => Margins { top: offset, ..zero },
        Anchor::TopLeft => Margins { top: offset, left: position.left_margin as i32, ..zero },
        Anchor::TopRight => Margins { top: offset, right: position.right_margin as i32, ..zero },
        Anchor::Bottom => Margins { bottom: offset, ..zero },
        Anchor::BottomLeft => Margins { bottom: offset, left: position.left_margin as i32, ..zero },
        Anchor::BottomRight => Margins {
            right: position.right_margin as i32,
            bottom: offset,
            ..zero
        },
        Anchor::Left => Margins { left: offset, ..zero },
        Anchor::Right => Margins { right: offset, ..zero },
    }
}

/// The margin on the stacking edge of `anchor`, where a popup starts.
pub open spec fn offset_of(anchor: Anchor, margins: Margins) -> i32 {
    match anchor {
        Anchor::Top | Anchor::TopLeft | Anchor::TopRight => margins.top,
        Anchor::Bottom | Anchor::BottomLeft | Anchor::BottomRight => margins.bottom,
        Anchor::Left => margins.left,
        Anchor::Right => margins.right,
    }
}

/// A popup placed at `offset` along the stacking edge gets that offset as
/// the margin on the stacking edge of its anchor: the top margin for the top
/// anchors, the bottom one for the bottom anchors, the left one for `Left`
/// and the right one for `Right`. A corner anchor keeps the configured
/// margin on its side edge, and every other edge has no margin.
pub proof fn lemma_margins_on_the_stacking_edge(anchor: Anchor, offset: i32, position: PositionConfig)
    ensures
        offset_of(anchor, margins_at(anchor, offset, position)) == offset,
        ({
            let m = margins_at(anchor, offset, position);
            match anchor {
                Anchor::Top => m.top == offset && m.left == 0 && m.right == 0 && m.bottom == 0,
                Anchor::TopLeft => m.top == offset && m.left == position.left_margin as i32
                    && m.right == 0 && m.bottom == 0,
                Anchor::TopRight => m.top == offset && m.right == position.right_margin as i32
                    && m.left == 0 && m.bottom == 0,
                Anchor::Bottom => m.bottom == offset && m.left == 0 && m.right == 0 && m.top == 0,
                Anchor::BottomLeft => m.bottom == offset && m.left == position.left_margin as i32
                    && m.right == 0 && m.top == 0,
                Anchor::BottomRight => m.bottom == offset && m.right == position.right_margin as i32
                    && m.left == 0 && m.top == 0,
                Anchor::Left => m.left == offset && m.top == 0 && m.right == 0 && m.bottom == 0,
                Anchor::Right => m.right == offset && m.top == 0 && m.left == 0 && m.bottom == 0,
            }
        }),
{
}

pub fn stack_offset(anchor: Anchor, margins: &Margins) -> (o: i32)
    ensures
        o == offset_of(anchor, *margins),
{
    match anchor {
        Anchor::Top | Anchor::TopLeft | Anchor::TopRight => margins.top,
        Anchor::Bottom | Anchor::BottomLeft | Anchor::BottomRight => margins.bottom,
        Anchor::Left => margins.left,
        Anchor::Right => margins.right,
    }
}

/// How much of the stacking axis a `width` by `height` popup takes.
pub open spec fn size_along(anchor: Anchor, width: u32, height: u32) -> i32 {
    (if stacks_sideways(anchor) {
        width
    } else {
        height
    }) as i32
}

pub fn stack_size(anchor: Anchor, width: u32, height: u32) -> (s: i32)
    ensures
        s == size_along(anchor, width, height),
{
    (match anchor {
        Anchor::Left | Anchor::Right => width,
        _ => height,
    }) as i32
}

/// The margin of the first popup on the stacking edge.
pub open spec fn leading_offset(position: PositionConfig) -> i32 {
    match position.anchor {
        Anchor::Top | Anchor::TopLeft | Anchor::TopRight => position.top_margin as i32,
        Anchor::Bottom | Anchor::BottomLeft | Anchor::BottomRight => position.bottom_margin as i32,
        Anchor::Left => position.left_margin as i32,
        Anchor::Right => position.right_margin as i32,
    }
}

/// The margins of the popups from `i` on, the next one going at `offset`
/// or past the reserved spans it meets, each followed by the gap.
pub open spec fn stack_from(
    position: PositionConfig,
    sizes: Seq<i32>,
    reserved: Seq<(i32, i32)>,
    i: int,
    offset: int,
) -> Seq<Margins>
    decreases sizes.len() - i,
{
    if i < 0 || i >= sizes.len() {
        Seq::empty()
    } else {
        let gap = position.notification_gap as i32;
        let o = skip_from(offset, sizes[i] as int, gap as int, reserved, 0);
        seq![margins_at(position.anchor, o as i32, position)] + stack_from(
            position,
            sizes,
            reserved,
            i + 1,
            o + (sizes[i] + gap),
        )
    }
}

/// Whether every sum `stack_from` works out fits in an `i32`.
pub open spec fn stack_fits(
    position: PositionConfig,
    sizes: Seq<i32>,
    reserved: Seq<(i32, i32)>,
    i: int,
    offset: int,
) -> bool
    decreases sizes.len() - i,
{
    if i < 0 || i >= sizes.len() {
        true
    } else {
        let gap = position.notification_gap as i32;
        let o = skip_from(offset, sizes[i] as int, gap as int, reserved, 0);
        &&& skip_fits(offset, sizes[i] as int, gap as int, reserved, 0)
        &&& in_i32(sizes[i] + gap)
        &&& in_i32(o + (sizes[i] + gap))
        &&& stack_fits(position, sizes, reserved, i + 1, o + (sizes[i] + gap))
    }
}

proof fn lemma_skip_from_in_i32(offset: int, size: int, gap: int, reserved: Seq<(i32, i32)>, i: int)
    requires
        in_i32(offset),
        skip_fits(offset, size, gap, reserved, i),
    ensures
        in_i32(skip_from(offset, size, gap, reserved, i)),
    decreases reserved.len() - i,
{
    if 0 <= i < reserved.len() {
        let next = if overlaps(offset, size, reserved[i].0 as int, reserved[i].1 as int) {
            reserved[i].0 + reserved[i].1 + gap
        } else {
            offset
        };
        lemma_skip_from_in_i32(next, size, gap, reserved, i + 1);
    }
}

/// The margins that stack popups of the given sizes along the anchored
/// edge of one output, in order, stepping past the spans `reserved` by
/// popups that are leaving (taken in order of their offsets).
pub fn stack_margins(position: &PositionConfig, sizes: &Vec<i32>, reserved: &Vec<(i32, i32)>) -> (m: Vec<
    Margins,
>)
    requires
        stack_fits(*position, sizes@, reserved@, 0, leading_offset(*position) as int),
    ensures
        m@ == stack_from(*position, sizes@, reserved@, 0, leading_offset(*position) as int),
{
    let mut offset: i32 = match position.anchor {
        Anchor::Top | Anchor::TopLeft | Anchor::TopRight => position.top_margin as i32,
        Anchor::Bottom | Anchor::BottomLeft | Anchor::BottomRight => position.bottom_margin as i32,
        Anchor::Left => position.left_margin as i32,
        Anchor::Right => position.right_margin as i32,
    };
    let gap = position.notification_gap as i32;
    let mut margins: Vec<Margins> = Vec::new();
    let mut i: usize = 0;
    while i < sizes.len()
        invariant
            i <= sizes@.len(),
            gap == position.notification_gap as i32,
            stack_from(*position, sizes@, reserved@, 0, leading_offset(*position) as int) == margins@
                + stack_from(*position, sizes@, reserved@, i as int, offset as int),
            stack_fits(*position, sizes@, reserved@, i as int, offset as int),
        decreases sizes@.len() - i,
    {
        let size = sizes[i];
        let o = skip_reserved_offset(offset, size, gap, reserved.as_slice());
        proof {
            lemma_skip_from_in_i32(offset as int, size as int, gap as int, reserved@, 0);
        }
        let ghost before = margins@;
        margins.push(margins_for(position.anchor, o, position));
        proof {
            assert(before + stack_from(*position, sizes@, reserved@, i as int, offset as int)
                =~= margins@ + stack_from(*position, sizes@, reserved@, i + 1, o + (size + gap)));
        }
        offset = o + (size + gap);
        i = i + 1;
    }
    proof {
        assert(margins@ + Seq::<Margins>::empty() =~= margins@);
    }
    margins
}

/// Where a span of `size` at `offset` ends up past the reserved spans it
/// meets, when every sum on the way fits in an `i32`.
fn checked_skip(offset: i64, size: i32, gap: i32, reserved: &[(i32, i32)]) -> (r: Option<i64>)
    requires
        in_i32(offset as int),
    ensures
        match r {
            Some(o) => skip_fits(offset as int, size as int, gap as int, reserved@, 0) && o
                == skip_from(offset as int, size as int, gap as int, reserved@, 0),
            None => !skip_fits(offset as int, size as int, gap as int, reserved@, 0),
        },
{
    let ghost start = offset as int;
    let mut cur = offset;
    let mut i: usize = 0;
    while i < reserved.len()
        invariant
            i <= reserved@.len(),
            start == offset as int,
            in_i32(cur as int),
            skip_from(start, size as int, gap as int, reserved@, 0) == skip_from(
                cur as int,
                size as int,
                gap as int,
                reserved@,
                i as int,
            ),
            skip_fits(start, size as int, gap as int, reserved@, 0) == skip_fits(
                cur as int,
                size as int,
                gap as int,
                reserved@,
                i as int,
            ),
        decreases reserved@.len() - i,
    {
        let (reserved_offset, reserved_size) = reserved[i];
        let end = cur + size as i64;
        let reserved_end = reserved_offset as i64 + reserved_size as i64;
        if end < i32::MIN as i64 || end > i32::MAX as i64 || reserved_end < i32::MIN as i64
            || reserved_end > i32::MAX as i64 {
            proof {
                assert(!skip_fits(cur as int, size as int, gap as int, reserved@, i as int));
            }
            return None;
        }
        if cur < reserved_end && (reserved_offset as i64) < end {
            let next = reserved_end + gap as i64;
            if next < i32::MIN as i64 || next > i32::MAX as i64 {
                proof {
                    assert(!skip_fits(cur as int, size as int, gap as int, reserved@, i as int));
                }
                return None;
            }
            cur = next;
        }
        i = i + 1;
    }
    Some(cur)
}

/// Whether every offset [`stack_margins`] works out for these popups fits
/// in an `i32`, so that it may be called.
pub fn stack_offsets_fit(position: &PositionConfig, sizes: &Vec<i32>, reserved: &Vec<(i32, i32)>) -> (b:
    bool)
    ensures
        b == stack_fits(*position, sizes@, reserved@, 0, leading_offset(*position) as int),
{
    let mut offset: i64 = match position.anchor {
        Anchor::Top | Anchor::TopLeft | Anchor::TopRight => position.top_margin as i32,
        Anchor::Bottom | Anchor::BottomLeft | Anchor::BottomRight => position.bottom_margin as i32,
        Anchor::Left => position.left_margin as i32,
        Anchor::Right => position.right_margin as i32,
    } as i64;
    let gap = position.notification_gap as i32;
    let mut i: usize = 0;
    while i < sizes.len()
        invariant
            i <= sizes@.len(),
            gap == position.notification_gap as i32,
            in_i32(offset as int),
            stack_fits(*position, sizes@, reserved@, 0, leading_offset(*position) as int)
                == stack_fits(*position, sizes@, reserved@, i as int, offset as int),
        decreases sizes@.len() - i,
    {
        let size = sizes[i];
        let o = match checked_skip(offset, size, gap, reserved.as_slice()) {
            Some(o) => o,
            None => {
                return false;
            },
        };
        proof {
            lemma_skip_from_in_i32(offset as int, size as int, gap as int, reserved@, 0);
        }
        let step = size as i64 + gap as i64;
        if step < i32::MIN as i64 || step > i32::MAX as i64 {
            return false;
        }
        let next = o + step;
        if next < i32::MIN as i64 || next > i32::MAX as i64 {
            return false;
        }
        offset = next;
        i = i + 1;
    }
    true
}

proof fn lemma_stack_from_steps(position: PositionConfig, sizes: Seq<i32>, i: int, offset: int)
    requires
        0 <= i <= sizes.len(),
        in_i32(offset),
        stack_fits(position, sizes, Seq::<(i32, i32)>::empty(), i, offset),
    ensures
        ({
            let m = stack_from(position, sizes, Seq::<(i32, i32)>::empty(), i, offset);
            &&& m.len() == sizes.len() - i
            &&& m.len() > 0 ==> offset_of(position.anchor, m[0]) == offset
            &&& forall|k: int|
                1 <= k < m.len() ==> offset_of(position.anchor, #[trigger] m[k]) == offset_of(
                    position.anchor,
                    m[k - 1],
                ) + sizes[i + k - 1] + (position.notification_gap as i32)
        }),
    decreases sizes.len() - i,
{
    if i < sizes.len() {
        let gap = position.notification_gap as i32;
        let next = offset + (sizes[i] + gap);
        lemma_stack_from_steps(position, sizes, i + 1, next);
        let rest = stack_from(position, sizes, Seq::<(i32, i32)>::empty(), i + 1, next);
        let first = margins_at(position.anchor, offset as i32, position);
        lemma_margins_on_the_stacking_edge(position.anchor, offset as i32, position);
        let m = stack_from(position, sizes, Seq::<(i32, i32)>::empty(), i, offset);
        assert(m == seq![first] + rest);
        assert forall|k: int| 1 <= k < m.len() implies offset_of(position.anchor, #[trigger] m[k])
            == offset_of(position.anchor, m[k - 1]) + sizes[i + k - 1] + gap by {
            assert(m[k] == rest[k - 1]);
            if k > 1 {
                assert(m[k - 1] == rest[k - 2]);
                assert(offset_of(position.anchor, rest[k - 1]) == offset_of(position.anchor, rest[k - 2])
                    + sizes[(i + 1) + (k - 1) - 1] + gap);
                assert((i + 1) + (k - 1) - 1 == i + k - 1);
            } else {
                assert(offset_of(position.anchor, rest[0]) == next);
                assert(m[0] == first);
                assert(offset_of(position.anchor, first) == offset);
            }
        }
    }
}

/// With no popups leaving, the stack lays popups one after another: the
/// first sits at the configured margin of the stacking edge, and each next
/// one starts where the one before ends, plus the gap.
pub proof fn lemma_stack_steps(position: PositionConfig, sizes: Seq<i32>)
    requires
        stack_fits(position, sizes, Seq::<(i32, i32)>::empty(), 0, leading_offset(position) as int),
    ensures
        ({
            let m = stack_from(
                position,
                sizes,
                Seq::<(i32, i32)>::empty(),
                0,
                leading_offset(position) as int,
            );
            &&& m.len() == sizes.len()
            &&& m.len() > 0 ==> offset_of(position.anchor, m[0]) == leading_offset(position)
            &&& forall|k: int|
                1 <= k < m.len() ==> offset_of(position.anchor, #[trigger] m[k]) == offset_of(
                    position.anchor,
                    m[k - 1],
                ) + sizes[k - 1] + (position.notification_gap as i32)
        }),
{
    lemma_stack_from_steps(position, sizes, 0, leading_offset(position) as int);
}

/// Inserts `x` into `sorted` after every span that starts no later.
pub open spec fn insert_by_offset(sorted: Seq<(i32, i32)>, x: (i32, i32)) -> Seq<(i32, i32)>
    decreases sorted.len(),
{
    if sorted.len() == 0 {
        seq![x]
    } else if sorted.last().0 <= x.0 {
        sorted.push(x)
    } else {
        insert_by_offset(sorted.drop_last(), x).push(sorted.last())
    }
}

/// Spans ordered by offset, spans with equal offsets keeping their order.
pub open spec fn sorted_by_offset(s: Seq<(i32, i32)>) -> Seq<(i32, i32)>
    decreases s.len(),
{
    if s.len() == 0 {
        s
    } else {
        insert_by_offset(sorted_by_offset(s.drop_last()), s.last())
    }
}

/// Whether spans are in order of offset.
pub open spec fn offsets_ascending(s: Seq<(i32, i32)>) -> bool {
    forall|i: int, j: int| 0 <= i < j < s.len() ==> s[i].0 <= s[j].0
}

proof fn lemma_insert_by_offset(sorted: Seq<(i32, i32)>, x: (i32, i32))
    requires
        offsets_ascending(sorted),
    ensures
        offsets_ascending(insert_by_offset(sorted, x)),
        insert_by_offset(sorted, x).to_multiset() == sorted.to_multiset().insert(x),
        insert_by_offset(sorted, x).len() == sorted.len() + 1,
        forall|k: int|
            0 <= k < insert_by_offset(sorted, x).len() ==> (#[trigger] insert_by_offset(
                sorted,
                x,
            )[k] == x || sorted.contains(insert_by_offset(sorted, x)[k])),
    decreases sorted.len(),
{
    broadcast use vstd::seq_lib::to_multiset_build;
    broadcast use vstd::multiset::group_multiset_axioms;

    if sorted.len() > 0 && sorted.last().0 > x.0 {
        let rest = sorted.drop_last();
        lemma_insert_by_offset(rest, x);
        let ins = insert_by_offset(rest, x);
        assert(sorted =~= rest.push(sorted.last()));
        assert forall|k: int| 0 <= k < ins.len() implies (#[trigger] ins[k]).0 <= sorted.last().0 by {
            if ins[k] != x {
                assert(rest.contains(ins[k]));
                let m = choose|m: int| 0 <= m < rest.len() && rest[m] == ins[k];
                assert(sorted[m] == rest[m]);
            }
        }
        assert forall|k: int| 0 <= k < ins.push(sorted.last()).len() implies (#[trigger] ins.push(
            sorted.last(),
        )[k] == x || sorted.contains(ins.push(sorted.last())[k])) by {
            if k < ins.len() {
                if ins[k] != x {
                    let m = choose|m: int| 0 <= m < rest.len() && rest[m] == ins[k];
                    assert(sorted[m] == rest[m]);
                }
            } else {
                assert(sorted[sorted.len() - 1] == sorted.last());
            }
        }
    } else if sorted.len() > 0 {
        assert forall|k: int| 0 <= k < sorted.push(x).len() implies (#[trigger] sorted.push(x)[k]
            == x || sorted.contains(sorted.push(x)[k])) by {
            if k < sorted.len() {
                assert(sorted[k] == sorted.push(x)[k]);
            }
        }
    } else {
        assert(seq![x] =~= sorted.push(x));
    }
}

/// Ordering spans by offset keeps the same spans and puts them in order.
pub proof fn lemma_sorted_by_offset(s: Seq<(i32, i32)>)
    ensures
        offsets_ascending(sorted_by_offset(s)),
        sorted_by_offset(s).to_multiset() == s.to_multiset(),
        sorted_by_offset(s).len() == s.len(),
    decreases s.len(),
{
    broadcast use vstd::seq_lib::to_multiset_build;

    if s.len() > 0 {
        lemma_sorted_by_offset(s.drop_last());
        lemma_insert_by_offset(sorted_by_offset(s.drop_last()), s.last());
        assert(s =~= s.drop_last().push(s.last()));
    }
}

/// Orders the reserved spans by offset, keeping the order of spans with
/// equal offsets.
pub fn sort_by_offset(spans: &Vec<(i32, i32)>) -> (r: Vec<(i32, i32)>)
    ensures
        r@ == sorted_by_offset(spans@),
{
    let mut sorted: Vec<(i32, i32)> = Vec::new();
    let mut i: usize = 0;
    while i < spans.len()
        invariant
            i <= spans@.len(),
            sorted@ == sorted_by_offset(spans@.take(i as int)),
        decreases spans@.len() - i,
    {
        let x = spans[i];
        let mut k = sorted.len();
        let ghost before = sorted@;
        proof {
            assert(before.take(k as int) =~= before);
            assert(before.skip(k as int) =~= Seq::<(i32, i32)>::empty());
            assert(insert_by_offset(before, x) + Seq::<(i32, i32)>::empty() =~= insert_by_offset(
                before,
                x,
            ));
        }
        while k > 0 && sorted[k - 1].0 > x.0
            invariant
                k <= before.len(),
                sorted@ == before,
                insert_by_offset(before, x) == insert_by_offset(before.take(k as int), x) + before.skip(
                    k as int,
                ),
            decreases k,
        {
            proof {
                let t = before.take(k as int);
                assert(t.drop_last() =~= before.take(k - 1));
                assert(t.last() == before[k - 1]);
                assert(before.skip(k - 1) =~= seq![before[k - 1]] + before.skip(k as int));
                assert(insert_by_offset(before.take(k - 1), x).push(before[k - 1]) + before.skip(
                    k as int,
                ) =~= insert_by_offset(before.take(k - 1), x) + before.skip(k - 1));
            }
            k = k - 1;
        }
        proof {
            let t = before.take(k as int);
            if k > 0 {
                assert(t.last() == before[k - 1]);
            } else {
                assert(t =~= Seq::<(i32, i32)>::empty());
            }
            assert(insert_by_offset(t, x) =~= t.push(x));
            assert(before.take(k as int).push(x) + before.skip(k as int) =~= before.insert(
                k as int,
                x,
            ));
            assert(spans@.take(i + 1).drop_last() =~= spans@.take(i as int));
            assert(spans@.take(i + 1).last() == x);
        }
        sorted.insert(k, x);
        i = i + 1;
    }
    proof {
        assert(spans@.take(spans@.len() as int) =~= spans@);
    }
    sorted
}

} // verus!
