//! Partial style settings a profile or rule lays over a base style.

use vstd::prelude::*;

use crate::config::color::{ColorConfig, RgbaColor};
use crate::config::style::{
    BorderModel, FloatBits, NotificationConfig, NotificationModel, ProgressAlignment,
    ProgressDirection, ProgressModel, ProgressThickness, SummaryModel, TextStyleModel,
    ThumbnailConfig,
};

verus! {

pub struct BorderOverride {
    pub width: Option<u32>,
    pub color: Option<ColorConfig>,
}

pub struct ThumbnailOverride {
    pub size: Option<u32>,
    pub gap: Option<u32>,
}

pub struct SummaryOverride {
    pub font_size: Option<FloatBits>,
    pub bottom_gap: Option<FloatBits>,
}

pub struct BodyOverride {
    pub font_size: Option<FloatBits>,
}

pub struct ProgressOverride {
    pub direction: Option<ProgressDirection>,
    pub thickness: Option<ProgressThickness>,
    pub alignment: Option<ProgressAlignment>,
    pub inset: Option<u32>,
    pub color: Option<ColorConfig>,
}

pub struct NotificationStyleOverride {
    pub outer_padding: Option<u32>,
    pub corner_radius: Option<u32>,
    pub color: Option<ColorConfig>,
    pub border: BorderOverride,
    pub thumbnail: ThumbnailOverride,
    pub summary: SummaryOverride,
    pub body: BodyOverride,
    pub progress: ProgressOverride,
}

/// The set value, or the base one.
pub open spec fn or_base<T>(o: Option<T>, base: T) -> T {
    match o {
        Some(v) => v,
        None => base,
    }
}

/// The set colour's stops, or the base ones.
pub open spec fn color_or_base(o: Option<ColorConfig>, base: Seq<RgbaColor>) -> Seq<RgbaColor> {
    match o {
        Some(c) => c@,
        None => base,
    }
}

pub open spec fn border_applied(o: BorderOverride, base: NotificationModel) -> NotificationModel {
    NotificationModel {
        border: BorderModel {
            width: or_base(o.width, base.border.width),
            color: color_or_base(o.color, base.border.color),
        },
        ..base
    }
}

pub open spec fn thumbnail_applied(o: ThumbnailOverride, base: NotificationModel) -> NotificationModel {
    NotificationModel {
        thumbnail: ThumbnailConfig {
            size: or_base(o.size, base.thumbnail.size),
            gap: or_base(o.gap, base.thumbnail.gap),
        },
        ..base
    }
}

pub open spec fn summary_applied(o: SummaryOverride, base: NotificationModel) -> NotificationModel {
    NotificationModel {
        summary: SummaryModel {
            text: TextStyleModel {
                font_size: or_base(o.font_size, base.summary.text.font_size),
                ..base.summary.text
            },
            bottom_gap: or_base(o.bottom_gap, base.summary.bottom_gap),
        },
        ..base
    }
}

pub open spec fn body_applied(o: BodyOverride, base: NotificationModel) -> NotificationModel {
    NotificationModel {
        body: TextStyleModel { font_size: or_base(o.font_size, base.body.font_size), ..base.body },
        ..base
    }
}

pub open spec fn progress_applied(o: ProgressOverride, base: NotificationModel) -> NotificationModel {
    NotificationModel {
        progress: ProgressModel {
            direction: or_base(o.direction, base.progress.direction),
            thickness: or_base(o.thickness, base.progress.thickness),
            alignment: or_base(o.alignment, base.progress.alignment),
            inset: or_base(o.inset, base.progress.inset),
            color: color_or_base(o.color, base.progress.color),
            ..base.progress
        },
        ..base
    }
}

/// The style that results from laying `o` over `base`.
pub open spec fn style_applied(o: NotificationStyleOverride, base: NotificationModel) -> NotificationModel {
    let top = NotificationModel {
        outer_padding: or_base(o.outer_padding, base.outer_padding),
        corner_radius: or_base(o.corner_radius, base.corner_radius),
        color: color_or_base(o.color, base.color),
        ..base
    };
    progress_applied(
        o.progress,
        body_applied(o.body, summary_applied(o.summary, thumbnail_applied(o.thumbnail, border_applied(o.border, top)))),
    )
}

fn set_color(target: &mut ColorConfig, o: &Option<ColorConfig>)
    ensures
        final(target)@ == color_or_base(*o, old(target)@),
{
    match o {
        Some(c) => {
            *target = c.clone();
        },
        None => {},
    }
}

impl BorderOverride {
    pub open spec fn is_empty(&self) -> bool {
        self.width is None && self.color is None
    }

    pub fn apply_to(&self, config: &mut NotificationConfig)
        ensures
            final(config)@ == border_applied(*self, old(config)@),
    {
        if let Some(value) = self.width {
            config.border.width = value;
        }
        set_color(&mut config.border.color, &self.color);
    }
}

impl ThumbnailOverride {
    pub open spec fn is_empty(&self) -> bool {
        self.size is None && self.gap is None
    }

    pub fn apply_to(&self, config: &mut NotificationConfig)
        ensures
            final(config)@ == thumbnail_applied(*self, old(config)@),
    {
        if let Some(value) = self.size {
            config.thumbnail.size = value;
        }
        if let Some(value) = self.gap {
            config.thumbnail.gap = value;
        }
    }
}

impl SummaryOverride {
    pub open spec fn is_empty(&self) -> bool {
        self.font_size is None && self.bottom_gap is None
    }

    pub fn apply_to(&self, config: &mut NotificationConfig)
        ensures
            final(config)@ == summary_applied(*self, old(config)@),
    {
        if let Some(value) = self.font_size {
            config.summary.text.font_size = value;
        }
        if let Some(value) = self.bottom_gap {
            config.summary.bottom_gap = value;
        }
    }
}

impl BodyOverride {
    pub open spec fn is_empty(&self) -> bool {
        self.font_size is None
    }

    pub fn apply_to(&self, config: &mut NotificationConfig)
        ensures
            final(config)@ == body_applied(*self, old(config)@),
    {
        if let Some(value) = self.font_size {
            config.body.text.font_size = value;
        }
    }
}

impl ProgressOverride {
    pub open spec fn is_empty(&self) -> bool {
        &&& self.direction is None
        &&& self.thickness is None
        &&& self.alignment is None
        &&& self.inset is None
        &&& self.color is None
    }

    pub fn apply_to(&self, config: &mut NotificationConfig)
        ensures
            final(config)@ == progress_applied(*self, old(config)@),
    {
        if let Some(value) = self.direction {
            config.progress.direction = value;
        }
        if let Some(value) = self.thickness {
            config.progress.thickness = value;
        }
        if let Some(value) = self.alignment {
            config.progress.alignment = value;
        }
        if let Some(value) = self.inset {
            config.progress.inset = value;
        }
        set_color(&mut config.progress.color, &self.color);
    }
}

impl Default for NotificationStyleOverride {
    fn default() -> (o: Self)
        ensures
            o.is_empty_spec(),
    {
        NotificationStyleOverride {
            outer_padding: None,
            corner_radius: None,
            color: None,
            border: BorderOverride { width: None, color: None },
            thumbnail: ThumbnailOverride { size: None, gap: None },
            summary: SummaryOverride { font_size: None, bottom_gap: None },
            body: BodyOverride { font_size: None },
            progress: ProgressOverride {
                direction: None,
                thickness: None,
                alignment: None,
                inset: None,
                color: None,
            },
        }
    }
}

impl NotificationStyleOverride {
    /// Whether the override sets nothing.
    pub open spec fn is_empty_spec(&self) -> bool {
        &&& self.outer_padding is None
        &&& self.corner_radius is None
        &&& self.color is None
        &&& self.border.is_empty()
        &&& self.thumbnail.is_empty()
        &&& self.summary.is_empty()
        &&& self.body.is_empty()
        &&& self.progress.is_empty()
    }

    /// Whether the override sets nothing.
    pub fn is_empty(&self) -> (b: bool)
        ensures
            b == self.is_empty_spec(),
    {
        self.outer_padding.is_none() && self.corner_radius.is_none() && self.color.is_none()
            && self.border.width.is_none() && self.border.color.is_none()
            && self.thumbnail.size.is_none() && self.thumbnail.gap.is_none()
            && self.summary.font_size.is_none() && self.summary.bottom_gap.is_none()
            && self.body.font_size.is_none() && self.progress.direction.is_none()
            && self.progress.thickness.is_none() && self.progress.alignment.is_none()
            && self.progress.inset.is_none() && self.progress.color.is_none()
    }

    /// `base` with every setting of this override put in place.
    pub fn apply_to(&self, base: &NotificationConfig) -> (resolved: NotificationConfig)
        ensures
            resolved@ == style_applied(*self, base@),
    {
        let mut resolved = base.clone();
        if let Some(value) = self.outer_padding {
            resolved.outer_padding = value;
        }
        if let Some(value) = self.corner_radius {
            resolved.corner_radius = value;
        }
        set_color(&mut resolved.color, &self.color);
        self.border.apply_to(&mut resolved);
        self.thumbnail.apply_to(&mut resolved);
        self.summary.apply_to(&mut resolved);
        self.body.apply_to(&mut resolved);
        self.progress.apply_to(&mut resolved);
        resolved
    }
}

/// An override that sets nothing leaves the style as it is.
pub proof fn lemma_empty_override_is_identity(o: NotificationStyleOverride, base: NotificationModel)
    requires
        o.is_empty_spec(),
    ensures
        style_applied(o, base) == base,
{
}

} // verus!
