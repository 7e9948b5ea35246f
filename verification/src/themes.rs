//! The colour theme: the palette and which colour fills each kind of widget.
use vstd::prelude::*;

verus! {

/// An opaque colour by its red, green and blue parts.
#[derive(Debug, Clone, Copy, PartialEq, Eq, Hash, Structural)]
pub struct Rgb {
    pub r: u8,
    pub g: u8,
    pub b: u8,
}

/// The colours of a theme.
#[derive(Debug, Clone, Copy, PartialEq, Eq, Hash, Structural)]
pub struct Theme {
    pub hyperlink: Rgb,
    pub error_fg: Rgb,
    pub warn_fg: Rgb,
    pub bg_fill: Rgb,
    pub text: Rgb,
    pub stroke: Rgb,
    pub hovered: Rgb,
    pub active: Rgb,
    pub open: Rgb,
    pub base: Rgb,
    pub code_bg: Rgb,
    pub extreme_bg: Rgb,
}

/// The state of a widget, each drawn with its own fill.
#[derive(Debug, Clone, Copy, PartialEq, Eq, Structural)]
pub enum WidgetState {
    Noninteractive,
    Inactive,
    Hovered,
    Active,
    Open,
}

/// A colour from its parts.
pub open spec fn rgb(r: u8, g: u8, b: u8) -> Rgb {
    Rgb { r, g, b }
}

/// The dark theme (Catppuccin Mocha colours for now).
pub open spec fn rosemary_dark_spec() -> Theme {
    Theme {
        hyperlink: rgb(245, 224, 220),
        error_fg: rgb(235, 160, 172),
        text: rgb(205, 214, 244),
        base: rgb(30, 30, 46),
        warn_fg: rgb(250, 179, 135),
        bg_fill: rgb(137, 180, 250),
        stroke: rgb(127, 132, 156),
        hovered: rgb(88, 91, 112),
        active: rgb(69, 71, 90),
        open: rgb(49, 50, 68),
        code_bg: rgb(24, 24, 37),
        extreme_bg: rgb(17, 17, 27),
    }
}

/// The dark theme.
pub fn rosemary_dark() -> (t: Theme)
    ensures
        t == rosemary_dark_spec(),
{
    Theme {
        hyperlink: Rgb { r: 245, g: 224, b: 220 },
        error_fg: Rgb { r: 235, g: 160, b: 172 },
        text: Rgb { r: 205, g: 214, b: 244 },
        base: Rgb { r: 30, g: 30, b: 46 },
        warn_fg: Rgb { r: 250, g: 179, b: 135 },
        bg_fill: Rgb { r: 137, g: 180, b: 250 },
        stroke: Rgb { r: 127, g: 132, b: 156 },
        hovered: Rgb { r: 88, g: 91, b: 112 },
        active: Rgb { r: 69, g: 71, b: 90 },
        open: Rgb { r: 49, g: 50, b: 68 },
        code_bg: Rgb { r: 24, g: 24, b: 37 },
        extreme_bg: Rgb { r: 17, g: 17, b: 27 },
    }
}

impl Theme {
    /// The fill of a widget in each state: the base colour when it does not
    /// react, the open colour when idle or open, and the hover and active
    /// colours otherwise.
    pub open spec fn widget_fill_spec(self, state: WidgetState) -> Rgb {
        match state {
            WidgetState::Noninteractive => self.base,
            WidgetState::Inactive => self.open,
            WidgetState::Hovered => self.hovered,
            WidgetState::Active => self.active,
            WidgetState::Open => self.open,
        }
    }

    /// The fill of a widget in `state`.
    pub fn widget_fill(&self, state: WidgetState) -> (c: Rgb)
        ensures
            c == self.widget_fill_spec(state),
    {
        match state {
            WidgetState::Noninteractive => self.base,
            WidgetState::Inactive => self.open,
            WidgetState::Hovered => self.hovered,
            WidgetState::Active => self.active,
            WidgetState::Open => self.open,
        }
    }
}


/// The colours of a widget in one state: its fill (strong and weak alike),
/// the stroke around it and the stroke of its text.
#[derive(Debug, Clone, Copy, PartialEq, Eq, Structural)]
pub struct WidgetColors {
    pub bg_fill: Rgb,
    pub weak_bg_fill: Rgb,
    pub bg_stroke: Rgb,
    pub fg_stroke: Rgb,
}

/// The colours that a theme gives the interface. The selection fill is
/// drawn at a fifth of its strength, and the window and popup shadows are
/// black at `shadow_alpha`.
#[derive(Debug, Clone, Copy, PartialEq, Eq, Structural)]
pub struct VisualColors {
    pub override_text: Rgb,
    pub hyperlink: Rgb,
    pub faint_bg: Rgb,
    pub extreme_bg: Rgb,
    pub code_bg: Rgb,
    pub warn_fg: Rgb,
    pub error_fg: Rgb,
    pub window_fill: Rgb,
    pub panel_fill: Rgb,
    pub window_stroke: Rgb,
    pub noninteractive: WidgetColors,
    pub inactive: WidgetColors,
    pub hovered: WidgetColors,
    pub active: WidgetColors,
    pub open: WidgetColors,
    pub selection_bg: Rgb,
    pub selection_stroke: Rgb,
    pub shadow_alpha: u8,
    pub dark_mode: bool,
}

/// The shadows are black at this alpha.
pub const SHADOW_ALPHA: u8 = 96;

impl Theme {
    /// The colours of a widget filled with `bg_fill`: stroked with the
    /// theme's stroke colour, its text in the theme's text colour.
    pub open spec fn widget_colors_spec(self, bg_fill: Rgb) -> WidgetColors {
        WidgetColors { bg_fill, weak_bg_fill: bg_fill, bg_stroke: self.stroke, fg_stroke: self.text }
    }

    /// The colours of a widget filled with `bg_fill`.
    pub fn make_widget_visual(&self, bg_fill: Rgb) -> (w: WidgetColors)
        ensures
            w == self.widget_colors_spec(bg_fill),
    {
        WidgetColors { bg_fill, weak_bg_fill: bg_fill, bg_stroke: self.stroke, fg_stroke: self.text }
    }

    /// The colours that the theme gives the interface.
    pub open spec fn visual_colors_spec(self) -> VisualColors {
        VisualColors {
            override_text: self.text,
            hyperlink: self.hyperlink,
            faint_bg: self.open,
            extreme_bg: self.extreme_bg,
            code_bg: self.code_bg,
            warn_fg: self.warn_fg,
            error_fg: self.error_fg,
            window_fill: self.base,
            panel_fill: self.base,
            window_stroke: self.stroke,
            noninteractive: self.widget_colors_spec(self.widget_fill_spec(WidgetState::Noninteractive)),
            inactive: self.widget_colors_spec(self.widget_fill_spec(WidgetState::Inactive)),
            hovered: self.widget_colors_spec(self.widget_fill_spec(WidgetState::Hovered)),
            active: self.widget_colors_spec(self.widget_fill_spec(WidgetState::Active)),
            open: self.widget_colors_spec(self.widget_fill_spec(WidgetState::Open)),
            selection_bg: self.bg_fill,
            selection_stroke: self.stroke,
            shadow_alpha: SHADOW_ALPHA,
            dark_mode: true,
        }
    }

    /// The colours that the theme gives the interface.
    pub fn visuals(&self) -> (v: VisualColors)
        ensures
            v == self.visual_colors_spec(),
    {
        VisualColors {
            override_text: self.text,
            hyperlink: self.hyperlink,
            faint_bg: self.open,
            extreme_bg: self.extreme_bg,
            code_bg: self.code_bg,
            warn_fg: self.warn_fg,
            error_fg: self.error_fg,
            window_fill: self.base,
            panel_fill: self.base,
            window_stroke: self.stroke,
            noninteractive: self.make_widget_visual(self.widget_fill(WidgetState::Noninteractive)),
            inactive: self.make_widget_visual(self.widget_fill(WidgetState::Inactive)),
            hovered: self.make_widget_visual(self.widget_fill(WidgetState::Hovered)),
            active: self.make_widget_visual(self.widget_fill(WidgetState::Active)),
            open: self.make_widget_visual(self.widget_fill(WidgetState::Open)),
            selection_bg: self.bg_fill,
            selection_stroke: self.stroke,
            shadow_alpha: SHADOW_ALPHA,
            dark_mode: true,
        }
    }
}

} // verus!
