//! The colour themes of the interface's widgets, the look each theme gives
//! a widget, and which theme each main tab's button takes. Colours are
//! 8-bit channels; widths and radii are whole pixels.
use vstd::prelude::*;
use crate::recipe::TabState;

pub mod blue;
pub mod blue_border_only;
pub mod blue_disabled;
pub mod blue_disabled_bright;
pub mod dark_blue;
pub mod green;
pub mod light_gray;
pub mod lighter_gray;
pub mod red;
pub mod red_disabled;
pub mod tab_selected;
pub mod yellow;
pub mod yellow_selected;

verus! {

/// A colour with 8-bit channels and opacity (255: opaque).
#[derive(Clone, Copy, Debug, PartialEq, Eq, Structural)]
pub struct Rgba {
    pub r: u8,
    pub g: u8,
    pub b: u8,
    pub a: u8,
}

/// An opaque colour.
pub open spec fn rgb(r: u8, g: u8, b: u8) -> Rgba {
    Rgba { r, g, b, a: 255 }
}

/// The fully transparent colour.
pub open spec fn transparent() -> Rgba {
    Rgba { r: 0, g: 0, b: 0, a: 0 }
}

impl Rgba {
    /// An opaque colour.
    pub fn opaque(r: u8, g: u8, b: u8) -> (c: Rgba)
        ensures
            c == rgb(r, g, b),
    {
        Rgba { r, g, b, a: 255 }
    }

    /// The fully transparent colour.
    pub fn clear() -> (c: Rgba)
        ensures
            c == transparent(),
    {
        Rgba { r: 0, g: 0, b: 0, a: 0 }
    }
}

/// The look of a button.
#[derive(Clone, Copy, Debug, PartialEq, Eq, Structural)]
pub struct ButtonStyle {
    pub background: Option<Rgba>,
    pub border_radius: u16,
    pub border_width: u16,
    pub border_color: Rgba,
    pub text_color: Rgba,
}

/// The look of a pick list; the arrow's size is in hundredths of the text
/// size.
#[derive(Clone, Copy, Debug, PartialEq, Eq, Structural)]
pub struct PickListStyle {
    pub text_color: Rgba,
    pub background: Rgba,
    pub border_radius: u16,
    pub border_width: u16,
    pub border_color: Rgba,
    pub icon_size_hundredths: u16,
}

/// The look of a text input.
#[derive(Clone, Copy, Debug, PartialEq, Eq, Structural)]
pub struct TextInputStyle {
    pub background: Rgba,
    pub border_radius: u16,
    pub border_width: u16,
    pub border_color: Rgba,
}

/// The look of a checkbox.
#[derive(Clone, Copy, Debug, PartialEq, Eq, Structural)]
pub struct CheckboxStyle {
    pub background: Rgba,
    pub checkmark_color: Rgba,
    pub border_radius: u16,
    pub border_width: u16,
    pub border_color: Rgba,
}

/// The look of a box around other widgets.
#[derive(Clone, Copy, Debug, PartialEq, Eq, Structural)]
pub struct ContainerStyle {
    pub text_color: Option<Rgba>,
    pub background: Option<Rgba>,
    pub border_radius: u16,
    pub border_width: u16,
    pub border_color: Rgba,
}

/// A colour theme of a widget.
#[derive(Clone, Copy, Debug, PartialEq, Eq, Structural)]
pub enum Theme {
    Active,
    Disabled,
    Idle,
    Blue,
    DarkBlue,
    TabSelected,
    BlueBorderOnly,
    BlueDisabled,
    BlueDisabledBright,
    Red,
    RedDisabled,
    Green,
    Yellow,
    YellowSelected,
    LightGray,
    LighterGray,
}

impl Default for Theme {
    fn default() -> (r: Theme)
        ensures
            r == Theme::Idle,
    {
        Theme::Idle
    }
}

impl Theme {
    /// Every theme, in the order the interface lists them.
    pub fn all() -> (r: [Theme; 16])
        ensures
            r@ == seq![
                Theme::Active,
                Theme::Disabled,
                Theme::Idle,
                Theme::Blue,
                Theme::DarkBlue,
                Theme::TabSelected,
                Theme::BlueBorderOnly,
                Theme::BlueDisabled,
                Theme::BlueDisabledBright,
                Theme::Red,
                Theme::RedDisabled,
                Theme::Green,
                Theme::Yellow,
                Theme::YellowSelected,
                Theme::LightGray,
                Theme::LighterGray,
            ],
    {
        let r = [
            Theme::Active,
            Theme::Disabled,
            Theme::Idle,
            Theme::Blue,
            Theme::DarkBlue,
            Theme::TabSelected,
            Theme::BlueBorderOnly,
            Theme::BlueDisabled,
            Theme::BlueDisabledBright,
            Theme::Red,
            Theme::RedDisabled,
            Theme::Green,
            Theme::Yellow,
            Theme::YellowSelected,
            Theme::LightGray,
            Theme::LighterGray,
        ];
        assert(r@ =~= seq![
            Theme::Active,
            Theme::Disabled,
            Theme::Idle,
            Theme::Blue,
            Theme::DarkBlue,
            Theme::TabSelected,
            Theme::BlueBorderOnly,
            Theme::BlueDisabled,
            Theme::BlueDisabledBright,
            Theme::Red,
            Theme::RedDisabled,
            Theme::Green,
            Theme::Yellow,
            Theme::YellowSelected,
            Theme::LightGray,
            Theme::LighterGray,
        ]);
        r
    }
}

impl Theme {
    /// The look a box takes in this theme; `None` where the theme leaves
    /// boxes as they are by default.
    pub fn container_style(&self) -> (r: Option<ContainerStyle>)
        ensures
            r == (match *self {
                Theme::Active => Some(yellow::Tooltip.style()),
                Theme::Red => Some(red::Container.style()),
                Theme::Yellow => Some(yellow::Container.style()),
                Theme::LightGray => Some(light_gray::Container.style()),
                Theme::LighterGray => Some(lighter_gray::Container.style()),
                _ => None::<ContainerStyle>,
            }),
    {
        match self {
            Theme::Active => Some(yellow::Tooltip.style()),
            Theme::Red => Some(red::Container.style()),
            Theme::Yellow => Some(yellow::Container.style()),
            Theme::LightGray => Some(light_gray::Container.style()),
            Theme::LighterGray => Some(lighter_gray::Container.style()),
            _ => None,
        }
    }
}

/// The look a button takes in theme `t`, at rest and under the pointer;
/// `None` where the theme leaves buttons as they are by default.
pub open spec fn button_styles_of(t: Theme) -> Option<(ButtonStyle, ButtonStyle)> {
    match t {
        Theme::Blue => Some((blue::Button.active(), blue::Button.hovered())),
        Theme::DarkBlue => Some((dark_blue::Button.active(), dark_blue::Button.hovered())),
        Theme::TabSelected => Some((tab_selected::Button.active(), tab_selected::Button.hovered())),
        Theme::BlueDisabled => Some((blue_disabled::Button.active(), blue_disabled::Button.hovered())),
        Theme::BlueBorderOnly => Some((blue_border_only::Button.active(), blue_border_only::Button.hovered())),
        Theme::BlueDisabledBright => Some((blue_disabled_bright::Button.active(), blue_disabled_bright::Button.hovered())),
        Theme::Red => Some((red::Button.active(), red::Button.hovered())),
        Theme::RedDisabled => Some((red_disabled::Button.active(), red_disabled::Button.hovered())),
        Theme::Green => Some((green::Button.active(), green::Button.hovered())),
        Theme::Yellow => Some((yellow::Button.active(), yellow::Button.hovered())),
        Theme::YellowSelected => Some((yellow_selected::Button.active(), yellow_selected::Button.hovered())),
        _ => None,
    }
}

impl Theme {
    /// The look a button takes in this theme, as `button_styles_of` says.
    pub fn button_styles(&self) -> (r: Option<(ButtonStyle, ButtonStyle)>)
        ensures
            r == button_styles_of(*self),
    {
        match self {
            Theme::Blue => Some((blue::Button.active(), blue::Button.hovered())),
            Theme::DarkBlue => Some((dark_blue::Button.active(), dark_blue::Button.hovered())),
            Theme::TabSelected => Some((tab_selected::Button.active(), tab_selected::Button.hovered())),
            Theme::BlueDisabled => Some((blue_disabled::Button.active(), blue_disabled::Button.hovered())),
            Theme::BlueBorderOnly => Some((blue_border_only::Button.active(), blue_border_only::Button.hovered())),
            Theme::BlueDisabledBright => Some((blue_disabled_bright::Button.active(), blue_disabled_bright::Button.hovered())),
            Theme::Red => Some((red::Button.active(), red::Button.hovered())),
            Theme::RedDisabled => Some((red_disabled::Button.active(), red_disabled::Button.hovered())),
            Theme::Green => Some((green::Button.active(), green::Button.hovered())),
            Theme::Yellow => Some((yellow::Button.active(), yellow::Button.hovered())),
            Theme::YellowSelected => Some((yellow_selected::Button.active(), yellow_selected::Button.hovered())),
            _ => None,
        }
    }
}

/// The theme of the button of tab `tab` when `current` is shown: the shown
/// tab is marked selected; the build and advanced tabs turn yellow while
/// they hold unsaved changes.
pub open spec fn tab_theme_of(tab: TabState, current: TabState, unsaved: bool) -> Theme {
    let editable = tab == TabState::Build || tab == TabState::Advanced;
    if tab == current {
        if editable && unsaved {
            Theme::YellowSelected
        } else {
            Theme::TabSelected
        }
    } else if editable && unsaved {
        Theme::Yellow
    } else {
        Theme::Blue
    }
}

/// The theme of a main tab's button, as `tab_theme_of` says; `unsaved`
/// tells whether that tab holds unsaved changes.
pub fn tab_theme(tab: TabState, current: TabState, unsaved: bool) -> (r: Theme)
    ensures
        r == tab_theme_of(tab, current, unsaved),
{
    let editable = tab == TabState::Build || tab == TabState::Advanced;
    if tab == current {
        if editable && unsaved {
            Theme::YellowSelected
        } else {
            Theme::TabSelected
        }
    } else if editable && unsaved {
        Theme::Yellow
    } else {
        Theme::Blue
    }
}

} // verus!
