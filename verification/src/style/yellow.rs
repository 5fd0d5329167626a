//! Yellow widgets: unsaved changes and tooltips.
use vstd::prelude::*;
use crate::style::{ButtonStyle, ContainerStyle, Rgba, rgb, transparent};

verus! {

/// A yellow button with black text.
#[derive(Clone, Copy, Debug)]
pub struct Button;

impl Button {
    /// The button at rest.
    #[verifier::allow_in_spec]
    pub fn active(&self) -> (r: ButtonStyle)
        returns
            (ButtonStyle {
                background: Some(rgb(255, 191, 10)),
                border_radius: 0,
                border_width: 0,
                border_color: transparent(),
                text_color: rgb(0, 0, 0),
            }),
    {
        ButtonStyle {
            background: Some(Rgba::opaque(255, 191, 10)),
            border_radius: 0,
            border_width: 0,
            border_color: Rgba::clear(),
            text_color: Rgba::opaque(0, 0, 0),
        }
    }

    /// The button under the pointer.
    #[verifier::allow_in_spec]
    pub fn hovered(&self) -> (r: ButtonStyle)
        returns
            (ButtonStyle {
                background: Some(rgb(255, 211, 30)),
                border_radius: 0,
                border_width: 0,
                border_color: transparent(),
                text_color: rgb(0, 0, 0),
            }),
    {
        ButtonStyle {
            background: Some(Rgba::opaque(255, 211, 30)),
            border_radius: 0,
            border_width: 0,
            border_color: Rgba::clear(),
            text_color: Rgba::opaque(0, 0, 0),
        }
    }
}

/// A yellow tooltip with black text.
#[derive(Clone, Copy, Debug)]
pub struct Tooltip;

impl Tooltip {
    /// The tooltip's look.
    #[verifier::allow_in_spec]
    pub fn style(&self) -> (r: ContainerStyle)
        returns
            (ContainerStyle {
                text_color: Some(rgb(0, 0, 0)),
                background: Some(rgb(255, 193, 10)),
                border_radius: 6,
                border_width: 0,
                border_color: transparent(),
            }),
    {
        ContainerStyle {
            text_color: Some(Rgba::opaque(0, 0, 0)),
            background: Some(Rgba::opaque(255, 193, 10)),
            border_radius: 6,
            border_width: 0,
            border_color: Rgba::clear(),
        }
    }
}

/// A yellow box with black text.
#[derive(Clone, Copy, Debug)]
pub struct Container;

impl Container {
    /// The box's look.
    #[verifier::allow_in_spec]
    pub fn style(&self) -> (r: ContainerStyle)
        returns
            (ContainerStyle {
                text_color: Some(rgb(0, 0, 0)),
                background: Some(rgb(255, 193, 10)),
                border_radius: 8,
                border_width: 5,
                border_color: rgb(245, 183, 0),
            }),
    {
        ContainerStyle {
            text_color: Some(Rgba::opaque(0, 0, 0)),
            background: Some(Rgba::opaque(255, 193, 10)),
            border_radius: 8,
            border_width: 5,
            border_color: Rgba::opaque(245, 183, 0),
        }
    }
}

} // verus!
