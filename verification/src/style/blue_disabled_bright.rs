//! Lighter greyed blue buttons.
use vstd::prelude::*;
use crate::style::{ButtonStyle, Rgba, rgb, transparent};

verus! {

/// A light greyed blue button.
#[derive(Clone, Copy, Debug)]
pub struct Button;

impl Button {
    /// The button at rest.
    #[verifier::allow_in_spec]
    pub fn active(&self) -> (r: ButtonStyle)
        returns
            (ButtonStyle {
                background: Some(rgb(162, 168, 214)),
                border_radius: 0,
                border_width: 0,
                border_color: transparent(),
                text_color: rgb(150, 150, 170),
            }),
    {
        ButtonStyle {
            background: Some(Rgba::opaque(162, 168, 214)),
            border_radius: 0,
            border_width: 0,
            border_color: Rgba::clear(),
            text_color: Rgba::opaque(150, 150, 170),
        }
    }

    /// The button under the pointer.
    #[verifier::allow_in_spec]
    pub fn hovered(&self) -> (r: ButtonStyle)
        returns
            (ButtonStyle {
                background: Some(rgb(162, 168, 214)),
                border_radius: 0,
                border_width: 0,
                border_color: transparent(),
                text_color: rgb(150, 150, 170),
            }),
    {
        ButtonStyle {
            background: Some(Rgba::opaque(162, 168, 214)),
            border_radius: 0,
            border_width: 0,
            border_color: Rgba::clear(),
            text_color: Rgba::opaque(150, 150, 170),
        }
    }
}

} // verus!
