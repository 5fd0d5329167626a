//! Dark blue buttons.
use vstd::prelude::*;
use crate::style::{ButtonStyle, Rgba, rgb, transparent};

verus! {

/// A dark blue button with white text.
#[derive(Clone, Copy, Debug)]
pub struct Button;

impl Button {
    /// The button at rest.
    #[verifier::allow_in_spec]
    pub fn active(&self) -> (r: ButtonStyle)
        returns
            (ButtonStyle {
                background: Some(rgb(17, 151, 226)),
                border_radius: 0,
                border_width: 0,
                border_color: transparent(),
                text_color: rgb(255, 255, 255),
            }),
    {
        ButtonStyle {
            background: Some(Rgba::opaque(17, 151, 226)),
            border_radius: 0,
            border_width: 0,
            border_color: Rgba::clear(),
            text_color: Rgba::opaque(255, 255, 255),
        }
    }

    /// The button under the pointer.
    #[verifier::allow_in_spec]
    pub fn hovered(&self) -> (r: ButtonStyle)
        returns
            (ButtonStyle {
                background: Some(rgb(47, 181, 246)),
                border_radius: 0,
                border_width: 0,
                border_color: transparent(),
                text_color: rgb(255, 255, 255),
            }),
    {
        ButtonStyle {
            background: Some(Rgba::opaque(47, 181, 246)),
            border_radius: 0,
            border_width: 0,
            border_color: Rgba::clear(),
            text_color: Rgba::opaque(255, 255, 255),
        }
    }
}

} // verus!
