//! Green buttons.
use vstd::prelude::*;
use crate::style::{ButtonStyle, Rgba, rgb, transparent};

verus! {

/// A green button with white text.
#[derive(Clone, Copy, Debug)]
pub struct Button;

impl Button {
    /// The button at rest.
    #[verifier::allow_in_spec]
    pub fn active(&self) -> (r: ButtonStyle)
        returns
            (ButtonStyle {
                background: Some(rgb(96, 196, 23)),
                border_radius: 0,
                border_width: 0,
                border_color: transparent(),
                text_color: rgb(255, 255, 255),
            }),
    {
        ButtonStyle {
            background: Some(Rgba::opaque(96, 196, 23)),
            border_radius: 0,
            border_width: 0,
            border_color: Rgba::clear(),
            text_color: Rgba::opaque(255, 255, 255),
        }
    }

    /// The button under the pointer.
    #[verifier::allow_in_spec]
    pub fn hovered(&self) -> (r: ButtonStyle)
        returns
            (ButtonStyle {
                background: Some(rgb(116, 216, 43)),
                border_radius: 0,
                border_width: 0,
                border_color: transparent(),
                text_color: rgb(255, 255, 255),
            }),
    {
        ButtonStyle {
            background: Some(Rgba::opaque(116, 216, 43)),
            border_radius: 0,
            border_width: 0,
            border_color: Rgba::clear(),
            text_color: Rgba::opaque(255, 255, 255),
        }
    }
}

} // verus!
