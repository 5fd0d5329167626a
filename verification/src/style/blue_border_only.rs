//! White buttons with a blue border.
use vstd::prelude::*;
use crate::style::{ButtonStyle, Rgba, rgb};

verus! {

/// A white button with blue text and border.
#[derive(Clone, Copy, Debug)]
pub struct Button;

impl Button {
    /// The button at rest.
    #[verifier::allow_in_spec]
    pub fn active(&self) -> (r: ButtonStyle)
        returns
            (ButtonStyle {
                background: Some(rgb(255, 255, 255)),
                border_radius: 0,
                border_width: 2,
                border_color: rgb(37, 171, 236),
                text_color: rgb(37, 171, 236),
            }),
    {
        ButtonStyle {
            background: Some(Rgba::opaque(255, 255, 255)),
            border_radius: 0,
            border_width: 2,
            border_color: Rgba::opaque(37, 171, 236),
            text_color: Rgba::opaque(37, 171, 236),
        }
    }

    /// The button under the pointer.
    #[verifier::allow_in_spec]
    pub fn hovered(&self) -> (r: ButtonStyle)
        returns
            (ButtonStyle {
                background: Some(rgb(255, 255, 255)),
                border_radius: 0,
                border_width: 2,
                border_color: rgb(47, 171, 236),
                text_color: rgb(47, 171, 236),
            }),
    {
        ButtonStyle {
            background: Some(Rgba::opaque(255, 255, 255)),
            border_radius: 0,
            border_width: 2,
            border_color: Rgba::opaque(47, 171, 236),
            text_color: Rgba::opaque(47, 171, 236),
        }
    }
}

} // verus!
