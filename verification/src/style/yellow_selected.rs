//! The button of a tab shown with unsaved changes.
use vstd::prelude::*;
use crate::style::{ButtonStyle, Rgba, rgb, transparent};

verus! {

/// A white button with orange text.
#[derive(Clone, Copy, Debug)]
pub struct Button;

impl Button {
    /// The button at rest.
    #[verifier::allow_in_spec]
    pub fn active(&self) -> (r: ButtonStyle)
        returns
            (ButtonStyle {
                background: Some(rgb(255, 255, 255)),
                border_radius: 0,
                border_width: 0,
                border_color: transparent(),
                text_color: rgb(243, 156, 18),
            }),
    {
        ButtonStyle {
            background: Some(Rgba::opaque(255, 255, 255)),
            border_radius: 0,
            border_width: 0,
            border_color: Rgba::clear(),
            text_color: Rgba::opaque(243, 156, 18),
        }
    }

    /// The button under the pointer.
    #[verifier::allow_in_spec]
    pub fn hovered(&self) -> (r: ButtonStyle)
        returns
            (ButtonStyle {
                background: Some(rgb(255, 255, 255)),
                border_radius: 0,
                border_width: 0,
                border_color: transparent(),
                text_color: rgb(253, 166, 28),
            }),
    {
        ButtonStyle {
            background: Some(Rgba::opaque(255, 255, 255)),
            border_radius: 0,
            border_width: 0,
            border_color: Rgba::clear(),
            text_color: Rgba::opaque(253, 166, 28),
        }
    }
}

} // verus!
