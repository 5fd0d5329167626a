//! Greyed blue buttons of actions not available.
use vstd::prelude::*;
use crate::style::{ButtonStyle, Rgba, rgb, transparent};

verus! {

/// A greyed blue button.
#[derive(Clone, Copy, Debug)]
pub struct Button;

impl Button {
    /// The button at rest.
    #[verifier::allow_in_spec]
    pub fn active(&self) -> (r: ButtonStyle)
        returns
            (ButtonStyle {
                background: Some(rgb(112, 128, 164)),
                border_radius: 0,
                border_width: 0,
                border_color: transparent(),
                text_color: rgb(100, 100, 120),
            }),
    {
        ButtonStyle {
            background: Some(Rgba::opaque(112, 128, 164)),
            border_radius: 0,
            border_width: 0,
            border_color: Rgba::clear(),
            text_color: Rgba::opaque(100, 100, 120),
        }
    }

    /// The button under the pointer.
    #[verifier::allow_in_spec]
    pub fn hovered(&self) -> (r: ButtonStyle)
        returns
            (ButtonStyle {
                background: Some(rgb(112, 128, 164)),
                border_radius: 0,
                border_width: 0,
                border_color: transparent(),
                text_color: rgb(100, 100, 120),
            }),
    {
        ButtonStyle {
            background: Some(Rgba::opaque(112, 128, 164)),
            border_radius: 0,
            border_width: 0,
            border_color: Rgba::clear(),
            text_color: Rgba::opaque(100, 100, 120),
        }
    }
}

} // verus!
