//! Lighter grey boxes.
use vstd::prelude::*;
use crate::style::{ContainerStyle, Rgba, rgb, transparent};

verus! {

/// A lighter grey box with black text.
#[derive(Clone, Copy, Debug)]
pub struct Container;

impl Container {
    /// The box's look.
    #[verifier::allow_in_spec]
    pub fn style(&self) -> (r: ContainerStyle)
        returns
            (ContainerStyle {
                text_color: Some(rgb(0, 0, 0)),
                background: Some(rgb(240, 240, 240)),
                border_radius: 0,
                border_width: 0,
                border_color: transparent(),
            }),
    {
        ContainerStyle {
            text_color: Some(Rgba::opaque(0, 0, 0)),
            background: Some(Rgba::opaque(240, 240, 240)),
            border_radius: 0,
            border_width: 0,
            border_color: Rgba::clear(),
        }
    }
}

} // verus!
