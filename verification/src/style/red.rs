//! Red widgets: stop buttons and warnings.
use vstd::prelude::*;
use crate::style::{ButtonStyle, ContainerStyle, Rgba, TextInputStyle, rgb, transparent};

verus! {

/// A red box with white text.
#[derive(Clone, Copy, Debug)]
pub struct Container;

impl Container {
    /// The box's look.
    #[verifier::allow_in_spec]
    pub fn style(&self) -> (r: ContainerStyle)
        returns
            (ContainerStyle {
                text_color: Some(rgb(255, 255, 255)),
                background: Some(rgb(249, 40, 20)),
                border_radius: 8,
                border_width: 5,
                border_color: rgb(229, 20, 0),
            }),
    {
        ContainerStyle {
            text_color: Some(Rgba::opaque(255, 255, 255)),
            background: Some(Rgba::opaque(249, 40, 20)),
            border_radius: 8,
            border_width: 5,
            border_color: Rgba::opaque(229, 20, 0),
        }
    }
}

/// A red button with white text.
#[derive(Clone, Copy, Debug)]
pub struct Button;

impl Button {
    /// The button at rest.
    #[verifier::allow_in_spec]
    pub fn active(&self) -> (r: ButtonStyle)
        returns
            (ButtonStyle {
                background: Some(rgb(229, 20, 0)),
                border_radius: 0,
                border_width: 0,
                border_color: transparent(),
                text_color: rgb(255, 255, 255),
            }),
    {
        ButtonStyle {
            background: Some(Rgba::opaque(229, 20, 0)),
            border_radius: 0,
            border_width: 0,
            border_color: Rgba::clear(),
            text_color: Rgba::opaque(255, 255, 255),
        }
    }

    /// The button under the pointer.
    #[verifier::allow_in_spec]
    pub fn hovered(&self) -> (r: ButtonStyle)
        returns
            (ButtonStyle {
                background: Some(rgb(249, 40, 20)),
                border_radius: 0,
                border_width: 0,
                border_color: transparent(),
                text_color: rgb(255, 255, 255),
            }),
    {
        ButtonStyle {
            background: Some(Rgba::opaque(249, 40, 20)),
            border_radius: 0,
            border_width: 0,
            border_color: Rgba::clear(),
            text_color: Rgba::opaque(255, 255, 255),
        }
    }
}

/// A text input with a red border.
#[derive(Clone, Copy, Debug)]
pub struct TextInput;

impl TextInput {
    /// The input at rest.
    #[verifier::allow_in_spec]
    pub fn active(&self) -> (r: TextInputStyle)
        returns
            (TextInputStyle {
                background: rgb(255, 255, 255),
                border_radius: 0,
                border_width: 2,
                border_color: rgb(229, 20, 0),
            }),
    {
        TextInputStyle {
            background: Rgba::opaque(255, 255, 255),
            border_radius: 0,
            border_width: 2,
            border_color: Rgba::opaque(229, 20, 0),
        }
    }

    /// The input being typed into.
    #[verifier::allow_in_spec]
    pub fn focused(&self) -> (r: TextInputStyle)
        returns
            (TextInputStyle {
                background: rgb(255, 255, 255),
                border_radius: 0,
                border_width: 2,
                border_color: rgb(249, 40, 20),
            }),
    {
        TextInputStyle {
            background: Rgba::opaque(255, 255, 255),
            border_radius: 0,
            border_width: 2,
            border_color: Rgba::opaque(249, 40, 20),
        }
    }

    /// The input under the pointer.
    #[verifier::allow_in_spec]
    pub fn hovered(&self) -> (r: TextInputStyle)
        returns
            (TextInputStyle {
                background: rgb(255, 255, 255),
                border_radius: 0,
                border_width: 2,
                border_color: rgb(249, 40, 20),
            }),
    {
        TextInputStyle {
            background: Rgba::opaque(255, 255, 255),
            border_radius: 0,
            border_width: 2,
            border_color: Rgba::opaque(249, 40, 20),
        }
    }

    /// The colour of the placeholder text.
    #[verifier::allow_in_spec]
    pub fn placeholder_color(&self) -> (r: Rgba)
        returns
            rgb(102, 102, 102),
    {
        Rgba::opaque(102, 102, 102)
    }

    /// The colour of the typed text.
    #[verifier::allow_in_spec]
    pub fn value_color(&self) -> (r: Rgba)
        returns
            rgb(0, 0, 0),
    {
        Rgba::opaque(0, 0, 0)
    }

    /// The colour of selected text.
    #[verifier::allow_in_spec]
    pub fn selection_color(&self) -> (r: Rgba)
        returns
            rgb(249, 40, 20),
    {
        Rgba::opaque(249, 40, 20)
    }
}

} // verus!
