//! Blue widgets: the application's main colour.
use vstd::prelude::*;
use crate::style::{ButtonStyle, CheckboxStyle, PickListStyle, Rgba, TextInputStyle, rgb, transparent};

verus! {

/// A blue button with white text.
#[derive(Clone, Copy, Debug)]
pub struct Button;

impl Button {
    /// The button at rest.
    #[verifier::allow_in_spec]
    pub fn active(&self) -> (r: ButtonStyle)
        returns
            (ButtonStyle {
                background: Some(rgb(37, 171, 236)),
                border_radius: 0,
                border_width: 0,
                border_color: transparent(),
                text_color: rgb(255, 255, 255),
            }),
    {
        ButtonStyle {
            background: Some(Rgba::opaque(37, 171, 236)),
            border_radius: 0,
            border_width: 0,
            border_color: Rgba::clear(),
            text_color: Rgba::opaque(255, 255, 255),
        }
    }

    /// The button under the pointer.
    #[verifier::allow_in_spec]
    pub fn hovered(&self) -> (r: ButtonStyle)
        returns
            (ButtonStyle {
                background: Some(rgb(47, 181, 246)),
                border_radius: 0,
                border_width: 0,
                border_color: transparent(),
                text_color: rgb(255, 255, 255),
            }),
    {
        ButtonStyle {
            background: Some(Rgba::opaque(47, 181, 246)),
            border_radius: 0,
            border_width: 0,
            border_color: Rgba::clear(),
            text_color: Rgba::opaque(255, 255, 255),
        }
    }
}

/// A blue pick list with white text.
#[derive(Clone, Copy, Debug)]
pub struct PickList;

impl PickList {
    /// The pick list at rest.
    #[verifier::allow_in_spec]
    pub fn active(&self) -> (r: PickListStyle)
        returns
            (PickListStyle {
                text_color: rgb(255, 255, 255),
                background: rgb(37, 171, 236),
                border_radius: 0,
                border_width: 1,
                border_color: rgb(37, 171, 236),
                icon_size_hundredths: 55,
            }),
    {
        PickListStyle {
            text_color: Rgba::opaque(255, 255, 255),
            background: Rgba::opaque(37, 171, 236),
            border_radius: 0,
            border_width: 1,
            border_color: Rgba::opaque(37, 171, 236),
            icon_size_hundredths: 55,
        }
    }

    /// The pick list under the pointer.
    #[verifier::allow_in_spec]
    pub fn hovered(&self) -> (r: PickListStyle)
        returns
            (PickListStyle {
                text_color: rgb(255, 255, 255),
                background: rgb(37, 171, 236),
                border_radius: 0,
                border_width: 1,
                border_color: rgb(37, 171, 236),
                icon_size_hundredths: 55,
            }),
    {
        PickListStyle {
            text_color: Rgba::opaque(255, 255, 255),
            background: Rgba::opaque(37, 171, 236),
            border_radius: 0,
            border_width: 1,
            border_color: Rgba::opaque(37, 171, 236),
            icon_size_hundredths: 55,
        }
    }
}

/// A text input with a blue border.
#[derive(Clone, Copy, Debug)]
pub struct TextInput;

impl TextInput {
    /// The input at rest.
    #[verifier::allow_in_spec]
    pub fn active(&self) -> (r: TextInputStyle)
        returns
            (TextInputStyle {
                background: rgb(255, 255, 255),
                border_radius: 0,
                border_width: 2,
                border_color: rgb(37, 171, 236),
            }),
    {
        TextInputStyle {
            background: Rgba::opaque(255, 255, 255),
            border_radius: 0,
            border_width: 2,
            border_color: Rgba::opaque(37, 171, 236),
        }
    }

    /// The input being typed into.
    #[verifier::allow_in_spec]
    pub fn focused(&self) -> (r: TextInputStyle)
        returns
            (TextInputStyle {
                background: rgb(255, 255, 255),
                border_radius: 0,
                border_width: 2,
                border_color: rgb(47, 181, 246),
            }),
    {
        TextInputStyle {
            background: Rgba::opaque(255, 255, 255),
            border_radius: 0,
            border_width: 2,
            border_color: Rgba::opaque(47, 181, 246),
        }
    }

    /// The input under the pointer.
    #[verifier::allow_in_spec]
    pub fn hovered(&self) -> (r: TextInputStyle)
        returns
            (TextInputStyle {
                background: rgb(255, 255, 255),
                border_radius: 0,
                border_width: 2,
                border_color: rgb(47, 181, 246),
            }),
    {
        TextInputStyle {
            background: Rgba::opaque(255, 255, 255),
            border_radius: 0,
            border_width: 2,
            border_color: Rgba::opaque(47, 181, 246),
        }
    }

    /// The colour of the placeholder text.
    #[verifier::allow_in_spec]
    pub fn placeholder_color(&self) -> (r: Rgba)
        returns
            rgb(153, 153, 153),
    {
        Rgba::opaque(153, 153, 153)
    }

    /// The colour of the typed text.
    #[verifier::allow_in_spec]
    pub fn value_color(&self) -> (r: Rgba)
        returns
            rgb(0, 0, 0),
    {
        Rgba::opaque(0, 0, 0)
    }

    /// The colour of selected text.
    #[verifier::allow_in_spec]
    pub fn selection_color(&self) -> (r: Rgba)
        returns
            rgb(0, 80, 238),
    {
        Rgba::opaque(0, 80, 238)
    }
}

/// A checkbox with a blue border, blue when checked.
#[derive(Clone, Copy, Debug)]
pub struct Checkbox;

impl Checkbox {
    /// The checkbox at rest.
    #[verifier::allow_in_spec]
    pub fn active(&self, is_checked: bool) -> (r: CheckboxStyle)
        returns
            (CheckboxStyle {
                background: if is_checked { rgb(37, 171, 236) } else { rgb(255, 255, 255) },
                checkmark_color: rgb(255, 255, 255),
                border_radius: 0,
                border_width: 2,
                border_color: rgb(37, 171, 236),
            }),
    {
        CheckboxStyle {
            background: if is_checked { Rgba::opaque(37, 171, 236) } else { Rgba::opaque(255, 255, 255) },
            checkmark_color: Rgba::opaque(255, 255, 255),
            border_radius: 0,
            border_width: 2,
            border_color: Rgba::opaque(37, 171, 236),
        }
    }

    /// The checkbox under the pointer.
    #[verifier::allow_in_spec]
    pub fn hovered(&self, is_checked: bool) -> (r: CheckboxStyle)
        returns
            (CheckboxStyle {
                background: if is_checked { rgb(47, 181, 246) } else { rgb(255, 255, 255) },
                checkmark_color: rgb(255, 255, 255),
                border_radius: 0,
                border_width: 2,
                border_color: rgb(47, 181, 246),
            }),
    {
        CheckboxStyle {
            background: if is_checked { Rgba::opaque(47, 181, 246) } else { Rgba::opaque(255, 255, 255) },
            checkmark_color: Rgba::opaque(255, 255, 255),
            border_radius: 0,
            border_width: 2,
            border_color: Rgba::opaque(47, 181, 246),
        }
    }
}

} // verus!
