//! The argument and result records that a script host exchanges with the
//! library.
use vstd::prelude::*;
use crate::color::Pixel;
use crate::key::KeyCode;
use crate::mouse::Button;

verus! {

/// A mouse button as a script names it.
#[derive(Clone, Copy, Debug, PartialEq, Eq, Structural)]
pub enum MouseClickParams {
    Left,
    Middle,
    Right,
}

/// The argument of a click: the button, in a record.
#[derive(Clone, Copy, Debug, PartialEq, Eq, Structural)]
pub struct MouseClickParamsWrapper {
    pub params: MouseClickParams,
}

/// The argument of a key toggle or tap: the key, and whether it goes down.
#[derive(Clone, Copy, Debug, PartialEq, Eq, Structural)]
pub struct KeyToggleParams {
    pub key: KeyCode,
    pub down: bool,
}

/// A color as reported to a script.
#[derive(Clone, Copy, Debug, PartialEq, Eq, Structural)]
pub struct PixelRsp {
    pub r: u8,
    pub g: u8,
    pub b: u8,
    pub a: u8,
}

/// The argument of an alert.
#[derive(Debug)]
pub struct AlertParams {
    pub msg: String,
    pub title: String,
}

/// The argument of a desktop notification.
#[derive(Debug)]
pub struct NotifyParams {
    pub title: String,
    pub body: String,
}

pub open spec fn button_of(value: MouseClickParams) -> Button {
    match value {
        MouseClickParams::Left => Button::Left,
        MouseClickParams::Middle => Button::Middle,
        MouseClickParams::Right => Button::Right,
    }
}

impl From<MouseClickParams> for Button {
    fn from(value: MouseClickParams) -> (r: Button) {
        match value {
            MouseClickParams::Left => Button::Left,
            MouseClickParams::Middle => Button::Middle,
            MouseClickParams::Right => Button::Right,
        }
    }
}

impl vstd::std_specs::convert::FromSpecImpl<MouseClickParams> for Button {
    open spec fn obeys_from_spec() -> bool {
        true
    }

    open spec fn from_spec(v: MouseClickParams) -> Button {
        button_of(v)
    }
}

impl From<Pixel> for PixelRsp {
    fn from(p: Pixel) -> (r: PixelRsp) {
        PixelRsp { r: p.r, g: p.g, b: p.b, a: p.a }
    }
}

impl vstd::std_specs::convert::FromSpecImpl<Pixel> for PixelRsp {
    open spec fn obeys_from_spec() -> bool {
        true
    }

    open spec fn from_spec(p: Pixel) -> PixelRsp {
        PixelRsp { r: p.r, g: p.g, b: p.b, a: p.a }
    }
}

} // verus!
