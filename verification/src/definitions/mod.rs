//! Definitions of structures and enumerations used by the crate.

pub mod common;
pub mod errors;
pub mod event;
pub mod platform;
pub mod request;
pub mod surface;

pub use common::{
    CursorMode, Mode, Offset2D, Position2D, Position3D, Rectangle, Size2D, Subpixel, Transform,
};
pub use errors::{CursorModeError, KeyRepeatError, KeyboardLayoutError, SurfaceError};
pub use event::output_event::{OutputEvent, OutputId, OutputInfo};
pub use event::seat_event::cursor_event::{
    AxisDirection, AxisSource, Button, CursorImage, CursorInfo,
};
pub use event::seat_event::gamepad_event::{GamepadEvent, GamepadInfo};
pub use event::seat_event::keyboard_event::{KeyEncoding, KeyboardInfo};
pub use event::seat_event::touch_event::{TouchEvent, TouchInfo};
pub use event::seat_event::{SeatId, SeatInfo};
pub use event::surface_event::SurfaceId;
pub use platform::PlatformType;
pub use request::seat_request::cursor_request::CursorRequest;
pub use request::seat_request::keyboard_request::KeyboardRequest;
pub use request::surface_request::SurfaceRequest;
pub use surface::{SurfaceCapabilities, SurfaceMode, SurfaceTiling};
