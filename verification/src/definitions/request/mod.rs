//! What the users of the platform layer can ask for.

pub mod seat_request;
pub mod surface_request;
