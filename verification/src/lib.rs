//! Verified core logic of the bevy-react bridge: the filter wire format and
//! packing layouts, filter transition planning, image-rendering variant
//! bookkeeping and mip-pyramid geometry, the gamepad id registry, and the
//! decisions of the JS host.

pub mod filters;
pub mod gamepad;
pub mod host;
pub mod image_rendering;
pub mod js_thread;
pub mod keyboard;
pub mod text;
