//! The frame-acquisition engine of a camera viewer, as a state machine.
//!
//! A capture worker pulls frames from the one open device into buffers that
//! come from a bounded pool, and a consumer takes the frames in order and
//! hands the buffers back. The engine decides; whoever runs it does the
//! waiting and talks to the device:
//!
//! - `camera_handler` holds the engine, [`camera_handler::CameraHandler`];
//! - `device` is the slot for the one open device and the way one device is
//!   exchanged for another;
//! - `pool` is the bounded pool of reusable buffers, `buffer` one such buffer;
//! - `delivery` is the queue of captured frames;
//! - `format` holds resolutions and stream formats;
//! - `system` states what holds of the engine over any run of events.

pub mod buffer;
pub mod camera_handler;
pub mod delivery;
pub mod device;
pub mod format;
pub mod pool;
pub mod system;
