//! Verified core of a board-support convenience layer for small
//! microcontroller firmware.
//!
//! The crate keeps the parts of such a layer that are pure logic and proves
//! them correct:
//!
//! - [`debounce`]: the settle-delay state machine that turns a noisy
//!   two-level input (a push button, a joystick select line) into a clean
//!   stream of press and release events;
//! - [`matrix`]: the coordinate mapping and shadow-bitmap tracking for a
//!   chain of 8x8 LED-matrix panels addressed as one flat pixel grid;
//! - [`connectivity`]: the pure helpers around a worldtime lookup —
//!   dotted-quad address parsing, digging the Unix timestamp out of a
//!   response body, and clock arithmetic on timestamps;
//! - [`display`]: the basic display operations and the segment layout used
//!   to place text on one region of a graphics display;
//! - [`peripherals`]: the capability traits and error type shared by the
//!   peripheral drivers built on top of this core.
//!
//! Reading pins, driving panels over SPI and talking to sockets sit outside
//! this crate: callers read the raw values, hand them in as plain data, and
//! perform the commands the results describe.

pub mod connectivity;
pub mod debounce;
pub mod display;
pub mod matrix;
pub mod peripherals;
