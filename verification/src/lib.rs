//! A two-player arena game core: a deterministic fixed-point physics
//! simulation (movement, drag, elastic boundary bounces, ball possession and
//! scoring) together with the decision logic of a native-plugin pipeline
//! (candidate discovery, artifact naming, a self-test admission gate, and
//! roster selection).
//!
//! All world quantities are integers: positions and velocities are measured in
//! thousandths of a pixel ("milli-pixels"), time in milliseconds.  The
//! unverified front end (windowing, keyboard, dynamic module loading) lives
//! outside this crate and talks to it through plain values.

pub mod collision;
pub mod entities;
pub mod game;
pub mod physics;
pub mod plugin;
