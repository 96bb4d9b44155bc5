//! Animation and application-state engine for the TUNE MILL front end:
//! colour interpolation with easing curves, timelines of delays and tweens,
//! a player that drives timelines against addressable targets, and the
//! application state machine that consumes their completion events.
pub mod color;
pub mod device;
pub mod engine;
pub mod player;
pub mod splash;
pub mod state;
pub mod timeline;
