//! A panel: tabs across the top, and under them only what that tab is about.
//!
//! What is worked out and what is drawn are kept apart. Which tabs the strip
//! has room for, how many whole rows fit in the room the compositor granted,
//! what a button means and how a request to the host is spelled are worked out
//! here, against contracts; what reads the screen, the clock and the disk is
//! the program around it.

pub mod text;
pub mod decimal;
pub mod handoff;
pub mod measure;
pub mod shape;
pub mod fitting;
pub mod strip;
pub mod picker;
pub mod chooser;
pub mod card;
pub mod frames;
pub mod keys;
pub mod left_open;
pub mod notes;
pub mod tab;
pub mod icons;
pub mod marks;
pub mod room;
pub mod before;
pub mod whose;
pub mod opening;
pub mod running;
pub mod zoom;
pub mod actor;
pub mod page;
pub mod surface;
pub mod telling;
pub mod pictures;
pub mod held;
