//! Verified core of a terminal IPv4 traffic visualiser: packet parsing and
//! filtering, activity accounting over a sliding hold window, and the
//! mapping from addresses to registries, screen cells and colours.

pub mod rir;
pub mod screen;
pub mod text;
pub mod ui;
pub mod view;
pub mod activity;
pub mod interface;
pub mod packet;
pub mod path;
pub mod tally;
