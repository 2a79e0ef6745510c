//! The decisions of a real-time strategy client: what the command card offers,
//! what a key or a click means, what the HUD says, and how units find their way.

pub mod alerts;
pub mod card;
pub mod catalog;
pub mod clicks;
pub mod command;
pub mod controls;
pub mod crowds;
pub mod cues;
pub mod doctrine;
pub mod entity;
pub mod fog;
pub mod gathering;
pub mod gestures;
pub mod heap;
pub mod hotkeys;
pub mod hud;
pub mod intent;
pub mod keymap;
pub mod knowable;
pub mod layout;
pub mod lists;
pub mod map;
pub mod marching;
pub mod markers;
pub mod minimap;
pub mod motion;
pub mod nav;
pub mod notices;
pub mod offers;
pub mod orders;
pub mod palette;
pub mod panel;
pub mod pick;
pub mod policies;
pub mod presses;
pub mod proposals;
pub mod readings;
pub mod readouts;
pub mod records;
pub mod requests;
pub mod route;
pub mod shots;
pub mod sights;
pub mod situation;
pub mod spawn;
pub mod text;
pub mod ui_state;
pub mod walking;
pub mod walls;
