//! A romaja keyboard: romanised Korean typed on a Latin keyboard is turned
//! into Hangul jamo, with the key handling and text state around it.

pub mod key_event;
pub mod token;
pub mod text;
pub mod agent;
pub mod hangul;
pub mod char_demo;
pub mod listener;
pub mod macos_key_tap;
