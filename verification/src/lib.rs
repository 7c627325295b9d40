//! Dockyard: what a window on the machine's containers shows and does.
//!
//! - `docker` reads the daemon's replies, and decides where and how to connect.
//! - `components` are the parts of the window, and `app` is the window: each a state,
//!   the messages that change it, and the effects that a change asks for.
//! - `settings` are what the user chose.
//! - `text` and `order` are what the others are made of.
//!
//! The library does nothing by itself. A program around it talks to the daemon and to
//! the screen, hands over what comes back, and carries out the effects.
pub mod app;
pub mod components;
pub mod docker;
pub mod order;
pub mod settings;
pub mod text;
