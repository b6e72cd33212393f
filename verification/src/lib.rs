//! Colour and effect logic of a four-zone RGB keyboard controller.
pub mod ambient;
pub mod enums;
pub mod gui;
pub mod profile;
pub mod ripple;
pub mod settings;
pub mod temperature;
pub mod util;
