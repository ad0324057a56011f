pub mod model;
pub mod rom;
pub mod cpu;
pub mod keypad;
pub mod laws;
