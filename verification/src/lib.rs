pub mod consts;
pub mod model;
pub mod cpu;
pub mod display;
pub mod keys;
pub mod game;
pub mod emulator;
pub mod laws;
pub mod instruction_laws;
