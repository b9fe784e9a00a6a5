//! tuimux: the verified core of a prefix-free, mouse-first terminal
//! multiplexer.

pub mod terminal;
pub mod text;
pub mod cli;
pub mod clipboard;
pub mod daemon;
pub mod doctor;
pub mod files;
pub mod mux_backend;
pub mod native_mux;
pub mod preview;
pub mod tmux;
pub mod ui;
pub mod ui_model;
pub mod util;
