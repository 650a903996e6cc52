//! A terminal bomb game: its rules, its menus, its wire format and its pictures.
//!
//! Everything in this crate is a computation on plain values. Reading the
//! keyboard, drawing on a terminal, playing sounds and talking over a socket are
//! left to the program around it.

pub mod audio;
pub mod chance;
pub mod game;
pub mod input;
pub mod menu;
pub mod net;
pub mod render;
pub mod types;
