//! Core of a terminal GPU monitor: the rules, state machines and parsers
//! behind the screen, each with a machine-checked contract.
#![allow(unused_imports)]

pub mod app;
pub mod backend;
pub mod cli;
pub mod config;
pub mod events;
pub mod keyed;
pub mod keys;
pub mod order;
pub mod splash;
pub mod text;
pub mod theme;
pub mod ui;
