//! The state, rules, and formats behind an SSTV station: what the interface
//! offers, how a reception and a transmission report their progress, where
//! received pictures are kept, and how the band plan is read.

pub mod app;
pub mod text;
pub mod i18n;
pub mod paths;
pub mod history;
pub mod receive;
pub mod transmit;
pub mod platform;
pub mod library;
pub mod bands;
pub mod menu;
pub mod config;
pub mod document;
pub mod settings_file;
