//! The logic of a pop-up translator: language codes, provider responses and
//! requests, dictionary trimming, configuration rules, popup session state
//! and placement.

pub mod text;
pub mod types;
pub mod json;
pub mod translate;
pub mod hotkey;
pub mod config;
pub mod popup;
pub mod session;
pub mod capture;
pub mod commands;
