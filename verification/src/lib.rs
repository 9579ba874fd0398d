//! Verified core of the Wornitor desktop activity tracker.

pub mod text;
pub mod strip;
pub mod fmt;
pub mod datetime;
pub mod image;
pub mod screen;
pub mod db;
pub mod llm;
pub mod scheduler;
pub mod tray;
pub mod config;
pub mod commands;
