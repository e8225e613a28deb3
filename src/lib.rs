pub mod text;
pub mod pattern;
pub mod anime;
pub mod config;
pub mod classify;
pub mod pipeline;
