pub mod configuration;
pub mod database;
pub mod json;
pub mod service;
pub mod text;
