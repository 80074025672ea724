pub mod auth;
pub mod benchmarks;
pub mod billing;
pub mod cache;
pub mod calibration;
pub mod chat;
pub mod coaching;
pub mod comparison;
pub mod dota;
pub mod evidence;
pub mod hero_meta;
pub mod heroes;
pub mod listing;
pub mod llm;
pub mod numbers;
pub mod patterns;
pub mod payments;
pub mod player_model;
pub mod progress;
pub mod prompt;
pub mod records;
pub mod session;
pub mod text;
pub mod timeline;
pub mod trajectory;
