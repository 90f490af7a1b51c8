//! Verified core of a personal finance pipeline: reading bank exports,
//! normalising transactions, transforming them and preparing them for
//! budgeting services.
pub mod actual;
pub mod ai_lua;
pub mod date;
pub mod directory;
pub mod file_map;
pub mod hmap;
pub mod holder;
pub mod http;
pub mod ids;
pub mod lunchflow;
pub mod lua;
pub mod lunchmoney;
pub mod mapper;
pub mod mbank;
pub mod model;
pub mod money;
pub mod name_map;
pub mod natural;
pub mod resilience;
pub mod sink_lunchmoney;
pub mod squasher;
pub mod tags;
pub mod text;
pub mod treeline;
