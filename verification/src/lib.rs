pub mod config;
pub mod control;
pub mod ingest;
pub mod lag;
pub mod model;
pub mod store;
pub mod wire;
