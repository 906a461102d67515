pub mod agent;
pub mod artifact;
pub mod board;
pub mod cli;
pub mod config;
pub mod error;
pub mod init;
pub mod memory;
pub mod metrics;
pub mod models;
pub mod order;
pub mod paths;
pub mod systemd;
pub mod text;
pub mod workspace;
