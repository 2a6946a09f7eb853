pub mod backend;
pub mod command;
pub mod encoder;
pub mod error;
pub mod gpio_ext;
pub mod json;
pub mod table;
pub mod text;
pub mod types;
pub mod sim_laws;
pub mod protocol;
pub mod arduino;
pub mod config;
pub mod wifi;
pub mod mesh;
pub mod link;
pub mod remote_exec;
pub mod order;
pub mod status;
pub mod daemon;
pub mod daemon_panel;
pub mod real_backend;
pub mod storage;
pub mod tui;
pub mod web;
