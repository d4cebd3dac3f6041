//! The decision-making core of a bridge between Matrix rooms and a coding-agent session.

pub mod text;
pub mod text_laws;
pub mod numbers;
pub mod numbers_laws;
pub mod calendar;
pub mod clock;
pub mod paths;
pub mod json;
pub mod json_laws;
pub mod ids;
pub mod access;
pub mod access_laws;
pub mod rooms;
pub mod chunk;
pub mod status;
pub mod status_laws;
pub mod transcript;
pub mod live_status;
pub mod live_status_laws;
pub mod content;
pub mod content_laws;
pub mod verdict;
pub mod verdict_laws;
pub mod mention;
pub mod commands;
pub mod inbound;
pub mod inbound_laws;
pub mod relay;
pub mod outbound;
pub mod outbound_laws;
pub mod files;
pub mod history;
pub mod config;
pub mod login;
pub mod supervisor;
