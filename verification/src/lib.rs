//! NodeDesk core: request signing and checking for the host agent, path
//! confinement for file transfer, and the parsers and planners that the
//! desktop app and the agent share.

mod text;
mod table;
pub mod numbers;
pub mod auth;
pub mod agent;
pub mod client;
pub mod wol;
pub mod update;
pub mod release;
pub mod sunshine;
pub mod state;
pub mod moonlight;
pub mod safepath;
pub mod files;
pub mod places;
pub mod terminal;
pub mod headless;
pub mod discovery;
pub mod monitor;
pub mod install;
