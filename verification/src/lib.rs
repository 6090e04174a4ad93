//! The rules of a two-player battleship server: its settings, the board, the line
//! protocol, the registry of players, and what a connection does on each event.
pub mod board;
pub mod calls;
pub mod config;
pub mod game;
pub mod laws;
pub mod protocol;
pub mod registry;
pub mod session;
pub mod text;

pub use board::Board;
pub use config::Config;
pub use protocol::{parse_join, parse_shot, ShotCommand};
pub use registry::{ClientInfo, Registry};
