//! Rules engine, observation encoding and selection logic for training
//! self-play agents at the card game Golf.
pub mod card;
pub mod game;
pub mod net_interface;
pub mod evolution;
pub mod tournament;
mod chance;
