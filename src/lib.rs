pub mod models;
pub mod grid;
pub mod game_logic;
pub mod spawn;
pub mod maze;
pub mod session;
pub mod lemmas;
pub mod controls;
mod random;
