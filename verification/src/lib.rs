//! Decision-making core for a fleet of mobile collector units on a toroidal
//! grid: world-state simulation, a rolling timeline of predicted future
//! states, informed path search toward depots, a global unit-to-depot
//! assignment step, and a local single-turn collision arbiter.

pub mod action;
pub mod assign;
pub mod constants;
pub mod cost;
pub mod game;
pub mod grid;
pub mod ids;
pub mod navi;
pub mod plan;
pub mod state;
pub mod timeline;
