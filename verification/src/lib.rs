//! A stochastic walker on a two-dimensional grid graph whose edges carry
//! pheromone weights, with every weight held as a fixed-point integer.

pub mod aco;
pub mod grid;
pub mod matrix;
pub mod random;
pub mod roulette;
pub mod screen;
pub mod walk;
