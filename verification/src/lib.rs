pub mod actions;
pub mod configuration;
pub mod doormax;
pub mod drawing;
pub mod factoredrmax;
pub mod maxq;
pub mod position;
pub mod random;
pub mod random_solver;
pub mod replay;
pub mod runner;
pub mod state;
pub mod state_indexer;
pub mod text;
pub mod world;
