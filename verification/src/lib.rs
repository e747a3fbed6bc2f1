//! A two-dimensional N-body gravity simulation on fixed-point numbers: bodies
//! attract each other, merge when they touch, and are moved through time by a
//! velocity-Verlet integrator.
pub mod body;
pub mod body_creation;
pub mod camera;
pub mod collision;
pub mod conservation;
pub mod entities;
pub mod error;
pub mod fixed;
pub mod gravity;
pub mod inspect;
pub mod integration;
pub mod isolation;
pub mod main_state;
pub mod merge;
pub mod resources;
pub mod restriction;
pub mod stability;
pub mod store;
pub mod trails;
pub mod volume;
