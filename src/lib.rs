//! An air-traffic scene: planes that fly straight at constant speed, a runway
//! and a ground station, held in an entity store and advanced tick by tick in
//! exact fixed-point arithmetic.

pub mod geometry;
pub mod spawn;
pub mod world;
