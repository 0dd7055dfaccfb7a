pub mod combat;
pub mod config;
pub mod enemy;
pub mod entity;
pub mod explosion;
pub mod geom;
pub mod laws;
pub mod player;
pub mod scan;
pub mod tick;
pub mod world;
