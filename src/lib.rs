pub mod laws;
pub mod life;
pub mod pattern;
pub mod session;
pub mod world;
