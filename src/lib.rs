pub mod voxel;
pub mod placement;
pub mod session;
pub mod world;
pub mod hud;
