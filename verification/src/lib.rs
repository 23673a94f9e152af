//! Voxel world engine core: block registry, packed palettes, chunk storage,
//! run-length encoding, sky lighting, fluid simulation and greedy meshing.
pub mod math;
pub mod voxel;
pub mod item;
pub mod palette;
pub mod chunk;
pub mod lighting;
pub mod generator;
pub mod world;
pub mod world_light;
pub mod world_edit;
pub mod fluid;
pub mod mesh_input;
pub mod greedy;
pub mod mesher;
pub mod fluid_mesh;
pub mod streaming;
pub mod chunk_load;
pub mod mesh_plan;
pub mod interaction;

pub mod textures;
