pub mod voxel_renderer;
