//! A software renderer's verified core: framebuffers with depth testing,
//! Wavefront OBJ parsing, sphere tessellation, a bitmap font and the
//! shader and star-field choices of the scene.
pub mod text;
pub mod depth;
pub mod framebuffer;
pub mod mtl;
pub mod obj_loader;
pub mod planet_lab;
pub mod scene;
pub mod shader;
