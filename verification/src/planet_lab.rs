//! The planet lab: a second, smaller renderer with an ARGB framebuffer, a
//! strict OBJ reader and a bitmap-font HUD.
pub mod framebuffer;
pub mod hud;
pub mod mesh;
pub mod obj_loader;
pub mod triangle;
