//! Rendering on the GPU.

pub mod display_list;
pub mod egl_context;
pub mod gpu_renderer;
