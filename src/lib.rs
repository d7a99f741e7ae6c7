//! Scene-graph engine core: node hierarchy ordering, animation playback
//! scheduling, bounding-box geometry and GPU resource descriptions.
pub mod aabb;
pub mod animation;
pub mod buffer_layout;
pub mod framebuffer;
pub mod glenum;
pub mod hierarchy;
pub mod propagation;
pub mod shader_source;
pub mod skin;
pub mod texture;
pub mod window;
