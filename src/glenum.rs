//! OpenGL enumerant values used by the resource descriptions.
use vstd::prelude::*;

verus! {

pub const RED: u32 = 0x1903;
pub const RG: u32 = 0x8227;
pub const RGB: u32 = 0x1907;
pub const RGBA: u32 = 0x1908;
pub const BGR: u32 = 0x80E0;
pub const BGRA: u32 = 0x80E1;
pub const RED_INTEGER: u32 = 0x8D94;
pub const RG_INTEGER: u32 = 0x8228;
pub const RGB_INTEGER: u32 = 0x8D98;
pub const RGBA_INTEGER: u32 = 0x8D99;

pub const R8: u32 = 0x8229;
pub const RG8: u32 = 0x822B;
pub const RGB8: u32 = 0x8051;
pub const RGBA8: u32 = 0x8058;
pub const R16UI: u32 = 0x8234;
pub const RG16UI: u32 = 0x823A;
pub const RGB16UI: u32 = 0x8D77;
pub const RGBA16UI: u32 = 0x8D76;
pub const DEPTH24_STENCIL8: u32 = 0x88F0;

pub const NEAREST: u32 = 0x2600;
pub const LINEAR: u32 = 0x2601;
pub const LINEAR_MIPMAP_LINEAR: u32 = 0x2703;
pub const REPEAT: u32 = 0x2901;
pub const CLAMP_TO_EDGE: u32 = 0x812F;

pub const TEXTURE_2D: u32 = 0x0DE1;
pub const TEXTURE_2D_MULTISAMPLE: u32 = 0x9100;
pub const COLOR_ATTACHMENT0: u32 = 0x8CE0;
pub const FLOAT: u32 = 0x1406;

} // verus!
