//! Descriptions of textures to create: dimensions, formats and sampling
//! settings, set up by chained setters before the GPU object is made.
use vstd::prelude::*;

use crate::glenum::{
    BGR, BGRA, LINEAR, LINEAR_MIPMAP_LINEAR, R16UI, R8, RED, RED_INTEGER, REPEAT, RG, RG16UI, RG8,
    RGB, RGB16UI, RGB8, RGBA, RGBA16UI, RGBA8, RGBA_INTEGER, RGB_INTEGER, RG_INTEGER,
};

verus! {

/// Settings of a one-dimensional texture.
#[derive(Debug, Clone, Copy, PartialEq, Eq, Structural)]
pub struct TextureBuilder1D {
    pub length: i32,
    pub mipmap: i32,
    pub internal_format: u32,
    pub data_format: u32,
}

impl TextureBuilder1D {
    /// Sets `length`, leaving the other settings as they are.
    pub fn length(&mut self, arg: i32) -> (r: &mut Self)
        ensures
            *r == (TextureBuilder1D { length: arg, ..*old(self) }),
            *final(self) == *final(r),
    {
        self.length = arg;
        self
    }

    /// Sets `mipmap`, leaving the other settings as they are.
    pub fn mipmap(&mut self, arg: i32) -> (r: &mut Self)
        ensures
            *r == (TextureBuilder1D { mipmap: arg, ..*old(self) }),
            *final(self) == *final(r),
    {
        self.mipmap = arg;
        self
    }

    /// Sets `internal_format`, leaving the other settings as they are.
    pub fn internal_format(&mut self, arg: u32) -> (r: &mut Self)
        ensures
            *r == (TextureBuilder1D { internal_format: arg, ..*old(self) }),
            *final(self) == *final(r),
    {
        self.internal_format = arg;
        self
    }

    /// Sets `data_format`, leaving the other settings as they are.
    pub fn data_format(&mut self, arg: u32) -> (r: &mut Self)
        ensures
            *r == (TextureBuilder1D { data_format: arg, ..*old(self) }),
            *final(self) == *final(r),
    {
        self.data_format = arg;
        self
    }

    /// The default settings: empty, one mip level, RGBA data in RGBA8 storage.
    pub fn new() -> (r: Self)
        ensures
            r == (TextureBuilder1D { length: 0, mipmap: 1, internal_format: RGBA8, data_format: RGBA }),
    {
        TextureBuilder1D { length: 0, mipmap: 1, internal_format: RGBA8, data_format: RGBA }
    }
}

impl Default for TextureBuilder1D {
    fn default() -> (r: Self)
        ensures
            r == (TextureBuilder1D { length: 0, mipmap: 1, internal_format: RGBA8, data_format: RGBA }),
    {
        Self::new()
    }
}

/// Settings of a two-dimensional texture.
#[derive(Debug, Clone, Copy, PartialEq, Eq, Structural)]
pub struct TextureBuilder2D {
    pub format: u32,
    pub internal: u32,
    pub width: i32,
    pub height: i32,
    pub mipmap: i32,
    pub min_filter: i32,
    pub mag_filter: i32,
    pub wrap_s: i32,
    pub wrap_t: i32,
}

impl TextureBuilder2D {
    /// Sets `format`, leaving the other settings as they are.
    pub fn format(&mut self, arg: u32) -> (r: &mut Self)
        ensures
            *r == (TextureBuilder2D { format: arg, ..*old(self) }),
            *final(self) == *final(r),
    {
        self.format = arg;
        self
    }

    /// Sets `internal`, leaving the other settings as they are.
    pub fn internal(&mut self, arg: u32) -> (r: &mut Self)
        ensures
            *r == (TextureBuilder2D { internal: arg, ..*old(self) }),
            *final(self) == *final(r),
    {
        self.internal = arg;
        self
    }

    /// Sets `width`, leaving the other settings as they are.
    pub fn width(&mut self, arg: i32) -> (r: &mut Self)
        ensures
            *r == (TextureBuilder2D { width: arg, ..*old(self) }),
            *final(self) == *final(r),
    {
        self.width = arg;
        self
    }

    /// Sets `height`, leaving the other settings as they are.
    pub fn height(&mut self, arg: i32) -> (r: &mut Self)
        ensures
            *r == (TextureBuilder2D { height: arg, ..*old(self) }),
            *final(self) == *final(r),
    {
        self.height = arg;
        self
    }

    /// Sets `mipmap`, leaving the other settings as they are.
    pub fn mipmap(&mut self, arg: i32) -> (r: &mut Self)
        ensures
            *r == (TextureBuilder2D { mipmap: arg, ..*old(self) }),
            *final(self) == *final(r),
    {
        self.mipmap = arg;
        self
    }

    /// Sets `min_filter`, leaving the other settings as they are.
    pub fn min_filter(&mut self, arg: i32) -> (r: &mut Self)
        ensures
            *r == (TextureBuilder2D { min_filter: arg, ..*old(self) }),
            *final(self) == *final(r),
    {
        self.min_filter = arg;
        self
    }

    /// Sets `mag_filter`, leaving the other settings as they are.
    pub fn mag_filter(&mut self, arg: i32) -> (r: &mut Self)
        ensures
            *r == (TextureBuilder2D { mag_filter: arg, ..*old(self) }),
            *final(self) == *final(r),
    {
        self.mag_filter = arg;
        self
    }

    /// Sets `wrap_s`, leaving the other settings as they are.
    pub fn wrap_s(&mut self, arg: i32) -> (r: &mut Self)
        ensures
            *r == (TextureBuilder2D { wrap_s: arg, ..*old(self) }),
            *final(self) == *final(r),
    {
        self.wrap_s = arg;
        self
    }

    /// Sets `wrap_t`, leaving the other settings as they are.
    pub fn wrap_t(&mut self, arg: i32) -> (r: &mut Self)
        ensures
            *r == (TextureBuilder2D { wrap_t: arg, ..*old(self) }),
            *final(self) == *final(r),
    {
        self.wrap_t = arg;
        self
    }

    /// Settings for a `width` by `height` texture of RGBA data in RGBA8
    /// storage, one mip level, trilinear minification, linear magnification
    /// and repeating wrap on both axes.
    pub fn new(width: i32, height: i32) -> (r: Self)
        ensures
            r == Self::new_spec(width, height),
    {
        TextureBuilder2D {
            format: RGBA,
            internal: RGBA8,
            width,
            height,
            mipmap: 1,
            min_filter: LINEAR_MIPMAP_LINEAR as i32,
            mag_filter: LINEAR as i32,
            wrap_s: REPEAT as i32,
            wrap_t: REPEAT as i32,
        }
    }

    /// Settings for an image of the given size and pixel layout: the data
    /// format and storage format that match the layout, the rest as `new`.
    /// `None` where no integer or normalized storage matches the layout.
    pub fn for_pixels(width: i32, height: i32, pixels: PixelFormat) -> (r: Option<Self>)
        ensures
            r == match storage_formats(pixels) {
                Some((internal, format)) => Some(
                    TextureBuilder2D { internal, format, ..TextureBuilder2D::new_spec(width, height) },
                ),
                None => None,
            },
    {
        match texture_storage(pixels) {
            Some((internal, format)) => {
                let mut b = Self::new(width, height);
                b.format(format).internal(internal);
                Some(b)
            },
            None => None,
        }
    }

    /// The settings that `new` gives.
    pub open spec fn new_spec(width: i32, height: i32) -> Self {
        TextureBuilder2D {
            format: RGBA,
            internal: RGBA8,
            width,
            height,
            mipmap: 1,
            min_filter: LINEAR_MIPMAP_LINEAR as i32,
            mag_filter: LINEAR as i32,
            wrap_s: REPEAT as i32,
            wrap_t: REPEAT as i32,
        }
    }
}

impl Default for TextureBuilder2D {
    fn default() -> (r: Self)
        ensures
            r == TextureBuilder2D::new_spec(0, 0),
    {
        Self::new(0, 0)
    }
}

/// Settings of a three-dimensional texture.
#[derive(Debug, Clone, Copy, PartialEq, Eq, Structural)]
pub struct TextureBuilder3D {
    pub data_format: u32,
    pub internal_format: u32,
    pub width: i32,
    pub height: i32,
    pub depth: i32,
    pub mipmap: i32,
}

impl TextureBuilder3D {
    /// Sets `data_format`, leaving the other settings as they are.
    pub fn data_format(&mut self, arg: u32) -> (r: &mut Self)
        ensures
            *r == (TextureBuilder3D { data_format: arg, ..*old(self) }),
            *final(self) == *final(r),
    {
        self.data_format = arg;
        self
    }

    /// Sets `internal_format`, leaving the other settings as they are.
    pub fn internal_format(&mut self, arg: u32) -> (r: &mut Self)
        ensures
            *r == (TextureBuilder3D { internal_format: arg, ..*old(self) }),
            *final(self) == *final(r),
    {
        self.internal_format = arg;
        self
    }

    /// Sets `width`, leaving the other settings as they are.
    pub fn width(&mut self, arg: i32) -> (r: &mut Self)
        ensures
            *r == (TextureBuilder3D { width: arg, ..*old(self) }),
            *final(self) == *final(r),
    {
        self.width = arg;
        self
    }

    /// Sets `height`, leaving the other settings as they are.
    pub fn height(&mut self, arg: i32) -> (r: &mut Self)
        ensures
            *r == (TextureBuilder3D { height: arg, ..*old(self) }),
            *final(self) == *final(r),
    {
        self.height = arg;
        self
    }

    /// Sets `depth`, leaving the other settings as they are.
    pub fn depth(&mut self, arg: i32) -> (r: &mut Self)
        ensures
            *r == (TextureBuilder3D { depth: arg, ..*old(self) }),
            *final(self) == *final(r),
    {
        self.depth = arg;
        self
    }

    /// Sets `mipmap`, leaving the other settings as they are.
    pub fn mipmap(&mut self, arg: i32) -> (r: &mut Self)
        ensures
            *r == (TextureBuilder3D { mipmap: arg, ..*old(self) }),
            *final(self) == *final(r),
    {
        self.mipmap = arg;
        self
    }

    /// The default settings: empty, one mip level, RGBA data in RGBA8 storage.
    pub fn new() -> (r: Self)
        ensures
            r == (TextureBuilder3D {
            data_format: RGBA,
            internal_format: RGBA8,
            width: 0,
            height: 0,
            depth: 0,
            mipmap: 1,
        }),
    {
        TextureBuilder3D {
            data_format: RGBA,
            internal_format: RGBA8,
            width: 0,
            height: 0,
            depth: 0,
            mipmap: 1,
        }
    }
}

impl Default for TextureBuilder3D {
    fn default() -> (r: Self)
        ensures
            r == (TextureBuilder3D {
            data_format: RGBA,
            internal_format: RGBA8,
            width: 0,
            height: 0,
            depth: 0,
            mipmap: 1,
        }),
    {
        Self::new()
    }
}

/// Channel layout of decoded image pixels.
#[derive(Debug, Clone, Copy, PartialEq, Eq, Structural)]
pub enum PixelFormat {
    R8,
    R8G8,
    R8G8B8,
    R8G8B8A8,
    B8G8R8,
    B8G8R8A8,
    R16,
    R16G16,
    R16G16B16,
    R16G16B16A16,
    R32G32B32Float,
    R32G32B32A32Float,
}

/// The (storage, data) formats of a texture holding pixels of the layout:
/// normalized storage for 8-bit channels, unsigned integer storage for
/// 16-bit ones, none for float channels.
pub open spec fn storage_formats(p: PixelFormat) -> Option<(u32, u32)> {
    match p {
        PixelFormat::R8 => Some((R8, RED)),
        PixelFormat::R8G8 => Some((RG8, RG)),
        PixelFormat::R8G8B8 => Some((RGB8, RGB)),
        PixelFormat::R8G8B8A8 => Some((RGBA8, RGBA)),
        PixelFormat::B8G8R8 => Some((RGB8, BGR)),
        PixelFormat::B8G8R8A8 => Some((RGBA8, BGRA)),
        PixelFormat::R16 => Some((R16UI, RED_INTEGER)),
        PixelFormat::R16G16 => Some((RG16UI, RG_INTEGER)),
        PixelFormat::R16G16B16 => Some((RGB16UI, RGB_INTEGER)),
        PixelFormat::R16G16B16A16 => Some((RGBA16UI, RGBA_INTEGER)),
        _ => None,
    }
}

/// The data format of an 8-bit image, used both as data and as storage
/// format; none for wider channels.
pub open spec fn byte_format(p: PixelFormat) -> Option<u32> {
    match p {
        PixelFormat::R8 => Some(RED),
        PixelFormat::R8G8 => Some(RG),
        PixelFormat::R8G8B8 => Some(RGB),
        PixelFormat::R8G8B8A8 => Some(RGBA),
        PixelFormat::B8G8R8 => Some(BGR),
        PixelFormat::B8G8R8A8 => Some(BGRA),
        _ => None,
    }
}

/// Picks the storage and data formats for pixels of the given layout.
pub fn texture_storage(p: PixelFormat) -> (r: Option<(u32, u32)>)
    ensures
        r == storage_formats(p),
{
    match p {
        PixelFormat::R8 => Some((R8, RED)),
        PixelFormat::R8G8 => Some((RG8, RG)),
        PixelFormat::R8G8B8 => Some((RGB8, RGB)),
        PixelFormat::R8G8B8A8 => Some((RGBA8, RGBA)),
        PixelFormat::B8G8R8 => Some((RGB8, BGR)),
        PixelFormat::B8G8R8A8 => Some((RGBA8, BGRA)),
        PixelFormat::R16 => Some((R16UI, RED_INTEGER)),
        PixelFormat::R16G16 => Some((RG16UI, RG_INTEGER)),
        PixelFormat::R16G16B16 => Some((RGB16UI, RGB_INTEGER)),
        PixelFormat::R16G16B16A16 => Some((RGBA16UI, RGBA_INTEGER)),
        _ => None,
    }
}

/// Picks the format of a plain 8-bit texture for pixels of the given
/// layout; `None` for layouts such a texture does not take.
pub fn texture_byte_format(p: PixelFormat) -> (r: Option<u32>)
    ensures
        r == byte_format(p),
{
    match p {
        PixelFormat::R8 => Some(RED),
        PixelFormat::R8G8 => Some(RG),
        PixelFormat::R8G8B8 => Some(RGB),
        PixelFormat::R8G8B8A8 => Some(RGBA),
        PixelFormat::B8G8R8 => Some(BGR),
        PixelFormat::B8G8R8A8 => Some(BGRA),
        _ => None,
    }
}

} // verus!
