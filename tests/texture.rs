use scenegraph::texture::{
    texture_byte_format, texture_storage, PixelFormat, TextureBuilder1D, TextureBuilder2D,
    TextureBuilder3D,
};

#[test]
fn texture_1d_builder() {
    const CONTROL: TextureBuilder1D = TextureBuilder1D {
        length: 0,
        mipmap: 1,
        internal_format: gl::RGBA8,
        data_format: gl::RGBA,
    };

    let mut builder = TextureBuilder1D::new();

    assert_eq!(CONTROL, builder);

    builder
        .length(12)
        .mipmap(3)
        .internal_format(gl::RGB8)
        .data_format(gl::RGB);

    assert_eq!(builder.length, 12);
    assert_eq!(builder.mipmap, 3);
    assert_eq!(builder.internal_format, gl::RGB8);
    assert_eq!(builder.data_format, gl::RGB);
}

#[test]
fn texture_2d_builder() {
    const CONTROL: TextureBuilder2D = TextureBuilder2D {
        format: gl::RGBA,
        internal: gl::RGBA8,
        width: 0,
        height: 0,
        mipmap: 1,
        min_filter: gl::LINEAR_MIPMAP_LINEAR as i32,
        mag_filter: gl::LINEAR as i32,
        wrap_s: gl::REPEAT as i32,
        wrap_t: gl::REPEAT as i32,
    };

    let mut builder = TextureBuilder2D::new(0, 0);

    assert_eq!(CONTROL, builder);

    builder
        .format(gl::RGB)
        .internal(gl::RGB8)
        .width(500)
        .height(600)
        .mipmap(5)
        .min_filter(gl::NEAREST as i32)
        .mag_filter(gl::NEAREST as i32)
        .wrap_s(gl::CLAMP_TO_EDGE as i32)
        .wrap_t(gl::CLAMP_TO_EDGE as i32);

    assert_eq!(gl::RGB, builder.format);
    assert_eq!(gl::RGB8, builder.internal);
    assert_eq!(500, builder.width);
    assert_eq!(600, builder.height);
    assert_eq!(5, builder.mipmap);
    assert_eq!(gl::NEAREST as i32, builder.min_filter);
    assert_eq!(gl::NEAREST as i32, builder.mag_filter);
    assert_eq!(gl::CLAMP_TO_EDGE as i32, builder.wrap_s);
    assert_eq!(gl::CLAMP_TO_EDGE as i32, builder.wrap_t);
}

#[test]
fn texture_3d_builder() {
    const CONTROL: TextureBuilder3D = TextureBuilder3D {
        data_format: gl::RGBA,
        internal_format: gl::RGBA8,
        width: 0,
        height: 0,
        depth: 0,
        mipmap: 1,
    };

    let mut builder = TextureBuilder3D::new();

    assert_eq!(CONTROL, builder);

    builder
        .width(30)
        .height(45)
        .depth(27)
        .mipmap(3)
        .internal_format(gl::RGB8)
        .data_format(gl::RGB);

    assert_eq!(builder.width, 30);
    assert_eq!(builder.height, 45);
    assert_eq!(builder.depth, 27);
    assert_eq!(builder.mipmap, 3);
    assert_eq!(builder.internal_format, gl::RGB8);
    assert_eq!(builder.data_format, gl::RGB);
}

#[test]
fn builder_defaults_match_new() {
    assert_eq!(TextureBuilder1D::default(), TextureBuilder1D::new());
    assert_eq!(TextureBuilder2D::default(), TextureBuilder2D::new(0, 0));
    assert_eq!(TextureBuilder3D::default(), TextureBuilder3D::new());
}

#[test]
fn storage_formats_follow_channel_width() {
    assert_eq!(texture_storage(PixelFormat::R8), Some((gl::R8, gl::RED)));
    assert_eq!(texture_storage(PixelFormat::R8G8), Some((gl::RG8, gl::RG)));
    assert_eq!(texture_storage(PixelFormat::R8G8B8), Some((gl::RGB8, gl::RGB)));
    assert_eq!(texture_storage(PixelFormat::R8G8B8A8), Some((gl::RGBA8, gl::RGBA)));
    assert_eq!(texture_storage(PixelFormat::B8G8R8), Some((gl::RGB8, gl::BGR)));
    assert_eq!(texture_storage(PixelFormat::B8G8R8A8), Some((gl::RGBA8, gl::BGRA)));
    assert_eq!(texture_storage(PixelFormat::R16), Some((gl::R16UI, gl::RED_INTEGER)));
    assert_eq!(texture_storage(PixelFormat::R16G16), Some((gl::RG16UI, gl::RG_INTEGER)));
    assert_eq!(texture_storage(PixelFormat::R16G16B16), Some((gl::RGB16UI, gl::RGB_INTEGER)));
    assert_eq!(
        texture_storage(PixelFormat::R16G16B16A16),
        Some((gl::RGBA16UI, gl::RGBA_INTEGER))
    );
    assert_eq!(texture_storage(PixelFormat::R32G32B32Float), None);
    assert_eq!(texture_storage(PixelFormat::R32G32B32A32Float), None);
}

#[test]
fn byte_format_rejects_wide_channels() {
    assert_eq!(texture_byte_format(PixelFormat::R8G8B8), Some(gl::RGB));
    assert_eq!(texture_byte_format(PixelFormat::B8G8R8A8), Some(gl::BGRA));
    assert_eq!(texture_byte_format(PixelFormat::R16), None);
    assert_eq!(texture_byte_format(PixelFormat::R32G32B32A32Float), None);
}

#[test]
fn builder_for_pixels_sets_formats() {
    let b = TextureBuilder2D::for_pixels(64, 32, PixelFormat::R16G16).unwrap();
    assert_eq!(b.width, 64);
    assert_eq!(b.height, 32);
    assert_eq!(b.internal, gl::RG16UI);
    assert_eq!(b.format, gl::RG_INTEGER);
    assert_eq!(b.mipmap, 1);
    assert_eq!(b.wrap_s, gl::REPEAT as i32);
    assert!(TextureBuilder2D::for_pixels(64, 32, PixelFormat::R32G32B32Float).is_none());
}
