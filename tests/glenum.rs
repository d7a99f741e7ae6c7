use scenegraph::glenum;

#[test]
fn enumerants_match_gl() {
    let pairs = [
        (glenum::RED, gl::RED),
        (glenum::RG, gl::RG),
        (glenum::RGB, gl::RGB),
        (glenum::RGBA, gl::RGBA),
        (glenum::BGR, gl::BGR),
        (glenum::BGRA, gl::BGRA),
        (glenum::RED_INTEGER, gl::RED_INTEGER),
        (glenum::RG_INTEGER, gl::RG_INTEGER),
        (glenum::RGB_INTEGER, gl::RGB_INTEGER),
        (glenum::RGBA_INTEGER, gl::RGBA_INTEGER),
        (glenum::R8, gl::R8),
        (glenum::RG8, gl::RG8),
        (glenum::RGB8, gl::RGB8),
        (glenum::RGBA8, gl::RGBA8),
        (glenum::R16UI, gl::R16UI),
        (glenum::RG16UI, gl::RG16UI),
        (glenum::RGB16UI, gl::RGB16UI),
        (glenum::RGBA16UI, gl::RGBA16UI),
        (glenum::DEPTH24_STENCIL8, gl::DEPTH24_STENCIL8),
        (glenum::NEAREST, gl::NEAREST),
        (glenum::LINEAR, gl::LINEAR),
        (glenum::LINEAR_MIPMAP_LINEAR, gl::LINEAR_MIPMAP_LINEAR),
        (glenum::REPEAT, gl::REPEAT),
        (glenum::CLAMP_TO_EDGE, gl::CLAMP_TO_EDGE),
        (glenum::TEXTURE_2D, gl::TEXTURE_2D),
        (glenum::TEXTURE_2D_MULTISAMPLE, gl::TEXTURE_2D_MULTISAMPLE),
        (glenum::COLOR_ATTACHMENT0, gl::COLOR_ATTACHMENT0),
        (glenum::FLOAT, gl::FLOAT),
    ];
    for (i, (ours, theirs)) in pairs.iter().enumerate() {
        assert_eq!(ours, theirs, "enumerant {}", i);
    }
}
