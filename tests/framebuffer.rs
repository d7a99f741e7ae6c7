use scenegraph::framebuffer::{FramebufferBuilder, FramebufferError};

#[test]
fn framebuffer_defaults() {
    let b = FramebufferBuilder::new(800, 600);
    assert_eq!(b.width, 800);
    assert_eq!(b.height, 600);
    assert_eq!(b.color_binds, 1);
    assert!(!b.depth);
    assert!(!b.stencil);
    assert_eq!(b.multisample, None);
}

#[test]
fn framebuffer_plain_layout() {
    let l = FramebufferBuilder::new(800, 600).layout().unwrap();
    assert_eq!(l.texture_target, gl::TEXTURE_2D);
    assert_eq!(l.attachments, vec![gl::COLOR_ATTACHMENT0]);
    assert_eq!(l.renderbuffer, None);
    assert_eq!(l.samples, 0);
}

#[test]
fn framebuffer_multisample_layout() {
    let mut b = FramebufferBuilder::new(800, 600);
    b.with_depth_and_stencil().with_samples(4).color_attach(3);
    let l = b.layout().unwrap();
    assert_eq!(l.texture_target, gl::TEXTURE_2D_MULTISAMPLE);
    assert_eq!(
        l.attachments,
        vec![gl::COLOR_ATTACHMENT0, gl::COLOR_ATTACHMENT1, gl::COLOR_ATTACHMENT2]
    );
    assert_eq!(l.renderbuffer, Some(gl::DEPTH24_STENCIL8));
    assert_eq!(l.samples, 4);
}

#[test]
fn framebuffer_depth_alone_is_refused() {
    let mut b = FramebufferBuilder::new(10, 10);
    b.with_depth();
    assert_eq!(b.layout(), Err(FramebufferError::UnpairedDepthStencil));
    let mut c = FramebufferBuilder::new(10, 10);
    c.with_stencil();
    assert_eq!(c.layout(), Err(FramebufferError::UnpairedDepthStencil));
    c.with_depth();
    assert!(c.layout().is_ok());
}

#[test]
fn framebuffer_too_many_attachments() {
    let mut b = FramebufferBuilder::new(10, 10);
    b.color_attach(u32::MAX);
    assert_eq!(b.layout(), Err(FramebufferError::TooManyColorAttachments));
    let mut c = FramebufferBuilder::new(10, 10);
    c.color_attach(0);
    assert_eq!(c.layout().unwrap().attachments, Vec::<u32>::new());
}
