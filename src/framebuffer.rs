//! Description of an offscreen framebuffer and the attachments it needs.
use vstd::prelude::*;

use crate::glenum::{COLOR_ATTACHMENT0, DEPTH24_STENCIL8, TEXTURE_2D, TEXTURE_2D_MULTISAMPLE};

verus! {

/// Settings of a framebuffer: size, colour attachments, depth and stencil
/// buffers, and multisampling.
#[derive(Debug, Clone, Copy, PartialEq, Eq, Structural)]
pub struct FramebufferBuilder {
    pub width: i32,
    pub height: i32,
    pub color_binds: u32,
    pub depth: bool,
    pub stencil: bool,
    pub multisample: Option<i32>,
}

/// Why a framebuffer description cannot be made into attachments.
#[derive(Debug, Clone, Copy, PartialEq, Eq, Structural)]
pub enum FramebufferError {
    /// A depth buffer without a stencil buffer, or the reverse: only the
    /// combined depth-stencil renderbuffer is supported.
    UnpairedDepthStencil,
    /// More colour attachments than attachment points can be named.
    TooManyColorAttachments,
}

/// What to create for a framebuffer: the texture target of its colour
/// attachments, their attachment points, the format of its renderbuffer if
/// it has one, and the sample count of that renderbuffer.
#[derive(Debug, PartialEq, Eq)]
pub struct FramebufferLayout {
    pub texture_target: u32,
    pub attachments: Vec<u32>,
    pub renderbuffer: Option<u32>,
    pub samples: i32,
}

impl FramebufferBuilder {
    /// A `width` by `height` framebuffer with one colour attachment, no
    /// depth or stencil buffer, and no multisampling.
    pub fn new(width: i32, height: i32) -> (r: Self)
        ensures
            r == (FramebufferBuilder {
                width,
                height,
                color_binds: 1,
                depth: false,
                stencil: false,
                multisample: None,
            }),
    {
        FramebufferBuilder {
            width,
            height,
            color_binds: 1,
            depth: false,
            stencil: false,
            multisample: None,
        }
    }

    /// Asks for both a depth and a stencil buffer.
    pub fn with_depth_and_stencil(&mut self) -> (r: &mut Self)
        ensures
            *r == (FramebufferBuilder { depth: true, stencil: true, ..*old(self) }),
            *final(self) == *final(r),
    {
        self.depth = true;
        self.stencil = true;
        self
    }

    /// Asks for a stencil buffer.
    pub fn with_stencil(&mut self) -> (r: &mut Self)
        ensures
            *r == (FramebufferBuilder { stencil: true, ..*old(self) }),
            *final(self) == *final(r),
    {
        self.stencil = true;
        self
    }

    /// Asks for a depth buffer.
    pub fn with_depth(&mut self) -> (r: &mut Self)
        ensures
            *r == (FramebufferBuilder { depth: true, ..*old(self) }),
            *final(self) == *final(r),
    {
        self.depth = true;
        self
    }

    /// Sets the number of colour attachments.
    pub fn color_attach(&mut self, color_binds: u32) -> (r: &mut Self)
        ensures
            *r == (FramebufferBuilder { color_binds, ..*old(self) }),
            *final(self) == *final(r),
    {
        self.color_binds = color_binds;
        self
    }

    /// Asks for multisampled attachments with the given sample count.
    pub fn with_samples(&mut self, samples: i32) -> (r: &mut Self)
        ensures
            *r == (FramebufferBuilder { multisample: Some(samples), ..*old(self) }),
            *final(self) == *final(r),
    {
        self.multisample = Some(samples);
        self
    }

    /// Works out the attachments of the framebuffer: colour textures of the
    /// multisample target when multisampling, else plain 2D textures, at
    /// consecutive attachment points from the first; a combined
    /// depth-stencil renderbuffer when both were asked for, none when
    /// neither was. Fails when only one of depth and stencil was asked for,
    /// or when the attachment points would run past the range of `u32`.
    pub fn layout(&self) -> (r: Result<FramebufferLayout, FramebufferError>)
        ensures
            self.depth != self.stencil ==> r == Err::<FramebufferLayout, FramebufferError>(
                FramebufferError::UnpairedDepthStencil,
            ),
            self.depth == self.stencil && COLOR_ATTACHMENT0 + self.color_binds > u32::MAX ==> r
                == Err::<FramebufferLayout, FramebufferError>(
                FramebufferError::TooManyColorAttachments,
            ),
            self.depth == self.stencil && COLOR_ATTACHMENT0 + self.color_binds <= u32::MAX ==> r
                is Ok,
            r matches Ok(l) ==> {
                &&& l.texture_target == if self.multisample is Some {
                    TEXTURE_2D_MULTISAMPLE
                } else {
                    TEXTURE_2D
                }
                &&& l.attachments@.len() == self.color_binds
                &&& forall|i: int|
                    0 <= i < self.color_binds ==> #[trigger] l.attachments@[i]
                        == COLOR_ATTACHMENT0 + i
                &&& l.renderbuffer == if self.depth {
                    Some(DEPTH24_STENCIL8)
                } else {
                    None
                }
                &&& l.samples == match self.multisample {
                    Some(s) => s,
                    None => 0,
                }
            },
    {
        if self.depth != self.stencil {
            return Err(FramebufferError::UnpairedDepthStencil);
        }
        if self.color_binds > u32::MAX - COLOR_ATTACHMENT0 {
            return Err(FramebufferError::TooManyColorAttachments);
        }
        let texture_target = match self.multisample {
            Some(_) => TEXTURE_2D_MULTISAMPLE,
            None => TEXTURE_2D,
        };
        let mut attachments: Vec<u32> = Vec::new();
        let mut i: u32 = 0;
        while i < self.color_binds
            invariant
                i <= self.color_binds,
                self.color_binds <= u32::MAX - COLOR_ATTACHMENT0,
                attachments@.len() == i,
                forall|k: int| 0 <= k < i ==> #[trigger] attachments@[k] == COLOR_ATTACHMENT0 + k,
            decreases self.color_binds - i,
        {
            attachments.push(COLOR_ATTACHMENT0 + i);
            i = i + 1;
        }
        let renderbuffer = if self.depth {
            Some(DEPTH24_STENCIL8)
        } else {
            None
        };
        let samples = match self.multisample {
            Some(s) => s,
            None => 0,
        };
        Ok(FramebufferLayout { texture_target, attachments, renderbuffer, samples })
    }
}

} // verus!
