//! The viewfinder's frames: which texture a frame becomes, and how its planes
//! are laid out.

use crate::camera;
use crate::camera::Frame;
use vstd::prelude::*;

verus! {

/// The pixel formats of textures in memory.
#[derive(Debug, Clone, Copy, PartialEq, Eq, Structural)]
pub enum MemoryFormat {
    R8g8b8x8,
    R8g8b8a8,
    B8g8r8x8,
    B8g8r8a8,
}

pub open spec fn format_of(fourcc: u32) -> Option<MemoryFormat> {
    if fourcc == 0x3432_4258 {
        Some(MemoryFormat::R8g8b8x8)
    } else if fourcc == 0x3432_4241 {
        Some(MemoryFormat::R8g8b8a8)
    } else if fourcc == 0x3432_5258 {
        Some(MemoryFormat::B8g8r8x8)
    } else if fourcc == 0x3432_5241 {
        Some(MemoryFormat::B8g8r8a8)
    } else {
        None
    }
}

pub fn memory_format(fourcc: u32) -> (f: Option<MemoryFormat>)
    ensures
        f == format_of(fourcc),
{
    if fourcc == camera::fourcc([0x58, 0x42, 0x32, 0x34]) {
        Some(MemoryFormat::R8g8b8x8)
    } else if fourcc == camera::fourcc([0x41, 0x42, 0x32, 0x34]) {
        Some(MemoryFormat::R8g8b8a8)
    } else if fourcc == camera::fourcc([0x58, 0x52, 0x32, 0x34]) {
        Some(MemoryFormat::B8g8r8x8)
    } else if fourcc == camera::fourcc([0x41, 0x52, 0x32, 0x34]) {
        Some(MemoryFormat::B8g8r8a8)
    } else {
        None
    }
}

/// A plane of a dmabuf.
#[derive(Debug, Clone, Copy, PartialEq, Eq, Structural)]
pub struct Plane {
    pub stride: u32,
    pub offset: u32,
}

/// What a frame's texture is made from.
#[derive(Debug)]
pub enum Texture {
    /// The copied bytes, in this format.
    Memory(MemoryFormat),
    /// The capture buffer itself, in these planes.
    Dmabuf(Vec<Plane>),
}

/// The planes of a capture buffer: colour has one of its own in NV12, after
/// all rows of the first.
pub open spec fn planes_of(frame: Frame) -> Seq<Plane> {
    let first = Plane { stride: frame.stride, offset: frame.offset };
    if frame.fourcc == 0x3231_564e {
        seq![first, Plane { stride: frame.stride, offset: (frame.offset + frame.stride * frame.height) as u32 }]
    } else {
        seq![first]
    }
}

/// Turn a frame into a texture. A copied frame in a format that textures do
/// not have cannot be shown.
pub fn texture(frame: &Frame) -> (r: Result<Texture, ()>)
    requires
        frame.bytes is None && frame.fourcc == 0x3231_564e ==> frame.offset + frame.stride * frame.height <= u32::MAX,
    ensures
        match frame.bytes {
            Some(_) => match format_of(frame.fourcc) {
                Some(f) => r == Ok::<Texture, ()>(Texture::Memory(f)),
                None => r is Err,
            },
            None => r matches Ok(Texture::Dmabuf(p)) && p@ == planes_of(*frame),
        },
{
    if frame.bytes.is_some() {
        return match memory_format(frame.fourcc) {
            Some(f) => Ok(Texture::Memory(f)),
            None => Err(()),
        };
    }
    let mut planes: Vec<Plane> = Vec::new();
    planes.push(Plane { stride: frame.stride, offset: frame.offset });
    if frame.fourcc == camera::fourcc([0x4e, 0x56, 0x31, 0x32]) {
        assert(0 <= frame.stride * frame.height) by (nonlinear_arith);
        planes.push(Plane { stride: frame.stride, offset: frame.offset + frame.stride * frame.height });
    }
    assert(planes@ =~= planes_of(*frame));
    Ok(Texture::Dmabuf(planes))
}

/// A texture's format is the code's, read backwards: its letters name the
/// channels from the high byte down.
pub proof fn law_textures_are_read_backwards(code: u32)
    ensures
        format_of(code) == Some(MemoryFormat::R8g8b8x8) <==> code == camera::code_named("XB24"@),
        format_of(code) == Some(MemoryFormat::R8g8b8a8) <==> code == camera::code_named("AB24"@),
        format_of(code) == Some(MemoryFormat::B8g8r8x8) <==> code == camera::code_named("XR24"@),
        format_of(code) == Some(MemoryFormat::B8g8r8a8) <==> code == camera::code_named("AR24"@),
{
    reveal_strlit("XB24");
    reveal_strlit("AB24");
    reveal_strlit("XR24");
    reveal_strlit("AR24");
}

/// A frame's first plane starts at its offset; in NV12 the colours follow
/// where its rows end, in rows as long.
pub proof fn law_colours_follow_the_rows(frame: Frame)
    requires
        frame.offset + frame.stride * frame.height <= u32::MAX,
    ensures
        planes_of(frame)[0] == (Plane { stride: frame.stride, offset: frame.offset }),
        frame.fourcc == camera::code_named("NV12"@) ==> {
            let p = planes_of(frame);
            &&& p.len() == 2
            &&& p[1].stride == frame.stride
            &&& p[1].offset - p[0].offset == frame.stride * frame.height
        },
        frame.fourcc != camera::code_named("NV12"@) ==> planes_of(frame).len() == 1,
{
    reveal_strlit("NV12");
    assert(0 <= frame.stride * frame.height) by (nonlinear_arith);
}

} // verus!
