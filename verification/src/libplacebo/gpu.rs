//! libplacebo GPUs, textures and mapped frames, with their handles as plain
//! addresses.
use vstd::prelude::*;

verus! {

/// A libplacebo GPU (`pl_gpu`).
#[derive(Debug, Clone, Copy, PartialEq, Eq, Structural)]
pub struct Gpu {
    /// Address of the `pl_gpu`.
    pub handle: usize,
}

/// A libplacebo texture (`pl_tex`) of a GPU.
#[derive(Debug, PartialEq, Eq, Structural)]
pub struct Texture {
    /// Address of the `pl_tex`.
    pub handle: usize,
    /// The GPU the texture lives on.
    pub gpu: Gpu,
}

impl Texture {
    /// The texture's `pl_tex` handle.
    pub fn handle(&self) -> (r: usize)
        ensures
            r == self.handle,
    {
        self.handle
    }
}

/// Where a mapped frame's data came from.
#[derive(Debug, PartialEq, Eq, Structural)]
pub enum FrameSource {
    /// An FFmpeg `AVFrame` mapped onto `gpu`, backed by `texture` when
    /// libplacebo had to upload it into one.
    AVFrame { gpu: Gpu, texture: Option<Texture> },
}

/// A frame mapped into libplacebo (`pl_frame`).
#[derive(Debug, PartialEq, Eq, Structural)]
pub struct Frame {
    /// Address of the `pl_frame` that holds the mapping.
    pub inner: usize,
    /// The `AVFrame` that the mapping was made from.
    pub avframe: usize,
    /// Where the frame came from.
    pub source: FrameSource,
}

/// The texture a frame holds.
pub open spec fn frame_texture(frame: Frame) -> Option<Texture> {
    match frame.source {
        FrameSource::AVFrame { gpu: _, texture } => texture,
    }
}

impl Frame {
    /// Gives up the frame and keeps its backing texture, if it has one, for
    /// reuse.
    pub fn drop_retain(self) -> (r: Option<Texture>)
        ensures
            r == frame_texture(self),
    {
        match self.source {
            FrameSource::AVFrame { gpu: _, texture } => texture,
        }
    }

    /// The `AVFrame` that the frame was mapped from.
    pub fn source_avframe(&self) -> (r: Option<usize>)
        ensures
            r == Some(self.avframe),
    {
        match &self.source {
            FrameSource::AVFrame { gpu: _, texture: _ } => Some(self.avframe),
        }
    }
}

/// The frame that a mapping call produced: none when libplacebo could not map
/// the `AVFrame`; else a frame of this GPU, backed by the texture libplacebo
/// left in the texture slot unless that slot is null.
pub open spec fn mapped_frame(gpu: Gpu, mapped: bool, tex: usize, inner: usize, avframe: usize) -> Option<
    Frame,
> {
    if mapped {
        Some(
            Frame {
                inner,
                avframe,
                source: FrameSource::AVFrame {
                    gpu,
                    texture: if tex != 0 {
                        Some(Texture { handle: tex, gpu })
                    } else {
                        None
                    },
                },
            },
        )
    } else {
        None
    }
}

impl Gpu {
    /// The texture handle to offer libplacebo as backing for an imported frame:
    /// the given texture's, or null.
    pub fn backing_handle(backing_texture: &Option<Texture>) -> (r: usize)
        ensures
            r == match backing_texture {
                Some(t) => t.handle,
                None => 0,
            },
    {
        match backing_texture {
            Some(t) => t.handle,
            None => 0,
        }
    }

    /// Wraps the outcome of mapping an `AVFrame` (`pl_map_avframe_ex`):
    /// whether it was mapped, the texture slot after the call, the `pl_frame`
    /// that holds the mapping and the `AVFrame` mapped.
    pub fn frame_from_mapping(&self, mapped: bool, tex: usize, inner: usize, avframe: usize) -> (r:
        Option<Frame>)
        ensures
            r == mapped_frame(*self, mapped, tex, inner, avframe),
    {
        if mapped {
            let texture = if tex != 0 {
                Some(Texture { handle: tex, gpu: *self })
            } else {
                None
            };
            Some(
                Frame {
                    inner,
                    avframe,
                    source: FrameSource::AVFrame { gpu: *self, texture },
                },
            )
        } else {
            None
        }
    }
}

/// Retaining a mapped frame gives back the very texture libplacebo mapped it
/// into, on the same GPU, and nothing when it used none.
pub proof fn drop_retain_returns_mapped_texture(
    gpu: Gpu,
    tex: usize,
    inner: usize,
    avframe: usize,
)
    ensures
        frame_texture(mapped_frame(gpu, true, tex, inner, avframe).unwrap()) == if tex != 0 {
            Some(Texture { handle: tex, gpu })
        } else {
            None
        },
{
}

} // verus!
