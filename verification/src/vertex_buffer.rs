//! The buffer that takes the vertices of a frame to the graphics device.
use bevy_render::render_resource::{BufferUsages, BufferVec};
use vstd::prelude::*;

verus! {

/// The usage of a buffer that holds vertices, as a bit among those of `BufferUsages`.
pub const VERTEX_USAGE: u32 = 0x20;

/// All bits of `BufferUsages`.
pub const ALL_USAGES: u32 = 0x1ff;

/// A `BufferVec` of vertices, each as its nine words. Its copy on the device is written and read
/// through the field.
#[verifier::external_body]
pub struct VertexBuffer {
    pub buffer: BufferVec<[u32; 9]>,
}

/// The vertices that a buffer holds in memory, in their order.
pub uninterp spec fn vertex_words(buffer: VertexBuffer) -> Seq<[u32; 9]>;

/// The usage that a buffer was made for, as the bits of its `BufferUsages`.
pub uninterp spec fn vertex_usage(buffer: VertexBuffer) -> u32;

impl VertexBuffer {
    /// Calls `BufferVec::new`: the new buffer holds nothing, and it has the usage given, whose
    /// bits are among those of `BufferUsages`.
    #[verifier::external_body]
    pub(crate) fn new(usage: u32) -> (r: VertexBuffer)
        requires
            usage <= ALL_USAGES,
        ensures
            vertex_words(r) == Seq::<[u32; 9]>::empty(),
            vertex_usage(r) == usage,
    {
        VertexBuffer { buffer: BufferVec::new(BufferUsages::from_bits_truncate(usage)) }
    }

    /// Calls `BufferVec::clear`: the buffer then holds nothing, and keeps its usage.
    #[verifier::external_body]
    pub(crate) fn clear(&mut self)
        ensures
            vertex_words(*final(self)) == Seq::<[u32; 9]>::empty(),
            vertex_usage(*final(self)) == vertex_usage(*old(self)),
    {
        self.buffer.clear();
    }

    /// Calls `BufferVec::push`: the vertex follows those that were there, its index is returned,
    /// and the buffer keeps its usage.
    #[verifier::external_body]
    pub(crate) fn push(&mut self, vertex: [u32; 9]) -> (r: usize)
        ensures
            vertex_words(*final(self)) == vertex_words(*old(self)).push(vertex),
            vertex_usage(*final(self)) == vertex_usage(*old(self)),
            r == vertex_words(*old(self)).len(),
    {
        self.buffer.push(vertex)
    }
}

} // verus!
