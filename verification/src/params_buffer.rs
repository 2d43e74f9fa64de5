//! The buffer that takes the parameters of a kind of node to the graphics device.
use bevy_math::UVec4;
use bevy_render::render_resource::DynamicUniformBuffer;
use vstd::prelude::*;

verus! {

/// A `DynamicUniformBuffer` of parameters, each as the vector of its four words, which a shader
/// reads as it would read four numbers. Its copy on the device is written and bound through the
/// field.
#[verifier::external_body]
pub struct UiParamsUniforms {
    pub uniforms: DynamicUniformBuffer<UVec4>,
}

/// The parameters that a buffer holds in memory, in their order.
pub uninterp spec fn params_words(buffer: UiParamsUniforms) -> Seq<[u32; 4]>;

/// The label of a buffer.
pub uninterp spec fn params_label(buffer: UiParamsUniforms) -> Option<Seq<char>>;

impl UiParamsUniforms {
    /// Calls `DynamicUniformBuffer::default`: the new buffer holds nothing and has no label.
    #[verifier::external_body]
    pub(crate) fn new() -> (r: UiParamsUniforms)
        ensures
            params_words(r) == Seq::<[u32; 4]>::empty(),
            params_label(r) is None,
    {
        UiParamsUniforms { uniforms: DynamicUniformBuffer::default() }
    }

    /// Calls `DynamicUniformBuffer::push`: the parameters follow those that were there, and the
    /// label does not change.
    #[verifier::external_body]
    pub(crate) fn push(&mut self, words: [u32; 4])
        ensures
            params_words(*final(self)) == params_words(*old(self)).push(words),
            params_label(*final(self)) == params_label(*old(self)),
    {
        self.uniforms.push(UVec4::from(words));
    }

    /// Calls `DynamicUniformBuffer::set_label`: the buffer has the label, and what it holds does
    /// not change.
    #[verifier::external_body]
    pub(crate) fn set_label(&mut self, label: &'static str)
        ensures
            params_label(*final(self)) == Some(label@),
            params_words(*final(self)) == params_words(*old(self)),
    {
        self.uniforms.set_label(Some(label));
    }
}

} // verus!
