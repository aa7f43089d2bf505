//! Decoded asset values and the `Decoder` interface every format implements.
use vstd::prelude::*;

verus! {

/// Decodes raw file bytes into a CPU-side representation of `T`.
pub trait Decoder<T> {
    type Error;

    fn decode(&self, bytes: &[u8]) -> Result<T, Self::Error>;
}

/// Decoded image data: RGBA8 pixels, row-major, top-to-bottom.
#[derive(Debug, Clone, Default, PartialEq)]
pub struct ImageData {
    pub width: u32,
    pub height: u32,
    pub pixels: Vec<u8>,
}

pub struct ImageView {
    pub width: u32,
    pub height: u32,
    pub pixels: Seq<u8>,
}

impl View for ImageData {
    type V = ImageView;

    open spec fn view(&self) -> ImageView {
        ImageView { width: self.width, height: self.height, pixels: self.pixels@ }
    }
}

/// Decoded PCM audio: interleaved 16-bit signed samples.
#[derive(Debug, Clone, Default, PartialEq)]
pub struct AudioData {
    pub sample_rate: u32,
    pub channels: u16,
    pub samples: Vec<i16>,
}

pub struct AudioView {
    pub sample_rate: u32,
    pub channels: u16,
    pub samples: Seq<i16>,
}

impl View for AudioData {
    type V = AudioView;

    open spec fn view(&self) -> AudioView {
        AudioView { sample_rate: self.sample_rate, channels: self.channels, samples: self.samples@ }
    }
}

/// Shader source text, checked only for being UTF-8.
#[derive(Debug, Clone, Default, PartialEq)]
pub struct ShaderSource {
    pub source: String,
}

/// A `Result` with both sides taken by their views.
pub open spec fn result_view<T: View, E: View>(r: Result<T, E>) -> Result<T::V, E::V> {
    match r {
        Ok(t) => Ok(t@),
        Err(e) => Err(e@),
    }
}

} // verus!
