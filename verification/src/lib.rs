//! Verified core of a modular real-time engine: asset decoding (WAV, BMP,
//! PNG framing, OBJ, shader text, compressed audio through symphonia, the
//! Opus identification header), audio/image signature detection, the
//! tag-markup DSL parser, streaming-decode bookkeeping, audio-device
//! configuration choice, compute and GPU dispatch bookkeeping, logging
//! and crash-report state, mesh and icosphere topology, stage planning,
//! the archetype index of the entity-component store, the WGSL shader
//! text, and the blade products of projective geometric algebra.
#![allow(unused_imports)]

pub mod asset;
pub mod audio_format;
pub mod bmp;
pub mod bytes;
pub mod compute;
pub mod text;
pub mod image;
pub mod logging;
pub mod numeric_text;
pub mod obj;
pub mod wav;
pub mod dsl;
pub mod tag;
pub mod streaming;
pub mod audio_device;
pub mod gpu;
pub mod graphics;
pub mod mesh;
pub mod engine;
pub mod ga;
pub mod ecs;
pub mod compressed;
pub mod opus;
pub mod shaders;
