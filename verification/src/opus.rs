//! The OGG/Opus identification header and the trimming of decoded Opus
//! output: mapping family 0 only (mono or stereo), output always at
//! 48 kHz, the header's pre-skip dropped from the front.
use vstd::prelude::*;
use crate::asset::{AudioData, AudioView, result_view};
use crate::audio_format::{magic_opus_head, match_opus_head, starts_with_at};
use crate::bytes::{DecodeError, DecodeErrorView};

verus! {

/// The channel count and pre-skip (in samples per channel) of the first
/// OGG packet `b`, which must be an `OpusHead` of mapping family 0.
pub open spec fn opus_head_spec(b: Seq<u8>) -> Result<(u16, u16), DecodeErrorView> {
    if b.len() < 19 || !starts_with_at(b, 0, magic_opus_head()) {
        Err(DecodeErrorView::Malformed("first OGG packet is not OpusHead"))
    } else if b[18] != 0 {
        Err(DecodeErrorView::Unsupported("Opus mapping family other than 0 (mono/stereo)"))
    } else if b[9] != 1 && b[9] != 2 {
        Err(DecodeErrorView::Malformed("OpusHead channel count invalid for mapping family 0"))
    } else {
        Ok((b[9] as u16, (b[10] as int + 256 * b[11] as int) as u16))
    }
}

/// Reads the identification header of an OGG/Opus stream.
pub fn opus_head(packet: &[u8]) -> (r: Result<(u16, u16), DecodeError>)
    ensures
        result_view(r) == opus_head_spec(packet@),
{
    if packet.len() < 19 || !match_opus_head(packet, 0) {
        return Err(DecodeError::Malformed("first OGG packet is not OpusHead"));
    }
    if packet[18] != 0 {
        return Err(DecodeError::Unsupported("Opus mapping family other than 0 (mono/stereo)"));
    }
    let channels = packet[9];
    if channels != 1 && channels != 2 {
        return Err(DecodeError::Malformed("OpusHead channel count invalid for mapping family 0"));
    }
    let pre_skip: u16 = (packet[10] as u16) + 256 * (packet[11] as u16);
    Ok((channels as u16, pre_skip))
}

/// Whether an OGG packet is the `OpusTags` comment header.
pub open spec fn is_opus_tags_spec(b: Seq<u8>) -> bool {
    starts_with_at(b, 0, seq![0x4fu8, 0x70u8, 0x75u8, 0x73u8, 0x54u8, 0x61u8, 0x67u8, 0x73u8])
}

/// Whether an OGG packet is the `OpusTags` comment header, which a
/// decoder skips.
pub fn is_opus_tags(packet: &[u8]) -> (r: bool)
    ensures
        r == is_opus_tags_spec(packet@),
{
    if packet.len() < 8 {
        return false;
    }
    let r = packet[0] == 0x4f && packet[1] == 0x70 && packet[2] == 0x75 && packet[3] == 0x73 && packet[4] == 0x54
        && packet[5] == 0x61 && packet[6] == 0x67 && packet[7] == 0x73;
    assert(r == (packet@.subrange(0, 8) =~= seq![0x4fu8, 0x70u8, 0x75u8, 0x73u8, 0x54u8, 0x61u8, 0x67u8, 0x73u8]));
    r
}

/// Decoded Opus output with the first `pre_skip` frames dropped: at
/// 48 kHz; nothing left is an error.
pub open spec fn opus_trimmed(samples: Seq<i16>, channels: u16, pre_skip: u16) -> Result<AudioView, DecodeErrorView> {
    let want = pre_skip as int * channels as int;
    let skip = if want < samples.len() { want } else { samples.len() as int };
    if samples.len() - skip == 0 {
        Err(DecodeErrorView::Malformed("no decodable Opus packets"))
    } else {
        Ok(AudioView { sample_rate: 48000, channels, samples: samples.skip(skip) })
    }
}

/// Drops the pre-skip from the front of decoded interleaved Opus output.
pub fn trim_opus(samples: Vec<i16>, channels: u16, pre_skip: u16) -> (r: Result<AudioData, DecodeError>)
    ensures
        result_view(r) == opus_trimmed(samples@, channels, pre_skip),
{
    assert((pre_skip as u64) * (channels as u64) <= 0xFFFF * 0xFFFF) by (nonlinear_arith)
        requires
            pre_skip <= 0xFFFF,
            channels <= 0xFFFF,
    ;
    let want: u64 = (pre_skip as u64) * (channels as u64);
    let len = samples.len();
    let skip: usize = if want < len as u64 { want as usize } else { len };
    if len - skip == 0 {
        return Err(DecodeError::Malformed("no decodable Opus packets"));
    }
    let mut out: Vec<i16> = Vec::new();
    let mut i: usize = skip;
    while i < len
        invariant
            skip <= i <= len == samples@.len(),
            out@ == samples@.subrange(skip as int, i as int),
        decreases len - i,
    {
        out.push(samples[i]);
        i = i + 1;
        assert(out@ =~= samples@.subrange(skip as int, i as int));
    }
    assert(out@ =~= samples@.skip(skip as int));
    Ok(AudioData { sample_rate: 48000, channels, samples: out })
}

} // verus!
