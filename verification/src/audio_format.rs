//! Audio container/codec identification by leading magic bytes (never by
//! file extension), the per-format signature guard, and the sniffing
//! front door's routing.
use vstd::prelude::*;
use crate::asset::{AudioData, AudioView, Decoder, result_view};
use crate::bytes::{DecodeError, DecodeErrorView};
use crate::wav::{WavDecoder, wav_decoded};
use crate::compressed::{decode_with_symphonia, symphonia_decoded};

verus! {

/// An audio container/codec identified from leading magic bytes.
#[derive(Debug, Clone, Copy, PartialEq, Eq, Structural)]
pub enum AudioFormat {
    /// RIFF/WAVE (`RIFF....WAVE`).
    Wav,
    /// MPEG Layer III: an `ID3` tag or an MPEG frame-sync header.
    Mp3,
    /// OGG container whose first packet is `\x01vorbis`.
    OggVorbis,
    /// OGG container whose first packet is `OpusHead`.
    OggOpus,
    /// Native FLAC (`fLaC`).
    Flac,
}

/// Whether `b[o..]` begins with `t`.
pub open spec fn starts_with_at(b: Seq<u8>, o: int, t: Seq<u8>) -> bool {
    0 <= o && o + t.len() <= b.len() && b.subrange(o, o + t.len()) == t
}

pub open spec fn magic_riff() -> Seq<u8> { seq![0x52u8, 0x49u8, 0x46u8, 0x46u8] }
pub open spec fn magic_wave() -> Seq<u8> { seq![0x57u8, 0x41u8, 0x56u8, 0x45u8] }
pub open spec fn magic_flac() -> Seq<u8> { seq![0x66u8, 0x4cu8, 0x61u8, 0x43u8] }
pub open spec fn magic_ogg() -> Seq<u8> { seq![0x4fu8, 0x67u8, 0x67u8, 0x53u8] }
pub open spec fn magic_id3() -> Seq<u8> { seq![0x49u8, 0x44u8, 0x33u8] }
/// `OpusHead`
pub open spec fn magic_opus_head() -> Seq<u8> {
    seq![0x4fu8, 0x70u8, 0x75u8, 0x73u8, 0x48u8, 0x65u8, 0x61u8, 0x64u8]
}
/// `\x01vorbis`
pub open spec fn magic_vorbis() -> Seq<u8> {
    seq![0x01u8, 0x76u8, 0x6fu8, 0x72u8, 0x62u8, 0x69u8, 0x73u8]
}

/// Where the first OGG packet's payload begins: after the 27-byte page
/// header and the segment table whose length is byte 26.
pub open spec fn ogg_payload_start(b: Seq<u8>) -> int {
    27 + b[26]
}

/// The format `b` is identified as.
pub open spec fn audio_format_of(b: Seq<u8>) -> Option<AudioFormat> {
    if b.len() >= 12 && starts_with_at(b, 0, magic_riff()) && starts_with_at(b, 8, magic_wave()) {
        Some(AudioFormat::Wav)
    } else if starts_with_at(b, 0, magic_flac()) {
        Some(AudioFormat::Flac)
    } else if starts_with_at(b, 0, magic_ogg()) {
        if b.len() > 26 && ogg_payload_start(b) <= b.len() {
            if starts_with_at(b, ogg_payload_start(b), magic_opus_head()) {
                Some(AudioFormat::OggOpus)
            } else if starts_with_at(b, ogg_payload_start(b), magic_vorbis()) {
                Some(AudioFormat::OggVorbis)
            } else {
                None
            }
        } else {
            None
        }
    } else if starts_with_at(b, 0, magic_id3()) {
        Some(AudioFormat::Mp3)
    } else if b.len() >= 2 && b[0] == 0xff && b[1] & 0xe0 == 0xe0 && b[1] & 0x06 == 0x02 {
        Some(AudioFormat::Mp3)
    } else {
        None
    }
}

fn match4(bytes: &[u8], o: usize, t0: u8, t1: u8, t2: u8, t3: u8) -> (r: bool)
    ensures
        r == starts_with_at(bytes@, o as int, seq![t0, t1, t2, t3]),
{
    if bytes.len() < 4 || o > bytes.len() - 4 {
        return false;
    }
    let r = bytes[o] == t0 && bytes[o + 1] == t1 && bytes[o + 2] == t2 && bytes[o + 3] == t3;
    assert(r == (bytes@.subrange(o as int, o + 4) =~= seq![t0, t1, t2, t3]));
    r
}

pub(crate) fn match_opus_head(bytes: &[u8], o: usize) -> (r: bool)
    ensures
        r == starts_with_at(bytes@, o as int, magic_opus_head()),
{
    if bytes.len() < 8 || o > bytes.len() - 8 {
        return false;
    }
    let r = bytes[o] == 0x4f && bytes[o + 1] == 0x70 && bytes[o + 2] == 0x75 && bytes[o + 3] == 0x73
        && bytes[o + 4] == 0x48 && bytes[o + 5] == 0x65 && bytes[o + 6] == 0x61 && bytes[o + 7] == 0x64;
    assert(r == (bytes@.subrange(o as int, o + 8) =~= magic_opus_head()));
    r
}

fn match_vorbis(bytes: &[u8], o: usize) -> (r: bool)
    ensures
        r == starts_with_at(bytes@, o as int, magic_vorbis()),
{
    if bytes.len() < 7 || o > bytes.len() - 7 {
        return false;
    }
    let r = bytes[o] == 0x01 && bytes[o + 1] == 0x76 && bytes[o + 2] == 0x6f && bytes[o + 3] == 0x72
        && bytes[o + 4] == 0x62 && bytes[o + 5] == 0x69 && bytes[o + 6] == 0x73;
    assert(r == (bytes@.subrange(o as int, o + 7) =~= magic_vorbis()));
    r
}

impl AudioFormat {
    /// Identifies the format from the buffer's leading bytes; `None` when
    /// no known signature matches.
    pub fn detect(bytes: &[u8]) -> (r: Option<AudioFormat>)
        ensures
            r == audio_format_of(bytes@),
    {
        if bytes.len() >= 12 && match4(bytes, 0, 0x52, 0x49, 0x46, 0x46) && match4(bytes, 8, 0x57, 0x41, 0x56, 0x45) {
            return Some(AudioFormat::Wav);
        }
        if match4(bytes, 0, 0x66, 0x4c, 0x61, 0x43) {
            return Some(AudioFormat::Flac);
        }
        if match4(bytes, 0, 0x4f, 0x67, 0x67, 0x53) {
            if bytes.len() > 26 {
                let start: usize = 27 + bytes[26] as usize;
                if start <= bytes.len() {
                    if match_opus_head(bytes, start) {
                        return Some(AudioFormat::OggOpus);
                    }
                    if match_vorbis(bytes, start) {
                        return Some(AudioFormat::OggVorbis);
                    }
                }
            }
            return None;
        }
        if bytes.len() >= 3 && bytes[0] == 0x49 && bytes[1] == 0x44 && bytes[2] == 0x33 {
            assert(bytes@.subrange(0, 3) =~= magic_id3());
            return Some(AudioFormat::Mp3);
        }
        assert(bytes@.len() >= 3 ==> (starts_with_at(bytes@, 0, magic_id3()) ==> (bytes@[0] == 0x49 && bytes@[1] == 0x44 && bytes@[2] == 0x33))) by {
            if bytes@.len() >= 3 && starts_with_at(bytes@, 0, magic_id3()) {
                assert(bytes@.subrange(0, 3)[0] == bytes@[0]);
                assert(bytes@.subrange(0, 3)[1] == bytes@[1]);
                assert(bytes@.subrange(0, 3)[2] == bytes@[2]);
            }
        }
        if bytes.len() >= 2 && bytes[0] == 0xff && bytes[1] & 0xe0 == 0xe0 && bytes[1] & 0x06 == 0x02 {
            return Some(AudioFormat::Mp3);
        }
        None
    }
}

/// The signature text a format's guard names when it rejects bytes.
pub open spec fn expected_signature(f: AudioFormat) -> &'static str {
    match f {
        AudioFormat::Wav => "RIFF/WAVE",
        AudioFormat::Mp3 => "ID3 or MPEG frame sync",
        AudioFormat::OggVorbis => "OggS + \\x01vorbis",
        AudioFormat::OggOpus => "OggS + OpusHead",
        AudioFormat::Flac => "fLaC",
    }
}

/// Guards that `bytes` really carries `expected`'s signature before
/// they are handed to a codec: `Ok` exactly when detection names
/// `expected`, `BadMagic` otherwise.
pub fn expect_format(bytes: &[u8], expected: AudioFormat) -> (r: Result<(), DecodeError>)
    ensures
        r is Ok <==> audio_format_of(bytes@) == Some(expected),
        r matches Err(e) ==> e@ == (DecodeErrorView::BadMagic { expected: expected_signature(expected) }),
{
    match AudioFormat::detect(bytes) {
        Some(found) if found == expected => Ok(()),
        _ => Err(DecodeError::BadMagic {
            expected: match expected {
                AudioFormat::Wav => "RIFF/WAVE",
                AudioFormat::Mp3 => "ID3 or MPEG frame sync",
                AudioFormat::OggVorbis => "OggS + \\x01vorbis",
                AudioFormat::OggOpus => "OggS + OpusHead",
                AudioFormat::Flac => "fLaC",
            },
        }),
    }
}

/// Decodes MPEG Layer III; the signature guard lives here, the codec is
/// an outside library's.
#[derive(Debug, Default)]
pub struct Mp3Decoder;

/// Decodes OGG/Vorbis; the signature guard lives here.
#[derive(Debug, Default)]
pub struct VorbisDecoder;

/// Decodes native FLAC; the signature guard lives here.
#[derive(Debug, Default)]
pub struct FlacDecoder;

/// Decodes OGG/Opus (48 kHz output); the signature guard lives here.
#[derive(Debug, Default)]
pub struct OpusDecoder;

impl Mp3Decoder {
    /// `Ok` when `bytes` carry an MP3 signature.
    pub fn check(&self, bytes: &[u8]) -> (r: Result<(), DecodeError>)
        ensures
            r is Ok <==> audio_format_of(bytes@) == Some(AudioFormat::Mp3),
            r matches Err(e) ==> e@ == (DecodeErrorView::BadMagic { expected: expected_signature(AudioFormat::Mp3) }),
    {
        expect_format(bytes, AudioFormat::Mp3)
    }
}

impl VorbisDecoder {
    /// `Ok` when `bytes` carry an OGG/Vorbis signature.
    pub fn check(&self, bytes: &[u8]) -> (r: Result<(), DecodeError>)
        ensures
            r is Ok <==> audio_format_of(bytes@) == Some(AudioFormat::OggVorbis),
            r matches Err(e) ==> e@ == (DecodeErrorView::BadMagic { expected: expected_signature(AudioFormat::OggVorbis) }),
    {
        expect_format(bytes, AudioFormat::OggVorbis)
    }
}

impl FlacDecoder {
    /// `Ok` when `bytes` carry a FLAC signature.
    pub fn check(&self, bytes: &[u8]) -> (r: Result<(), DecodeError>)
        ensures
            r is Ok <==> audio_format_of(bytes@) == Some(AudioFormat::Flac),
            r matches Err(e) ==> e@ == (DecodeErrorView::BadMagic { expected: expected_signature(AudioFormat::Flac) }),
    {
        expect_format(bytes, AudioFormat::Flac)
    }
}

impl OpusDecoder {
    /// `Ok` when `bytes` carry an OGG/Opus signature.
    pub fn check(&self, bytes: &[u8]) -> (r: Result<(), DecodeError>)
        ensures
            r is Ok <==> audio_format_of(bytes@) == Some(AudioFormat::OggOpus),
            r matches Err(e) ==> e@ == (DecodeErrorView::BadMagic { expected: expected_signature(AudioFormat::OggOpus) }),
    {
        expect_format(bytes, AudioFormat::OggOpus)
    }
}

impl Decoder<AudioData> for Mp3Decoder {
    type Error = DecodeError;

    /// The signature guard, then the track decoded through symphonia.
    fn decode(&self, bytes: &[u8]) -> (r: Result<AudioData, DecodeError>)
        ensures
            audio_format_of(bytes@) != Some(AudioFormat::Mp3) ==> (r matches Err(e) && e@
                == (DecodeErrorView::BadMagic { expected: expected_signature(AudioFormat::Mp3) })),
            audio_format_of(bytes@) == Some(AudioFormat::Mp3) ==> result_view(r) == symphonia_decoded(bytes@),
    {
        expect_format(bytes, AudioFormat::Mp3)?;
        decode_with_symphonia(bytes)
    }
}

impl Decoder<AudioData> for VorbisDecoder {
    type Error = DecodeError;

    /// The signature guard, then the track decoded through symphonia.
    fn decode(&self, bytes: &[u8]) -> (r: Result<AudioData, DecodeError>)
        ensures
            audio_format_of(bytes@) != Some(AudioFormat::OggVorbis) ==> (r matches Err(e) && e@
                == (DecodeErrorView::BadMagic { expected: expected_signature(AudioFormat::OggVorbis) })),
            audio_format_of(bytes@) == Some(AudioFormat::OggVorbis) ==> result_view(r) == symphonia_decoded(bytes@),
    {
        expect_format(bytes, AudioFormat::OggVorbis)?;
        decode_with_symphonia(bytes)
    }
}

impl Decoder<AudioData> for FlacDecoder {
    type Error = DecodeError;

    /// The signature guard, then the track decoded through symphonia.
    fn decode(&self, bytes: &[u8]) -> (r: Result<AudioData, DecodeError>)
        ensures
            audio_format_of(bytes@) != Some(AudioFormat::Flac) ==> (r matches Err(e) && e@
                == (DecodeErrorView::BadMagic { expected: expected_signature(AudioFormat::Flac) })),
            audio_format_of(bytes@) == Some(AudioFormat::Flac) ==> result_view(r) == symphonia_decoded(bytes@),
    {
        expect_format(bytes, AudioFormat::Flac)?;
        decode_with_symphonia(bytes)
    }
}

impl Decoder<AudioData> for OpusDecoder {
    type Error = DecodeError;

    /// The signature guard, then the track decoded through symphonia.
    fn decode(&self, bytes: &[u8]) -> (r: Result<AudioData, DecodeError>)
        ensures
            audio_format_of(bytes@) != Some(AudioFormat::OggOpus) ==> (r matches Err(e) && e@
                == (DecodeErrorView::BadMagic { expected: expected_signature(AudioFormat::OggOpus) })),
            audio_format_of(bytes@) == Some(AudioFormat::OggOpus) ==> result_view(r) == symphonia_decoded(bytes@),
    {
        expect_format(bytes, AudioFormat::OggOpus)?;
        decode_with_symphonia(bytes)
    }
}

/// The sniffing front door: detect, then dispatch to the decoder for
/// the detected format.
#[derive(Debug, Default)]
pub struct AnyAudioDecoder;

/// The error for bytes whose signature matches no known format.
pub open spec fn unrecognized_audio() -> DecodeErrorView {
    DecodeErrorView::Unsupported("unrecognized audio signature (not WAV/MP3/OGG-Vorbis/OGG-Opus/FLAC)")
}

impl AnyAudioDecoder {
    /// The detected format for `bytes`, if any.
    pub fn sniff(&self, bytes: &[u8]) -> (r: Option<AudioFormat>)
        ensures
            r == audio_format_of(bytes@),
    {
        AudioFormat::detect(bytes)
    }

    /// The format whose decoder the front door dispatches to, or the
    /// `Unsupported` error for an unknown signature.
    pub fn route(&self, bytes: &[u8]) -> (r: Result<AudioFormat, DecodeError>)
        ensures
            audio_format_of(bytes@) matches Some(f) ==> r == Ok::<AudioFormat, DecodeError>(f),
            audio_format_of(bytes@) is None ==> (r matches Err(e) && e@ == unrecognized_audio()),
    {
        match AudioFormat::detect(bytes) {
            Some(f) => Ok(f),
            None => Err(DecodeError::Unsupported(
                "unrecognized audio signature (not WAV/MP3/OGG-Vorbis/OGG-Opus/FLAC)",
            )),
        }
    }
}

impl Decoder<AudioData> for AnyAudioDecoder {
    type Error = DecodeError;

    /// Detects the format by signature, then decodes with its decoder.
    fn decode(&self, bytes: &[u8]) -> (r: Result<AudioData, DecodeError>)
        ensures
            audio_format_of(bytes@) is None ==> (r matches Err(e) && e@ == unrecognized_audio()),
            audio_format_of(bytes@) == Some(AudioFormat::Wav) ==> result_view(r) == wav_decoded(bytes@),
            audio_format_of(bytes@) matches Some(f) && f != AudioFormat::Wav ==> result_view(r) == symphonia_decoded(bytes@),
    {
        match self.route(bytes)? {
            AudioFormat::Wav => WavDecoder.decode(bytes),
            AudioFormat::Mp3 => Mp3Decoder.decode(bytes),
            AudioFormat::OggVorbis => VorbisDecoder.decode(bytes),
            AudioFormat::OggOpus => OpusDecoder.decode(bytes),
            AudioFormat::Flac => FlacDecoder.decode(bytes),
        }
    }
}

} // verus!
