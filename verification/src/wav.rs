//! PCM WAV: RIFF chunk walk, `fmt ` with PCM format 1, 16-bit samples.
use vstd::prelude::*;
use crate::asset::{AudioData, AudioView, Decoder, result_view};
use crate::bytes::{DecodeError, DecodeErrorView, le_u16, le_u32, need, u16_le, u32_le};

verus! {

/// Decodes PCM WAV (`fmt ` chunk with `audioFormat == 1`, 16-bit samples
/// only). Chunk-based, so it tolerates extra chunks before `data`.
#[derive(Debug, Default)]
pub struct WavDecoder;

/// Whether `b[o..o+4]` spells the four bytes `t`.
pub open spec fn has_tag(b: Seq<u8>, o: int, t: Seq<u8>) -> bool {
    b.subrange(o, o + 4) == t
}

pub open spec fn tag_riff() -> Seq<u8> { seq![0x52u8, 0x49u8, 0x46u8, 0x46u8] }
pub open spec fn tag_wave() -> Seq<u8> { seq![0x57u8, 0x41u8, 0x56u8, 0x45u8] }
pub open spec fn tag_fmt() -> Seq<u8> { seq![0x66u8, 0x6du8, 0x74u8, 0x20u8] }
pub open spec fn tag_data() -> Seq<u8> { seq![0x64u8, 0x61u8, 0x74u8, 0x61u8] }

/// `(channels, sample_rate, bits_per_sample)` from a `fmt ` body.
pub type FmtInfo = (u16, u32, u16);

/// Walks the RIFF chunks from `off` on, carrying the last `fmt ` info and
/// the last `data` body (start, length) seen so far.
pub open spec fn wav_walk(b: Seq<u8>, off: int, fmt: Option<FmtInfo>, data: Option<(int, int)>)
    -> Result<(Option<FmtInfo>, Option<(int, int)>), DecodeErrorView>
    decreases b.len() + 1 - off,
{
    if off < 0 || off + 8 > b.len() {
        Ok((fmt, data))
    } else {
        let size = le_u32(b, off + 4);
        let body = off + 8;
        if b.len() < body + size {
            Err(DecodeErrorView::TooShort {
                needed: vstd::wrapping::usize_specs::wrapping_add(body as usize, size as usize),
                got: b.len() as usize,
            })
        } else {
            let next = body + size + size % 2;
            if has_tag(b, off, tag_fmt()) {
                if size < 16 {
                    Err(DecodeErrorView::TooShort { needed: 16, got: size as usize })
                } else if le_u16(b, body) != 1 {
                    Err(DecodeErrorView::Unsupported("WAV audioFormat other than PCM"))
                } else {
                    let info: FmtInfo = (
                        le_u16(b, body + 2) as u16,
                        le_u32(b, body + 4) as u32,
                        le_u16(b, body + 14) as u16,
                    );
                    wav_walk(b, next, Some(info), data)
                }
            } else if has_tag(b, off, tag_data()) {
                wav_walk(b, next, fmt, Some((body, size)))
            } else {
                wav_walk(b, next, fmt, data)
            }
        }
    }
}

/// The signed 16-bit little-endian sample at `b[o..o+2]`.
pub open spec fn le_i16(b: Seq<u8>, o: int) -> i16 {
    if le_u16(b, o) < 0x8000 {
        le_u16(b, o) as i16
    } else {
        (le_u16(b, o) - 0x10000) as i16
    }
}

/// The samples of a `data` body starting at `start` with `len` bytes.
pub open spec fn pcm16_samples(b: Seq<u8>, start: int, len: int) -> Seq<i16> {
    Seq::new((len / 2) as nat, |i: int| le_i16(b, start + 2 * i))
}

/// What decoding `b` as WAV yields.
pub open spec fn wav_decoded(b: Seq<u8>) -> Result<AudioView, DecodeErrorView> {
    if b.len() < 12 {
        Err(DecodeErrorView::TooShort { needed: 12, got: b.len() as usize })
    } else if !has_tag(b, 0, tag_riff()) {
        Err(DecodeErrorView::BadMagic { expected: "RIFF" })
    } else if !has_tag(b, 8, tag_wave()) {
        Err(DecodeErrorView::BadMagic { expected: "WAVE" })
    } else {
        match wav_walk(b, 12, None, None) {
            Err(e) => Err(e),
            Ok((None, _)) => Err(DecodeErrorView::Malformed("missing fmt chunk")),
            Ok((Some(_), None)) => Err(DecodeErrorView::Malformed("missing data chunk")),
            Ok((Some((channels, rate, bits)), Some((start, len)))) => {
                if bits != 16 {
                    Err(DecodeErrorView::Unsupported("WAV bit depth other than 16"))
                } else if len % 2 != 0 {
                    Err(DecodeErrorView::Malformed("data chunk length not a multiple of sample size"))
                } else {
                    Ok(AudioView { sample_rate: rate, channels, samples: pcm16_samples(b, start, len) })
                }
            }
        }
    }
}

fn tag_at(bytes: &[u8], off: usize, t0: u8, t1: u8, t2: u8, t3: u8) -> (r: bool)
    requires
        off + 4 <= bytes@.len(),
    ensures
        r == has_tag(bytes@, off as int, seq![t0, t1, t2, t3]),
{
    let r = bytes[off] == t0 && bytes[off + 1] == t1 && bytes[off + 2] == t2 && bytes[off + 3] == t3;
    assert(r == (bytes@.subrange(off as int, off + 4) =~= seq![t0, t1, t2, t3]));
    r
}

fn i16_le(bytes: &[u8], offset: usize) -> (v: i16)
    requires
        offset + 2 <= bytes@.len(),
    ensures
        v == le_i16(bytes@, offset as int),
{
    let u = u16_le(bytes, offset);
    if u < 0x8000 {
        u as i16
    } else {
        let below: u16 = 0xFFFF - u;
        -(below as i16) - 1
    }
}

fn pcm16(bytes: &[u8], start: usize, len: usize) -> (out: Vec<i16>)
    requires
        start + len <= bytes@.len(),
    ensures
        out@ == pcm16_samples(bytes@, start as int, len as int),
{
    let mut out: Vec<i16> = Vec::new();
    let n = len / 2;
    let mut i: usize = 0;
    let total = bytes.len();
    while i < n
        invariant
            total == bytes@.len(),
            n == len / 2,
            start + len <= bytes@.len(),
            i <= n,
            out@ =~= pcm16_samples(bytes@, start as int, len as int).take(i as int),
        decreases n - i,
    {
        assert(2 * i + 2 <= len) by (nonlinear_arith)
            requires
                i < n,
                n == len / 2,
        ;
        let two_i: usize = i + i;
        let off: usize = start + two_i;
        let s = i16_le(bytes, off);
        out.push(s);
        i = i + 1;
    }
    out
}

impl Decoder<AudioData> for WavDecoder {
    type Error = DecodeError;

    fn decode(&self, bytes: &[u8]) -> (r: Result<AudioData, DecodeError>)
        ensures
            result_view(r) == wav_decoded(bytes@),
    {
        need(bytes, 12)?;
        if !tag_at(bytes, 0, 0x52, 0x49, 0x46, 0x46) {
            return Err(DecodeError::BadMagic { expected: "RIFF" });
        }
        if !tag_at(bytes, 8, 0x57, 0x41, 0x56, 0x45) {
            return Err(DecodeError::BadMagic { expected: "WAVE" });
        }
        assert(tag_riff() == seq![0x52u8, 0x49u8, 0x46u8, 0x46u8]);
        let ghost b = bytes@;
        let mut fmt: Option<FmtInfo> = None;
        let mut data: Option<(usize, usize)> = None;
        let mut offset: usize = 12;
        while bytes.len() >= 8 && offset <= bytes.len() - 8
            invariant
                b == bytes@,
                b.len() >= 12,
                has_tag(b, 0, tag_riff()),
                has_tag(b, 8, tag_wave()),
                12 <= offset,
                offset <= bytes@.len(),
                data matches Some((s, l)) ==> s + l <= bytes@.len(),
                wav_walk(b, 12, None, None) == wav_walk(
                    b,
                    offset as int,
                    fmt,
                    match data { Some((s, l)) => Some((s as int, l as int)), None => None },
                ),
            decreases bytes@.len() - offset,
        {
            let ghost prev = match data { Some((s, l)) => Some((s as int, l as int)), None => None };
            let ghost walk_before = wav_walk(b, offset as int, fmt, prev);
            let chunk_size = u32_le(bytes, offset + 4) as usize;
            let body_start = offset + 8;
            if chunk_size > bytes.len() - body_start {
                assert(wav_walk(b, offset as int, fmt, match data { Some((s, l)) => Some((s as int, l as int)), None => None })
                    == Err::<(Option<FmtInfo>, Option<(int, int)>), DecodeErrorView>(DecodeErrorView::TooShort {
                        needed: body_start.wrapping_add(chunk_size),
                        got: bytes.len(),
                    }));
                return Err(DecodeError::TooShort {
                    needed: body_start.wrapping_add(chunk_size),
                    got: bytes.len(),
                });
            }
            if tag_at(bytes, offset, 0x66, 0x6d, 0x74, 0x20) {
                if chunk_size < 16 {
                    return Err(DecodeError::TooShort { needed: 16, got: chunk_size });
                }
                let audio_format = u16_le(bytes, body_start);
                if audio_format != 1 {
                    return Err(DecodeError::Unsupported("WAV audioFormat other than PCM"));
                }
                let channels = u16_le(bytes, body_start + 2);
                let rate = u32_le(bytes, body_start + 4);
                let bits = u16_le(bytes, body_start + 14);
                fmt = Some((channels, rate, bits));
            } else if tag_at(bytes, offset, 0x64, 0x61, 0x74, 0x61) {
                data = Some((body_start, chunk_size));
            }
            let end = body_start + chunk_size;
            if chunk_size % 2 == 1 && end < bytes.len() {
                offset = end + 1;
            } else {
                offset = end;
            }
            proof {
                let now = match data { Some((s, l)) => Some((s as int, l as int)), None => None };
                if chunk_size % 2 == 1 && end == bytes.len() {
                    assert(wav_walk(b, end + 1, fmt, now) == wav_walk(b, end as int, fmt, now));
                }
                assert(walk_before == wav_walk(b, offset as int, fmt, now));
            }
        }
        let (channels, sample_rate, bits_per_sample) = match fmt {
            Some(f) => f,
            None => { return Err(DecodeError::Malformed("missing fmt chunk")); },
        };
        let (start, len) = match data {
            Some(d) => d,
            None => { return Err(DecodeError::Malformed("missing data chunk")); },
        };
        if bits_per_sample != 16 {
            return Err(DecodeError::Unsupported("WAV bit depth other than 16"));
        }
        if len % 2 != 0 {
            return Err(DecodeError::Malformed("data chunk length not a multiple of sample size"));
        }
        let samples = pcm16(bytes, start, len);
        Ok(AudioData { sample_rate, channels, samples })
    }
}


/// Byte `k` (0 = least significant) of `v`.
pub open spec fn byte_of(v: int, k: int) -> u8 {
    if k == 0 {
        (v % 256) as u8
    } else if k == 1 {
        ((v / 256) % 256) as u8
    } else if k == 2 {
        ((v / 65536) % 256) as u8
    } else {
        ((v / 16777216) % 256) as u8
    }
}

/// The 16-bit two's-complement pattern of a sample.
pub open spec fn sample_bits(x: i16) -> int {
    if x >= 0 { x as int } else { x + 65536 }
}

/// Samples as 16-bit little-endian PCM.
pub open spec fn pcm16_bytes(s: Seq<i16>) -> Seq<u8> {
    Seq::new(
        2 * s.len(),
        |k: int| if k % 2 == 0 { (sample_bits(s[k / 2]) % 256) as u8 } else { (sample_bits(s[k / 2]) / 256) as u8 },
    )
}

/// The header of a canonical PCM WAV file: `RIFF` and its size, `WAVE`,
/// a 16-byte `fmt ` chunk (PCM, 16 bits), then the `data` chunk header;
/// every number little-endian.
#[verifier::opaque]
pub open spec fn canonical_header(rate: u32, channels: u16, byte_rate: u32, block_align: u16, data_len: int) -> Seq<u8> {
    let riff = 36 + data_len;
    seq![
        0x52u8, 0x49u8, 0x46u8, 0x46u8,
        byte_of(riff, 0), byte_of(riff, 1), byte_of(riff, 2), byte_of(riff, 3),
        0x57u8, 0x41u8, 0x56u8, 0x45u8,
        0x66u8, 0x6du8, 0x74u8, 0x20u8,
        16u8, 0u8, 0u8, 0u8,
        1u8, 0u8,
        byte_of(channels as int, 0), byte_of(channels as int, 1),
        byte_of(rate as int, 0), byte_of(rate as int, 1), byte_of(rate as int, 2), byte_of(rate as int, 3),
        byte_of(byte_rate as int, 0), byte_of(byte_rate as int, 1), byte_of(byte_rate as int, 2), byte_of(byte_rate as int, 3),
        byte_of(block_align as int, 0), byte_of(block_align as int, 1),
        16u8, 0u8,
        0x64u8, 0x61u8, 0x74u8, 0x61u8,
        byte_of(data_len, 0), byte_of(data_len, 1), byte_of(data_len, 2), byte_of(data_len, 3)
    ]
}

/// A canonical PCM WAV file holding `s`.
pub open spec fn canonical_wav(rate: u32, channels: u16, byte_rate: u32, block_align: u16, s: Seq<i16>) -> Seq<u8> {
    canonical_header(rate, channels, byte_rate, block_align, 2 * s.len() as int) + pcm16_bytes(s)
}

proof fn lemma_le16_bytes(b: Seq<u8>, o: int, v: int)
    requires
        0 <= v < 0x10000,
        0 <= o,
        o + 2 <= b.len(),
        b[o] == byte_of(v, 0),
        b[o + 1] == byte_of(v, 1),
    ensures
        le_u16(b, o) == v,
{
    assert((v % 256) + 256 * ((v / 256) % 256) == v) by (nonlinear_arith)
        requires
            0 <= v < 0x10000,
    ;
}

pub(crate) proof fn lemma_le32_bytes(b: Seq<u8>, o: int, v: int)
    requires
        0 <= v < 0x1_0000_0000,
        0 <= o,
        o + 4 <= b.len(),
        b[o] == byte_of(v, 0),
        b[o + 1] == byte_of(v, 1),
        b[o + 2] == byte_of(v, 2),
        b[o + 3] == byte_of(v, 3),
    ensures
        le_u32(b, o) == v,
{
    assert((v % 256) + 256 * ((v / 256) % 256) + 65536 * ((v / 65536) % 256) + 16777216 * ((v / 16777216) % 256)
        == v) by (nonlinear_arith)
        requires
            0 <= v < 0x1_0000_0000,
    ;
}

proof fn lemma_pcm16_round_trip(b: Seq<u8>, start: int, s: Seq<i16>)
    requires
        0 <= start,
        b.len() == start + 2 * s.len(),
        b.skip(start) == pcm16_bytes(s),
    ensures
        pcm16_samples(b, start, 2 * s.len() as int) == s,
{
    let out = pcm16_samples(b, start, 2 * s.len() as int);
    assert(out.len() == s.len());
    assert forall|i: int| 0 <= i < s.len() implies out[i] == s[i] by {
        let d = pcm16_bytes(s);
        assert((2 * i) % 2 == 0 && (2 * i) / 2 == i && (2 * i + 1) % 2 == 1 && (2 * i + 1) / 2 == i);
        assert(b[start + 2 * i] == d[2 * i]);
        assert(b[start + 2 * i + 1] == d[2 * i + 1]);
        let v = sample_bits(s[i]);
        assert((v % 256) + 256 * (v / 256) == v && (v % 256) < 256 && v / 256 < 256) by (nonlinear_arith)
            requires
                0 <= v < 0x10000,
        ;
        assert(le_u16(b, start + 2 * i) == v);
    }
    assert(out =~= s);
}

#[verifier::spinoff_prover]
#[verifier::rlimit(60)]
proof fn lemma_canonical_header(rate: u32, channels: u16, byte_rate: u32, block_align: u16, s: Seq<i16>)
    requires
        36 + 2 * s.len() < 0x1_0000_0000,
    ensures
        ({
            let b = canonical_wav(rate, channels, byte_rate, block_align, s);
            let n = 2 * s.len() as int;
            &&& b.len() == 44 + n
            &&& b.skip(44) == pcm16_bytes(s)
            &&& has_tag(b, 0, tag_riff())
            &&& has_tag(b, 8, tag_wave())
            &&& has_tag(b, 12, tag_fmt())
            &&& has_tag(b, 36, tag_data())
            &&& !has_tag(b, 36, tag_fmt())
            &&& le_u32(b, 16) == 16
            &&& le_u16(b, 20) == 1
            &&& le_u16(b, 22) == channels
            &&& le_u32(b, 24) == rate
            &&& le_u16(b, 34) == 16
            &&& le_u32(b, 40) == n
        }),
{
    reveal(canonical_header);
    let n: int = 2 * s.len() as int;
    let h = canonical_header(rate, channels, byte_rate, block_align, n);
    let b = canonical_wav(rate, channels, byte_rate, block_align, s);
    assert(h.len() == 44);
    assert(b.len() == 44 + n);
    assert forall|k: int| 0 <= k < 44 implies b[k] == h[k] by {}
    assert(b.skip(44) =~= pcm16_bytes(s));
    assert(b.subrange(0, 4) =~= tag_riff());
    assert(b.subrange(8, 12) =~= tag_wave());
    assert(b.subrange(12, 16) =~= tag_fmt());
    assert(b.subrange(36, 40) =~= tag_data());
    assert(b.subrange(36, 40)[0] != tag_fmt()[0]);
    assert(byte_of(16, 0) == 16u8 && byte_of(16, 1) == 0u8 && byte_of(16, 2) == 0u8 && byte_of(16, 3) == 0u8);
    assert(byte_of(1, 0) == 1u8 && byte_of(1, 1) == 0u8);
    lemma_le32_bytes(b, 16, 16);
    lemma_le16_bytes(b, 20, 1);
    lemma_le16_bytes(b, 22, channels as int);
    lemma_le32_bytes(b, 24, rate as int);
    lemma_le16_bytes(b, 34, 16);
    lemma_le32_bytes(b, 40, n);
}

proof fn lemma_wav_walk_canonical(b: Seq<u8>, channels: u16, rate: u32, n: int)
    requires
        0 <= n,
        n % 2 == 0,
        b.len() == 44 + n,
        has_tag(b, 12, tag_fmt()),
        has_tag(b, 36, tag_data()),
        !has_tag(b, 36, tag_fmt()),
        le_u32(b, 16) == 16,
        le_u16(b, 20) == 1,
        le_u16(b, 22) == channels,
        le_u32(b, 24) == rate,
        le_u16(b, 34) == 16,
        le_u32(b, 40) == n,
    ensures
        wav_walk(b, 12, None, None) == Ok::<(Option<FmtInfo>, Option<(int, int)>), DecodeErrorView>(
            (Some((channels, rate, 16u16)), Some((44, n))),
        ),
{
    let info: FmtInfo = (channels, rate, 16u16);
    assert(wav_walk(b, 44 + n, Some(info), Some((44, n))) == Ok::<
        (Option<FmtInfo>, Option<(int, int)>),
        DecodeErrorView,
    >((Some(info), Some((44, n)))));
    assert(wav_walk(b, 36, Some(info), None) == wav_walk(b, 44 + n, Some(info), Some((44, n))));
    assert(wav_walk(b, 12, None, None) == wav_walk(b, 36, Some(info), None));
}

/// A canonical PCM WAV file built from a rate, a channel count and
/// samples decodes back to exactly that rate, channel count and those
/// samples, whatever byte rate and block alignment its header states.
#[verifier::spinoff_prover]
pub proof fn lemma_wav_round_trip(rate: u32, channels: u16, byte_rate: u32, block_align: u16, s: Seq<i16>)
    requires
        36 + 2 * s.len() < 0x1_0000_0000,
    ensures
        wav_decoded(canonical_wav(rate, channels, byte_rate, block_align, s)) == Ok::<AudioView, DecodeErrorView>(
            AudioView { sample_rate: rate, channels, samples: s },
        ),
{
    let n: int = 2 * s.len() as int;
    let b = canonical_wav(rate, channels, byte_rate, block_align, s);
    lemma_canonical_header(rate, channels, byte_rate, block_align, s);
    lemma_wav_walk_canonical(b, channels, rate, n);
    lemma_pcm16_round_trip(b, 44, s);
    assert(wav_walk(b, 12, None, None) == Ok::<(Option<FmtInfo>, Option<(int, int)>), DecodeErrorView>(
        (Some((channels, rate, 16u16)), Some((44, n))),
    ));
}


/// A RIFF chunk: its four-byte tag, its size, its body, and the pad byte
/// that follows a body of odd length.
pub open spec fn riff_chunk(tag: Seq<u8>, body: Seq<u8>, pad: u8) -> Seq<u8> {
    let n = body.len() as int;
    tag + seq![byte_of(n, 0), byte_of(n, 1), byte_of(n, 2), byte_of(n, 3)] + body + if n % 2 == 1 {
        seq![pad]
    } else {
        Seq::<u8>::empty()
    }
}

/// A canonical PCM WAV file with one more chunk between `fmt ` and `data`.
pub open spec fn wav_with_chunk(
    rate: u32,
    channels: u16,
    byte_rate: u32,
    block_align: u16,
    tag: Seq<u8>,
    body: Seq<u8>,
    pad: u8,
    s: Seq<i16>,
) -> Seq<u8> {
    let w = canonical_wav(rate, channels, byte_rate, block_align, s);
    w.take(36) + riff_chunk(tag, body, pad) + w.skip(36)
}

/// Chunks the decoder does not know are skipped whole, including the pad
/// byte after an odd-sized body: a PCM WAV file with any other chunk
/// between `fmt ` and `data` decodes to the same rate, channel count and
/// samples as without it.
#[verifier::spinoff_prover]
#[verifier::rlimit(60)]
pub proof fn lemma_wav_skips_unknown_chunks(
    rate: u32,
    channels: u16,
    byte_rate: u32,
    block_align: u16,
    tag: Seq<u8>,
    body: Seq<u8>,
    pad: u8,
    s: Seq<i16>,
)
    requires
        36 + 2 * s.len() < 0x1_0000_0000,
        body.len() < 0x1_0000_0000,
        tag.len() == 4,
        tag != tag_fmt(),
        tag != tag_data(),
    ensures
        wav_decoded(wav_with_chunk(rate, channels, byte_rate, block_align, tag, body, pad, s)) == Ok::<
            AudioView,
            DecodeErrorView,
        >(AudioView { sample_rate: rate, channels, samples: s }),
{
    let n: int = body.len() as int;
    let d: int = 2 * s.len() as int;
    let w = canonical_wav(rate, channels, byte_rate, block_align, s);
    let c = riff_chunk(tag, body, pad);
    let e: int = c.len() as int;
    let b = wav_with_chunk(rate, channels, byte_rate, block_align, tag, body, pad, s);
    lemma_canonical_header(rate, channels, byte_rate, block_align, s);
    assert(e == 8 + n + n % 2);
    assert(b.len() == w.len() + e);
    assert forall|i: int| 0 <= i < 36 implies b[i] == w[i] by {}
    assert forall|i: int| 0 <= i < e implies b[36 + i] == c[i] by {}
    assert forall|i: int| 36 <= i < w.len() implies b[i + e] == w[i] by {}
    assert(b.subrange(0, 4) =~= w.subrange(0, 4));
    assert(b.subrange(8, 12) =~= w.subrange(8, 12));
    assert(b.subrange(12, 16) =~= w.subrange(12, 16));
    assert(b.subrange(36, 40) =~= tag);
    assert(b.subrange(36 + e, 40 + e) =~= w.subrange(36, 40));
    assert(b.skip(44 + e) =~= w.skip(44));
    assert(le_u32(b, 16) == le_u32(w, 16));
    assert(le_u16(b, 20) == le_u16(w, 20));
    assert(le_u16(b, 22) == le_u16(w, 22));
    assert(le_u32(b, 24) == le_u32(w, 24));
    assert(le_u16(b, 34) == le_u16(w, 34));
    assert(le_u32(b, 40 + e) == le_u32(w, 40));
    assert(c[4] == byte_of(n, 0) && c[5] == byte_of(n, 1) && c[6] == byte_of(n, 2) && c[7] == byte_of(n, 3));
    lemma_le32_bytes(b, 40, n);
    let info: FmtInfo = (channels, rate, 16u16);
    assert(wav_walk(b, 44 + e + d, Some(info), Some((44 + e, d))) == Ok::<
        (Option<FmtInfo>, Option<(int, int)>),
        DecodeErrorView,
    >((Some(info), Some((44 + e, d)))));
    assert(wav_walk(b, 36 + e, Some(info), None) == wav_walk(b, 44 + e + d, Some(info), Some((44 + e, d))));
    assert(wav_walk(b, 36, Some(info), None) == wav_walk(b, 36 + e, Some(info), None));
    assert(wav_walk(b, 12, None, None) == wav_walk(b, 36, Some(info), None));
    lemma_pcm16_round_trip(b, 44 + e, s);
}

} // verus!
