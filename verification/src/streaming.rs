//! Incremental audio decoding: the eager-or-streaming decision, the block
//! size, the PCM (WAV) stream that serves views of already-parsed samples,
//! and the queue of decoded samples a compressed stream drains block by
//! block.
use vstd::prelude::*;
use crate::asset::{AudioData, AudioView, Decoder, result_view};
use crate::bytes::{DecodeError, DecodeErrorView};
use crate::wav::{WavDecoder, wav_decoded};

verus! {

/// Which decode path opening an audio asset takes.
#[derive(Debug, Clone, Copy, PartialEq, Eq, Structural)]
pub enum DecodeMode {
    /// Decide from the estimated decoded size against the threshold;
    /// tracks of unknown length stream.
    Auto,
    /// Always decode the whole track.
    ForceEager,
    /// Always stream, however small the track.
    ForceStreaming,
}

impl Default for DecodeMode {
    fn default() -> (m: Self)
        ensures
            m == DecodeMode::Auto,
    {
        DecodeMode::Auto
    }
}

/// Tunable decode strategy.
#[derive(Debug, Clone, Copy, PartialEq, Eq, Structural)]
pub struct DecodeStrategy {
    pub mode: DecodeMode,
    /// `Auto` streams once the estimated decoded size (PCM `i16`) exceeds
    /// this many bytes.
    pub auto_threshold_bytes: u64,
    /// PCM frames per streamed block.
    pub block_frames: usize,
}

impl Default for DecodeStrategy {
    /// `Auto`, a 16 MiB threshold and 4096-frame blocks.
    fn default() -> (s: Self)
        ensures
            s.mode == DecodeMode::Auto,
            s.auto_threshold_bytes == 16 * 1024 * 1024,
            s.block_frames == 4096,
    {
        DecodeStrategy { mode: DecodeMode::Auto, auto_threshold_bytes: 16 * 1024 * 1024, block_frames: 4096 }
    }
}

/// The decoded size in bytes of `total_frames` frames of `channels`
/// interleaved `i16` samples, when the length is known.
pub fn estimated_decoded_bytes(total_frames: Option<u64>, channels: u16) -> (r: Option<u64>)
    requires
        total_frames matches Some(f) ==> f * channels * 2 <= u64::MAX,
    ensures
        r == match total_frames {
            Some(f) => Some((f * channels * 2) as u64),
            None => None,
        },
{
    match total_frames {
        Some(frames) => {
            assert(frames * (channels as u64) <= frames * channels * 2) by (nonlinear_arith);
            Some(frames * (channels as u64) * 2)
        },
        None => None,
    }
}

/// Whether a track is decoded whole rather than streamed: forced either
/// way, or under `Auto` when its estimated size is known and at most the
/// threshold.
pub fn decodes_eagerly(strategy: &DecodeStrategy, estimated_bytes: Option<u64>) -> (eager: bool)
    ensures
        eager == match strategy.mode {
            DecodeMode::ForceEager => true,
            DecodeMode::ForceStreaming => false,
            DecodeMode::Auto => estimated_bytes matches Some(b) && b <= strategy.auto_threshold_bytes,
        },
{
    match strategy.mode {
        DecodeMode::ForceEager => true,
        DecodeMode::ForceStreaming => false,
        DecodeMode::Auto => match estimated_bytes {
            Some(bytes) => bytes <= strategy.auto_threshold_bytes,
            None => false,
        },
    }
}

/// The block size actually used: at least one frame.
pub fn effective_block_frames(requested: usize) -> (r: usize)
    ensures
        r == if requested < 1 { 1 } else { requested },
{
    if requested < 1 { 1 } else { requested }
}

/// Samples in one block: `block_frames` frames of at least one channel.
pub open spec fn block_len(block_frames: nat, channels: u16) -> nat {
    block_frames * (if channels < 1 { 1 } else { channels as nat })
}

pub fn block_samples(block_frames: usize, channels: u16) -> (r: usize)
    requires
        block_len(block_frames as nat, channels) <= usize::MAX,
    ensures
        r == block_len(block_frames as nat, channels),
{
    let ch: usize = if channels < 1 { 1 } else { channels as usize };
    block_frames * ch
}

/// The samples of `s` from `from`, at most `want` of them.
pub open spec fn block_at(s: Seq<i16>, from: int, want: int) -> Seq<i16> {
    s.subrange(from, if from + want < s.len() { from + want } else { s.len() as int })
}

/// Copies `s[from..to]`.
fn copy_range(s: &Vec<i16>, from: usize, to: usize) -> (r: Vec<i16>)
    requires
        from <= to <= s@.len(),
    ensures
        r@ == s@.subrange(from as int, to as int),
{
    let mut out: Vec<i16> = Vec::new();
    let mut i = from;
    while i < to
        invariant
            from <= i <= to <= s@.len(),
            out@ == s@.subrange(from as int, i as int),
        decreases to - i,
    {
        out.push(s[i]);
        i = i + 1;
        assert(out@ =~= s@.subrange(from as int, i as int));
    }
    out
}

/// Collects a whole decoded track: refused when no sample was decoded.
pub fn collect_track(sample_rate: u32, channels: u16, samples: Vec<i16>) -> (r: Result<AudioData, DecodeError>)
    ensures
        samples@.len() == 0 ==> r == Err::<AudioData, DecodeError>(
            DecodeError::Malformed("no decodable audio packets"),
        ),
        samples@.len() > 0 ==> (r matches Ok(a) && a@ == (AudioView { sample_rate, channels, samples: samples@ })),
{
    if samples.len() == 0 {
        Err(DecodeError::Malformed("no decodable audio packets"))
    } else {
        Ok(AudioData { sample_rate, channels, samples })
    }
}

/// A WAV track served block by block. WAV is already PCM, so streaming it
/// serves views of the parsed samples from a cursor.
#[derive(Debug)]
pub struct WavStream {
    audio: AudioData,
    cursor: usize,
    block_frames: usize,
}

impl WavStream {
    pub closed spec fn audio_spec(&self) -> AudioView {
        self.audio@
    }

    /// How many samples have been served since the start.
    pub closed spec fn cursor_spec(&self) -> nat {
        self.cursor as nat
    }

    pub closed spec fn block_frames_spec(&self) -> nat {
        self.block_frames as nat
    }

    pub closed spec fn wf(&self) -> bool {
        &&& self.cursor <= self.audio.samples@.len()
        &&& self.block_frames >= 1
    }

    /// Parses `bytes` as WAV and positions the stream at its first frame;
    /// fails exactly as the WAV decoder does.
    pub fn open(bytes: &[u8], block_frames: usize) -> (r: Result<WavStream, DecodeError>)
        ensures
            match (r, wav_decoded(bytes@)) {
                (Ok(s), Ok(a)) => s.wf() && s.audio_spec() == a && s.cursor_spec() == 0
                    && s.block_frames_spec() == if block_frames < 1 { 1 } else { block_frames as nat },
                (Err(e), Err(x)) => e@ == x,
                _ => false,
            },
    {
        let decoded = WavDecoder.decode(bytes);
        match decoded {
            Ok(audio) => Ok(WavStream { audio, cursor: 0, block_frames: effective_block_frames(block_frames) }),
            Err(e) => Err(e),
        }
    }

    pub fn sample_rate(&self) -> (r: u32)
        ensures
            r == self.audio_spec().sample_rate,
    {
        self.audio.sample_rate
    }

    pub fn channels(&self) -> (r: u16)
        ensures
            r == self.audio_spec().channels,
    {
        self.audio.channels
    }

    /// Frames in the track: samples over channels (at least one).
    pub fn total_frames(&self) -> (r: u64)
        ensures
            r == self.audio_spec().samples.len() as int / (if self.audio_spec().channels < 1 {
                1
            } else {
                self.audio_spec().channels as int
            }),
    {
        let ch: u64 = if self.audio.channels < 1 { 1 } else { self.audio.channels as u64 };
        (self.audio.samples.len() as u64) / ch
    }

    /// The next block: the next `block_frames` frames, fewer only at the
    /// end of the track; `None` once every sample has been served.
    pub fn next_block(&mut self) -> (r: Option<Vec<i16>>)
        requires
            old(self).wf(),
            block_len(old(self).block_frames_spec(), old(self).audio_spec().channels) <= usize::MAX,
        ensures
            final(self).wf(),
            final(self).audio_spec() == old(self).audio_spec(),
            final(self).block_frames_spec() == old(self).block_frames_spec(),
            ({
                let s = old(self).audio_spec().samples;
                let c = old(self).cursor_spec() as int;
                let want = block_len(old(self).block_frames_spec(), old(self).audio_spec().channels) as int;
                if c >= s.len() {
                    r is None && final(self).cursor_spec() == c
                } else {
                    r matches Some(b) && b@ == block_at(s, c, want) && final(self).cursor_spec() == c
                        + block_at(s, c, want).len()
                }
            }),
    {
        let want = block_samples(self.block_frames, self.audio.channels);
        let len = self.audio.samples.len();
        if self.cursor >= len {
            return None;
        }
        let end = if want < len - self.cursor { self.cursor + want } else { len };
        let block = copy_range(&self.audio.samples, self.cursor, end);
        self.cursor = end;
        Some(block)
    }

    /// Restarts from the first frame.
    pub fn rewind(&mut self)
        requires
            old(self).wf(),
        ensures
            final(self).wf(),
            final(self).audio_spec() == old(self).audio_spec(),
            final(self).block_frames_spec() == old(self).block_frames_spec(),
            final(self).cursor_spec() == 0,
    {
        self.cursor = 0;
    }

    /// Drains the remaining blocks into one track: every sample not yet
    /// served, in order; refused when none is left.
    pub fn decode_all(self) -> (r: Result<AudioData, DecodeError>)
        requires
            self.wf(),
            block_len(self.block_frames_spec(), self.audio_spec().channels) <= usize::MAX,
        ensures
            ({
                let rest = self.audio_spec().samples.skip(self.cursor_spec() as int);
                &&& rest.len() == 0 ==> r == Err::<AudioData, DecodeError>(
                    DecodeError::Malformed("no decodable audio packets"),
                )
                &&& rest.len() > 0 ==> (r matches Ok(a) && a@ == (AudioView {
                    sample_rate: self.audio_spec().sample_rate,
                    channels: self.audio_spec().channels,
                    samples: rest,
                }))
            }),
    {
        let ghost start = self.cursor as int;
        let ghost all = self.audio@.samples;
        let mut stream = self;
        let mut samples: Vec<i16> = Vec::new();
        loop
            invariant
                stream.wf(),
                stream.audio_spec().samples == all,
                stream.audio_spec() == self.audio_spec(),
                stream.block_frames_spec() == self.block_frames_spec(),
                block_len(stream.block_frames_spec(), stream.audio_spec().channels) <= usize::MAX,
                0 <= start <= stream.cursor_spec() <= all.len(),
                samples@ == all.subrange(start, stream.cursor_spec() as int),
            ensures
                stream.cursor_spec() == all.len(),
                samples@ == all.subrange(start, all.len() as int),
            decreases all.len() - stream.cursor_spec(),
        {
            let ghost before = stream.cursor_spec() as int;
            proof {
                let ch = stream.audio_spec().channels;
                let k: nat = if ch < 1 { 1 } else { ch as nat };
                let bf = stream.block_frames_spec();
                assert(bf * k >= 1) by (nonlinear_arith)
                    requires
                        bf >= 1,
                        k >= 1,
                ;
            }
            match stream.next_block() {
                None => break,
                Some(block) => {
                    let ghost after = stream.cursor_spec() as int;
                    assert(block@ =~= all.subrange(before, after));
                    let mut i: usize = 0;
                    while i < block.len()
                        invariant
                            i <= block@.len(),
                            0 <= start <= before <= after <= all.len(),
                            block@ == all.subrange(before, after),
                            samples@ == all.subrange(start, before) + block@.take(i as int),
                        decreases block@.len() - i,
                    {
                        samples.push(block[i]);
                        i = i + 1;
                        assert(samples@ =~= all.subrange(start, before) + block@.take(i as int));
                    }
                    assert(block@.take(block@.len() as int) =~= block@);
                    assert(samples@ == all.subrange(start, before) + all.subrange(before, after));
                    assert(all.subrange(start, before) + all.subrange(before, after) =~= all.subrange(
                        start,
                        after,
                    ));
                },
            }
        }
        assert(samples@ =~= all.skip(start));
        let rate = stream.sample_rate();
        let ch = stream.channels();
        collect_track(rate, ch, samples)
    }
}

/// Decoded samples not yet served, and whether the decoder has reached
/// the end of the track: what a compressed stream drains block by block.
#[derive(Debug)]
pub struct PendingSamples {
    pending: Vec<i16>,
    finished: bool,
}

impl View for PendingSamples {
    type V = (Seq<i16>, bool);

    closed spec fn view(&self) -> (Seq<i16>, bool) {
        (self.pending@, self.finished)
    }
}

impl PendingSamples {
    pub fn new() -> (r: Self)
        ensures
            r@ == (Seq::<i16>::empty(), false),
    {
        PendingSamples { pending: Vec::new(), finished: false }
    }

    /// Whether more packets must be decoded before a block of `want`
    /// samples can be served.
    pub fn needs_more(&self, want: usize) -> (r: bool)
        ensures
            r == (!self@.1 && self@.0.len() < want),
    {
        !self.finished && self.pending.len() < want
    }

    /// Appends freshly decoded samples.
    pub fn extend(&mut self, decoded: &[i16])
        ensures
            final(self)@ == (old(self)@.0 + decoded@, old(self)@.1),
    {
        let ghost start = self.pending@;
        let mut i: usize = 0;
        while i < decoded.len()
            invariant
                i <= decoded@.len(),
                self.pending@ == start + decoded@.take(i as int),
                self.finished == old(self).finished,
            decreases decoded@.len() - i,
        {
            self.pending.push(decoded[i]);
            i = i + 1;
            assert(self.pending@ =~= start + decoded@.take(i as int));
        }
        assert(decoded@.take(decoded@.len() as int) =~= decoded@);
    }

    /// Records that the decoder has no more packets.
    pub fn finish(&mut self)
        ensures
            final(self)@ == (old(self)@.0, true),
    {
        self.finished = true;
    }

    /// Serves the next block of at most `want` samples from the front.
    /// With nothing pending: `None` once finished, else an empty block.
    pub fn take_block(&mut self, want: usize) -> (r: Option<Vec<i16>>)
        ensures
            ({
                let p = old(self)@.0;
                let n = if want < p.len() { want as int } else { p.len() as int };
                if p.len() == 0 {
                    &&& final(self)@ == old(self)@
                    &&& if old(self)@.1 { r is None } else { r matches Some(b) && b@.len() == 0 }
                } else {
                    &&& r matches Some(b) && b@ == p.take(n)
                    &&& final(self)@ == (p.skip(n), old(self)@.1)
                }
            }),
    {
        let len = self.pending.len();
        if len == 0 {
            return if self.finished { None } else { Some(Vec::new()) };
        }
        let take = if want < len { want } else { len };
        let block = copy_range(&self.pending, 0, take);
        let rest = copy_range(&self.pending, take, len);
        self.pending = rest;
        assert(block@ =~= old(self)@.0.take(take as int));
        assert(rest@ =~= old(self)@.0.skip(take as int));
        Some(block)
    }
}

} // verus!
