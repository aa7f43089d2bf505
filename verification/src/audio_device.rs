//! Audio output configuration: the requested stream format, which of a
//! device's supported configurations serve it and in what order, the size
//! of the sample ring between the game thread and the audio callback, and
//! the backpressure test on that ring.
use vstd::prelude::*;
use crate::text::{decimal, decimal_string};

verus! {

/// A speaker channel, in the order a layout lists them.
#[derive(Debug, Clone, Copy, PartialEq, Eq, Hash, Structural)]
pub enum Channel {
    Left,
    Right,
    Center,
    LowFrequency,
    SurroundLeft,
    SurroundRight,
}

/// Why opening a device or a stream failed.
#[derive(Debug, Clone)]
pub enum AudioDeviceError {
    /// No default output device found.
    NoDevice,
    /// The requested stream configuration is not supported by the device.
    UnsupportedConfig(String),
    /// Stream creation failed.
    StreamError(String),
}

impl AudioDeviceError {
    /// The error as text.
    pub fn message(&self) -> (r: String)
        ensures
            r@ == match self {
                AudioDeviceError::NoDevice => "no default audio output device found"@,
                AudioDeviceError::UnsupportedConfig(m) => "unsupported audio stream config: "@ + m@,
                AudioDeviceError::StreamError(m) => "audio stream error: "@ + m@,
            },
    {
        match self {
            AudioDeviceError::NoDevice => "no default audio output device found".to_owned(),
            AudioDeviceError::UnsupportedConfig(m) => {
                let mut t = "unsupported audio stream config: ".to_owned();
                t.append(m.as_str());
                t
            },
            AudioDeviceError::StreamError(m) => {
                let mut t = "audio stream error: ".to_owned();
                t.append(m.as_str());
                t
            },
        }
    }
}

/// Desired output stream configuration.
#[derive(Debug, Clone, Copy, PartialEq, Eq, Structural)]
pub struct AudioStreamConfig {
    /// Sample rate in Hz.
    pub sample_rate: u32,
    /// Number of interleaved channels.
    pub channels: u16,
    /// Ring size in frames; `None` lets the driver pick.
    pub buffer_frames: Option<u32>,
}

impl Default for AudioStreamConfig {
    /// 48 kHz stereo, driver-chosen buffer.
    fn default() -> (c: Self)
        ensures
            c.sample_rate == 48000,
            c.channels == 2,
            c.buffer_frames is None,
    {
        AudioStreamConfig { sample_rate: 48000, channels: 2, buffer_frames: None }
    }
}

/// One configuration family a device reports: a sample-rate range and a
/// channel-count range, and the channel count of the configuration it
/// resolves to.
#[derive(Debug, Clone, Copy, PartialEq, Eq, Structural)]
pub struct SupportedRange {
    pub min_sample_rate: u32,
    pub max_sample_rate: u32,
    pub min_channels: u16,
    pub max_channels: u16,
    pub channels: u16,
}

pub open spec fn accepts(r: SupportedRange, c: AudioStreamConfig) -> bool {
    r.min_sample_rate <= c.sample_rate <= r.max_sample_rate && r.min_channels <= c.channels
        <= r.max_channels
}

/// How far a candidate's channel count is from the requested one.
pub open spec fn channel_distance(r: SupportedRange, c: AudioStreamConfig) -> int {
    if r.channels >= c.channels {
        r.channels - c.channels
    } else {
        c.channels - r.channels
    }
}

/// Candidate `i` comes before candidate `j`: nearer in channel count, or
/// as near and listed first by the device.
pub open spec fn ranks_before(ranges: Seq<SupportedRange>, c: AudioStreamConfig, i: int, j: int) -> bool {
    channel_distance(ranges[i], c) < channel_distance(ranges[j], c) || (channel_distance(ranges[i], c)
        == channel_distance(ranges[j], c) && i < j)
}

/// `order` lists exactly the indices of the ranges below `n` that accept
/// `c`, best first.
pub open spec fn is_ranking(order: Seq<usize>, ranges: Seq<SupportedRange>, c: AudioStreamConfig, n: int) -> bool {
    &&& forall|k: int| 0 <= k < order.len() ==> #[trigger] order[k] < n && accepts(ranges[order[k] as int], c)
    &&& forall|i: int| 0 <= i < n && accepts(ranges[i], c) ==> #[trigger] order.contains(i as usize)
    &&& forall|a: int, b: int|
        0 <= a < b < order.len() ==> ranks_before(ranges, c, #[trigger] order[a] as int, #[trigger] order[b] as int)
}

fn distance(r: &SupportedRange, c: &AudioStreamConfig) -> (d: u16)
    ensures
        d == channel_distance(*r, *c),
{
    if r.channels >= c.channels {
        r.channels - c.channels
    } else {
        c.channels - r.channels
    }
}

/// The device configurations that can serve `config`, as indices into
/// `ranges`: those whose sample-rate and channel ranges contain the
/// request, nearest channel count first, ties in the device's order.
pub fn closest_supported(config: &AudioStreamConfig, ranges: &Vec<SupportedRange>) -> (order: Vec<usize>)
    ensures
        is_ranking(order@, ranges@, *config, ranges@.len() as int),
{
    let mut order: Vec<usize> = Vec::new();
    let mut i: usize = 0;
    while i < ranges.len()
        invariant
            i <= ranges@.len(),
            is_ranking(order@, ranges@, *config, i as int),
        decreases ranges@.len() - i,
    {
        let r = ranges[i];
        if r.min_sample_rate <= config.sample_rate && config.sample_rate <= r.max_sample_rate
            && r.min_channels <= config.channels && config.channels <= r.max_channels {
            let d = distance(&r, config);
            // Position: after every candidate at most as far away.
            let mut pos: usize = 0;
            while pos < order.len() && distance(&ranges[order[pos]], config) <= d
                invariant
                    pos <= order@.len(),
                    i < ranges@.len(),
                    d == channel_distance(ranges@[i as int], *config),
                    is_ranking(order@, ranges@, *config, i as int),
                    forall|k: int| 0 <= k < pos ==> channel_distance(ranges@[#[trigger] order@[k] as int], *config) <= d,
                decreases order@.len() - pos,
            {
                pos = pos + 1;
            }
            let ghost old_order = order@;
            order.insert(pos, i);
            assert forall|k: int| 0 <= k < order@.len() implies #[trigger] order@[k] < i + 1 && accepts(
                ranges@[order@[k] as int],
                *config,
            ) by {
                if k > pos as int {
                    assert(order@[k] == old_order[k - 1]);
                } else if k < pos as int {
                    assert(order@[k] == old_order[k]);
                }
            }
            assert forall|j: int| 0 <= j < i + 1 && accepts(ranges@[j], *config) implies #[trigger] order@.contains(
                j as usize,
            ) by {
                if j < i {
                    assert(old_order.contains(j as usize));
                    let k = choose|k: int| 0 <= k < old_order.len() && old_order[k] == j as usize;
                    assert(order@ == old_order.insert(pos as int, i));
                    if k < pos as int {
                        assert(order@[k] == old_order[k]);
                        assert(order@[k] == j as usize);
                    } else {
                        assert(order@[k + 1] == old_order[k]);
                        assert(order@[k + 1] == j as usize);
                    }
                } else {
                    assert(order@[pos as int] == j as usize);
                }
            }
            assert forall|a: int, b: int| 0 <= a < b < order@.len() implies ranks_before(
                ranges@,
                *config,
                #[trigger] order@[a] as int,
                #[trigger] order@[b] as int,
            ) by {
                let p = pos as int;
                if a < p && b < p {
                    assert(order@[a] == old_order[a] && order@[b] == old_order[b]);
                } else if a < p && b == p {
                    assert(order@[a] == old_order[a]);
                } else if a < p && b > p {
                    assert(order@[a] == old_order[a] && order@[b] == old_order[b - 1]);
                } else if a == p {
                    assert(order@[b] == old_order[b - 1]);
                    assert(old_order[b - 1] < i);
                    if b - 1 == p {
                    } else {
                        assert(ranks_before(ranges@, *config, old_order[p] as int, old_order[b - 1] as int));
                    }
                } else {
                    assert(order@[a] == old_order[a - 1] && order@[b] == old_order[b - 1]);
                }
            }
        }
        i = i + 1;
    }
    order
}

/// Frames the hardware buffers per callback: the device's fixed size, or
/// 1024 when it has none, and never fewer than 256.
pub open spec fn hardware_frames(fixed: Option<u32>) -> nat {
    let f: nat = match fixed {
        Some(n) => n as nat,
        None => 1024,
    };
    if f < 256 { 256 } else { f }
}

/// Frames the sample ring holds: the requested size, else four hardware
/// buffers, and never fewer than two hardware buffers.
pub open spec fn ring_frames(config: AudioStreamConfig, fixed: Option<u32>) -> nat {
    let hw = hardware_frames(fixed);
    let want: nat = match config.buffer_frames {
        Some(n) => n as nat,
        None => hw * 4,
    };
    if want < hw * 2 { hw * 2 } else { want }
}

/// The sample ring's capacity in samples: ring frames times channels.
pub fn ring_capacity(config: &AudioStreamConfig, fixed_frames: Option<u32>) -> (r: usize)
    requires
        hardware_frames(fixed_frames) * 4 <= u32::MAX,
        ring_frames(*config, fixed_frames) * config.channels <= usize::MAX,
    ensures
        r == ring_frames(*config, fixed_frames) * config.channels,
{
    let f: u32 = match fixed_frames {
        Some(n) => n,
        None => 1024,
    };
    let hw: u32 = if f < 256 { 256 } else { f };
    let want: u32 = match config.buffer_frames {
        Some(n) => n,
        None => hw * 4,
    };
    let frames: u32 = if want < hw * 2 { hw * 2 } else { want };
    (frames as usize) * (config.channels as usize)
}

/// Samples that can still be pushed: capacity minus what is queued, or
/// zero.
pub fn available_capacity(capacity: usize, queued: usize) -> (r: usize)
    ensures
        r == if queued <= capacity { capacity - queued } else { 0 },
{
    if queued <= capacity { capacity - queued } else { 0 }
}

/// Whether `sample_count` more samples fit without blocking.
pub fn can_push(capacity: usize, queued: usize, sample_count: usize) -> (r: bool)
    ensures
        r == ((if queued <= capacity { capacity - queued } else { 0 }) >= sample_count),
{
    available_capacity(capacity, queued) >= sample_count
}

/// The error for a device that supports nothing close to `config`.
pub fn no_supported_config(config: &AudioStreamConfig) -> (e: AudioDeviceError)
    ensures
        e matches AudioDeviceError::UnsupportedConfig(m) && m@ == "no supported config for "@ + decimal(
            config.sample_rate as nat,
        ) + " Hz, "@ + decimal(config.channels as nat) + " channels"@,
{
    let mut m = "no supported config for ".to_owned();
    let rate = decimal_string(config.sample_rate as u64);
    m.append(rate.as_str());
    m.append(" Hz, ");
    let ch = decimal_string(config.channels as u64);
    m.append(ch.as_str());
    m.append(" channels");
    AudioDeviceError::UnsupportedConfig(m)
}

} // verus!
