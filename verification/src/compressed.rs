//! Compressed-audio decoding through `symphonia`: probe the container in
//! memory, take its default audio track, decode that track's packets to
//! interleaved `i16`. The container reader and the codec are the outside
//! crate's; what they make of the bytes is named (`symphonia_opened`,
//! `symphonia_events`). Which packets are decoded, which format wins and
//! what a whole track decodes to are this library's, proved against a
//! replay of those events.
use vstd::prelude::*;
use crate::asset::{AudioData, AudioView, result_view};
use crate::bytes::{DecodeError, DecodeErrorView};
use crate::streaming::PendingSamples;

verus! {

/// A probed container, before its audio track is chosen.
#[verifier::external_body]
pub struct SymphoniaSource {
    reader: Box<dyn symphonia::core::formats::FormatReader>,
}

/// An opened audio track: the container reader, the codec of its default
/// audio track, and the packet last read, until it is decoded.
#[verifier::external_body]
pub struct SymphoniaTrack {
    reader: Box<dyn symphonia::core::formats::FormatReader>,
    decoder: Box<dyn symphonia::core::codecs::audio::AudioDecoder>,
    pending: Option<symphonia::core::packet::Packet>,
}

/// What the container says of its default audio track before decoding.
#[derive(Debug, Clone, Copy)]
pub struct TrackInfo {
    pub track_id: u32,
    pub total_frames: Option<u64>,
    pub sample_rate: Option<u32>,
    pub channels: Option<u16>,
}

/// Why a track could not be opened.
#[derive(Debug)]
pub enum OpenFailure {
    /// The probe recognised no container; the text is symphonia's.
    Probe(String),
    /// The container has no audio track.
    NoAudioTrack,
    /// The audio track carries no audio codec parameters.
    NoCodecParams,
    /// No codec could be opened for the track; the text is symphonia's.
    Decoder(String),
}

pub enum OpenFailureView {
    Probe(Seq<char>),
    NoAudioTrack,
    NoCodecParams,
    Decoder(Seq<char>),
}

impl View for OpenFailure {
    type V = OpenFailureView;

    open spec fn view(&self) -> OpenFailureView {
        match self {
            OpenFailure::Probe(t) => OpenFailureView::Probe(t@),
            OpenFailure::NoAudioTrack => OpenFailureView::NoAudioTrack,
            OpenFailure::NoCodecParams => OpenFailureView::NoCodecParams,
            OpenFailure::Decoder(t) => OpenFailureView::Decoder(t@),
        }
    }
}

/// One decoded packet: its format and its samples, interleaved.
#[derive(Debug)]
pub struct DecodedBlock {
    pub sample_rate: u32,
    pub channels: u16,
    pub samples: Vec<i16>,
}

pub struct BlockView {
    pub sample_rate: u32,
    pub channels: u16,
    pub samples: Seq<i16>,
}

impl View for DecodedBlock {
    type V = BlockView;

    open spec fn view(&self) -> BlockView {
        BlockView { sample_rate: self.sample_rate, channels: self.channels, samples: self.samples@ }
    }
}

/// What opening a track gives: its id, the frame count, rate and
/// channel count the container states, or why it cannot be opened.
pub type OpenedTrack = (u32, Option<u64>, Option<u32>, Option<u16>);

/// What probing `bytes` with symphonia's default probe and opening the
/// codec of their default audio track from symphonia's default registry
/// gives.
pub uninterp spec fn symphonia_opened(bytes: Seq<u8>) -> Result<OpenedTrack, OpenFailureView>;

/// What the calls on the opened track of `bytes` return when every packet
/// is read in turn and every packet of the track is decoded right after
/// it is read, up to and including the first call that ends the decode
/// (the end of the container or an error).
pub uninterp spec fn symphonia_events(bytes: Seq<u8>) -> Seq<TrackEvent>;

/// The bytes a probed source was made from.
pub uninterp spec fn source_bytes(s: SymphoniaSource) -> Seq<u8>;

/// What the calls on an open track have yet to return.
pub uninterp spec fn track_events(t: SymphoniaTrack) -> Seq<TrackEvent>;

/// What one call on an open track returned.
pub enum TrackEvent {
    /// `next_packet`: an error text, the end, or a packet of that track.
    Read(Result<Option<u32>, Seq<char>>),
    /// `decode_packet` on the packet just read.
    Decoded(Result<BlockView, Seq<char>>),
}

/// Where decoding a track stands after some events: reading with the
/// format and samples so far, about to decode a packet of the track,
/// finished, or a sequence of calls the decoder never makes.
pub enum Replay {
    Reading(u32, u16, Seq<i16>),
    Decoding(u32, u16, Seq<i16>),
    Done(Result<AudioView, DecodeErrorView>),
    Invalid,
}

/// A whole track's samples with the last decoded format; no sample at all
/// is an error.
pub open spec fn finished_track(rate: u32, channels: u16, samples: Seq<i16>) -> Result<AudioView, DecodeErrorView> {
    if samples.len() == 0 {
        Err(DecodeErrorView::Malformed("no decodable audio packets"))
    } else {
        Ok(AudioView { sample_rate: rate, channels, samples })
    }
}

/// One event of decoding track `id`: packets of other tracks are skipped,
/// a packet of the track is decoded and its samples appended, its format
/// replacing the one before; an error of the reader or the codec ends the
/// decode with that error; the end of the container finishes the track.
pub open spec fn replay_step(id: u32, s: Replay, e: TrackEvent) -> Replay {
    match s {
        Replay::Reading(rate, ch, x) => match e {
            TrackEvent::Read(Err(t)) => Replay::Done(Err(DecodeErrorView::Codec(t))),
            TrackEvent::Read(Ok(None)) => Replay::Done(finished_track(rate, ch, x)),
            TrackEvent::Read(Ok(Some(p))) => if p == id {
                Replay::Decoding(rate, ch, x)
            } else {
                Replay::Reading(rate, ch, x)
            },
            TrackEvent::Decoded(_) => Replay::Invalid,
        },
        Replay::Decoding(_, _, x) => match e {
            TrackEvent::Decoded(Ok(b)) => Replay::Reading(b.sample_rate, b.channels, x + b.samples),
            TrackEvent::Decoded(Err(t)) => Replay::Done(Err(DecodeErrorView::Codec(t))),
            TrackEvent::Read(_) => Replay::Invalid,
        },
        _ => Replay::Invalid,
    }
}

/// The state after `events`, starting from `start`.
pub open spec fn replay_from(id: u32, start: Replay, events: Seq<TrackEvent>) -> Replay
    decreases events.len(),
{
    if events.len() == 0 {
        start
    } else {
        replay_step(id, replay_from(id, start, events.drop_last()), events.last())
    }
}

/// The state after `events`, starting with no format and no samples.
pub open spec fn replay(id: u32, events: Seq<TrackEvent>) -> Replay {
    replay_from(id, Replay::Reading(0, 0, Seq::empty()), events)
}

/// Whether an event ends the decode of a track.
pub open spec fn finishing(e: TrackEvent) -> bool {
    match e {
        TrackEvent::Read(Err(_)) => true,
        TrackEvent::Read(Ok(None)) => true,
        TrackEvent::Decoded(Err(_)) => true,
        _ => false,
    }
}

/// The shape of the events of decoding track `id`: they start with a
/// read, end with the one event that finishes the decode, and a decode
/// follows exactly each read of a packet of the track.
pub open spec fn follows_protocol(id: u32, evs: Seq<TrackEvent>) -> bool {
    &&& evs.len() > 0
    &&& evs[0] is Read
    &&& finishing(evs.last())
    &&& forall|i: int| 0 <= i < evs.len() - 1 ==> !finishing(#[trigger] evs[i])
    &&& forall|i: int|
        0 < i < evs.len() ==> ((#[trigger] evs[i]) is Decoded <==> evs[i - 1] == TrackEvent::Read(Ok(Some(id))))
}

/// The event a read returned.
pub open spec fn read_event(r: Result<Option<u32>, String>) -> TrackEvent {
    match r {
        Ok(x) => TrackEvent::Read(Ok(x)),
        Err(t) => TrackEvent::Read(Err(t@)),
    }
}

/// The event a decode returned.
pub open spec fn decoded_event(r: Result<DecodedBlock, String>) -> TrackEvent {
    match r {
        Ok(b) => TrackEvent::Decoded(Ok(b@)),
        Err(t) => TrackEvent::Decoded(Err(t@)),
    }
}

/// The error an opening failure is reported as.
pub open spec fn open_error(f: OpenFailureView) -> DecodeErrorView {
    match f {
        OpenFailureView::Probe(t) => DecodeErrorView::Codec(t),
        OpenFailureView::NoAudioTrack => DecodeErrorView::Unsupported("no audio track in container"),
        OpenFailureView::NoCodecParams => DecodeErrorView::Unsupported("no audio codec parameters"),
        OpenFailureView::Decoder(t) => DecodeErrorView::Codec(t),
    }
}

/// Whether opening failed already in the probe.
pub open spec fn probe_failed(o: Result<OpenedTrack, OpenFailureView>) -> bool {
    o matches Err(OpenFailureView::Probe(_))
}

/// Runs symphonia's default probe over `bytes` held in memory, with no
/// hint and default options. Claimed: the outcome is what
/// `symphonia_opened` names for `bytes` as far as probing goes; an error
/// carries symphonia's own text.
#[verifier::external_body]
fn probe(bytes: &[u8]) -> (r: Result<SymphoniaSource, String>)
    ensures
        match r {
            Ok(s) => source_bytes(s) == bytes@ && !probe_failed(symphonia_opened(bytes@)),
            Err(t) => symphonia_opened(bytes@) == Err::<OpenedTrack, OpenFailureView>(OpenFailureView::Probe(t@)),
        },
{
    let stream = symphonia::core::io::MediaSourceStream::new(Box::new(std::io::Cursor::new(bytes.to_vec())), Default::default());
    match symphonia::default::get_probe().probe(&symphonia::core::formats::probe::Hint::new(), stream, Default::default(), Default::default()) {
        Ok(reader) => Ok(SymphoniaSource { reader }),
        Err(e) => Err(e.to_string()),
    }
}

/// `FormatReader::default_track(TrackType::Audio)`, that track's audio
/// codec parameters, and `CodecRegistry::make_audio_decoder` from
/// symphonia's default registry. Claimed: the outcome is what
/// `symphonia_opened` names; the opened track has all of
/// `symphonia_events` to give, in the shape `follows_protocol` states.
#[verifier::external_body]
fn open_default_track(source: SymphoniaSource) -> (r: Result<(SymphoniaTrack, TrackInfo), OpenFailure>)
    ensures
        match r {
            Ok((t, info)) => symphonia_opened(source_bytes(source)) == Ok::<OpenedTrack, OpenFailureView>(
                (info.track_id, info.total_frames, info.sample_rate, info.channels),
            ) && track_events(t) == symphonia_events(source_bytes(source)) && follows_protocol(
                info.track_id,
                track_events(t),
            ),
            Err(f) => symphonia_opened(source_bytes(source)) == Err::<OpenedTrack, OpenFailureView>(f@),
        },
{
    let reader = source.reader;
    let track = match reader.default_track(symphonia::core::formats::TrackType::Audio) {
        Some(track) => track,
        None => return Err(OpenFailure::NoAudioTrack),
    };
    let params = match track.codec_params.as_ref().and_then(|p| p.audio()) {
        Some(params) => params,
        None => return Err(OpenFailure::NoCodecParams),
    };
    let info = TrackInfo { track_id: track.id, total_frames: track.num_frames, sample_rate: params.sample_rate, channels: params.channels.as_ref().map(|c| c.count() as u16) };
    match symphonia::default::get_codecs().make_audio_decoder(params, &Default::default()) {
        Ok(decoder) => Ok((SymphoniaTrack { reader, decoder, pending: None }, info)),
        Err(e) => Err(OpenFailure::Decoder(e.to_string())),
    }
}

/// `FormatReader::next_packet`; a packet is kept for decoding and its
/// track id returned. Claimed: the result is the next event the track had
/// to give, which must be a read.
#[verifier::external_body]
fn next_packet(t: &mut SymphoniaTrack) -> (r: Result<Option<u32>, String>)
    requires
        track_events(*old(t)).len() > 0,
        track_events(*old(t))[0] is Read,
    ensures
        track_events(*old(t))[0] == read_event(r),
        track_events(*final(t)) == track_events(*old(t)).drop_first(),
{
    match t.reader.next_packet() {
        Ok(Some(packet)) => {
            let id = packet.track_id;
            t.pending = Some(packet);
            Ok(Some(id))
        },
        Ok(None) => Ok(None),
        Err(e) => Err(e.to_string()),
    }
}

/// `AudioDecoder::decode` on the packet just read, with the decoded
/// buffer's rate, channel count and samples copied out interleaved as
/// `i16`. Claimed: the result is the next event the track had to give,
/// which must be a decode (so a packet was just read).
#[verifier::external_body]
fn decode_pending(t: &mut SymphoniaTrack) -> (r: Result<DecodedBlock, String>)
    requires
        track_events(*old(t)).len() > 0,
        track_events(*old(t))[0] is Decoded,
    ensures
        track_events(*old(t))[0] == decoded_event(r),
        track_events(*final(t)) == track_events(*old(t)).drop_first(),
{
    let Some(packet) = t.pending.take() else { return Err(String::new()) };
    let decoded = t.decoder.decode(&packet).map_err(|e| e.to_string())?;
    let spec = decoded.spec();
    let mut samples: Vec<i16> = Vec::new();
    decoded.copy_to_vec_interleaved::<i16>(&mut samples);
    Ok(DecodedBlock { sample_rate: spec.rate(), channels: spec.channels().count() as u16, samples })
}

/// What decoding the default audio track of `bytes` gives.
pub open spec fn symphonia_decoded(bytes: Seq<u8>) -> Result<AudioView, DecodeErrorView> {
    match symphonia_opened(bytes) {
        Err(f) => Err(open_error(f)),
        Ok((id, _, _, _)) => match replay(id, symphonia_events(bytes)) {
            Replay::Done(res) => res,
            _ => Err(DecodeErrorView::Malformed("no decodable audio packets")),
        },
    }
}

proof fn lemma_replay_push(id: u32, events: Seq<TrackEvent>, e: TrackEvent)
    ensures
        replay(id, events.push(e)) == replay_step(id, replay(id, events), e),
{
    assert(events.push(e).drop_last() =~= events);
}

proof fn lemma_replay_from_push(id: u32, start: Replay, events: Seq<TrackEvent>, e: TrackEvent)
    ensures
        replay_from(id, start, events.push(e)) == replay_step(id, replay_from(id, start, events), e),
{
    assert(events.push(e).drop_last() =~= events);
}

/// Where the events from position `n` on remain in events of the
/// protocol: a finishing event is the last one; any other is followed by
/// a decode exactly when it reads a packet of the track.
proof fn lemma_protocol_step(id: u32, all: Seq<TrackEvent>, n: int)
    requires
        follows_protocol(id, all),
        0 <= n < all.len(),
    ensures
        finishing(all[n]) ==> n == all.len() - 1,
        !finishing(all[n]) ==> n + 1 < all.len() && (all[n + 1] is Decoded <==> all[n] == TrackEvent::Read(
            Ok(Some(id)),
        )),
{
    if finishing(all[n]) {
        if n < all.len() - 1 {
            assert(!finishing(all[n]));
        }
    } else {
        if n == all.len() - 1 {
            assert(all.last() == all[n]);
        }
        let m = n + 1;
        assert(0 < m < all.len() ==> (all[m] is Decoded <==> all[m - 1] == TrackEvent::Read(Ok(Some(id)))));
    }
}

proof fn lemma_split_step<A>(all: Seq<A>, done: Seq<A>, rest: Seq<A>)
    requires
        all == done + rest,
        rest.len() > 0,
    ensures
        all[done.len() as int] == rest[0],
        all == done.push(rest[0]) + rest.drop_first(),
        rest.len() > 1 ==> all[done.len() as int + 1] == rest[1],
{
    assert(all =~= done.push(rest[0]) + rest.drop_first());
}

/// The error an opening failure is reported as.
pub fn open_failure_error(f: OpenFailure) -> (e: DecodeError)
    ensures
        e@ == open_error(f@),
{
    match f {
        OpenFailure::Probe(t) => DecodeError::Codec(t),
        OpenFailure::NoAudioTrack => DecodeError::Unsupported("no audio track in container"),
        OpenFailure::NoCodecParams => DecodeError::Unsupported("no audio codec parameters"),
        OpenFailure::Decoder(t) => DecodeError::Codec(t),
    }
}

/// Probes `bytes` and opens the codec of their default audio track.
pub fn open_track(bytes: &[u8]) -> (r: Result<(SymphoniaTrack, TrackInfo), OpenFailure>)
    ensures
        match r {
            Ok((t, info)) => symphonia_opened(bytes@) == Ok::<OpenedTrack, OpenFailureView>(
                (info.track_id, info.total_frames, info.sample_rate, info.channels),
            ) && track_events(t) == symphonia_events(bytes@) && follows_protocol(info.track_id, track_events(t)),
            Err(f) => symphonia_opened(bytes@) == Err::<OpenedTrack, OpenFailureView>(f@),
        },
{
    match probe(bytes) {
        Ok(source) => open_default_track(source),
        Err(t) => Err(OpenFailure::Probe(t)),
    }
}

/// Decodes any compressed format symphonia handles here: probe the
/// container, decode its default audio track to completion, interleaved
/// `i16`. Packets of other tracks are skipped, the last decoded packet's
/// rate and channel count win, an error of the reader or the codec is
/// returned as `Codec`, and a track without samples is `Malformed`.
pub fn decode_with_symphonia(bytes: &[u8]) -> (r: Result<AudioData, DecodeError>)
    ensures
        result_view(r) == symphonia_decoded(bytes@),
{
    let (mut track, info) = match open_track(bytes) {
        Ok(opened) => opened,
        Err(f) => {
            return Err(open_failure_error(f));
        },
    };
    let id = info.track_id;
    let ghost all = symphonia_events(bytes@);
    let mut sample_rate: u32 = 0;
    let mut channels: u16 = 0;
    let mut samples: Vec<i16> = Vec::new();
    let ghost mut done: Seq<TrackEvent> = Seq::empty();
    assert(all =~= done + track_events(track));
    loop
        invariant
            symphonia_opened(bytes@) == Ok::<OpenedTrack, OpenFailureView>(
                (info.track_id, info.total_frames, info.sample_rate, info.channels),
            ),
            id == info.track_id,
            all == symphonia_events(bytes@),
            follows_protocol(id, all),
            all == done + track_events(track),
            track_events(track).len() > 0,
            track_events(track)[0] is Read,
            replay(id, done) == Replay::Reading(sample_rate, channels, samples@),
        decreases track_events(track).len(),
    {
        let ghost rest = track_events(track);
        proof {
            lemma_split_step(all, done, rest);
            lemma_protocol_step(id, all, done.len() as int);
        }
        let next = next_packet(&mut track);
        proof {
            lemma_replay_push(id, done, rest[0]);
            done = done.push(rest[0]);
        }
        match next {
            Err(t) => {
                let r = Err(DecodeError::Codec(t));
                assert(done =~= all);
                return r;
            },
            Ok(None) => {
                assert(done =~= all);
                if samples.len() == 0 {
                    return Err(DecodeError::Malformed("no decodable audio packets"));
                } else {
                    return Ok(AudioData { sample_rate, channels, samples });
                }
            },
            Ok(Some(packet_track)) => {
                if packet_track == id {
                    let ghost rest2 = track_events(track);
                    proof {
                        lemma_split_step(all, done, rest2);
                        lemma_protocol_step(id, all, done.len() as int);
                    }
                    let decoded = decode_pending(&mut track);
                    proof {
                        lemma_replay_push(id, done, rest2[0]);
                        done = done.push(rest2[0]);
                    }
                    match decoded {
                        Err(t) => {
                            assert(done =~= all);
                            return Err(DecodeError::Codec(t));
                        },
                        Ok(block) => {
                            sample_rate = block.sample_rate;
                            channels = block.channels;
                            let mut more = block.samples;
                            samples.append(&mut more);
                        },
                    }
                }
            },
        }
    }
}


pub open spec fn or_zero_u32(x: Option<u32>) -> u32 {
    match x {
        Some(v) => v,
        None => 0,
    }
}

pub open spec fn or_zero_u16(x: Option<u16>) -> u16 {
    match x {
        Some(v) => v,
        None => 0,
    }
}

/// A compressed track decoded on demand: packets are decoded only until
/// enough samples are queued for the block asked for. After an error of
/// the reader or the codec the stream stays failed and reports that error
/// again.
pub struct SymphoniaStream {
    track: SymphoniaTrack,
    track_id: u32,
    total_frames: Option<u64>,
    start_rate: u32,
    start_channels: u16,
    sample_rate: u32,
    channels: u16,
    pending: PendingSamples,
    failure: Option<String>,
    source: Ghost<Seq<u8>>,
    served: Ghost<Seq<i16>>,
    consumed: Ghost<Seq<TrackEvent>>,
}

impl SymphoniaStream {
    /// The bytes the stream decodes.
    pub closed spec fn bytes_spec(&self) -> Seq<u8> {
        self.source@
    }

    /// The events of `symphonia_events` consumed so far.
    pub closed spec fn events(&self) -> Seq<TrackEvent> {
        self.consumed@
    }

    /// Samples decoded and not yet served, and whether the track ended.
    pub closed spec fn queue(&self) -> (Seq<i16>, bool) {
        self.pending@
    }

    /// Samples served so far.
    pub closed spec fn served(&self) -> Seq<i16> {
        self.served@
    }

    /// The format the stream reports: the container's, replaced by that
    /// of each decoded packet.
    pub closed spec fn format(&self) -> (u32, u16) {
        (self.sample_rate, self.channels)
    }

    /// The error text that failed the stream, if it failed.
    pub closed spec fn failure_spec(&self) -> Option<Seq<char>> {
        match self.failure {
            Some(t) => Some(t@),
            None => None,
        }
    }

    /// The frame count the container announced, if any.
    pub closed spec fn total_frames_spec(&self) -> Option<u64> {
        self.total_frames
    }

    /// The replay of the consumed events from the container's format.
    pub closed spec fn outcome(&self) -> Replay {
        replay_from(self.track_id, Replay::Reading(self.start_rate, self.start_channels, Seq::empty()), self.consumed@)
    }

    /// The consumed events are the start of `symphonia_events` of the
    /// bytes, and replaying them gives the format and every sample decoded
    /// so far (served, then queued); once the track ended, the last event
    /// is the end of the container; once it failed, the replay ends in
    /// that error.
    pub closed spec fn wf(&self) -> bool {
        let all = symphonia_events(self.source@);
        let start = Replay::Reading(self.start_rate, self.start_channels, Seq::empty());
        let so_far = Replay::Reading(self.sample_rate, self.channels, self.served@ + self.pending@.0);
        &&& symphonia_opened(self.source@) matches Ok((id, frames, r, c)) && id == self.track_id && frames
            == self.total_frames && self.start_rate == or_zero_u32(r) && self.start_channels == or_zero_u16(c)
        &&& follows_protocol(self.track_id, all)
        &&& all == self.consumed@ + track_events(self.track)
        &&& match self.failure {
            Some(t) => !self.pending@.1 && self.outcome() == Replay::Done(Err(DecodeErrorView::Codec(t@))),
            None => if self.pending@.1 {
                &&& self.consumed@.len() > 0
                &&& self.consumed@.last() == TrackEvent::Read(Ok(None))
                &&& replay_from(self.track_id, start, self.consumed@.drop_last()) == so_far
            } else {
                &&& self.outcome() == so_far
                &&& track_events(self.track).len() > 0
                &&& track_events(self.track)[0] is Read
            },
        }
    }

    /// Opens the default audio track of `bytes`. Its format is the
    /// container's; where the container leaves the rate or the channel
    /// count unset, packets are decoded until one is queued, and a format
    /// still unset is an error.
    pub fn open(bytes: &[u8]) -> (r: Result<SymphoniaStream, DecodeError>)
        ensures
            match symphonia_opened(bytes@) {
                Err(f) => r matches Err(e) && e@ == open_error(f),
                Ok((_, frames, rate, ch)) => {
                    &&& r matches Ok(s) ==> (s.wf() && s.bytes_spec() == bytes@ && s.served() == Seq::<i16>::empty()
                        && s.failure_spec() is None && s.format().0 != 0 && s.format().1 != 0
                        && s.total_frames_spec() == frames)
                    &&& or_zero_u32(rate) != 0 && or_zero_u16(ch) != 0 ==> (r matches Ok(s) && s.events()
                        == Seq::<TrackEvent>::empty() && s.queue() == (Seq::<i16>::empty(), false) && s.format() == (
                        or_zero_u32(rate),
                        or_zero_u16(ch),
                    ))
                    &&& r matches Err(e) ==> (e is Codec || e@ == DecodeErrorView::Malformed(
                        "stream carries no sample rate/channel information",
                    ))
                },
            },
    {
        let (track, info) = match open_track(bytes) {
            Ok(opened) => opened,
            Err(f) => return Err(open_failure_error(f)),
        };
        let rate = match info.sample_rate {
            Some(r) => r,
            None => 0,
        };
        let channels = match info.channels {
            Some(c) => c,
            None => 0,
        };
        let mut stream = SymphoniaStream {
            track,
            track_id: info.track_id,
            total_frames: info.total_frames,
            start_rate: rate,
            start_channels: channels,
            sample_rate: rate,
            channels,
            pending: PendingSamples::new(),
            failure: None,
            source: Ghost(bytes@),
            served: Ghost(Seq::empty()),
            consumed: Ghost(Seq::empty()),
        };
        proof {
            assert(Seq::<i16>::empty() + Seq::<i16>::empty() =~= Seq::<i16>::empty());
            assert(symphonia_events(bytes@) =~= Seq::<TrackEvent>::empty() + track_events(stream.track));
        }
        if stream.sample_rate == 0 || stream.channels == 0 {
            stream.fill_to(1)?;
        }
        if stream.sample_rate == 0 || stream.channels == 0 {
            return Err(DecodeError::Malformed("stream carries no sample rate/channel information"));
        }
        Ok(stream)
    }

    pub fn sample_rate(&self) -> (r: u32)
        ensures
            r == self.format().0,
    {
        self.sample_rate
    }

    pub fn channels(&self) -> (r: u16)
        ensures
            r == self.format().1,
    {
        self.channels
    }

    /// The frame count the container announced, if any.
    pub fn total_frames(&self) -> (r: Option<u64>)
        ensures
            r == self.total_frames_spec(),
    {
        self.total_frames
    }

    /// Decodes packets of the track until at least `want` samples are
    /// queued or the track ends; packets of other tracks are skipped, and
    /// nothing is decoded when enough is queued already. An error of the
    /// reader or the codec fails the stream and is returned as `Codec`.
    #[verifier::rlimit(40)]
    pub fn fill_to(&mut self, want: usize) -> (r: Result<(), DecodeError>)
        requires
            old(self).wf(),
        ensures
            final(self).wf(),
            final(self).bytes_spec() == old(self).bytes_spec(),
            final(self).served() == old(self).served(),
            final(self).total_frames_spec() == old(self).total_frames_spec(),
            old(self).events().is_prefix_of(final(self).events()),
            old(self).queue().0.is_prefix_of(final(self).queue().0),
            old(self).failure_spec() is Some || old(self).queue().1 || old(self).queue().0.len() >= want ==> (
            final(self).events() == old(self).events() && final(self).queue() == old(self).queue()
                && final(self).format() == old(self).format() && final(self).failure_spec()
                == old(self).failure_spec()),
            old(self).failure_spec() matches Some(t) ==> (r matches Err(e) && e@ == DecodeErrorView::Codec(t)),
            old(self).failure_spec() is None ==> match r {
                Ok(_) => final(self).failure_spec() is None && (final(self).queue().1 || final(self).queue().0.len()
                    >= want),
                Err(e) => final(self).failure_spec() matches Some(t) && e@ == DecodeErrorView::Codec(t)
                    && final(self).outcome() == Replay::Done(Err(e@)),
            },
    {
        match &self.failure {
            Some(t) => {
                return Err(DecodeError::Codec(t.clone()));
            },
            None => {},
        }
        let ghost start = Replay::Reading(self.start_rate, self.start_channels, Seq::empty());
        let ghost all = symphonia_events(self.source@);
        loop
            invariant
                self.wf(),
                self.failure is None,
                old(self).failure is None,
                all == symphonia_events(self.source@),
                self.source@ == old(self).source@,
                self.track_id == old(self).track_id,
                self.total_frames == old(self).total_frames,
                self.start_rate == old(self).start_rate,
                self.start_channels == old(self).start_channels,
                start == Replay::Reading(self.start_rate, self.start_channels, Seq::empty()),
                self.served@ == old(self).served@,
                old(self).consumed@.is_prefix_of(self.consumed@),
                old(self).pending@.0.is_prefix_of(self.pending@.0),
                old(self).pending@.1 || old(self).pending@.0.len() >= want ==> (self.consumed@ == old(
                    self,
                ).consumed@ && self.pending@ == old(self).pending@ && self.sample_rate == old(self).sample_rate
                    && self.channels == old(self).channels),
            ensures
                self.wf(),
                self.failure is None,
                self.source@ == old(self).source@,
                self.total_frames == old(self).total_frames,
                self.served@ == old(self).served@,
                old(self).consumed@.is_prefix_of(self.consumed@),
                old(self).pending@.0.is_prefix_of(self.pending@.0),
                old(self).pending@.1 || old(self).pending@.0.len() >= want ==> (self.consumed@ == old(
                    self,
                ).consumed@ && self.pending@ == old(self).pending@ && self.sample_rate == old(self).sample_rate
                    && self.channels == old(self).channels),
                self.pending@.1 || self.pending@.0.len() >= want,
            decreases track_events(self.track).len(),
        {
            if !self.pending.needs_more(want) {
                break;
            }
            let ghost rest = track_events(self.track);
            let ghost before = self.consumed@;
            proof {
                lemma_split_step(all, before, rest);
                lemma_protocol_step(self.track_id, all, before.len() as int);
            }
            let next = next_packet(&mut self.track);
            proof {
                lemma_replay_from_push(self.track_id, start, before, rest[0]);
                self.consumed@ = before.push(rest[0]);
                assert(before.is_prefix_of(self.consumed@));
            }
            match next {
                Err(t) => {
                    self.failure = Some(t.clone());
                    return Err(DecodeError::Codec(t));
                },
                Ok(None) => {
                    self.pending.finish();
                    assert(self.consumed@.drop_last() =~= before);
                    break;
                },
                Ok(Some(packet_track)) => {
                    if packet_track == self.track_id {
                        let ghost rest2 = track_events(self.track);
                        let ghost mid = self.consumed@;
                        proof {
                            lemma_split_step(all, mid, rest2);
                            lemma_protocol_step(self.track_id, all, mid.len() as int);
                        }
                        let decoded = decode_pending(&mut self.track);
                        proof {
                            lemma_replay_from_push(self.track_id, start, mid, rest2[0]);
                            self.consumed@ = mid.push(rest2[0]);
                            assert(before.is_prefix_of(self.consumed@));
                        }
                        match decoded {
                            Err(t) => {
                                self.failure = Some(t.clone());
                                return Err(DecodeError::Codec(t));
                            },
                            Ok(block) => {
                                self.sample_rate = block.sample_rate;
                                self.channels = block.channels;
                                let ghost q = self.pending@.0;
                                self.pending.extend(block.samples.as_slice());
                                proof {
                                    assert(self.served@ + (q + block@.samples) =~= (self.served@ + q)
                                        + block@.samples);
                                    lemma_split_step(all, self.consumed@, track_events(self.track));
                                }
                            },
                        }
                    } else {
                        proof {
                            lemma_split_step(all, self.consumed@, track_events(self.track));
                        }
                    }
                },
            }
        }
        Ok(())
    }

    /// Serves the next block of at most `want` queued samples, as the
    /// queue's `take_block` does; decode with `fill_to` first.
    pub fn take_block(&mut self, want: usize) -> (r: Option<Vec<i16>>)
        requires
            old(self).wf(),
        ensures
            final(self).wf(),
            final(self).bytes_spec() == old(self).bytes_spec(),
            final(self).events() == old(self).events(),
            final(self).format() == old(self).format(),
            final(self).failure_spec() == old(self).failure_spec(),
            final(self).total_frames_spec() == old(self).total_frames_spec(),
            ({
                let p = old(self).queue().0;
                let n = if want < p.len() { want as int } else { p.len() as int };
                if p.len() == 0 {
                    &&& final(self).queue() == old(self).queue()
                    &&& final(self).served() == old(self).served()
                    &&& if old(self).queue().1 { r is None } else { r matches Some(b) && b@.len() == 0 }
                } else {
                    &&& r matches Some(b) && b@ == p.take(n)
                    &&& final(self).queue() == (p.skip(n), old(self).queue().1)
                    &&& final(self).served() == old(self).served() + p.take(n)
                }
            }),
    {
        let ghost p = self.pending@.0;
        let r = self.pending.take_block(want);
        proof {
            let n = if want < p.len() { want as int } else { p.len() as int };
            if p.len() > 0 {
                assert(self.served@ + p =~= (self.served@ + p.take(n)) + p.skip(n));
                self.served@ = self.served@ + p.take(n);
            }
        }
        r
    }
}

} // verus!
