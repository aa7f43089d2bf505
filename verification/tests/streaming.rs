use meridian::bytes::DecodeError;
use meridian::streaming::{
    block_samples, collect_track, decodes_eagerly, effective_block_frames, estimated_decoded_bytes,
    DecodeMode, DecodeStrategy, PendingSamples, WavStream,
};

fn make_wav(sample_rate: u32, channels: u16, samples: &[i16]) -> Vec<u8> {
    let data_bytes: Vec<u8> = samples.iter().flat_map(|s| s.to_le_bytes()).collect();
    let data_len = data_bytes.len() as u32;
    let mut b = Vec::new();
    b.extend_from_slice(b"RIFF");
    b.extend_from_slice(&(36 + data_len).to_le_bytes());
    b.extend_from_slice(b"WAVE");
    b.extend_from_slice(b"fmt ");
    b.extend_from_slice(&16u32.to_le_bytes());
    b.extend_from_slice(&1u16.to_le_bytes());
    b.extend_from_slice(&channels.to_le_bytes());
    b.extend_from_slice(&sample_rate.to_le_bytes());
    b.extend_from_slice(&(sample_rate * channels as u32 * 2).to_le_bytes());
    b.extend_from_slice(&(channels * 2).to_le_bytes());
    b.extend_from_slice(&16u16.to_le_bytes());
    b.extend_from_slice(b"data");
    b.extend_from_slice(&data_len.to_le_bytes());
    b.extend_from_slice(&data_bytes);
    b
}

#[test]
fn strategy_defaults() {
    let s = DecodeStrategy::default();
    assert_eq!(s.mode, DecodeMode::Auto);
    assert_eq!(s.auto_threshold_bytes, 16 * 1024 * 1024);
    assert_eq!(s.block_frames, 4096);
    assert_eq!(DecodeMode::default(), DecodeMode::Auto);
}

#[test]
fn eager_or_streaming_decision() {
    let auto = DecodeStrategy::default();
    assert!(decodes_eagerly(&auto, Some(1024)));
    assert!(decodes_eagerly(&auto, Some(16 * 1024 * 1024)));
    assert!(!decodes_eagerly(&auto, Some(16 * 1024 * 1024 + 1)));
    assert!(!decodes_eagerly(&auto, None));
    let eager = DecodeStrategy { mode: DecodeMode::ForceEager, ..auto };
    assert!(decodes_eagerly(&eager, None));
    let streaming = DecodeStrategy { mode: DecodeMode::ForceStreaming, ..auto };
    assert!(!decodes_eagerly(&streaming, Some(1)));
    assert_eq!(estimated_decoded_bytes(Some(48_000), 2), Some(192_000));
    assert_eq!(estimated_decoded_bytes(None, 2), None);
}

#[test]
fn block_sizes() {
    assert_eq!(effective_block_frames(0), 1);
    assert_eq!(effective_block_frames(4096), 4096);
    assert_eq!(block_samples(4, 2), 8);
    assert_eq!(block_samples(4, 0), 4);
}

#[test]
fn wav_stream_serves_blocks_then_none_and_rewinds() {
    let samples: Vec<i16> = (1..=10).collect();
    let bytes = make_wav(8000, 2, &samples);
    let mut stream = WavStream::open(&bytes, 2).unwrap();
    assert_eq!(stream.sample_rate(), 8000);
    assert_eq!(stream.channels(), 2);
    assert_eq!(stream.total_frames(), 5);
    assert_eq!(stream.next_block(), Some(vec![1, 2, 3, 4]));
    assert_eq!(stream.next_block(), Some(vec![5, 6, 7, 8]));
    assert_eq!(stream.next_block(), Some(vec![9, 10]));
    assert_eq!(stream.next_block(), None);
    stream.rewind();
    assert_eq!(stream.next_block(), Some(vec![1, 2, 3, 4]));
    let rest = stream.decode_all().unwrap();
    assert_eq!(rest.samples, vec![5, 6, 7, 8, 9, 10]);
    assert_eq!(rest.sample_rate, 8000);
}

#[test]
fn wav_stream_drained_track_is_refused_and_bad_bytes_fail_like_wav() {
    let bytes = make_wav(8000, 1, &[7, 8]);
    let mut stream = WavStream::open(&bytes, 0).unwrap();
    assert_eq!(stream.next_block(), Some(vec![7]));
    assert_eq!(stream.next_block(), Some(vec![8]));
    assert_eq!(stream.decode_all(), Err(DecodeError::Malformed("no decodable audio packets")));
    assert_eq!(WavStream::open(b"RIFX", 16).err(), Some(DecodeError::TooShort { needed: 12, got: 4 }));
}

#[test]
fn pending_samples_serve_from_the_front() {
    let mut p = PendingSamples::new();
    assert!(p.needs_more(3));
    assert_eq!(p.take_block(3), Some(vec![]));
    p.extend(&[1, 2, 3, 4, 5]);
    assert!(!p.needs_more(3));
    assert_eq!(p.take_block(3), Some(vec![1, 2, 3]));
    assert_eq!(p.take_block(3), Some(vec![4, 5]));
    p.finish();
    assert!(!p.needs_more(3));
    assert_eq!(p.take_block(3), None);
    assert_eq!(collect_track(1, 1, vec![]), Err(DecodeError::Malformed("no decodable audio packets")));
    assert_eq!(collect_track(44_100, 2, vec![1, 2]).unwrap().samples, vec![1, 2]);
}
