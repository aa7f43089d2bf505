use meridian::asset::Decoder;
use meridian::audio_format::{
    AnyAudioDecoder, AudioFormat, FlacDecoder, Mp3Decoder, OpusDecoder, VorbisDecoder, expect_format,
};
use meridian::bytes::{DecodeError, u32_le};
use meridian::compressed::{decode_with_symphonia, SymphoniaStream};
use meridian::opus::{is_opus_tags, opus_head, trim_opus};
use meridian::wav::WavDecoder;

fn make_wav(sample_rate: u32, channels: u16, samples: &[i16]) -> Vec<u8> {
    let data_bytes: Vec<u8> = samples.iter().flat_map(|s| s.to_le_bytes()).collect();
    let fmt_body_len = 16u32;
    let data_len = data_bytes.len() as u32;
    let riff_len = 4 + (8 + fmt_body_len) + (8 + data_len);

    let mut b = Vec::new();
    b.extend_from_slice(b"RIFF");
    b.extend_from_slice(&riff_len.to_le_bytes());
    b.extend_from_slice(b"WAVE");

    b.extend_from_slice(b"fmt ");
    b.extend_from_slice(&fmt_body_len.to_le_bytes());
    b.extend_from_slice(&1u16.to_le_bytes());
    b.extend_from_slice(&channels.to_le_bytes());
    b.extend_from_slice(&sample_rate.to_le_bytes());
    let block_align = channels * 2;
    let byte_rate = sample_rate * block_align as u32;
    b.extend_from_slice(&byte_rate.to_le_bytes());
    b.extend_from_slice(&block_align.to_le_bytes());
    b.extend_from_slice(&16u16.to_le_bytes());

    b.extend_from_slice(b"data");
    b.extend_from_slice(&data_len.to_le_bytes());
    b.extend_from_slice(&data_bytes);
    b
}

fn make_ogg_page(payload: &[u8]) -> Vec<u8> {
    assert!(payload.len() < 255);
    let mut b = Vec::new();
    b.extend_from_slice(b"OggS");
    b.extend_from_slice(&[0u8; 22]);
    b.push(1);
    b.push(payload.len() as u8);
    b.extend_from_slice(payload);
    b
}

fn make_wav_header() -> Vec<u8> {
    let mut b = Vec::new();
    b.extend_from_slice(b"RIFF");
    b.extend_from_slice(&36u32.to_le_bytes());
    b.extend_from_slice(b"WAVE");
    b
}

#[test]
fn wav_decodes_pcm_samples_and_format() {
    let samples = [0i16, 1000, -1000, i16::MAX, i16::MIN];
    let bytes = make_wav(44100, 2, &samples);
    let audio = WavDecoder.decode(&bytes).unwrap();
    assert_eq!(audio.sample_rate, 44100);
    assert_eq!(audio.channels, 2);
    assert_eq!(audio.samples, samples);
}

#[test]
fn wav_rejects_bad_magic() {
    let mut bytes = make_wav(44100, 1, &[0]);
    bytes[0] = b'X';
    assert_eq!(WavDecoder.decode(&bytes), Err(DecodeError::BadMagic { expected: "RIFF" }));
}

#[test]
fn wav_tolerates_extra_chunks_before_data() {
    let mut bytes = make_wav(8000, 1, &[42]);
    let fmt_end = 12 + 8 + 16;
    let mut extra = Vec::new();
    extra.extend_from_slice(b"LIST");
    extra.extend_from_slice(&4u32.to_le_bytes());
    extra.extend_from_slice(&[1, 2, 3, 4]);
    bytes.splice(fmt_end..fmt_end, extra.iter().copied());
    let added = extra.len() as u32;
    let old_riff_len = u32_le(&bytes, 4);
    bytes[4..8].copy_from_slice(&(old_riff_len + added).to_le_bytes());

    let audio = WavDecoder.decode(&bytes).unwrap();
    assert_eq!(audio.samples, vec![42]);
}

#[test]
fn wav_reports_each_structural_error() {
    let good = make_wav(8000, 1, &[1, 2]);
    let mut not_wave = good.clone();
    not_wave[8] = b'X';
    assert_eq!(WavDecoder.decode(&not_wave), Err(DecodeError::BadMagic { expected: "WAVE" }));

    let mut float_format = good.clone();
    float_format[20..22].copy_from_slice(&3u16.to_le_bytes());
    assert_eq!(
        WavDecoder.decode(&float_format),
        Err(DecodeError::Unsupported("WAV audioFormat other than PCM"))
    );

    let mut eight_bit = good.clone();
    eight_bit[34..36].copy_from_slice(&8u16.to_le_bytes());
    assert_eq!(WavDecoder.decode(&eight_bit), Err(DecodeError::Unsupported("WAV bit depth other than 16")));

    let header_only = make_wav_header();
    assert_eq!(WavDecoder.decode(&header_only), Err(DecodeError::Malformed("missing fmt chunk")));

    let mut truncated = good.clone();
    truncated.truncate(good.len() - 1);
    assert_eq!(
        WavDecoder.decode(&truncated),
        Err(DecodeError::TooShort { needed: good.len(), got: good.len() - 1 })
    );

    assert_eq!(WavDecoder.decode(b"RIFF"), Err(DecodeError::TooShort { needed: 12, got: 4 }));
}

#[test]
fn detect_identifies_every_signature() {
    assert_eq!(AudioFormat::detect(&make_wav_header()), Some(AudioFormat::Wav));
    assert_eq!(AudioFormat::detect(b"fLaC\x00"), Some(AudioFormat::Flac));
    assert_eq!(AudioFormat::detect(b"ID3\x04\x00rest"), Some(AudioFormat::Mp3));
    assert_eq!(AudioFormat::detect(&[0xFF, 0xFB, 0x90, 0x00]), Some(AudioFormat::Mp3));
    assert_eq!(AudioFormat::detect(&make_ogg_page(b"OpusHead\x01\x02")), Some(AudioFormat::OggOpus));
    assert_eq!(AudioFormat::detect(&make_ogg_page(b"\x01vorbis\x00")), Some(AudioFormat::OggVorbis));
    assert_eq!(AudioFormat::detect(&make_ogg_page(b"\x7fFLAC")), None);
    assert_eq!(AudioFormat::detect(b"not audio at all"), None);
    assert_eq!(AudioFormat::detect(&[]), None);
    assert_eq!(AudioFormat::detect(&[0xFF, 0xE0]), None);
}

#[test]
fn per_format_decoders_reject_wrong_signatures() {
    let wav = make_wav_header();
    assert!(matches!(Mp3Decoder.decode(&wav), Err(DecodeError::BadMagic { .. })));
    assert!(matches!(VorbisDecoder.decode(&wav), Err(DecodeError::BadMagic { .. })));
    assert!(matches!(OpusDecoder.decode(b"fLaC"), Err(DecodeError::BadMagic { .. })));
    assert!(matches!(FlacDecoder.decode(b"ID3\x04"), Err(DecodeError::BadMagic { .. })));
    assert!(matches!(Mp3Decoder.check(&wav), Err(DecodeError::BadMagic { .. })));
    assert!(matches!(FlacDecoder.check(b"ID3\x04"), Err(DecodeError::BadMagic { .. })));
}

#[test]
fn malformed_bytes_error_instead_of_panicking() {
    let mut fake_mp3 = b"ID3\x04\x00\x00\x00\x00\x00\x00".to_vec();
    fake_mp3.extend_from_slice(&[0xAB; 64]);
    assert!(Mp3Decoder.decode(&fake_mp3).is_err());

    let mut fake_opus = make_ogg_page(b"OpusHead\xFF\xFF");
    fake_opus.extend_from_slice(&[0xCD; 64]);
    assert!(OpusDecoder.decode(&fake_opus).is_err());

    assert!(FlacDecoder.decode(b"fLaC\xDE\xAD\xBE\xEF").is_err());
}

#[test]
fn symphonia_decodes_a_pcm_track_to_its_samples() {
    let samples = [0i16, 1000, -1000, i16::MAX, i16::MIN, 7];
    let bytes = make_wav(22050, 2, &samples);
    let audio = decode_with_symphonia(&bytes).unwrap();
    assert_eq!(audio.sample_rate, 22050);
    assert_eq!(audio.channels, 2);
    assert_eq!(audio.samples, samples.to_vec());
}

#[test]
fn symphonia_reports_an_unprobeable_container_as_a_codec_error() {
    assert!(matches!(decode_with_symphonia(b"no container here"), Err(DecodeError::Codec(_))));
}

#[test]
fn symphonia_stream_serves_the_track_block_by_block() {
    let samples = [1i16, 2, 3, 4, 5, 6, 7, 8];
    let bytes = make_wav(8000, 1, &samples);
    let mut stream = SymphoniaStream::open(&bytes).unwrap();
    assert_eq!(stream.sample_rate(), 8000);
    assert_eq!(stream.channels(), 1);
    let mut served = Vec::new();
    loop {
        stream.fill_to(3).unwrap();
        match stream.take_block(3) {
            Some(block) => {
                assert!(block.len() <= 3);
                served.extend(block);
            }
            None => break,
        }
    }
    assert_eq!(served, samples.to_vec());
}

#[test]
fn signature_guard_names_the_expected_signature() {
    assert_eq!(expect_format(b"fLaC", AudioFormat::Flac), Ok(()));
    assert_eq!(
        expect_format(b"fLaC", AudioFormat::OggOpus),
        Err(DecodeError::BadMagic { expected: "OggS + OpusHead" })
    );
    assert_eq!(
        expect_format(b"ID3", AudioFormat::Wav),
        Err(DecodeError::BadMagic { expected: "RIFF/WAVE" })
    );
}

#[test]
fn any_audio_decoder_rejects_unknown_signatures() {
    assert!(matches!(
        AnyAudioDecoder.decode(b"garbage bytes here"),
        Err(DecodeError::Unsupported(_))
    ));
    assert!(matches!(
        AnyAudioDecoder.route(b"garbage bytes here"),
        Err(DecodeError::Unsupported(_))
    ));
    assert_eq!(AnyAudioDecoder.route(b"fLaC\x00"), Ok(AudioFormat::Flac));
    assert_eq!(AnyAudioDecoder.sniff(b"ID3\x04"), Some(AudioFormat::Mp3));
}

#[test]
fn any_audio_decoder_routes_wav_to_the_wav_decoder() {
    let bytes = make_wav(44100, 1, &[5, -5]);
    assert_eq!(AnyAudioDecoder.decode(&bytes), WavDecoder.decode(&bytes));
}

fn opus_head_packet(channels: u8, pre_skip: u16, family: u8) -> Vec<u8> {
    let mut b = b"OpusHead".to_vec();
    b.push(1);
    b.push(channels);
    b.extend_from_slice(&pre_skip.to_le_bytes());
    b.extend_from_slice(&48000u32.to_le_bytes());
    b.extend_from_slice(&[0, 0]);
    b.push(family);
    b
}

#[test]
fn opus_head_reads_channels_and_pre_skip() {
    assert_eq!(opus_head(&opus_head_packet(2, 312, 0)), Ok((2, 312)));
    assert_eq!(opus_head(&opus_head_packet(1, 0, 0)), Ok((1, 0)));
}

#[test]
fn opus_head_reports_each_error() {
    assert_eq!(
        opus_head(b"OpusTags........."),
        Err(DecodeError::Malformed("first OGG packet is not OpusHead"))
    );
    assert_eq!(
        opus_head(&opus_head_packet(2, 0, 1)),
        Err(DecodeError::Unsupported("Opus mapping family other than 0 (mono/stereo)"))
    );
    assert_eq!(
        opus_head(&opus_head_packet(3, 0, 0)),
        Err(DecodeError::Malformed("OpusHead channel count invalid for mapping family 0"))
    );
    assert!(is_opus_tags(b"OpusTags\x00"));
    assert!(!is_opus_tags(b"OpusHead"));
}

#[test]
fn opus_pre_skip_is_trimmed_per_channel() {
    let out = trim_opus(vec![1, 2, 3, 4, 5, 6], 2, 2).unwrap();
    assert_eq!(out.sample_rate, 48_000);
    assert_eq!(out.channels, 2);
    assert_eq!(out.samples, vec![5, 6]);
    assert_eq!(trim_opus(vec![1, 2], 2, 5), Err(DecodeError::Malformed("no decodable Opus packets")));
}
