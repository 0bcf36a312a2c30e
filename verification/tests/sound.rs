use ten_minute_art::audio::{
    decoded_wav_format, encode_samples, is_ogg_opus_extension, plan_wav,
    prepare_tts_audio_for_send, strip_urls_for_tts, AudioError, TtsAudio, WavFormat,
};
use ten_minute_art::wav::normalize_wav_header;

fn wav(rate: u32, channels: u16, samples: &[i16]) -> Vec<u8> {
    let mut out = Vec::new();
    let data: Vec<u8> = samples.iter().flat_map(|s| s.to_le_bytes()).collect();
    out.extend_from_slice(b"RIFF");
    out.extend_from_slice(&(36 + data.len() as u32).to_le_bytes());
    out.extend_from_slice(b"WAVEfmt ");
    out.extend_from_slice(&16u32.to_le_bytes());
    out.extend_from_slice(&1u16.to_le_bytes());
    out.extend_from_slice(&channels.to_le_bytes());
    out.extend_from_slice(&rate.to_le_bytes());
    out.extend_from_slice(&(rate * channels as u32 * 2).to_le_bytes());
    out.extend_from_slice(&(channels * 2).to_le_bytes());
    out.extend_from_slice(&16u16.to_le_bytes());
    out.extend_from_slice(b"data");
    out.extend_from_slice(&(data.len() as u32).to_le_bytes());
    out.extend_from_slice(&data);
    out
}

fn float_wav(rate: u32) -> Vec<u8> {
    let mut out = Vec::new();
    out.extend_from_slice(b"RIFF\0\0\0\0WAVEfmt ");
    out.extend_from_slice(&16u32.to_le_bytes());
    out.extend_from_slice(&3u16.to_le_bytes());
    out.extend_from_slice(&1u16.to_le_bytes());
    out.extend_from_slice(&rate.to_le_bytes());
    out.extend_from_slice(&(rate * 4).to_le_bytes());
    out.extend_from_slice(&4u16.to_le_bytes());
    out.extend_from_slice(&32u16.to_le_bytes());
    out.extend_from_slice(b"data");
    out.extend_from_slice(&u32::MAX.to_le_bytes());
    out.extend_from_slice(&0.5f32.to_le_bytes());
    out
}

#[test]
fn addresses_are_not_spoken() {
    assert_eq!(
        strip_urls_for_tts("See  https://a.b/c and\nHTTP://X www.y.z or (https://kept)"),
        "See and or (https://kept)"
    );
    assert_eq!(strip_urls_for_tts("http://only"), "");
}

#[test]
fn sentinel_sizes_are_repaired() {
    let good = wav(24_000, 1, &[1, -2, 3]);
    let mut streamed = good.clone();
    streamed[4..8].copy_from_slice(&u32::MAX.to_le_bytes());
    streamed[40..44].copy_from_slice(&u32::MAX.to_le_bytes());
    let repaired = normalize_wav_header(&streamed);
    assert_eq!(repaired, good);
    assert_eq!(normalize_wav_header(&repaired), repaired);
}

#[test]
fn chunks_before_the_data_are_walked() {
    let mut file = b"RIFF\0\0\0\0WAVE".to_vec();
    file.extend_from_slice(b"LIST\x03\0\0\0abc\0");
    file.extend_from_slice(b"data\xff\xff\xff\xff\x01\x02");
    let out = normalize_wav_header(&file);
    assert_eq!(&out[4..8], &(26u32).to_le_bytes());
    assert_eq!(&out[28..32], &2u32.to_le_bytes());
    // A chunk that overruns the file ends the walk.
    let mut broken = b"RIFF\0\0\0\0WAVE".to_vec();
    broken.extend_from_slice(b"LIST\xff\0\0\0data\0\0\0\0");
    let out = normalize_wav_header(&broken);
    assert_eq!(&out[12..], &broken[12..]);
}

#[test]
fn a_data_size_that_fits_is_left_alone() {
    let file = b"RIFF\x16\0\0\0WAVEdata\x02\0\0\0\x01\x02LIST\0\0\0\0";
    assert_eq!(normalize_wav_header(file), file);
    // Only the RIFF size is off.
    let mut streamed = file.to_vec();
    streamed[4..8].copy_from_slice(&u32::MAX.to_le_bytes());
    assert_eq!(normalize_wav_header(&streamed), file);
    // An empty data chunk is no placeholder.
    let empty = b"RIFF\x16\0\0\0WAVEdata\0\0\0\0LIST\x02\0\0\0\x01\x02";
    assert_eq!(normalize_wav_header(empty), empty);
}

#[test]
fn a_data_size_that_overruns_is_repaired() {
    let mut file = b"RIFF\x0e\0\0\0WAVEdata\x03\0\0\0\x01\x02".to_vec();
    let out = normalize_wav_header(&file);
    assert_eq!(&out[16..20], &2u32.to_le_bytes());
    file[16..20].copy_from_slice(&u32::MAX.to_le_bytes());
    assert_eq!(normalize_wav_header(&file), out);
}

#[test]
fn wrong_sizes_leave_no_trace() {
    let streamed = b"RIFF\xff\xff\xff\xffWAVEdata\xff\xff\xff\xff\x01\x02";
    let overrun = b"RIFF\0\0\0\0WAVEdata\x09\0\0\0\x01\x02";
    assert_eq!(normalize_wav_header(streamed), normalize_wav_header(overrun));
}

#[test]
fn chunks_behind_the_data_are_not_spoken() {
    let mut file = wav(48_000, 1, &[5, 6]);
    file.extend_from_slice(b"LIST\x02\0\0\0\x07\0");
    match prepare_tts_audio_for_send(file, "wav") {
        Ok(TtsAudio::Encode { samples, .. }) => assert_eq!(samples, vec![5, 6]),
        _ => panic!(),
    }
}

#[test]
fn what_is_no_wave_file_is_left_alone() {
    for bytes in [&b""[..], b"RIFF", b"RIFF\0\0\0\0WAVX1234", b"OggS\0\0\0\0WAVE"] {
        assert_eq!(normalize_wav_header(bytes), bytes);
    }
}

#[test]
fn formats_other_than_wav_pass_through() {
    for (format, expected) in [
        ("mp3", "audio/mpeg"),
        ("opus", "audio/ogg"),
        ("ogg", "audio/ogg"),
        ("flac", "application/octet-stream"),
        ("WAV", "application/octet-stream"),
    ] {
        match prepare_tts_audio_for_send(vec![1, 2, 3], format) {
            Ok(TtsAudio::Send { audio, mime }) => {
                assert_eq!(audio, vec![1, 2, 3]);
                assert_eq!(mime, expected);
            }
            _ => panic!("{format}"),
        }
    }
}

#[test]
fn wave_samples_are_read_for_encoding() {
    let mut file = wav(48_000, 2, &[1, -1, 300, -32768]);
    file[4..8].copy_from_slice(&u32::MAX.to_le_bytes());
    file[40..44].copy_from_slice(&u32::MAX.to_le_bytes());
    match prepare_tts_audio_for_send(file, "wav") {
        Ok(TtsAudio::Encode { samples, sample_rate, channels }) => {
            assert_eq!(samples, vec![1, -1, 300, -32768]);
            assert_eq!((sample_rate, channels), (48_000, 2));
        }
        _ => panic!(),
    }
}

#[test]
fn float_samples_are_left_for_conversion() {
    match prepare_tts_audio_for_send(float_wav(16_000), "wav") {
        Ok(TtsAudio::Convert { file, format }) => {
            assert_eq!((format.sample_rate, format.channels), (16_000, 1));
            assert_eq!((format.bits_per_sample, format.float), (32, true));
            assert_eq!(&file[40..44], &4u32.to_le_bytes());
        }
        _ => panic!(),
    }
}

#[test]
fn wave_files_that_cannot_be_sent_are_refused() {
    assert_eq!(
        prepare_tts_audio_for_send(b"no wave file".to_vec(), "wav").err(),
        Some(AudioError::ParseWav)
    );
    assert_eq!(
        prepare_tts_audio_for_send(wav(44_100, 1, &[1]), "wav").err(),
        Some(AudioError::Unsupported { sample_rate: 44_100, channels: 1 })
    );
    // A container that is larger than its samples of 16 bits.
    let format = WavFormat { channels: 1, sample_rate: 48_000, bits_per_sample: 16, float: false };
    assert_eq!(plan_wav(vec![], Some(format), None).err(), Some(AudioError::ReadSamples));
    assert_eq!(plan_wav(vec![], None, None).err(), Some(AudioError::ParseWav));
    assert!(encode_samples(vec![], 24_000, 3).is_err());
    for rate in [48_000, 24_000, 16_000] {
        for channels in [1, 2] {
            assert!(encode_samples(vec![], rate, channels).is_ok());
        }
    }
}

#[test]
fn received_opus_is_decoded() {
    for ext in ["oga", "OGG", "Opus"] {
        assert!(is_ogg_opus_extension(ext));
    }
    for ext in ["", "wav", "ogg2", "mp3"] {
        assert!(!is_ogg_opus_extension(ext));
    }
    let format = decoded_wav_format(2);
    assert_eq!(
        (format.channels, format.sample_rate, format.bits_per_sample, format.float),
        (2, 48_000, 16, false)
    );
}
