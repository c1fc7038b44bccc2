use wav_concat::ConcatError;
use wav_concat::WAVHeaderData;
use wav_concat::WavParseError;
use wav_concat::get_wav_header;
use wav_concat::overwrite_wav_header;
use wav_concat::remove_wav_header;
use wav_concat::verify_wav_header;
use wav_concat::verify_wav_header_compatibility;
use wav_concat::wav_concat;

/// Builds a canonical 16-byte-header PCM WAV buffer with consistent
/// declared fields and the given payload.
fn make_wav(num_channels: u16, sample_rate: u32, bits_per_sample: u16, payload: &[u8]) -> Vec<u8> {
    let byte_rate = sample_rate * num_channels as u32 * bits_per_sample as u32 / 8;
    let block_align = num_channels * bits_per_sample / 8;
    let sub2 = payload.len() as u32;
    let mut v: Vec<u8> = Vec::new();
    v.extend_from_slice(b"RIFF");
    v.extend_from_slice(&(36 + sub2).to_le_bytes());
    v.extend_from_slice(b"WAVEfmt ");
    v.extend_from_slice(&16u32.to_le_bytes());
    v.extend_from_slice(&1u16.to_le_bytes());
    v.extend_from_slice(&num_channels.to_le_bytes());
    v.extend_from_slice(&sample_rate.to_le_bytes());
    v.extend_from_slice(&byte_rate.to_le_bytes());
    v.extend_from_slice(&block_align.to_le_bytes());
    v.extend_from_slice(&bits_per_sample.to_le_bytes());
    v.extend_from_slice(b"data");
    v.extend_from_slice(&sub2.to_le_bytes());
    v.extend_from_slice(payload);
    v
}

#[test]
fn parse_valid_header_fields() {
    let b = make_wav(1, 44100, 16, &[7u8, 8, 9, 10]);
    let h = get_wav_header(&b).expect("valid buffer must parse");
    assert_eq!(h.chunk_id, *b"RIFF");
    assert_eq!(h.chunk_size, 40);
    assert_eq!(h.format, *b"WAVE");
    assert_eq!(h.subchunk1_id, *b"fmt ");
    assert_eq!(h.subchunk1_size, 16);
    assert_eq!(h.audio_format, 1);
    assert_eq!(h.num_channels, 1);
    assert_eq!(h.sample_rate, 44100);
    assert_eq!(h.byte_rate, 88200);
    assert_eq!(h.block_align, 2);
    assert_eq!(h.bits_per_sample, 16);
    assert_eq!(h.subchunk2_id, *b"data");
    assert_eq!(h.subchunk2_size, 4);
    assert_eq!(h.data_begin, 44);
}

#[test]
fn parse_then_validate_self_holds() {
    let b = make_wav(2, 48000, 24, &[0u8; 12]);
    let h = get_wav_header(&b).expect("valid buffer must parse");
    assert!(verify_wav_header(&h));
}

#[test]
fn parse_rejects_rifx() {
    let mut b = make_wav(1, 44100, 16, &[0u8; 8]);
    b[3] = b'X';
    assert_eq!(get_wav_header(&b), Err(WavParseError::NotWavFormat));
}

#[test]
fn parse_rejects_missing_data_tag() {
    let mut b = make_wav(1, 44100, 16, &[0u8; 56]);
    b[36] = b'x';
    b[37] = b'x';
    b[38] = b'x';
    b[39] = b'x';
    assert_eq!(get_wav_header(&b), Err(WavParseError::DataChunkNotFound));
}

#[test]
fn parse_rejects_short_buffer() {
    let b: Vec<u8> = vec![0u8; 10];
    assert_eq!(get_wav_header(&b), Err(WavParseError::NotWavFormat));
}

#[test]
fn parse_uses_first_incidental_data_tag() {
    // The chunk-size field spells "data": the simple scan stops there.
    let mut b = make_wav(1, 44100, 16, &[0u8; 8]);
    b[4..8].copy_from_slice(b"data");
    let h = get_wav_header(&b).expect("buffer still parses");
    assert_eq!(h.data_begin, 12);
    assert_eq!(h.subchunk2_size, u32::from_le_bytes(*b"WAVE"));
}

#[test]
fn serialize_parse_roundtrip() {
    let b = make_wav(1, 44100, 16, &[1u8, 2, 3, 4, 5, 6]);
    let mut h = get_wav_header(&b).expect("valid buffer must parse");
    h.num_channels = 2;
    h.sample_rate = 22050;
    let rewritten = overwrite_wav_header(b, h);
    let g = get_wav_header(&rewritten).expect("rewritten buffer must parse");
    assert_eq!(g, h);
}

#[test]
fn serialize_leaves_tail_unchanged() {
    let b = make_wav(1, 44100, 16, &[9u8, 9, 9, 9]);
    let h = get_wav_header(&b).expect("valid buffer must parse");
    let rewritten = overwrite_wav_header(b.clone(), h);
    assert_eq!(rewritten, b);
}

#[test]
fn concat_single_buffer_is_identity() {
    let b = make_wav(1, 44100, 16, &[3u8; 20]);
    let out = wav_concat(&vec![b.clone()]).expect("one valid buffer must concatenate");
    assert_eq!(out, b);
}

#[test]
fn concat_sums_payload_sizes() {
    let a = make_wav(2, 22050, 16, &[1u8; 4]);
    let b = make_wav(2, 22050, 16, &[2u8; 8]);
    let c = make_wav(2, 22050, 16, &[3u8; 12]);
    let total_in = a.len() + b.len() + c.len();
    let out = wav_concat(&vec![a, b, c]).expect("compatible buffers must concatenate");
    assert_eq!(out.len(), total_in - 2 * 44);
    let h = get_wav_header(&out).expect("output must parse");
    assert_eq!(h.subchunk2_size, 24);
    assert!(verify_wav_header(&h));
    let expected: Vec<u8> = [vec![1u8; 4], vec![2u8; 8], vec![3u8; 12]].concat();
    assert_eq!(&out[44..], &expected[..]);
}

#[test]
fn concat_rejects_rate_mismatch() {
    let a = make_wav(1, 44100, 16, &[0u8; 4]);
    let b = make_wav(1, 22050, 16, &[0u8; 4]);
    assert_eq!(
        wav_concat(&vec![a, b]),
        Err(ConcatError::IncompatibleHeader { index: 1 })
    );
}

#[test]
fn concat_two_one_second_clips() {
    let a = make_wav(1, 44100, 16, &vec![0u8; 88200]);
    let b = make_wav(1, 44100, 16, &vec![0u8; 88200]);
    assert_eq!(a.len(), 44 + 88200);
    let out = wav_concat(&vec![a, b]).expect("compatible buffers must concatenate");
    // 44-byte header followed by the 176400 payload bytes.
    assert_eq!(out.len(), 44 + 176400);
    let h = get_wav_header(&out).expect("output must parse");
    assert_eq!(h.subchunk2_size, 176400);
    assert_eq!(h.chunk_size, 176436);
}

#[test]
fn concat_rejects_empty_input() {
    assert_eq!(wav_concat(&Vec::new()), Err(ConcatError::EmptyInput));
}

#[test]
fn concat_rejects_invalid_reference() {
    let mut a = make_wav(1, 44100, 16, &[0u8; 4]);
    a[28..32].copy_from_slice(&1u32.to_le_bytes());
    let b = make_wav(1, 44100, 16, &[0u8; 4]);
    assert_eq!(
        wav_concat(&vec![a, b]),
        Err(ConcatError::InvalidReferenceHeader)
    );
}

#[test]
fn concat_reports_unparsable_buffer_index() {
    let a = make_wav(1, 44100, 16, &[0u8; 4]);
    let junk: Vec<u8> = vec![1u8, 2, 3];
    assert_eq!(
        wav_concat(&vec![a, junk]),
        Err(ConcatError::ParseFailed {
            index: 1,
            error: WavParseError::NotWavFormat
        })
    );
}

#[test]
fn concat_rejects_oversized_total() {
    let mut a = make_wav(1, 44100, 16, &[0u8; 4]);
    let mut b = make_wav(1, 44100, 16, &[0u8; 4]);
    a[40..44].copy_from_slice(&u32::MAX.to_le_bytes());
    b[40..44].copy_from_slice(&u32::MAX.to_le_bytes());
    assert_eq!(wav_concat(&vec![a, b]), Err(ConcatError::SizeOverflow));
}

#[test]
fn remove_wav_header_strips_prefix() {
    let b = make_wav(1, 44100, 16, &[5u8, 6, 7]);
    let payload = remove_wav_header(b, 44);
    assert_eq!(payload, vec![5u8, 6, 7]);
}

#[test]
fn validate_self_rejects_wrong_byte_rate() {
    let h = WAVHeaderData {
        chunk_id: *b"RIFF",
        chunk_size: 36,
        format: *b"WAVE",
        subchunk1_id: *b"fmt ",
        subchunk1_size: 16,
        audio_format: 1,
        num_channels: 1,
        sample_rate: 44100,
        byte_rate: 1,
        block_align: 2,
        bits_per_sample: 16,
        subchunk2_id: *b"data",
        subchunk2_size: 0,
        data_begin: 44,
    };
    assert!(!verify_wav_header(&h));
}

#[test]
fn validate_self_rejects_wrong_block_align() {
    let b = make_wav(2, 48000, 16, &[0u8; 4]);
    let mut h = get_wav_header(&b).expect("valid buffer must parse");
    h.block_align = 7;
    assert!(!verify_wav_header(&h));
}

#[test]
fn compatibility_accepts_equal_formats() {
    let a = make_wav(2, 48000, 16, &[0u8; 4]);
    let b = make_wav(2, 48000, 16, &[0u8; 100]);
    let ha = get_wav_header(&a).expect("valid buffer must parse");
    let hb = get_wav_header(&b).expect("valid buffer must parse");
    assert!(verify_wav_header_compatibility(&hb, &ha));
}

#[test]
fn compatibility_rejects_channel_mismatch() {
    let a = make_wav(1, 48000, 16, &[0u8; 4]);
    let b = make_wav(2, 48000, 16, &[0u8; 4]);
    let ha = get_wav_header(&a).expect("valid buffer must parse");
    let hb = get_wav_header(&b).expect("valid buffer must parse");
    assert!(!verify_wav_header_compatibility(&hb, &ha));
}

/// The struct update in `serialize_parse_roundtrip` leaves the modified
/// header inconsistent on purpose; this case keeps a consistent one.
#[test]
fn roundtrip_keeps_consistent_header_valid() {
    let b = make_wav(2, 22050, 16, &[0u8; 16]);
    let h = get_wav_header(&b).expect("valid buffer must parse");
    let rewritten = overwrite_wav_header(b, h);
    let g = get_wav_header(&rewritten).expect("rewritten buffer must parse");
    assert!(verify_wav_header(&g));
}
