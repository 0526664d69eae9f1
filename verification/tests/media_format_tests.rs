use tpt_av_asset::tkv::{check_encoder_params, check_frame, frame_bytes, frame_offset, gradient_painter, Error as TkvError, TkvHeader};
use tpt_av_asset::wav::{
    audio_stream_tags, parse_wav, pcm_int_sample, read_byte_count, wav_header, Error as WavError, FmtChunk, FORMAT_FLOAT,
    FORMAT_PCM,
};
use tpt_av_asset::wav_writer::{WavSpec, WavWriter};

#[test]
fn wav_header_parses_back() {
    let mut file = wav_header(8_000, 2, 8);
    file.extend_from_slice(&[1, 0, 2, 0, 3, 0, 4, 0]);
    let layout = parse_wav(&file).unwrap();
    assert_eq!(layout.fmt.format, FORMAT_PCM);
    assert_eq!(layout.fmt.channels, 2);
    assert_eq!(layout.fmt.sample_rate, 8_000);
    assert_eq!(layout.fmt.bits, 16);
    assert_eq!(layout.data_start, 44);
    assert_eq!(layout.data_len, 8);
    assert_eq!(layout.block_align, 4);
}

#[test]
fn wav_rejects_garbage_and_truncation() {
    assert!(matches!(parse_wav(b"RIFF"), Err(WavError::Io(_))));
    assert!(matches!(parse_wav(b"RIFX\0\0\0\0WAVEfmt "), Err(WavError::Format(_))));
    let file = wav_header(8_000, 1, 0);
    assert!(matches!(parse_wav(&file[..30]), Err(WavError::Io(_))));
}

#[test]
fn wav_data_chunk_is_clamped_to_the_file() {
    let mut file = wav_header(8_000, 1, 1000);
    file.extend_from_slice(&[0u8; 10]);
    assert_eq!(parse_wav(&file).unwrap().data_len, 10);
}

#[test]
fn wav_reads_take_whole_samples() {
    assert_eq!(read_byte_count(4, 2, 100, 0), 8);
    assert_eq!(read_byte_count(100, 2, 7, 0), 6);
    assert_eq!(read_byte_count(100, 2, 7, 6), 0);
}

#[test]
fn wav_writer_patches_sizes() {
    let mut w = WavWriter::new(WavSpec { sample_rate: 4_000, channels: 1 });
    let placeholder = w.placeholder_header();
    assert_eq!(&placeholder[0..4], b"RIFF");
    assert_eq!(&placeholder[4..8], &[0, 0, 0, 0]);
    assert_eq!(&placeholder[40..44], &[0, 0, 0, 0]);
    assert_eq!(w.write_samples(&[1, -1, 32767]), vec![1, 0, 0xff, 0xff, 0xff, 0x7f]);
    assert_eq!(w.bytes_written(), 6);
    let header = w.finish();
    assert_eq!(header, wav_header(4_000, 1, 6));
    assert_eq!(u32::from_le_bytes(header[4..8].try_into().unwrap()), 42);
    assert_eq!(u32::from_le_bytes(header[40..44].try_into().unwrap()), 6);
}

#[test]
fn tkv_header_roundtrip_and_validation() {
    let h = TkvHeader { width: 16, height: 10, frame_rate: 12.0f64.to_bits(), frame_count: 3 };
    let raw: [u8; 24] = h.bytes().try_into().unwrap();
    assert_eq!(&raw[0..4], b"TKV1");
    assert_eq!(TkvHeader::parse(&raw).unwrap(), h);
    let mut bad = raw;
    bad[0] = b'X';
    assert!(matches!(TkvHeader::parse(&bad), Err(TkvError::Format(_))));
    let zero = TkvHeader { width: 0, ..h };
    let raw0: [u8; 24] = zero.bytes().try_into().unwrap();
    assert!(TkvHeader::parse(&raw0).is_err());
}

#[test]
fn tkv_frame_geometry() {
    assert_eq!(frame_bytes(16, 10), 640);
    assert_eq!(frame_offset(16, 10, 0), 24);
    assert_eq!(frame_offset(16, 10, 3), 24 + 3 * 640);
    assert!(check_encoder_params(16, 10, 12.0f64.to_bits()).is_ok());
    assert!(check_encoder_params(0, 10, 12.0f64.to_bits()).is_err());
    assert!(check_encoder_params(16, 10, 0.0f64.to_bits()).is_err());
    assert!(check_frame(16, 10, 16, 10, 640).is_ok());
    assert!(check_frame(16, 10, 16, 9, 576).is_err());
    assert!(check_frame(16, 10, 16, 10, 639).is_err());
}

#[test]
fn gradient_has_a_moving_white_band() {
    let (w, h) = (8u32, 4u32);
    let mut a = vec![0u8; (w * h * 4) as usize];
    let mut b = vec![0u8; (w * h * 4) as usize];
    gradient_painter(0, w, h, &mut a);
    gradient_painter(1, w, h, &mut b);
    assert_ne!(a, b, "consecutive frames differ");
    // Frame 0: the band covers columns 0 and 1.
    assert_eq!(&a[0..4], &[255, 255, 255, 255]);
    assert_eq!(&a[4..8], &[255, 255, 255, 255]);
    // Column 2 of row 1: red 2*255/8, green 1*255/4, blue 32, opaque.
    let px = ((1 * w + 2) * 4) as usize;
    assert_eq!(&a[px..px + 4], &[63, 63, 32, 255]);
}

#[test]
fn pcm_samples_decode_to_signed_integers() {
    assert_eq!(pcm_int_sample(&[0], 1), -128);
    assert_eq!(pcm_int_sample(&[128], 1), 0);
    assert_eq!(pcm_int_sample(&[255], 1), 127);
    assert_eq!(pcm_int_sample(&[0x00, 0x80], 2), i32::from(i16::MIN));
    assert_eq!(pcm_int_sample(&[0xff, 0x7f], 2), 32767);
    assert_eq!(pcm_int_sample(&[0xfe, 0xff], 2), -2);
    for raw in [[0x00u8, 0x00, 0x80], [0xff, 0xff, 0x7f], [0x01, 0x02, 0xff], [0x10, 0x00, 0x00]] {
        let expected = ((raw[0] as i32) | ((raw[1] as i32) << 8) | ((raw[2] as i32) << 16)) << 8;
        assert_eq!(pcm_int_sample(&raw, 3), expected);
    }
    for raw in [[0u8, 0, 0, 0x80], [0xff, 0xff, 0xff, 0x7f], [0xff, 0xff, 0xff, 0xff]] {
        assert_eq!(pcm_int_sample(&raw, 4), i32::from_le_bytes(raw));
    }
    assert_eq!(pcm_int_sample(&[1, 2, 3, 4, 5], 5), 0);
}

#[test]
fn wav_codec_name_and_bit_rate() {
    let mut file = wav_header(8_000, 2, 8);
    file.extend_from_slice(&[1, 0, 2, 0, 3, 0, 4, 0]);
    let layout = parse_wav(&file).unwrap();
    assert_eq!(audio_stream_tags(&layout), ("pcm_s16le".to_string(), 256_000));
    let mut float = layout;
    float.fmt = FmtChunk { format: FORMAT_FLOAT, channels: 1, sample_rate: 48_000, bits: 32 };
    float.byte_rate = 192_000;
    assert_eq!(audio_stream_tags(&float), ("pcm_f32le".to_string(), 1_536_000));
    let mut eight = layout;
    eight.fmt.bits = 8;
    assert_eq!(audio_stream_tags(&eight).0, "pcm_s8le");
}
