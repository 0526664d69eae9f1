use tpt_av_asset::text::{
    chars_of, fmt_dec, fmt_dec_padded, fmt_hex16, is_float_text, join_fields, parse_u32, parse_u64,
    split_fields,
};

#[test]
fn decimal_formatting() {
    assert_eq!(fmt_dec(0), "0");
    assert_eq!(fmt_dec(7), "7");
    assert_eq!(fmt_dec(1024), "1024");
    assert_eq!(fmt_dec(u64::MAX), u64::MAX.to_string());
    assert_eq!(fmt_dec_padded(2, 6), "000002");
    assert_eq!(fmt_dec_padded(1_234_567, 6), "1234567");
    assert_eq!(fmt_dec_padded(0, 0), "0");
}

#[test]
fn parsing_matches_std() {
    for s in ["0", "42", "+7", "0007", "18446744073709551615", "18446744073709551616", "", "+", "-1", "12a", " 1", "٣"] {
        assert_eq!(parse_u64(s), s.parse::<u64>().ok(), "{s:?}");
    }
    for s in ["4294967295", "4294967296", "+0", "99999999999"] {
        assert_eq!(parse_u32(s), s.parse::<u32>().ok(), "{s:?}");
    }
}

#[test]
fn hex_formatting_matches_std() {
    for v in [0u64, 1, 0xAB, 0xDEAD_BEEF_0123_4567, u64::MAX] {
        assert_eq!(fmt_hex16(v), format!("{v:016x}"));
    }
}

#[test]
fn split_and_join_fields() {
    let fields = vec!["a/b.wav".to_string(), "1024".to_string(), String::new()];
    let joined = join_fields(&fields);
    assert_eq!(joined, "a/b.wav\u{1}1024\u{1}");
    assert_eq!(split_fields(&joined), fields);
    assert_eq!(split_fields(""), vec![String::new()]);
    assert_eq!(split_fields("x"), vec!["x".to_string()]);
    let s = "p\u{1}q\u{1}\u{1}r";
    assert_eq!(split_fields(s), s.split('\u{1}').map(String::from).collect::<Vec<_>>());
}

#[test]
fn chars_are_collected_in_order() {
    assert_eq!(chars_of("héllo"), vec!['h', 'é', 'l', 'l', 'o']);
    assert!(chars_of("").is_empty());
}

#[test]
fn float_text_matches_std() {
    for s in [
        "0", "0.5", "-0.5", "+1", "1.", ".5", ".", "+.", "1e5", "1E-5", "1e", "e5", "1.e5", "inf",
        "-Infinity", "NaN", "nan ", " 1", "", "+", "1..2", "1e5.0", "infinit", "-iNf", "12a", "1_0",
    ] {
        assert_eq!(is_float_text(s), s.parse::<f64>().is_ok(), "{s:?}");
    }
    for v in [0.5f64, 1.0, -3.25, 1e300, f64::MAX, f64::INFINITY, f64::NAN, 0.1] {
        assert!(is_float_text(&v.to_string()), "{v}");
    }
}
