use rve::model::VideoMetadata;
use rve::probe::{parse_probe_output, ProbeError};

#[test]
fn parses_typical_output() {
    let out = b"width=1920,height=1080,r_frame_rate=30000/1001\nduration=12.345678\n";
    assert_eq!(
        parse_probe_output(out),
        Ok(VideoMetadata { width: 1920, height: 1080, fps_num: 30000, fps_den: 1001, duration_us: 12_345_678 })
    );
}

#[test]
fn whitespace_order_and_repeats() {
    let out = b"  \n duration=3\nr_frame_rate=25/1,width=10,height=1,width=640,height=480\n\n";
    assert_eq!(
        parse_probe_output(out),
        Ok(VideoMetadata { width: 640, height: 480, fps_num: 25, fps_den: 1, duration_us: 3_000_000 })
    );
}

#[test]
fn duration_fraction_digits() {
    let out = b"width=2,height=2,r_frame_rate=24/1,duration=0.5";
    assert_eq!(parse_probe_output(out).unwrap().duration_us, 500_000);
    let out = b"width=2,height=2,r_frame_rate=24/1,duration=1.23456789";
    assert_eq!(parse_probe_output(out).unwrap().duration_us, 1_234_567);
    let out = b"width=2,height=2,r_frame_rate=24/1,duration=.25";
    assert_eq!(parse_probe_output(out).unwrap().duration_us, 250_000);
}

#[test]
fn error_variants() {
    assert_eq!(parse_probe_output(b"height=1"), Err(ProbeError::MissingWidth));
    assert_eq!(parse_probe_output(b""), Err(ProbeError::MissingWidth));
    assert_eq!(parse_probe_output(b"width=abc,height=1"), Err(ProbeError::BadWidth));
    assert_eq!(parse_probe_output(b"width=99999999999"), Err(ProbeError::BadWidth));
    assert_eq!(parse_probe_output(b"width=1"), Err(ProbeError::MissingHeight));
    assert_eq!(parse_probe_output(b"width=1,height="), Err(ProbeError::BadHeight));
    assert_eq!(parse_probe_output(b"width=1,height=1"), Err(ProbeError::MissingFps));
    assert_eq!(parse_probe_output(b"width=1,height=1,r_frame_rate=30"), Err(ProbeError::BadFps));
    assert_eq!(parse_probe_output(b"width=1,height=1,r_frame_rate=3x/1"), Err(ProbeError::BadFpsNumber));
    assert_eq!(parse_probe_output(b"width=1,height=1,r_frame_rate=30/"), Err(ProbeError::BadFpsNumber));
    assert_eq!(parse_probe_output(b"width=1,height=1,r_frame_rate=30/1"), Err(ProbeError::MissingDuration));
    assert_eq!(
        parse_probe_output(b"width=1,height=1,r_frame_rate=30/1,duration=N/A"),
        Err(ProbeError::BadDuration)
    );
    assert_eq!(
        parse_probe_output(b"width=1,height=1,r_frame_rate=30/1,duration=."),
        Err(ProbeError::BadDuration)
    );
}

#[test]
fn degenerate_metadata_is_still_read() {
    let m = |w: i32, h: i32, n: u32, d: u32| VideoMetadata { width: w, height: h, fps_num: n, fps_den: d, duration_us: 1_000_000 };
    let zero = parse_probe_output(b"width=0,height=1,r_frame_rate=30/1,duration=1").unwrap();
    assert_eq!(zero, m(0, 1, 30, 1));
    assert!(!zero.is_valid());
    let neg = parse_probe_output(b"width=-4,height=1,r_frame_rate=30/1,duration=1").unwrap();
    assert_eq!(neg, m(-4, 1, 30, 1));
    assert!(!neg.is_valid());
    let nofps = parse_probe_output(b"width=4,height=1,r_frame_rate=0/0,duration=1").unwrap();
    assert_eq!(nofps, m(4, 1, 0, 0));
    assert!(!nofps.is_valid());
}

#[test]
fn plus_signs_are_accepted() {
    let out = b"width=4,height=2,r_frame_rate=+30/+1,duration=+2.5";
    let meta = parse_probe_output(out).unwrap();
    assert_eq!((meta.fps_num, meta.fps_den, meta.duration_us), (30, 1, 2_500_000));
    assert_eq!(
        parse_probe_output(b"width=4,height=2,r_frame_rate=30/1,duration=+"),
        Err(ProbeError::BadDuration)
    );
    assert_eq!(parse_probe_output(b"width=4,height=2,r_frame_rate=++30/1"), Err(ProbeError::BadFpsNumber));
}

#[test]
fn signed_dimensions_parse_like_integers() {
    let out = b"width=+64,height=48,r_frame_rate=30/1,duration=1";
    assert_eq!(parse_probe_output(out).unwrap().width, 64);
}

#[test]
fn metadata_validity() {
    let m = VideoMetadata { width: 1920, height: 1080, fps_num: 30, fps_den: 1, duration_us: 0 };
    assert!(m.is_valid());
    let tall = VideoMetadata { width: 1, height: 2_000_000_000, fps_num: 30, fps_den: 1, duration_us: 0 };
    assert!(!tall.is_valid());
}

#[test]
fn unicode_whitespace_is_trimmed() {
    let out = "\u{a0}\u{2003} width=4,height=2,r_frame_rate=30/1\nduration=1\u{3000}\u{85}\n".as_bytes();
    let meta = parse_probe_output(out).unwrap();
    assert_eq!((meta.width, meta.height, meta.duration_us), (4, 2, 1_000_000));
    // a no-break space inside the text is kept (and breaks the number)
    let out = "width=4,height=2,r_frame_rate=30/1,duration=1\u{a0}5".as_bytes();
    assert_eq!(parse_probe_output(out), Err(ProbeError::BadDuration));
}

fn duration(text: &str) -> Result<u64, ProbeError> {
    let out = format!("width=4,height=2,r_frame_rate=30/1,duration={}", text);
    parse_probe_output(out.as_bytes()).map(|m| m.duration_us)
}

#[test]
fn duration_is_read_like_a_float() {
    assert_eq!(duration("1.5e3"), Ok(1_500_000_000));
    assert_eq!(duration("1E2"), Ok(100_000_000));
    assert_eq!(duration("+1e+2"), Ok(100_000_000));
    assert_eq!(duration(".5e1"), Ok(5_000_000));
    assert_eq!(duration("5."), Ok(5_000_000));
    assert_eq!(duration("25e-1"), Ok(2_500_000));
    assert_eq!(duration("1e-7"), Ok(0));
    assert_eq!(duration("123456789e-14"), Ok(1));
    assert_eq!(duration("-0"), Ok(0));
    assert_eq!(duration("-0.000e5"), Ok(0));
    assert_eq!(duration("0e99999999999999999999999999999999999999"), Ok(0));
    assert_eq!(duration("7e-99999999999999999999999999999999999999"), Ok(0));
    assert_eq!(duration("18446744073709.551615"), Ok(u64::MAX));
    assert_eq!(duration("18446744073709.551616"), Err(ProbeError::BadDuration));
    assert_eq!(duration("1e20"), Err(ProbeError::BadDuration));
    assert_eq!(duration("1e99999999999999999999999999999999999999"), Err(ProbeError::BadDuration));
    assert_eq!(duration("-1.5"), Err(ProbeError::BadDuration));
    assert_eq!(duration("inf"), Err(ProbeError::BadDuration));
    assert_eq!(duration("NaN"), Err(ProbeError::BadDuration));
    assert_eq!(duration("1e"), Err(ProbeError::BadDuration));
    assert_eq!(duration("e5"), Err(ProbeError::BadDuration));
    assert_eq!(duration("1e+"), Err(ProbeError::BadDuration));
    assert_eq!(duration("1.2.3"), Err(ProbeError::BadDuration));
}
