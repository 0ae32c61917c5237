use slmeter::InterpPlan;
use slmeter::Micros;
use slmeter::SplReading;
use slmeter::Weightings;
use slmeter::cal_bin_center_micro_hz;
use slmeter::f32_bits_finite;
use slmeter::locate_segment;
use slmeter::mirror_bin;
use slmeter::parse_calibration;

fn lines(ls: &[&str]) -> Vec<Vec<u8>> {
    ls.iter().map(|l| l.as_bytes().to_vec()).collect()
}

#[test]
fn table_exact_query_hits_table_entry() {
    let t = parse_calibration(&lines(&[
        "Sens Factor =0dB",
        "20 -1.5",
        "100 0.5",
        "1000 0.0",
    ]))
    .unwrap();
    let q = Micros { neg: false, magnitude: 100_000_000 };
    assert_eq!(locate_segment(&t, &q), InterpPlan::Exact { index: 1 });
    let q0 = Micros { neg: false, magnitude: 20_000_000 };
    assert_eq!(locate_segment(&t, &q0), InterpPlan::Exact { index: 0 });
}

#[test]
fn out_of_range_query_uses_edge_segment() {
    let t = parse_calibration(&lines(&[
        "Sens Factor =0dB",
        "20 -1.5",
        "100 0.5",
        "1000 0.0",
    ]))
    .unwrap();
    // Below the table: first segment, extended — not clamped.
    let low = Micros { neg: false, magnitude: 5_000_000 };
    assert_eq!(locate_segment(&t, &low), InterpPlan::Segment { lo: 0 });
    // Above the table: last segment, extended.
    let high = Micros { neg: false, magnitude: 20_000_000_000 };
    assert_eq!(locate_segment(&t, &high), InterpPlan::Segment { lo: 1 });
    // Between two entries: the bracketing segment.
    let mid = Micros { neg: false, magnitude: 400_000_000 };
    assert_eq!(locate_segment(&t, &mid), InterpPlan::Segment { lo: 1 });
    let mid0 = Micros { neg: false, magnitude: 50_000_000 };
    assert_eq!(locate_segment(&t, &mid0), InterpPlan::Segment { lo: 0 });
}

#[test]
fn mirror_bins_pair_up_except_dc_and_nyquist() {
    let n = 96_000;
    assert_eq!(mirror_bin(0, n), None);
    assert_eq!(mirror_bin(n / 2, n), None);
    assert_eq!(mirror_bin(1, n), Some(n - 1));
    assert_eq!(mirror_bin(n - 1, n), Some(1));
    assert_eq!(mirror_bin(12_345, n), Some(n - 12_345));
    assert_eq!(mirror_bin(n - 12_345, n), Some(12_345));
}

#[test]
fn cal_bin_centers_carry_half_bin_offset() {
    // FFT size twice the sample rate: bins every half hertz, centers offset
    // by half a hertz.
    assert_eq!(cal_bin_center_micro_hz(0, 48_000, 96_000), 500_000);
    assert_eq!(cal_bin_center_micro_hz(1, 48_000, 96_000), 1_000_000);
    assert_eq!(cal_bin_center_micro_hz(3, 48_000, 96_000), 2_000_000);
    let centers = slmeter::cal_bin_centers(48_000, 96_000);
    assert_eq!(centers.len(), 48_000);
    assert_eq!(centers[0], 500_000);
    assert_eq!(centers[47_999], 24_000_000_000);
}

#[test]
fn weightings_enforce_curve_length() {
    let half = 4usize;
    let a = vec![0u32; half];
    let c = vec![0u32; half];
    let cal = vec![0u32; half];
    assert!(Weightings::new(a.clone(), c.clone(), cal.clone(), 8).is_ok());
    assert!(Weightings::new(a, c, vec![0u32; 3], 8).is_err());
}

#[test]
fn non_finite_reading_is_flagged_degenerate() {
    // An all-silent window yields minus infinity dB; the reading must be
    // flagged, never reported as a measurement.
    assert!(!f32_bits_finite(f32::NEG_INFINITY.to_bits()));
    assert!(!f32_bits_finite(f32::NAN.to_bits()));
    assert!(f32_bits_finite(33.6f32.to_bits()));
    let degenerate = SplReading::new(
        f32::NEG_INFINITY.to_bits(),
        f32::NEG_INFINITY.to_bits(),
        f32::NEG_INFINITY.to_bits(),
        1_700_000_000,
    );
    assert!(degenerate.is_degenerate());
    let fine = SplReading::new(
        33.6f32.to_bits(),
        31.2f32.to_bits(),
        33.0f32.to_bits(),
        1_700_000_000,
    );
    assert!(!fine.is_degenerate());
}
