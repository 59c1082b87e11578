use filmilhoes::present::format_line;
use filmilhoes::size_format::format_size;

#[test]
fn zero_bytes() {
    assert_eq!(format_size(0), "   0.00   B");
}

#[test]
fn small_counts_stay_in_bytes() {
    assert_eq!(format_size(1), "   1.00   B");
    assert_eq!(format_size(1000), "1000.00   B");
}

#[test]
fn exactly_1024_stays_in_bytes() {
    assert_eq!(format_size(1024), "1024.00   B");
}

#[test]
fn past_1024_moves_to_kibibytes() {
    assert_eq!(format_size(1025), "   1.00 KiB");
    assert_eq!(format_size(1536), "   1.50 KiB");
}

#[test]
fn ties_round_to_even() {
    // 1152 bytes are exactly 1.125 KiB
    assert_eq!(format_size(1152), "   1.12 KiB");
    // 1408 bytes are exactly 1.375 KiB
    assert_eq!(format_size(1408), "   1.38 KiB");
}

#[test]
fn larger_units() {
    assert_eq!(format_size(5 * 1024 * 1024), "   5.00 MiB");
    assert_eq!(format_size(3 * 1024 * 1024 * 1024), "   3.00 GiB");
    assert_eq!(format_size(2 * 1024 * 1024 * 1024 * 1024), "   2.00 TiB");
}

#[test]
fn top_unit_is_a_bound() {
    assert_eq!(format_size(1024u64.pow(5)), "1024.00 TiB");
    assert_eq!(format_size(u64::MAX), "16777216.00 TiB");
}

#[test]
fn numbers_grow_within_a_unit() {
    let mut last = 0.0f64;
    for n in (1025u64..1024 * 1024).step_by(997) {
        let text = format_size(n);
        assert!(text.ends_with("KiB"));
        let value: f64 = text[..7].trim().parse().unwrap();
        assert!(value >= last);
        last = value;
    }
}

#[test]
fn line_shows_size_and_name() {
    assert_eq!(format_line(2048, "a.txt"), "    2.00 KiB \u{2551} a.txt");
}
