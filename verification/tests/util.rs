use tuimux::util::{human_size, human_size_narrow};

#[test]
fn bytes_below_one_kib_are_whole() {
    assert_eq!(human_size(0), "0 B");
    assert_eq!(human_size(1), "1 B");
    assert_eq!(human_size(512), "512 B");
    assert_eq!(human_size(1023), "1023 B");
}

#[test]
fn kilobytes_use_one_decimal() {
    assert_eq!(human_size(1024), "1.0 KB");
    assert_eq!(human_size(1536), "1.5 KB");
    assert_eq!(human_size(10 * 1024), "10.0 KB");
}

#[test]
fn scales_into_larger_units() {
    assert_eq!(human_size(1024 * 1024), "1.0 MB");
    assert_eq!(human_size(1024 * 1024 * 1024), "1.0 GB");
    assert_eq!(human_size(1024u64.pow(4)), "1.0 TB");
    assert_eq!(human_size(1024u64.pow(5)), "1.0 PB");
}

#[test]
fn very_large_values_clamp_to_top_unit() {
    assert_eq!(human_size(2 * 1024u64.pow(5)), "2.0 PB");
    assert_eq!(human_size(u64::MAX).split(' ').nth(1).unwrap(), "PB");
}

#[test]
fn narrow_form_is_compact() {
    assert_eq!(human_size_narrow(0), "0B");
    assert_eq!(human_size_narrow(900), "900B");
    assert_eq!(human_size_narrow(12 * 1024), "12K");
    assert_eq!(human_size_narrow(1536), "1.5K");
    assert_eq!(human_size_narrow(4 * 1024), "4K");
    assert_eq!(human_size_narrow(1024 * 1024), "1M");
}

fn float_reference(bytes: u64, units: [&str; 6], spaced: bool) -> String {
    if bytes < 1024 {
        return if spaced { format!("{bytes} B") } else { format!("{bytes}B") };
    }
    let mut size = bytes as f64;
    let mut unit = 0;
    while size >= 1024.0 && unit < units.len() - 1 {
        size /= 1024.0;
        unit += 1;
    }
    let number = format!("{size:.1}");
    if spaced {
        format!("{number} {}", units[unit])
    } else {
        // The narrow form shows `X.0` as `X`.
        let number = number.strip_suffix(".0").unwrap_or(&number);
        format!("{number}{}", units[unit])
    }
}

#[test]
fn sizes_agree_with_floating_point_formatting() {
    let samples: [u64; 16] = [
        1024, 1025, 1535, 1536, 2007, 2020, 1_048_550, 10_000, 1_048_575, 1_048_576, 123_456_789, 999_999_999_999,
        (1u64 << 50) + 12345, 1u64 << 60, u64::MAX - 1, u64::MAX,
    ];
    for &b in samples.iter() {
        assert_eq!(human_size(b), float_reference(b, ["B", "KB", "MB", "GB", "TB", "PB"], true), "{b}");
        assert_eq!(human_size_narrow(b), float_reference(b, ["B", "K", "M", "G", "T", "P"], false), "{b}");
    }
}

#[test]
fn half_tenths_round_to_even() {
    // 1.25 KiB and 1.75 KiB are exact halves of a tenth.
    assert_eq!(human_size(1280), "1.2 KB");
    assert_eq!(human_size(1792), "1.8 KB");
}

#[test]
fn narrow_form_drops_a_decimal_that_rounds_to_zero() {
    assert_eq!(human_size_narrow(2007), "2K");
    assert_eq!(human_size(2007), "2.0 KB");
    assert_eq!(human_size_narrow(1_048_550), "1024K");
    assert_eq!(human_size_narrow(2100), "2.1K");
}
