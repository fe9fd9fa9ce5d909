use netgauge::{human_bits_per_sec, human_bytes_per_sec};

#[test]
fn zero_bytes_renders_whole() {
    assert_eq!(human_bytes_per_sec(0), "0 B/s");
}

#[test]
fn bytes_below_threshold_render_whole() {
    assert_eq!(human_bytes_per_sec(1), "1 B/s");
    assert_eq!(human_bytes_per_sec(1023), "1023 B/s");
}

#[test]
fn kilobyte_rate_two_decimals() {
    assert_eq!(human_bytes_per_sec(1536), "1.50 KB/s");
    assert_eq!(human_bytes_per_sec(1024), "1.00 KB/s");
}

#[test]
fn megabyte_rate_two_decimals() {
    assert_eq!(human_bytes_per_sec(1048576), "1.00 MB/s");
    assert_eq!(human_bytes_per_sec(1572864), "1.50 MB/s");
}

#[test]
fn gigabyte_rate_two_decimals() {
    assert_eq!(human_bytes_per_sec(1073741824), "1.00 GB/s");
}

#[test]
fn rounding_ties_go_to_even() {
    // 1152 / 1024 = 1.125 exactly: the tie rounds down to the even hundredth.
    assert_eq!(human_bytes_per_sec(1152), "1.12 KB/s");
    // 1408 / 1024 = 1.375 exactly: the tie rounds up to the even hundredth.
    assert_eq!(human_bytes_per_sec(1408), "1.38 KB/s");
}

#[test]
fn thousand_bits_is_below_binary_threshold() {
    // 125 bytes are 1000 bits, still under 1024.
    assert_eq!(human_bits_per_sec(125), "1000 bps");
}

#[test]
fn bit_rates_scale_by_1024() {
    assert_eq!(human_bits_per_sec(0), "0 bps");
    assert_eq!(human_bits_per_sec(128), "1.00 Kbps");
    assert_eq!(human_bits_per_sec(131072), "1.00 Mbps");
    assert_eq!(human_bits_per_sec(134217728), "1.00 Gbps");
}

#[test]
fn large_byte_rate_does_not_overflow_in_bits() {
    // 2^61 bytes are 2^64 bits, or exactly 2^34 binary gigabits.
    assert_eq!(human_bits_per_sec(1 << 61), "17179869184.00 Gbps");
}
