use edl::util::speed::{format_bytes, Overshoot, SpeedLimiter};

#[test]
fn test_format_bytes() {
    assert_eq!(format_bytes(0), "0 B");
    assert_eq!(format_bytes(512), "512 B");
    assert_eq!(format_bytes(1024), "1.00 KB");
    assert_eq!(format_bytes(1536), "1.50 KB");
    assert_eq!(format_bytes(1024 * 1024), "1.00 MB");
    assert_eq!(format_bytes(1024 * 1024 * 1024), "1.00 GB");
}

#[test]
fn test_speed_limiter_unlimited() {
    let mut limiter = SpeedLimiter::new(0);
    assert!(limiter.consume(1024).is_none());
    assert!(limiter.consume(999999).is_none());
}

#[test]
fn test_speed_limiter_under_limit() {
    let mut limiter = SpeedLimiter::new(10000);
    // 100ms window budget = 10000 * 100 / 1000 = 1000
    assert!(limiter.consume(500).is_none());
}

#[test]
fn test_speed_limiter_over_limit() {
    let mut limiter = SpeedLimiter::new(10000);
    // 100ms window budget = 1000
    assert!(limiter.consume(500).is_none());
    // Second consume puts us over the 1000 budget
    let delay = limiter.consume(600);
    assert!(delay.is_some());
}

#[test]
fn test_speed_limiter_set_limit() {
    let mut limiter = SpeedLimiter::new(1000);
    assert_eq!(limiter.limit(), 1000);
    limiter.set_limit(2000);
    assert_eq!(limiter.limit(), 2000);
}

fn float_format_bytes(bytes: u64) -> String {
    if bytes >= 1024 * 1024 * 1024 {
        format!("{:.2} GB", bytes as f64 / (1024.0 * 1024.0 * 1024.0))
    } else if bytes >= 1024 * 1024 {
        format!("{:.2} MB", bytes as f64 / (1024.0 * 1024.0))
    } else if bytes >= 1024 {
        format!("{:.2} KB", bytes as f64 / 1024.0)
    } else {
        format!("{} B", bytes)
    }
}

#[test]
fn format_bytes_matches_float_formatting() {
    let mut samples: Vec<u64> = vec![
        1023, 1152, 1160, 1034, 1044, 5 * 1024 + 128, 1024 * 1024 - 1, 1024 * 1024 + 5 * 1024 + 120,
        (1u64 << 30) - 1, 3 * (1u64 << 30) + (1u64 << 27), 1u64 << 40, 1u64 << 53, (1u64 << 53) + 1,
        u64::MAX, u64::MAX - 1, 123456789012345678,
    ];
    let mut x: u64 = 0x9E3779B97F4A7C15;
    for _ in 0..20000 {
        x ^= x << 13;
        x ^= x >> 7;
        x ^= x << 17;
        let shift = (x % 64) as u32;
        samples.push(x >> shift);
    }
    for k in 1024u64..8192 {
        samples.push(k);
    }
    for b in samples {
        assert_eq!(format_bytes(b), float_format_bytes(b), "bytes = {}", b);
    }
}

#[test]
fn overshoot_is_the_bytes_over_budget() {
    let mut limiter = SpeedLimiter::new(10000);
    assert_eq!(limiter.consume_after(900, 0), None);
    assert_eq!(limiter.consume_after(300, 10), Some(Overshoot { bytes: 200, limit: 10000 }));
    assert_eq!(limiter.consumed(), 1200);
    // a new window starts after 100 ms
    assert_eq!(limiter.consume_after(300, 100), None);
    assert_eq!(limiter.consumed(), 300);
}

#[test]
fn unlimited_counts_nothing() {
    let mut limiter = SpeedLimiter::new(0);
    assert_eq!(limiter.consume_after(5000, 0), None);
    assert_eq!(limiter.consumed(), 0);
}

#[test]
fn speed_limit_display() {
    assert_eq!(edl::util::speed::speed_limit_text(0), "none");
    assert_eq!(edl::util::speed::speed_limit_text(1024 * 1024), "1.00 MB/s");
    assert_eq!(edl::util::speed::speed_limit_text(500), "500 B/s");
}
