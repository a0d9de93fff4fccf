use quakers_launcher::measure::{gigabytes, human, megabytes, percent};
use quakers_launcher::number::{decimal, decimal_right_aligned, decimal_zero_padded};

/// Byte counts of every magnitude, with the awkward ones in between.
fn samples() -> Vec<u64> {
    let mut v = vec![0, 1, 5, 10, 999, 1000, 1023, 1024, 1025, 6_290_000_000, 3_630_000_000, u64::MAX];
    for shift in 0..64 {
        let p = 1u64 << shift;
        for d in [1, 2, 3, 7] {
            v.push(p.saturating_sub(d));
            v.push(p);
            v.push(p.saturating_add(d));
        }
    }
    // halves of what is displayed
    for k in 0..400u64 {
        v.push(k * 5_000_000);
        v.push(k * 5_000_000 + 1);
        v.push(k * 50_000);
        v.push(k * 512 + 51);
        v.push(k << 9);
    }
    let mut x: u64 = 0x9e37_79b9_7f4a_7c15;
    for i in 0..4000 {
        x ^= x << 13;
        x ^= x >> 7;
        x ^= x << 17;
        v.push(x >> (i % 64));
    }
    v
}

fn human_by_doubles(b: u64) -> String {
    let units = ["B", "KB", "MB", "GB", "TB"];
    if b < 1024 {
        return format!("{} B", b);
    }
    let mut v = b as f64;
    let mut i = 0;
    while v >= 1024.0 && i < 4 {
        v /= 1024.0;
        i += 1;
    }
    format!("{:.1} {}", v, units[i])
}

#[test]
fn byte_counts_print_like_doubles() {
    for b in samples() {
        assert_eq!(gigabytes(b), format!("{:.2}", b as f64 / 1e9), "{b}");
        assert_eq!(megabytes(b), format!("{:.1}", b as f64 / 1e6), "{b}");
        assert_eq!(human(b), human_by_doubles(b), "{b}");
    }
}

#[test]
fn byte_counts_have_exact_values() {
    assert_eq!(gigabytes(6_290_000_000), "6.29");
    assert_eq!(gigabytes(0), "0.00");
    assert_eq!(megabytes(1_250_000), "1.2");
    assert_eq!(megabytes(1_350_000), "1.4");
    assert_eq!(human(1023), "1023 B");
    assert_eq!(human(1024), "1.0 KB");
    assert_eq!(human(1 << 30), "1.0 GB");
    assert_eq!(human(1 << 50), "1024.0 TB");
}

#[test]
fn percentages_are_those_of_doubles() {
    let all = samples();
    for (i, &a) in all.iter().enumerate() {
        for &b in [all[(i * 7 + 3) % all.len()], all[(i * 31 + 11) % all.len()], 100, 13786].iter() {
            let (done, total) = (a.min(b), a.max(b));
            let ratio = if total > 0 { (done as f64 / total as f64).clamp(0.0, 1.0) } else { 0.0 };
            assert!(percent(done, total) <= 100);
            assert_eq!(percent(done, total), (ratio * 100.0) as u16 as u64, "{done}/{total}");
        }
    }
    assert_eq!(percent(29, 100), 28);
    assert_eq!(percent(1, 3), 33);
    assert_eq!(percent(0, 0), 0);
}

#[test]
fn decimals_are_padded() {
    for n in samples() {
        assert_eq!(decimal(n), n.to_string());
    }
    assert_eq!(decimal_zero_padded(7, 2), "07");
    assert_eq!(decimal_zero_padded(123, 2), "123");
    assert_eq!(decimal_right_aligned(7, 3), "  7");
    assert_eq!(decimal_right_aligned(1234, 3), "1234");
}
