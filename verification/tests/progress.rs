use stream_downloader::progress::{
    bar, format_bytes, known_total_line, measured_total, unknown_total_line, BAR_WIDTH,
};

fn float_bytes(n: u64) -> String {
    const K: f64 = 1024.0;
    let b = n as f64;
    if b < K {
        return format!("{n} B");
    }
    if b < K * K {
        return format!("{:.1} KB", b / K);
    }
    if b < K * K * K {
        return format!("{:.1} MB", b / (K * K));
    }
    format!("{:.1} GB", b / (K * K * K))
}

#[test]
fn bytes_match_float_formatting() {
    let samples = [
        0u64, 1, 1023, 1024, 1075, 1076, 1280, 1535, 1536, 1792, 2304, 10_000, 1_048_575,
        1_048_576, 5_000_000, 10_000_000, 1_073_741_823, 1_073_741_824, 123_456_789_012,
        u64::MAX,
    ];
    for n in samples {
        assert_eq!(format_bytes(n), float_bytes(n), "n = {n}");
    }
}

#[test]
fn bytes_exact_values() {
    assert_eq!(format_bytes(512), "512 B");
    assert_eq!(format_bytes(1280), "1.2 KB");
    assert_eq!(format_bytes(1792), "1.8 KB");
    assert_eq!(format_bytes(5_000_000), "4.8 MB");
    assert_eq!(format_bytes(1_073_741_824), "1.0 GB");
}

#[test]
fn known_total_line_layout() {
    let line = known_total_line("clip.mp4", " 50.0", 12, 5_000_000, 10_000_000);
    assert_eq!(
        line,
        format!("clip.mp4   50.0% [{}{}] 4.8 MB/9.5 MB", "█".repeat(12), "░".repeat(12))
    );
}

#[test]
fn unknown_total_line_layout() {
    assert_eq!(unknown_total_line("clip.mp4", 1024), "clip.mp4  1.0 KB downloaded");
    assert_eq!(unknown_total_line("a", 5), "a  5 B downloaded");
}

#[test]
fn full_and_empty_bars() {
    assert_eq!(bar(24), format!("[{}]", "█".repeat(24)));
    assert_eq!(bar(0), format!("[{}]", "░".repeat(24)));
    assert_eq!(bar(30), bar(BAR_WIDTH));
    assert_eq!(bar(1), format!("[█{}]", "░".repeat(23)));
}

#[test]
fn only_positive_totals_are_measured() {
    assert_eq!(measured_total(Some(10)), Some(10));
    assert_eq!(measured_total(Some(0)), None);
    assert_eq!(measured_total(None), None);
}

fn float_line(label: &str, downloaded: u64, total: Option<u64>) -> String {
    const W: usize = 24;
    match total.filter(|&t| t > 0) {
        Some(total) => {
            let pct = (downloaded as f64 / total as f64 * 100.0).min(100.0);
            let filled = ((pct / 100.0) * W as f64).round() as usize;
            let filled = filled.min(W);
            let bar = format!("[{}{}]", "█".repeat(filled), "░".repeat(W.saturating_sub(filled)));
            format!(
                "{}  {:5.1}% {} {}/{}",
                label,
                pct,
                bar,
                float_bytes(downloaded),
                float_bytes(total)
            )
        }
        None => format!("{}  {} downloaded", label, float_bytes(downloaded)),
    }
}

#[test]
fn line_parts_compose_the_float_line() {
    let totals = [1u64, 3, 7, 10, 48, 96, 1000, 1024, 12_345, 10_000_000, 3_333_333_333];
    for &t in &totals {
        for k in 0..=220u64 {
            let d = t * k / 200;
            let line = match measured_total(Some(t)) {
                Some(total) => {
                    let pct = (d as f64 / total as f64 * 100.0).min(100.0);
                    let filled = ((pct / 100.0) * BAR_WIDTH as f64).round() as usize;
                    known_total_line("x", &format!("{pct:5.1}"), filled, d, total)
                }
                None => unknown_total_line("x", d),
            };
            assert_eq!(line, float_line("x", d, Some(t)), "d = {d}, t = {t}");
        }
    }
}
