use stream_downloader::download::{
    chunk_ranges, collision_candidate, content_range_total, is_part_file, parallel_chunks,
    part_file_name, range_header, report, retriable_http, retry_after_status, retry_delay_ms,
    use_parallel,
};
use stream_downloader::sites::common::parse_url;

#[test]
fn adaptive_parallel_chunks() {
    let ph = parse_url("https://ev.phncdn.com/v.mp4").unwrap();
    let cdn = parse_url("https://cdn.example.com/v.mp4").unwrap();
    assert_eq!(parallel_chunks(5 * 1024 * 1024, &cdn), 1);
    assert_eq!(parallel_chunks(20 * 1024 * 1024, &cdn), 2);
    assert_eq!(parallel_chunks(50 * 1024 * 1024, &cdn), 4);
    assert_eq!(parallel_chunks(200 * 1024 * 1024, &cdn), 8);
    assert_eq!(parallel_chunks(2 * 1024 * 1024 * 1024, &cdn), 16);
    assert_eq!(parallel_chunks(2 * 1024 * 1024 * 1024, &ph), 4);
}

#[test]
fn collision_names_carry_an_index() {
    assert_eq!(collision_candidate("clip", "mp4", 1), "clip-1.mp4");
    assert_eq!(collision_candidate("clip", "", 12), "clip-12");
}

#[test]
fn ranges_cover_the_file() {
    let r = chunk_ranges(10, 4);
    assert_eq!(r, vec![(0, 2), (3, 5), (6, 8), (9, 9)]);
    let r = chunk_ranges(3, 4);
    assert_eq!(r, vec![(0, 0), (1, 1), (2, 2)]);
    let r = chunk_ranges(16, 4);
    assert_eq!(r, vec![(0, 3), (4, 7), (8, 11), (12, 15)]);
}

#[test]
fn retry_rules() {
    assert!(retriable_http(Some(503)));
    assert!(!retriable_http(Some(404)));
    assert!(!retriable_http(None));
    assert!(retry_after_status(429, 0));
    assert!(!retry_after_status(429, 3));
    assert!(!retry_after_status(500, 0));
    assert_eq!(retry_delay_ms(0), 400);
    assert_eq!(retry_delay_ms(3), 3200);
    assert!(use_parallel(Some(2 * 1024 * 1024), true));
    assert!(!use_parallel(Some(2 * 1024 * 1024 - 1), true));
    assert!(!use_parallel(None, true));
    assert!(!use_parallel(Some(1 << 30), false));
}

#[test]
fn content_range_total_reads_size() {
    assert_eq!(content_range_total(Some("bytes 0-0/1234")), Some(1234));
    assert_eq!(content_range_total(Some("bytes 0-0/*")), None);
    assert_eq!(content_range_total(Some("bytes 0-0")), None);
    assert_eq!(content_range_total(None), None);
}

#[test]
fn report_throttles_by_percent() {
    let mut last = None;
    assert!(report(0, Some(1000), &mut last));
    assert!(!report(5, Some(1000), &mut last));
    assert!(report(10, Some(1000), &mut last));
    assert!(report(1000, Some(1000), &mut last));
    assert!(report(1000, Some(1000), &mut last));
    let mut unknown = None;
    assert!(report(0, None, &mut unknown));
    assert!(report(0, None, &mut unknown));
    assert!(!report(100, None, &mut unknown));
    assert!(report(600_000, None, &mut unknown));
}

#[test]
fn part_names() {
    assert_eq!(part_file_name("clip.mp4", 3), ".clip.mp4.part3");
    assert!(is_part_file(".clip.mp4.part12", "clip.mp4"));
    assert!(!is_part_file("clip.mp4", "clip.mp4"));
    assert_eq!(range_header(0, 99), "bytes=0-99");
}
