use stream_downloader::model::{MediaKind, Stream};
use stream_downloader::quality::{height_hint, pick_streams, pick_streams_prefer_progressive, Quality};
use stream_downloader::sites::common::parse_url;

fn stream(h: u32) -> Stream {
    Stream {
        url: parse_url("https://example.com/v.mp4").unwrap(),
        kind: MediaKind::Video,
        label: Some(format!("{h}p")),
        download_user_agent: None,
        mux_audio: None,
        hls: false,
        download_referer: None,
    }
}

fn stream_hls(h: u32) -> Stream {
    Stream { hls: true, ..stream(h) }
}

#[test]
fn parses_common_labels() {
    assert_eq!(Quality::parse("1080p").unwrap(), Quality::Height(1080));
    assert_eq!(Quality::parse("4k").unwrap(), Quality::Height(2160));
    assert_eq!(Quality::parse("all").unwrap(), Quality::All);
}

#[test]
fn picks_heights() {
    let hs = [144u32, 360, 720, 1080];
    assert_eq!(Quality::Best.pick(&hs), vec![1080]);
    assert_eq!(Quality::Height(720).pick(&hs), vec![720]);
    assert_eq!(Quality::All.pick(&hs).len(), 4);
}

#[test]
fn picks_streams_with_fallback() {
    let streams = vec![stream(720), stream(1080), stream(480)];
    let picked = pick_streams(streams, Quality::Height(1080)).unwrap();
    assert_eq!(picked.len(), 1);
    assert_eq!(height_hint(&picked[0]), 1080);

    let streams = vec![stream(720), stream(480)];
    let picked = pick_streams(streams, Quality::Height(1080)).unwrap();
    assert_eq!(height_hint(&picked[0]), 720);
}

#[test]
fn prefers_progressive_over_hls() {
    let streams = vec![stream_hls(720), Stream { hls: false, ..stream(720) }];
    let picked = pick_streams_prefer_progressive(streams, Quality::Best).unwrap();
    assert!(!picked[0].hls);
}

#[test]
fn parse_rejects_garbage_with_message() {
    let err = Quality::parse("fast").unwrap_err();
    assert_eq!(err.message(), "invalid URL: bad quality `fast`");
    assert_eq!(Quality::parse(" 720P ").unwrap(), Quality::Height(720));
    assert_eq!(Quality::parse("BEST").unwrap(), Quality::Best);
}

#[test]
fn pick_without_streams_is_an_error() {
    assert!(pick_streams(Vec::new(), Quality::Best).is_err());
    let picked = pick_streams(vec![stream(1080)], Quality::Height(480));
    assert!(picked.is_err());
}

#[test]
fn filter_keeps_only_chosen_heights() {
    let streams = vec![stream(720), stream(1080), stream(720)];
    let kept = Quality::Height(720).filter_streams(streams);
    assert_eq!(kept.len(), 2);
    assert!(kept.iter().all(|s| height_hint(s) == 720));
    let best = Quality::Best.filter_streams(vec![stream(480), stream(1080)]);
    assert_eq!(best.len(), 1);
    assert_eq!(height_hint(&best[0]), 1080);
}

#[test]
fn all_sorts_highest_first_and_stably() {
    let mut a = stream(720);
    a.download_referer = Some("first");
    let mut b = stream(720);
    b.download_referer = Some("second");
    let all = pick_streams(vec![stream(480), a, stream(1080), b], Quality::All).unwrap();
    let hs: Vec<u32> = all.iter().map(height_hint).collect();
    assert_eq!(hs, vec![1080, 720, 720, 480]);
    assert_eq!(all[1].download_referer, Some("first"));
    assert_eq!(all[2].download_referer, Some("second"));
}
