use locast2tuner::relay::{
    is_safe_playlist, pacing_wait_ms, Relay, RelayAction, QUEUE_DRAIN_AT, URL_BUDGET_MS,
};

const BASE: &str = "http://upstream.example/live/index.m3u8";

fn playlist(first: usize, count: usize, seconds: &str) -> String {
    let mut p = String::from("#EXTM3U\n#EXT-X-VERSION:3\n#EXT-X-TARGETDURATION:10\n");
    for i in first..first + count {
        p.push_str(&format!("#EXTINF:{},\nseg{}.ts\n", seconds, i));
    }
    p
}

fn found(first: usize, count: usize) -> Vec<(String, u64)> {
    (first..first + count)
        .map(|i| (format!("http://upstream.example/live/seg{}.ts", i), 2000))
        .collect()
}

#[test]
fn fresh_relay_state() {
    let r = Relay::new(BASE.to_string());
    assert!(r.active);
    assert_eq!(r.served_ms, 0);
    assert_eq!(r.budget_ms, URL_BUDGET_MS);
    assert!(!r.url_expired());
    assert!(r.segments.is_empty());
}

#[test]
fn playlist_segments_resolved_against_playlist_url() {
    let mut r = Relay::new(BASE.to_string());
    r.take_playlist(&playlist(0, 2, "2.0"));
    assert!(r.active);
    assert_eq!(r.segments.len(), 2);
    assert_eq!(r.segments[0].url, "http://upstream.example/live/seg0.ts");
    assert_eq!(r.segments[1].url, "http://upstream.example/live/seg1.ts");
    assert_eq!(r.segments[0].duration_ms, 2000);
    assert!(!r.segments[0].played);
}

#[test]
fn invalid_playlist_ends_stream() {
    let mut r = Relay::new(BASE.to_string());
    r.take_playlist("this is no playlist");
    assert!(!r.active);
    assert!(r.segments.is_empty());
}

#[test]
fn unresolvable_base_ends_stream() {
    let mut r = Relay::new("not an absolute url".to_string());
    r.take_playlist(&playlist(0, 1, "2.0"));
    assert!(!r.active);
}

#[test]
fn same_playlist_twice_adds_nothing() {
    let mut r = Relay::new(BASE.to_string());
    r.take_playlist(&playlist(0, 3, "2.0"));
    r.take_playlist(&playlist(1, 3, "2.0"));
    assert_eq!(r.segments.len(), 4);
    let mut urls: Vec<&String> = r.segments.iter().map(|s| &s.url).collect();
    urls.dedup();
    assert_eq!(urls.len(), 4);
}

#[test]
fn queue_drains_ten_at_thirty() {
    let mut r = Relay::new(BASE.to_string());
    r.absorb_segments(found(0, 29));
    assert_eq!(r.segments.len(), 29);
    r.absorb_segments(found(29, 1));
    assert_eq!(r.segments.len(), QUEUE_DRAIN_AT - 10);
    assert_eq!(r.segments[0].url, "http://upstream.example/live/seg10.ts");
    r.absorb_segments(found(30, 9));
    assert_eq!(r.segments.len(), 29);
    r.absorb_segments(found(39, 20));
    assert_eq!(r.segments.len(), 39);
}

#[test]
fn duplicate_within_one_list_is_queued_once() {
    let mut r = Relay::new(BASE.to_string());
    let mut f = found(0, 2);
    f.push(f[0].clone());
    r.absorb_segments(f);
    assert_eq!(r.segments.len(), 2);
}

#[test]
fn pacing_formula() {
    assert_eq!(pacing_wait_ms(0, 2000, 0), -1000);
    assert_eq!(pacing_wait_ms(0, 6000, 500), -3500);
    assert_eq!(pacing_wait_ms(4000, 2000, 1000), 2000);
    assert_eq!(pacing_wait_ms(4000, 2000, 5000), -2000);
}

#[test]
fn first_chunk_not_delayed() {
    let mut r = Relay::new(BASE.to_string());
    r.take_playlist(&playlist(0, 1, "6.0"));
    let (url, wait) = r.plan_chunk(0).unwrap();
    assert_eq!(url, "http://upstream.example/live/seg0.ts");
    assert!(wait <= 0);
}

#[test]
fn segment_fetch_failure_ends_stream() {
    let mut r = Relay::new(BASE.to_string());
    r.take_playlist(&playlist(0, 1, "2.0"));
    r.plan_chunk(0).unwrap();
    r.chunk_delivered(false);
    assert!(!r.active);
    assert_eq!(r.served_ms, 0);
}

#[test]
fn expired_url_is_renewed_or_ends_stream() {
    let mut r = Relay::new(BASE.to_string());
    r.absorb_segments(vec![("http://upstream.example/live/long.ts".to_string(), URL_BUDGET_MS + 1)]);
    r.plan_chunk(0).unwrap();
    r.chunk_delivered(true);
    assert!(r.url_expired());
    r.renew_url(Some("http://upstream.example/live/fresh.m3u8".to_string()));
    assert_eq!(r.url, "http://upstream.example/live/fresh.m3u8");
    assert_eq!(r.budget_ms, URL_BUDGET_MS);
    r.budget_ms = 0;
    r.renew_url(None);
    assert!(!r.active);
}

#[test]
fn three_segments_then_end() {
    let text = playlist(0, 3, "2.0");
    let mut r = Relay::new(BASE.to_string());
    let mut chunks: Vec<String> = Vec::new();
    while r.active {
        if r.url_expired() {
            r.renew_url(Some(BASE.to_string()));
        }
        r.take_playlist(&text);
        if !r.active {
            break;
        }
        match r.plan_chunk(0) {
            Some((url, _wait)) => {
                r.chunk_delivered(true);
                chunks.push(url);
            }
            None => break,
        }
    }
    assert_eq!(chunks.len(), 3);
    assert_eq!(chunks[2], "http://upstream.example/live/seg2.ts");
    assert!(!r.active);
    assert_eq!(r.served_ms, 6000);
    assert_eq!(r.budget_ms, URL_BUDGET_MS - 6000);
    assert!(r.segments.iter().all(|s| s.played));
}

#[test]
fn unsafe_playlist_values_end_stream() {
    let bad = [
        "#EXTM3U\n#EXTINF:-1,\nseg.ts\n",
        "#EXTM3U\n#EXTINF:1e400,\nseg.ts\n",
        "#EXTM3U\n#EXTINF:inf,\nseg.ts\n",
        "#EXTM3U\n#EXTINF:1234567890,\nseg.ts\n",
        "#EXTM3U\n#EXT-X-MEDIA-SEQUENCE:18446744073709551615\n#EXTINF:2.0,\nseg.ts\n",
        "#EXTM3U\n#EXT-X-DATERANGE:ID=\"a\",START-DATE=\"2020-01-01T00:00:00Z\",DURATION=-1\n",
        "#EXTM3U\n#EXT-X-DATERANGE:ID=\"a\",START-DATE=\"2020-01-01T00:00:00Z\",PLANNED-DURATION=1e400\n",
        "#EXTM3U\n#EXT-X-TARGETDURATION:10\n#EXT-X-BYTERANGE:18446744073709551615@1\n",
        "#EXTM3U\n#EXT-X-TARGETDURATION:10\n#EXT-X-MAP:URI=\"init.mp4\",BYTERANGE=\"18446744073709551615@1\"\n",
        "#EXTM3U\n#EXT-X-MAP:URI=\"init.mp4\",BYTERANGE=\"1\"23@4\"\n",
    ];
    for text in bad.iter() {
        assert!(!is_safe_playlist(text));
        let mut r = Relay::new(BASE.to_string());
        r.take_playlist(text);
        assert!(!r.active);
        assert!(r.segments.is_empty());
    }
}

#[test]
fn plain_playlist_values_are_safe() {
    assert!(is_safe_playlist(&playlist(0, 3, "2.0")));
    assert!(is_safe_playlist("#EXTM3U\n#EXT-X-MEDIA-SEQUENCE:123\n#EXTINF:2\nseg.ts\n"));
    assert!(is_safe_playlist("#EXTM3U\r\n#EXTINF:9.009,title\r\nseg.ts\r\n"));
    assert!(is_safe_playlist(""));
    assert!(is_safe_playlist("#EXTM3U\n#EXT-X-MEDIA-SEQUENCE:1700000000\n#EXTINF:2.0,\nseg.ts\n"));
    assert!(is_safe_playlist(
        "#EXTM3U\n#EXT-X-DATERANGE:ID=\"ad\",START-DATE=\"2020-01-01T00:00:00Z\",DURATION=30.0,PLANNED-DURATION=30\n#EXTINF:2.0,\nseg.ts\n"
    ));
    assert!(is_safe_playlist("#EXTM3U\n#EXT-X-BYTERANGE:1000@200\n#EXTINF:2.0,\nseg.ts\n"));
    assert!(is_safe_playlist("#EXTM3U\n#EXT-X-MAP:URI=\"init.mp4\",BYTERANGE=\"720@0\"\n"));
}

#[test]
fn epoch_numbered_playlist_is_served() {
    let text = "#EXTM3U\n#EXT-X-TARGETDURATION:10\n#EXT-X-MEDIA-SEQUENCE:1700000000\n#EXTINF:2.0,\nseg.ts\n";
    let mut r = Relay::new(BASE.to_string());
    r.take_playlist(text);
    assert!(r.active);
    assert_eq!(r.segments.len(), 1);
}

#[test]
fn next_action_follows_state() {
    let mut r = Relay::new(BASE.to_string());
    assert!(matches!(r.next_action(), RelayAction::FetchPlaylist(ref u) if u == BASE));
    r.budget_ms = 0;
    assert!(matches!(r.next_action(), RelayAction::RenewUrl));
    r.renew_url(None);
    assert!(matches!(r.next_action(), RelayAction::Stop));
}

#[test]
fn refetch_keeps_played_flags() {
    let mut r = Relay::new(BASE.to_string());
    r.take_playlist(&playlist(0, 2, "2.0"));
    r.plan_chunk(0).unwrap();
    r.chunk_delivered(true);
    r.take_playlist(&playlist(0, 3, "2.0"));
    assert_eq!(r.segments.len(), 3);
    assert!(r.segments[0].played);
    assert!(!r.segments[1].played);
    let (url, _) = r.plan_chunk(0).unwrap();
    assert_eq!(url, "http://upstream.example/live/seg1.ts");
}
