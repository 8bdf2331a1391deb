use locast2tuner::station::Station;
use locast2tuner::tuner::{
    channel_map, device_id, group_title, is_network_call_sign, lineup, lineup_status, m3u_playlist,
    map_entry, watch_url_of,
};

fn station(id: &str, name: &str, call_sign: &str, channel: &str, city: &str) -> Station {
    Station {
        id: id.to_string(),
        name: name.to_string(),
        city: city.to_string(),
        call_sign: call_sign.to_string(),
        call_sign_remapped: None,
        channel: channel.to_string(),
        channel_remapped: None,
        logo_url: Some("http://logo.example/a.png".to_string()),
        logo226_url: None,
        active: true,
        remapped: None,
    }
}

#[test]
fn network_group_title() {
    assert_eq!(group_title("NBC", "Denver"), "Denver;Network");
    assert_eq!(group_title("CW", "Denver"), "Denver;Network");
    assert_eq!(group_title("KUSA", "Denver"), "Denver");
    assert_eq!(group_title("nbc", "Denver"), "Denver");
    assert!(is_network_call_sign("PBS"));
    assert!(!is_network_call_sign("PBS2"));
}

#[test]
fn watch_address() {
    assert_eq!(watch_url_of("host:6077", "42"), "http://host:6077/watch/42");
}

#[test]
fn lineup_skips_inactive_and_prefers_remap() {
    let mut a = station("1", "One", "WONE", "2.1", "Austin");
    a.channel_remapped = Some("102.1".to_string());
    let mut b = station("2", "Two", "WTWO", "3.1", "Austin");
    b.active = false;
    let l = lineup(&vec![a, b], "h");
    assert_eq!(l.len(), 1);
    assert_eq!(l[0].guide_number, "102.1");
    assert_eq!(l[0].url, "http://h/watch/1");
}

#[test]
fn m3u_document() {
    let a = station("42", "Demo", "FOX", "7.1", "Denver");
    let mut b = station("43", "Off", "WOFF", "8.1", "Denver");
    b.active = false;
    let text = m3u_playlist(&vec![a, b], "h:1", false);
    assert_eq!(
        text,
        "#EXTM3U\n#EXTINF:-1 tvg-id=\"channel.42\" tvg-name=\"FOX\" tvg-logo=\"http://logo.example/a.png\" tvg-chno=\"7.1\" group-title=\"Denver;Network\", FOX\nhttp://h:1/watch/42.m3u\n\n"
    );
}

#[test]
fn m3u_multiplexed_name_and_fallbacks() {
    let mut a = station("5", "Named", "", "9.1", "Boston");
    a.logo_url = None;
    a.logo226_url = Some("http://logo.example/b.png".to_string());
    let text = m3u_playlist(&vec![a], "h", true);
    assert_eq!(
        text,
        "#EXTM3U\n#EXTINF:-1 tvg-id=\"channel.5\" tvg-name=\"Named\" tvg-logo=\"http://logo.example/b.png\" tvg-chno=\"9.1\" group-title=\"Boston\", Named (Boston)\nhttp://h/watch/5.m3u\n\n"
    );
}

#[test]
fn map_entry_of_unremapped_station() {
    let s = station("42", "Demo", "WDEM", "7.1", "Denver");
    let e = map_entry(&s);
    assert_eq!(e.original_call_sign, "WDEM");
    assert_eq!(e.remap_call_sign, "WDEM");
    assert_eq!(e.original_channel, "7.1");
    assert_eq!(e.remap_channel, "7.1");
    assert_eq!(e.city, "Denver");
    assert!(e.active);
    assert!(!e.remapped);
}

#[test]
fn channel_map_keys_and_remaps() {
    let mut s = station("42", "Demo", "WDEM", "7.1", "Denver");
    s.channel_remapped = Some("107.1".to_string());
    s.call_sign_remapped = Some("107.1 WDEM".to_string());
    let mut off = station("43", "Off", "WOFF", "8.1", "Denver");
    off.active = false;
    let t = channel_map(&vec![s, off]);
    assert_eq!(t.entries.len(), 2);
    assert_eq!(t.entries[0].0, "channel.42");
    assert_eq!(t.entries[0].1.remap_channel, "107.1");
    assert_eq!(t.entries[0].1.remap_call_sign, "107.1 WDEM");
    assert_eq!(t.entries[1].0, "channel.43");
    assert!(!t.entries[1].1.active);
}

#[test]
fn scan_status() {
    let s = lineup_status(false);
    assert!(!s.scan_in_progress);
    assert_eq!(s.progress, 50);
    assert_eq!(s.found, 6);
    assert_eq!(s.source_list, Some(vec!["Antenna".to_string()]));
    let s = lineup_status(true);
    assert!(s.scan_in_progress);
    assert_eq!(s.source_list, None);
}

#[test]
fn device_id_from_uuid() {
    assert_eq!(device_id("9f3c1a2b-1111-2222-3333-444455556666"), Some(0x9f3c1a2b));
    assert_eq!(device_id("ABCDEF01"), Some(0xabcdef01));
    assert_eq!(device_id("9f3c1a2"), None);
    assert_eq!(device_id("9f3c1a2g-0000"), None);
}
