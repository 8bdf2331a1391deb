use locast2tuner::remap::{
    auto_remap, explicit_remap, offset_channel, RemapError, RemapTable,
};
use locast2tuner::router::{refresh, Multiplexer, RemapPolicy, RouteError};
use locast2tuner::station::{ChannelRemapEntry, Station};
use locast2tuner::text::replace;
use locast2tuner::tuner::lineup;

fn station(id: &str, name: &str, call_sign: &str, channel: &str, city: &str) -> Station {
    Station {
        id: id.to_string(),
        name: name.to_string(),
        city: city.to_string(),
        call_sign: call_sign.to_string(),
        call_sign_remapped: None,
        channel: channel.to_string(),
        channel_remapped: None,
        logo_url: None,
        logo226_url: None,
        active: true,
        remapped: None,
    }
}

fn entry(remap_channel: &str, remap_call_sign: &str, active: bool) -> ChannelRemapEntry {
    ChannelRemapEntry {
        original_call_sign: "WABC".to_string(),
        remap_call_sign: remap_call_sign.to_string(),
        original_channel: "7.1".to_string(),
        remap_channel: remap_channel.to_string(),
        city: "New York".to_string(),
        active,
        remapped: true,
    }
}

#[test]
fn offset_integer_channel() {
    assert_eq!(offset_channel("5", 0).unwrap(), "5");
    assert_eq!(offset_channel("5", 2).unwrap(), "205");
    assert_eq!(offset_channel("42", 1).unwrap(), "142");
}

#[test]
fn offset_decimal_channel() {
    assert_eq!(offset_channel("5.1", 1).unwrap(), "105.1");
    assert_eq!(offset_channel("5.10", 1).unwrap(), "105.10");
    assert_eq!(offset_channel("5.0", 1).unwrap(), "105.0");
    assert_eq!(offset_channel("7.0", 1).unwrap(), "107.0");
    assert_eq!(offset_channel("5.", 1).unwrap(), "105.");
    assert_eq!(offset_channel(".5", 1).unwrap(), "100.5");
    assert_eq!(offset_channel("13.2", 0).unwrap(), "13.2");
}

#[test]
fn offset_rejects_non_numbers() {
    assert_eq!(offset_channel("abc", 1), Err(RemapError::UnparseableChannel));
    assert_eq!(offset_channel("", 1), Err(RemapError::UnparseableChannel));
    assert_eq!(offset_channel("5.1.2", 1), Err(RemapError::UnparseableChannel));
    assert_eq!(offset_channel(".", 1), Err(RemapError::UnparseableChannel));
}

#[test]
fn offset_out_of_range() {
    assert_eq!(
        offset_channel("18446744073709551615", 1),
        Err(RemapError::ChannelOutOfRange)
    );
    assert_eq!(offset_channel("99999999999999999999999", 0), Err(RemapError::ChannelOutOfRange));
}

#[test]
fn replace_every_occurrence() {
    assert_eq!(replace("7.1 WABC 7.1", "7.1", "107.1"), "107.1 WABC 107.1");
    assert_eq!(replace("aaa", "aa", "b"), "ba");
    assert_eq!(replace("WABC", "9", "109"), "WABC");
}

#[test]
fn auto_remap_rewrites_channel_and_call_sign() {
    let s = station("1", "ABC 7", "7.1 WABC", "7.1", "New York");
    let r = auto_remap(&s, 1).unwrap();
    assert_eq!(r.channel_remapped.as_deref(), Some("107.1"));
    assert_eq!(r.call_sign_remapped.as_deref(), Some("107.1 WABC"));
    assert_eq!(r.channel, "7.1");
    assert_eq!(r.call_sign, "7.1 WABC");
}

#[test]
fn explicit_remap_active_entry_overrides() {
    let s = station("42", "Demo", "WABC", "7.1", "New York");
    let mut t = RemapTable::new();
    t.insert("channel.42".to_string(), entry("7.3", "WXYZ", true));
    let r = explicit_remap(&s, &t);
    assert_eq!(r.channel_remapped.as_deref(), Some("7.3"));
    assert_eq!(r.call_sign_remapped.as_deref(), Some("7.3 WXYZ"));
    assert_eq!(r.channel, "7.1");
}

#[test]
fn explicit_remap_inactive_or_missing_entry_leaves_station() {
    let s = station("42", "Demo", "WABC", "7.1", "New York");
    let mut t = RemapTable::new();
    t.insert("channel.42".to_string(), entry("7.3", "WXYZ", false));
    t.insert("channel.43".to_string(), entry("9.9", "WZZZ", true));
    let r = explicit_remap(&s, &t);
    assert_eq!(r.channel_remapped, None);
    assert_eq!(r.call_sign_remapped, None);
    let empty = RemapTable::new();
    let r = explicit_remap(&s, &empty);
    assert_eq!(r.channel_remapped, None);
}

#[test]
fn later_table_entry_wins() {
    let mut t = RemapTable::new();
    t.insert("channel.42".to_string(), entry("7.3", "WXYZ", true));
    t.insert("channel.42".to_string(), entry("8.8", "WNEW", true));
    assert_eq!(t.lookup("channel.42").unwrap().remap_channel, "8.8");
    assert!(t.lookup("channel.4").is_none());
}

#[test]
fn routes_point_to_owning_backend() {
    let backends = vec![
        vec![station("a1", "A1", "WAAA", "2.1", "Austin"), station("a2", "A2", "WAAB", "3.1", "Austin")],
        vec![station("b1", "B1", "WBBB", "4.1", "Boston")],
    ];
    let c = refresh(&backends, &RemapPolicy::Passthrough).unwrap();
    assert_eq!(c.resolve("a1"), Ok(0));
    assert_eq!(c.resolve("a2"), Ok(0));
    assert_eq!(c.resolve("b1"), Ok(1));
    assert_eq!(c.resolve("zz"), Err(RouteError::NotFound));
    assert_eq!(c.stations.len(), 3);
}

#[test]
fn refresh_fails_on_unparseable_channel() {
    let backends = vec![vec![station("a1", "A1", "WAAA", "two", "Austin")]];
    assert!(matches!(
        refresh(&backends, &RemapPolicy::AutoOffset),
        Err(RemapError::UnparseableChannel)
    ));
    let mut m = Multiplexer::new(true, None);
    assert_eq!(m.refresh(&backends), Err(RemapError::UnparseableChannel));
    assert_eq!(m.stations().len(), 0);
}

#[test]
fn refresh_replaces_routes() {
    let mut m = Multiplexer::new(false, None);
    m.refresh(&vec![vec![station("a1", "A1", "WAAA", "2.1", "Austin")]]).unwrap();
    assert_eq!(m.resolve_stream("a1"), Ok(0));
    m.refresh(&vec![vec![], vec![station("b1", "B1", "WBBB", "4.1", "Boston")]]).unwrap();
    assert_eq!(m.resolve_stream("a1"), Err(RouteError::NotFound));
    assert_eq!(m.resolve_stream("b1"), Ok(1));
}

#[test]
fn two_backends_auto_remap_lineup() {
    let mut m = Multiplexer::new(true, None);
    let backends = vec![
        vec![station("10", "First", "WONE", "5.1", "Austin")],
        vec![station("20", "Second", "WTWO", "5.1", "Boston")],
    ];
    m.refresh(&backends).unwrap();
    let l = lineup(m.stations(), "tuner.local:6077");
    assert_eq!(l.len(), 2);
    assert_eq!(l[0].guide_number, "5.1");
    assert_eq!(l[1].guide_number, "105.1");
    assert_eq!(l[1].guide_name, "Second");
}

#[test]
fn single_backend_lineup_json() {
    let mut m = Multiplexer::new(false, None);
    m.refresh(&vec![vec![station("42", "Demo", "WDEM", "7.1", "Denver")]]).unwrap();
    let l = lineup(m.stations(), "tuner.local:6077");
    assert_eq!(l.len(), 1);
    assert_eq!(l[0].guide_number, "7.1");
    assert_eq!(l[0].guide_name, "Demo");
    assert_eq!(l[0].url, "http://tuner.local:6077/watch/42");
}

#[test]
fn watch_unknown_id_is_not_found() {
    let mut m = Multiplexer::new(false, None);
    m.refresh(&vec![vec![station("42", "Demo", "WDEM", "7.1", "Denver")]]).unwrap();
    assert_eq!(m.resolve_stream("unknown-id"), Err(RouteError::NotFound));
}

#[test]
fn table_policy_through_multiplexer() {
    let mut t = RemapTable::new();
    t.insert("channel.42".to_string(), entry("7.3", "WXYZ", true));
    let mut m = Multiplexer::new(false, Some(t));
    m.refresh(&vec![vec![station("42", "Demo", "WDEM", "7.1", "Denver")]]).unwrap();
    assert_eq!(m.stations()[0].channel_remapped.as_deref(), Some("7.3"));
}

#[test]
fn decimal_form_kept_through_multiplexer() {
    let mut m = Multiplexer::new(true, None);
    let backends = vec![
        vec![station("10", "First", "WONE", "2.1", "Austin")],
        vec![station("20", "Second", "7.0 WTWO", "7.0", "Boston")],
    ];
    m.refresh(&backends).unwrap();
    assert_eq!(m.stations()[1].channel_remapped.as_deref(), Some("107.0"));
    assert_eq!(m.stations()[1].call_sign_remapped.as_deref(), Some("107.0 WTWO"));
}
