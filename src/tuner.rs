//! The payloads of the virtual tuner's endpoints, built from the merged
//! catalog: the lineup, the M3U playlist, the channel map and the scan status.
use vstd::prelude::*;
use crate::station::{Station, ChannelRemapEntry};
use crate::remap::{RemapTable, channel_key, channel_key_of, explicitly_remapped, str_eq};
use crate::text::{push_str, string_of};

verus! {

/// The channel number a client shows: the remapped channel, else the channel.
pub open spec fn guide_number(s: Station) -> Seq<char> {
    match s.channel_remapped {
        Some(c) => c@,
        None => s.channel@,
    }
}

/// The address at which a client watches the station `id`.
pub open spec fn watch_url(host: Seq<char>, id: Seq<char>) -> Seq<char> {
    "http://"@ + host + "/watch/"@ + id
}

/// One channel of the lineup.
pub struct LineupEntry {
    pub guide_number: String,
    pub guide_name: String,
    pub url: String,
}

/// What a lineup entry says.
pub open spec fn lineup_view(e: LineupEntry) -> (Seq<char>, Seq<char>, Seq<char>) {
    (e.guide_number@, e.guide_name@, e.url@)
}

/// The lineup of the active stations of `s`, in order.
pub open spec fn lineup_spec(s: Seq<Station>, host: Seq<char>) -> Seq<(Seq<char>, Seq<char>, Seq<char>)>
    decreases s.len(),
{
    if s.len() == 0 {
        Seq::empty()
    } else {
        let p = lineup_spec(s.drop_last(), host);
        let st = s.last();
        if st.active {
            p.push((guide_number(st), st.name@, watch_url(host, st.id@)))
        } else {
            p
        }
    }
}

/// The remapped channel if there is one, else the channel.
fn guide_number_of(s: &Station) -> (r: String)
    ensures
        r@ == guide_number(*s),
{
    match &s.channel_remapped {
        Some(c) => c.clone(),
        None => s.channel.clone(),
    }
}

/// The watch address of the station `id` on `host`.
pub fn watch_url_of(host: &str, id: &str) -> (r: String)
    ensures
        r@ == watch_url(host@, id@),
{
    let mut r = string_of("http://");
    push_str(&mut r, host);
    push_str(&mut r, "/watch/");
    push_str(&mut r, id);
    r
}

/// The lineup: one entry per active station, in catalog order, with its guide
/// number, its name and its watch address on `host`.
pub fn lineup(stations: &Vec<Station>, host: &str) -> (r: Vec<LineupEntry>)
    ensures
        r@.map_values(|e: LineupEntry| lineup_view(e)) == lineup_spec(stations@, host@),
{
    let mut out: Vec<LineupEntry> = Vec::new();
    let mut i: usize = 0;
    assert(out@.map_values(|e: LineupEntry| lineup_view(e)) =~= lineup_spec(stations@.subrange(0, 0), host@));
    while i < stations.len()
        invariant
            i <= stations@.len(),
            out@.map_values(|e: LineupEntry| lineup_view(e)) == lineup_spec(stations@.subrange(0, i as int), host@),
        decreases stations@.len() - i,
    {
        let s = &stations[i];
        assert(stations@.subrange(0, i + 1).drop_last() =~= stations@.subrange(0, i as int));
        assert(stations@.subrange(0, i + 1).last() == *s);
        if s.active {
            let e = LineupEntry {
                guide_number: guide_number_of(s),
                guide_name: s.name.clone(),
                url: watch_url_of(host, s.id.as_str()),
            };
            let ghost before = out@;
            let ghost ev = lineup_view(e);
            out.push(e);
            assert(out@.map_values(|e: LineupEntry| lineup_view(e))
                =~= before.map_values(|e: LineupEntry| lineup_view(e)).push(ev));
        }
        i = i + 1;
    }
    assert(stations@.subrange(0, stations@.len() as int) =~= stations@);
    out
}

/// The call signs of the national networks.
pub open spec fn is_network(call_sign: Seq<char>) -> bool {
    call_sign == "ABC"@ || call_sign == "CBS"@ || call_sign == "NBC"@ || call_sign == "FOX"@
        || call_sign == "CW"@ || call_sign == "PBS"@
}

/// The M3U group of a station: its city, marked `;Network` for a national
/// network.
pub open spec fn group_title_spec(call_sign: Seq<char>, city: Seq<char>) -> Seq<char> {
    if is_network(call_sign) {
        city + ";Network"@
    } else {
        city
    }
}

/// Whether `call_sign` is that of a national network.
pub fn is_network_call_sign(call_sign: &str) -> (b: bool)
    ensures
        b == is_network(call_sign@),
{
    str_eq(call_sign, "ABC") || str_eq(call_sign, "CBS") || str_eq(call_sign, "NBC")
        || str_eq(call_sign, "FOX") || str_eq(call_sign, "CW") || str_eq(call_sign, "PBS")
}

/// The M3U group title of a station with `call_sign` in `city`.
pub fn group_title(call_sign: &str, city: &str) -> (r: String)
    ensures
        r@ == group_title_spec(call_sign@, city@),
{
    let mut r = string_of(city);
    if is_network_call_sign(call_sign) {
        push_str(&mut r, ";Network");
    }
    r
}

/// `e` is the channel map entry of `s`: the remap fields fall back to the
/// original ones, and a station not marked remapped is not.
pub open spec fn entry_of(s: Station, e: ChannelRemapEntry) -> bool {
    &&& e.original_call_sign@ == s.call_sign@
    &&& e.remap_call_sign@ == (match s.call_sign_remapped { Some(c) => c@, None => s.call_sign@ })
    &&& e.original_channel@ == s.channel@
    &&& e.remap_channel@ == guide_number(s)
    &&& e.city@ == s.city@
    &&& e.active == s.active
    &&& e.remapped == (match s.remapped { Some(b) => b, None => false })
}

/// The channel map entry of `s`.
pub fn map_entry(s: &Station) -> (e: ChannelRemapEntry)
    ensures
        entry_of(*s, e),
{
    ChannelRemapEntry {
        original_call_sign: s.call_sign.clone(),
        remap_call_sign: match &s.call_sign_remapped {
            Some(c) => c.clone(),
            None => s.call_sign.clone(),
        },
        original_channel: s.channel.clone(),
        remap_channel: guide_number_of(s),
        city: s.city.clone(),
        active: s.active,
        remapped: match s.remapped {
            Some(b) => b,
            None => false,
        },
    }
}

/// The channel map of all stations, active or not, each under
/// `"channel.<id>"`, in catalog order.
pub fn channel_map(stations: &Vec<Station>) -> (t: RemapTable)
    ensures
        t.entries@.len() == stations@.len(),
        forall|k: int| 0 <= k < stations@.len() ==> {
            &&& (#[trigger] t.entries@[k]).0@ == channel_key(stations@[k].id@)
            &&& entry_of(stations@[k], t.entries@[k].1)
        },
{
    let mut t = RemapTable::new();
    let mut i: usize = 0;
    while i < stations.len()
        invariant
            i <= stations@.len(),
            t.entries@.len() == i,
            forall|k: int| 0 <= k < i ==> {
                &&& (#[trigger] t.entries@[k]).0@ == channel_key(stations@[k].id@)
                &&& entry_of(stations@[k], t.entries@[k].1)
            },
        decreases stations@.len() - i,
    {
        let s = &stations[i];
        t.insert(channel_key_of(s.id.as_str()), map_entry(s));
        i = i + 1;
    }
    t
}

/// A station that no remap touched has a channel map entry whose remap fields
/// equal its original fields and which is not marked remapped.
pub proof fn lemma_unremapped_entry(s: Station, e: ChannelRemapEntry)
    requires
        entry_of(s, e),
        s.call_sign_remapped.is_none(),
        s.channel_remapped.is_none(),
        s.remapped.is_none(),
    ensures
        e.remap_call_sign@ == e.original_call_sign@,
        e.remap_channel@ == e.original_channel@,
        !e.remapped,
{
}

/// The scan status a client polls.
pub struct LineupStatus {
    pub scan_in_progress: bool,
    pub progress: u8,
    pub found: u8,
    pub source_list: Option<Vec<String>>,
}

/// The scan status: while scanning, no source list; otherwise the one source
/// `"Antenna"`.
pub fn lineup_status(scanning: bool) -> (r: LineupStatus)
    ensures
        r.scan_in_progress == scanning,
        r.progress == 50,
        r.found == 6,
        scanning ==> r.source_list.is_none(),
        !scanning ==> (r.source_list matches Some(l) && l@.len() == 1 && l@[0]@ == "Antenna"@),
{
    if scanning {
        LineupStatus { scan_in_progress: true, progress: 50, found: 6, source_list: None }
    } else {
        let mut l: Vec<String> = Vec::new();
        l.push(string_of("Antenna"));
        LineupStatus { scan_in_progress: false, progress: 50, found: 6, source_list: Some(l) }
    }
}

} // verus!

verus! {

/// The call sign a playlist shows: the remapped one, else the call sign, else
/// the name where the call sign is empty.
pub open spec fn shown_call_sign(s: Station) -> Seq<char> {
    match s.call_sign_remapped {
        Some(c) => c@,
        None => if s.call_sign@.len() > 0 { s.call_sign@ } else { s.name@ },
    }
}

/// The logo address: the main logo, else the alternative one, else empty.
pub open spec fn shown_logo(s: Station) -> Seq<char> {
    match s.logo_url {
        Some(l) => l@,
        None => match s.logo226_url {
            Some(l) => l@,
            None => Seq::empty(),
        },
    }
}

/// The display name: the call sign, followed by the city in parentheses when
/// several backends are multiplexed.
pub open spec fn shown_name(s: Station, multiplex: bool) -> Seq<char> {
    if multiplex {
        shown_call_sign(s) + " ("@ + s.city@ + ")"@
    } else {
        shown_call_sign(s)
    }
}

/// The playlist stanza of one station.
pub open spec fn m3u_stanza(s: Station, host: Seq<char>, multiplex: bool) -> Seq<char> {
    "#EXTINF:-1 tvg-id=\"channel."@ + s.id@ + "\" tvg-name=\""@ + shown_call_sign(s)
        + "\" tvg-logo=\""@ + shown_logo(s) + "\" tvg-chno=\""@ + guide_number(s)
        + "\" group-title=\""@ + group_title_spec(shown_call_sign(s), s.city@) + "\", "@
        + shown_name(s, multiplex) + "\n"@ + watch_url(host, s.id@) + ".m3u\n\n"@
}

/// The stanzas of the active stations of `s`, in order.
pub open spec fn m3u_body(s: Seq<Station>, host: Seq<char>, multiplex: bool) -> Seq<char>
    decreases s.len(),
{
    if s.len() == 0 {
        Seq::empty()
    } else if s.last().active {
        m3u_body(s.drop_last(), host, multiplex) + m3u_stanza(s.last(), host, multiplex)
    } else {
        m3u_body(s.drop_last(), host, multiplex)
    }
}

/// The whole playlist document.
pub open spec fn m3u_spec(s: Seq<Station>, host: Seq<char>, multiplex: bool) -> Seq<char> {
    "#EXTM3U\n"@ + m3u_body(s, host, multiplex)
}

fn shown_call_sign_of(s: &Station) -> (r: String)
    ensures
        r@ == shown_call_sign(*s),
{
    match &s.call_sign_remapped {
        Some(c) => c.clone(),
        None => {
            if s.call_sign.as_str().unicode_len() > 0 {
                s.call_sign.clone()
            } else {
                s.name.clone()
            }
        }
    }
}

fn shown_logo_of(s: &Station) -> (r: String)
    ensures
        r@ == shown_logo(*s),
{
    match &s.logo_url {
        Some(l) => l.clone(),
        None => match &s.logo226_url {
            Some(l) => l.clone(),
            None => String::new(),
        },
    }
}

fn push_stanza(out: &mut String, s: &Station, host: &str, multiplex: bool)
    ensures
        final(out)@ == old(out)@ + m3u_stanza(*s, host@, multiplex),
{
    let cs = shown_call_sign_of(s);
    let logo = shown_logo_of(s);
    let chno = guide_number_of(s);
    let group = group_title(cs.as_str(), s.city.as_str());
    let ghost o = out@;
    push_str(out, "#EXTINF:-1 tvg-id=\"channel.");
    push_str(out, s.id.as_str());
    push_str(out, "\" tvg-name=\"");
    push_str(out, cs.as_str());
    push_str(out, "\" tvg-logo=\"");
    push_str(out, logo.as_str());
    push_str(out, "\" tvg-chno=\"");
    push_str(out, chno.as_str());
    push_str(out, "\" group-title=\"");
    push_str(out, group.as_str());
    push_str(out, "\", ");
    push_str(out, cs.as_str());
    if multiplex {
        push_str(out, " (");
        push_str(out, s.city.as_str());
        push_str(out, ")");
    }
    push_str(out, "\n");
    let url = watch_url_of(host, s.id.as_str());
    push_str(out, url.as_str());
    push_str(out, ".m3u\n\n");
    assert(out@ =~= o + m3u_stanza(*s, host@, multiplex));
}

/// The M3U playlist of the active stations, in catalog order, each linked to
/// its redirect address on `host`.
pub fn m3u_playlist(stations: &Vec<Station>, host: &str, multiplex: bool) -> (r: String)
    ensures
        r@ == m3u_spec(stations@, host@, multiplex),
{
    let mut out = string_of("#EXTM3U\n");
    let mut i: usize = 0;
    assert(out@ =~= "#EXTM3U\n"@ + m3u_body(stations@.subrange(0, 0), host@, multiplex));
    while i < stations.len()
        invariant
            i <= stations@.len(),
            out@ == "#EXTM3U\n"@ + m3u_body(stations@.subrange(0, i as int), host@, multiplex),
        decreases stations@.len() - i,
    {
        let s = &stations[i];
        assert(stations@.subrange(0, i + 1).drop_last() =~= stations@.subrange(0, i as int));
        assert(stations@.subrange(0, i + 1).last() == *s);
        if s.active {
            let ghost before = out@;
            push_stanza(&mut out, s, host, multiplex);
            assert(out@ =~= "#EXTM3U\n"@ + m3u_body(stations@.subrange(0, i + 1), host@, multiplex));
        }
        i = i + 1;
    }
    assert(stations@.subrange(0, stations@.len() as int) =~= stations@);
    out
}

} // verus!

verus! {

/// The value of a hexadecimal digit, if `c` is one.
pub open spec fn hex_digit(c: char) -> Option<nat> {
    if '0' <= c && c <= '9' {
        Some(((c as u32) - ('0' as u32)) as nat)
    } else if 'a' <= c && c <= 'f' {
        Some(((c as u32) - ('a' as u32) + 10) as nat)
    } else if 'A' <= c && c <= 'F' {
        Some(((c as u32) - ('A' as u32) + 10) as nat)
    } else {
        None
    }
}

/// The value of the hexadecimal digits `s`, most significant first; `None`
/// where one is no hexadecimal digit.
pub open spec fn hex_value(s: Seq<char>) -> Option<nat>
    decreases s.len(),
{
    if s.len() == 0 {
        Some(0)
    } else {
        match (hex_value(s.drop_last()), hex_digit(s.last())) {
            (Some(v), Some(d)) => Some(v * 16 + d),
            _ => None,
        }
    }
}

fn hex_digit_of(c: char) -> (r: Option<u32>)
    ensures
        r matches Some(d) ==> hex_digit(c) == Some(d as nat) && d < 16,
        r.is_none() ==> hex_digit(c).is_none(),
{
    if '0' <= c && c <= '9' {
        Some(c as u32 - '0' as u32)
    } else if 'a' <= c && c <= 'f' {
        Some(c as u32 - 'a' as u32 + 10)
    } else if 'A' <= c && c <= 'F' {
        Some(c as u32 - 'A' as u32 + 10)
    } else {
        None
    }
}

/// The device number a tuner announces: its identifier's first eight
/// characters read as hexadecimal. `None` where the identifier is shorter or
/// those characters are not all hexadecimal digits.
pub fn device_id(uuid: &str) -> (r: Option<u32>)
    ensures
        uuid@.len() < 8 ==> r.is_none(),
        uuid@.len() >= 8 ==> (match hex_value(uuid@.subrange(0, 8)) {
            Some(v) => r == Some(v as u32),
            None => r.is_none(),
        }),
{
    if uuid.unicode_len() < 8 {
        return None;
    }
    let mut acc: u32 = 0;
    let mut i: usize = 0;
    assert(uuid@.subrange(0, 0).len() == 0);
    while i < 8
        invariant
            8 <= uuid@.len(),
            i <= 8,
            hex_value(uuid@.subrange(0, i as int)) == Some(acc as nat),
            acc < pow16(i as nat),
        decreases 8 - i,
    {
        let c = uuid.get_char(i);
        assert(uuid@.subrange(0, i + 1).drop_last() =~= uuid@.subrange(0, i as int));
        match hex_digit_of(c) {
            Some(d) => {
                assert(acc * 16 + d < pow16(i as nat + 1)) by (nonlinear_arith)
                    requires acc < pow16(i as nat), d < 16, pow16(i as nat + 1) == pow16(i as nat) * 16;
                proof {
                    lemma_pow16_mono(i as nat + 1, 8);
                }
                acc = acc * 16 + d;
            }
            None => {
                proof {
                    lemma_hex_value_fails(uuid@.subrange(0, 8), i as int + 1);
                    assert(uuid@.subrange(0, 8).subrange(0, i + 1) =~= uuid@.subrange(0, i + 1));
                }
                return None;
            }
        }
        i = i + 1;
    }
    Some(acc)
}

/// `16` to the power `n`.
pub open spec fn pow16(n: nat) -> nat
    decreases n,
{
    if n == 0 { 1 } else { pow16((n - 1) as nat) * 16 }
}

proof fn lemma_pow16_mono(a: nat, b: nat)
    requires
        a <= b,
    ensures
        pow16(a) <= pow16(b),
        pow16(8) == 0x1_0000_0000,
    decreases b - a,
{
    if a < b {
        lemma_pow16_mono(a, (b - 1) as nat);
    }
    assert(pow16(0) == 1);
    assert(pow16(1) == 16);
    assert(pow16(2) == 0x100);
    assert(pow16(3) == 0x1000);
    assert(pow16(4) == 0x1_0000);
    assert(pow16(5) == 0x10_0000);
    assert(pow16(6) == 0x100_0000);
    assert(pow16(7) == 0x1000_0000);
    assert(pow16(8) == 0x1_0000_0000);
}

proof fn lemma_hex_value_fails(s: Seq<char>, n: int)
    requires
        0 <= n <= s.len(),
        hex_value(s.subrange(0, n)).is_none(),
    ensures
        hex_value(s).is_none(),
    decreases s.len() - n,
{
    if n < s.len() {
        assert(s.subrange(0, n + 1).drop_last() =~= s.subrange(0, n));
        lemma_hex_value_fails(s, n + 1);
    } else {
        assert(s.subrange(0, n) =~= s);
    }
}

} // verus!

verus! {

/// The channel map written after an explicit remap reads back the remap
/// table's decision: a station remapped by an active entry shows that
/// entry's channel as its remap channel and keeps its own as the original.
pub proof fn lemma_map_reflects_table(s: Station, r: Station, t: RemapTable, e: ChannelRemapEntry)
    requires
        explicitly_remapped(s, r, t),
        entry_of(r, e),
        t.index_of(channel_key(s.id@)) is Some,
        t.entries@[t.index_of(channel_key(s.id@)).unwrap()].1.active,
    ensures
        e.remap_channel@ == t.entries@[t.index_of(channel_key(s.id@)).unwrap()].1.remap_channel@,
        e.original_channel@ == s.channel@,
{
}

} // verus!
