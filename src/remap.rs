//! Channel remap policies: the automatic offset per backend and the explicit
//! remap table.
use vstd::prelude::*;
use crate::station::{Station, ChannelRemapEntry};
use crate::text::{
    all_digits, digits_value, decimal, replace_all, parse_digits,
    push_range, push_decimal, push_str, push_char, string_of, replace,
};

verus! {

/// The channel offset of each further backend.
pub const BACKEND_OFFSET: u64 = 100;

/// Why a remap could not be made.
#[derive(Debug, PartialEq, Eq, Structural)]
pub enum RemapError {
    /// The channel is neither an integer nor a decimal number.
    UnparseableChannel,
    /// The offset channel does not fit in a `u64`.
    ChannelOutOfRange,
}

/// `d` is the position of the first `'.'` in `s`.
pub open spec fn first_dot(s: Seq<char>, d: int) -> bool {
    0 <= d < s.len() && s[d] == '.' && forall|k: int| 0 <= k < d ==> s[k] != '.'
}

/// The channel is written as a whole number: digits only.
pub open spec fn is_integer_channel(s: Seq<char>) -> bool {
    s.len() > 0 && all_digits(s)
}

/// The channel is written as a decimal number: digits, one `'.'`, digits,
/// with at least one digit in all.
pub open spec fn is_decimal_channel(s: Seq<char>, d: int) -> bool {
    first_dot(s, d) && s.len() >= 2 && all_digits(s.subrange(0, d))
        && all_digits(s.subrange(d + 1, s.len() as int))
}

/// The fraction of a decimal channel as it is written back: the point and
/// the fraction digits exactly as they were written.
pub open spec fn fraction_text(f: Seq<char>) -> Seq<char> {
    seq!['.'] + f
}

/// The channel `s` moved up by `100 * ordinal`, keeping an integer an integer
/// and a decimal a decimal with its fraction as written; `None` where `s` is
/// no number or the result is too large.
pub open spec fn offset_channel_spec(s: Seq<char>, ordinal: nat) -> Option<Seq<char>> {
    if is_integer_channel(s) {
        let v = digits_value(s) + 100 * ordinal;
        if v <= u64::MAX { Some(decimal(v)) } else { None }
    } else if exists|d: int| is_decimal_channel(s, d) {
        let d = choose|d: int| is_decimal_channel(s, d);
        let v = digits_value(s.subrange(0, d)) + 100 * ordinal;
        if v <= u64::MAX {
            Some(decimal(v) + fraction_text(s.subrange(d + 1, s.len() as int)))
        } else {
            None
        }
    } else {
        None
    }
}

/// The error that `offset_channel_spec` stands for when it gives `None`.
pub open spec fn offset_error(s: Seq<char>) -> RemapError {
    if is_integer_channel(s) || exists|d: int| is_decimal_channel(s, d) {
        RemapError::ChannelOutOfRange
    } else {
        RemapError::UnparseableChannel
    }
}

proof fn lemma_first_dot_unique(s: Seq<char>, a: int, b: int)
    requires
        first_dot(s, a),
        first_dot(s, b),
    ensures
        a == b,
{
}

/// The position of the first `'.'` in `s`, or its length where it has none.
fn find_dot(s: &str, n: usize) -> (d: usize)
    requires
        n == s@.len(),
    ensures
        d <= n,
        d < n ==> first_dot(s@, d as int),
        d == n ==> forall|k: int| 0 <= k < n ==> s@[k] != '.',
{
    let mut i: usize = 0;
    while i < n
        invariant
            n == s@.len(),
            i <= n,
            forall|k: int| 0 <= k < i ==> s@[k] != '.',
        decreases n - i,
    {
        if s.get_char(i) == '.' {
            return i;
        }
        i = i + 1;
    }
    n
}

/// `v + 100 * ordinal`, where it fits in a `u64`.
fn offset_value(v: Option<u64>, ordinal: u64) -> (r: Option<u64>)
    ensures
        r matches Some(x) ==> v matches Some(y) && x == y + 100 * ordinal,
        r.is_none() ==> (v matches Some(y) ==> y + 100 * ordinal > u64::MAX),
{
    match v {
        Some(y) => {
            if ordinal > u64::MAX / BACKEND_OFFSET {
                None
            } else if y > u64::MAX - ordinal * BACKEND_OFFSET {
                None
            } else {
                Some(y + ordinal * BACKEND_OFFSET)
            }
        }
        None => None,
    }
}

/// The channel `channel` of the backend at position `ordinal`, moved up by
/// `100 * ordinal`.
pub fn offset_channel(channel: &str, ordinal: u64) -> (r: Result<String, RemapError>)
    ensures
        r matches Ok(c) ==> offset_channel_spec(channel@, ordinal as nat) == Some(c@),
        r matches Err(e) ==> offset_channel_spec(channel@, ordinal as nat).is_none()
            && e == offset_error(channel@),
        r.is_ok() <==> offset_channel_spec(channel@, ordinal as nat).is_some(),
{
    let n = channel.unicode_len();
    let dot = find_dot(channel, n);
    if dot == n {
        proof {
            assert forall|d: int| !is_decimal_channel(channel@, d) by {
                if is_decimal_channel(channel@, d) {
                    assert(channel@[d] == '.');
                }
            }
        }
        if n > 0 && all_digits_in(channel, 0, n) {
            assert(channel@.subrange(0, n as int) =~= channel@);
            match offset_value(parse_digits(channel, 0, n), ordinal) {
                Some(v) => {
                    let mut out = String::new();
                    push_decimal(&mut out, v);
                    assert(out@ =~= decimal(v as nat));
                    Ok(out)
                }
                None => Err(RemapError::ChannelOutOfRange),
            }
        } else {
            assert(channel@.subrange(0, n as int) =~= channel@);
            Err(RemapError::UnparseableChannel)
        }
    } else {
        assert(!all_digits(channel@));
        if n >= 2 && all_digits_in(channel, 0, dot) && all_digits_in(channel, dot + 1, n) {
            assert(is_decimal_channel(channel@, dot as int));
            proof {
                let d = choose|d: int| is_decimal_channel(channel@, d);
                lemma_first_dot_unique(channel@, d, dot as int);
            }
            match offset_value(parse_digits(channel, 0, dot), ordinal) {
                Some(v) => {
                    let mut out = String::new();
                    push_decimal(&mut out, v);
                    let ghost head = out@;
                    push_char(&mut out, '.');
                    push_range(&mut out, channel, dot + 1, n);
                    assert(out@ =~= head + (seq!['.'] + channel@.subrange(dot + 1, n as int)));
                    Ok(out)
                }
                None => Err(RemapError::ChannelOutOfRange),
            }
        } else {
            proof {
                assert forall|d: int| !is_decimal_channel(channel@, d) by {
                    if is_decimal_channel(channel@, d) {
                        lemma_first_dot_unique(channel@, d, dot as int);
                    }
                }
            }
            Err(RemapError::UnparseableChannel)
        }
    }
}

/// Whether every character of `s[from..to]` is a digit.
fn all_digits_in(s: &str, from: usize, to: usize) -> (b: bool)
    requires
        from <= to <= s@.len(),
    ensures
        b == all_digits(s@.subrange(from as int, to as int)),
{
    let mut i: usize = from;
    while i < to
        invariant
            from <= i <= to <= s@.len(),
            all_digits(s@.subrange(from as int, i as int)),
        decreases to - i,
    {
        let c = s.get_char(i);
        if !('0' <= c && c <= '9') {
            assert(s@.subrange(from as int, to as int)[i - from] == c);
            return false;
        }
        assert(s@.subrange(from as int, i + 1) =~= s@.subrange(from as int, i as int).push(c));
        i = i + 1;
    }
    true
}

} // verus!

verus! {

/// `r` is `s` with at most its two remapped fields changed.
pub open spec fn same_listing(s: Station, r: Station) -> bool {
    r.id == s.id && r.name == s.name && r.city == s.city && r.call_sign == s.call_sign
        && r.channel == s.channel && r.logo_url == s.logo_url && r.logo226_url == s.logo226_url
        && r.active == s.active && r.remapped == s.remapped
}

/// `r` is `s` remapped by the automatic offset of the backend at `ordinal`:
/// the channel moved up by `100 * ordinal`, and the call sign with each
/// occurrence of the old channel replaced by the new one.
pub open spec fn auto_remapped(s: Station, r: Station, ordinal: nat) -> bool {
    let c = offset_channel_spec(s.channel@, ordinal);
    &&& same_listing(s, r)
    &&& c.is_some()
    &&& r.channel_remapped.is_some() && r.channel_remapped.unwrap()@ == c.unwrap()
    &&& r.call_sign_remapped.is_some()
    &&& r.call_sign_remapped.unwrap()@ == replace_all(s.call_sign@, s.channel@, c.unwrap())
}

/// Remaps `s` as a station of the backend at position `ordinal`.
pub fn auto_remap(s: &Station, ordinal: u64) -> (r: Result<Station, RemapError>)
    ensures
        r matches Ok(st) ==> auto_remapped(*s, st, ordinal as nat),
        r matches Err(e) ==> offset_channel_spec(s.channel@, ordinal as nat).is_none()
            && e == offset_error(s.channel@),
{
    let c = offset_channel(s.channel.as_str(), ordinal)?;
    assert(s.channel@.len() > 0);
    let cs = replace(s.call_sign.as_str(), s.channel.as_str(), c.as_str());
    let mut st = s.copy();
    st.channel_remapped = Some(c);
    st.call_sign_remapped = Some(cs);
    Ok(st)
}

/// The key under which the remap of the station `id` is stored.
pub open spec fn channel_key(id: Seq<char>) -> Seq<char> {
    "channel."@ + id
}

/// The storage key of the station `id`: `"channel.<id>"`.
pub fn channel_key_of(id: &str) -> (k: String)
    ensures
        k@ == channel_key(id@),
{
    let mut k = string_of("channel.");
    push_str(&mut k, id);
    k
}

/// The remap decisions read from storage: keys with their entries. A later
/// entry under a key replaces an earlier one.
pub struct RemapTable {
    pub entries: Vec<(String, ChannelRemapEntry)>,
}

/// The position of the entry that stands under `key` among the first `n`
/// entries: the last one with that key.
pub open spec fn entry_index(e: Seq<(String, ChannelRemapEntry)>, key: Seq<char>, n: int) -> Option<int>
    decreases n,
{
    if n <= 0 {
        None
    } else if e[n - 1].0@ == key {
        Some(n - 1)
    } else {
        entry_index(e, key, n - 1)
    }
}

impl RemapTable {
    /// The position of the entry under `key`, if any.
    pub open spec fn index_of(&self, key: Seq<char>) -> Option<int> {
        entry_index(self.entries@, key, self.entries@.len() as int)
    }

    /// An empty table.
    pub fn new() -> (t: RemapTable)
        ensures
            t.entries@.len() == 0,
    {
        RemapTable { entries: Vec::new() }
    }

    /// Stores `entry` under `key`, replacing what stood there.
    pub fn insert(&mut self, key: String, entry: ChannelRemapEntry)
        ensures
            final(self).entries@ == old(self).entries@.push((key, entry)),
    {
        self.entries.push((key, entry));
    }

    /// Looks up the entry under `key`.
    pub fn lookup(&self, key: &str) -> (r: Option<&ChannelRemapEntry>)
        ensures
            r matches Some(e) ==> self.index_of(key@) matches Some(k) && *e == self.entries@[k].1,
            r.is_none() ==> self.index_of(key@).is_none(),
    {
        let mut n: usize = self.entries.len();
        while n > 0
            invariant
                n <= self.entries@.len(),
                entry_index(self.entries@, key@, self.entries@.len() as int)
                    == entry_index(self.entries@, key@, n as int),
            decreases n,
        {
            let e = &self.entries[n - 1];
            if str_eq(e.0.as_str(), key) {
                return Some(&e.1);
            }
            n = n - 1;
        }
        None
    }
}

/// Whether `a` and `b` hold the same characters.
pub fn str_eq(a: &str, b: &str) -> (r: bool)
    ensures
        r == (a@ == b@),
{
    let n = a.unicode_len();
    if n != b.unicode_len() {
        return false;
    }
    let mut i: usize = 0;
    while i < n
        invariant
            n == a@.len(),
            n == b@.len(),
            i <= n,
            forall|k: int| 0 <= k < i ==> a@[k] == b@[k],
        decreases n - i,
    {
        if a.get_char(i) != b.get_char(i) {
            return false;
        }
        i = i + 1;
    }
    assert(a@ =~= b@);
    true
}

/// `r` is `s` after the remap table `t`: where an active entry stands under
/// the station's key, its channel and call sign are taken from the entry (the
/// call sign written `"<remap channel> <remap call sign>"`); otherwise the
/// station is unchanged.
pub open spec fn explicitly_remapped(s: Station, r: Station, t: RemapTable) -> bool {
    match t.index_of(channel_key(s.id@)) {
        Some(k) if t.entries@[k].1.active => {
            let e = t.entries@[k].1;
            &&& same_listing(s, r)
            &&& r.channel_remapped.is_some() && r.channel_remapped.unwrap()@ == e.remap_channel@
            &&& r.call_sign_remapped.is_some()
            &&& r.call_sign_remapped.unwrap()@ == e.remap_channel@ + " "@ + e.remap_call_sign@
        },
        _ => r == s,
    }
}

/// Remaps `s` by the table `t`.
pub fn explicit_remap(s: &Station, t: &RemapTable) -> (r: Station)
    ensures
        explicitly_remapped(*s, r, *t),
{
    let key = channel_key_of(s.id.as_str());
    let mut st = s.copy();
    match t.lookup(key.as_str()) {
        Some(e) => {
            if e.active {
                let mut cs = e.remap_channel.clone();
                push_str(&mut cs, " ");
                push_str(&mut cs, e.remap_call_sign.as_str());
                st.channel_remapped = Some(e.remap_channel.clone());
                st.call_sign_remapped = Some(cs);
            }
        }
        None => {}
    }
    st
}

} // verus!

verus! {

/// Under the automatic offset an integer channel `c` of the backend at
/// position `ordinal` becomes the integer `c + 100 * ordinal`.
pub proof fn lemma_offset_integer(s: Seq<char>, ordinal: nat)
    requires
        is_integer_channel(s),
        digits_value(s) + 100 * ordinal <= u64::MAX,
    ensures
        offset_channel_spec(s, ordinal) is Some,
        is_integer_channel(offset_channel_spec(s, ordinal).unwrap()),
        digits_value(offset_channel_spec(s, ordinal).unwrap()) == digits_value(s) + 100 * ordinal,
{
    crate::text::lemma_decimal_value(digits_value(s) + 100 * ordinal);
}

/// Under the automatic offset a decimal channel keeps its form: its whole
/// part `w` becomes `w + 100 * ordinal`, followed by its fraction.
pub proof fn lemma_offset_decimal(s: Seq<char>, d: int, ordinal: nat)
    requires
        is_decimal_channel(s, d),
        digits_value(s.subrange(0, d)) + 100 * ordinal <= u64::MAX,
    ensures
        offset_channel_spec(s, ordinal) == Some(
            decimal(digits_value(s.subrange(0, d)) + 100 * ordinal)
                + fraction_text(s.subrange(d + 1, s.len() as int)),
        ),
        all_digits(decimal(digits_value(s.subrange(0, d)) + 100 * ordinal)),
        digits_value(decimal(digits_value(s.subrange(0, d)) + 100 * ordinal))
            == digits_value(s.subrange(0, d)) + 100 * ordinal,
{
    assert(s[d] == '.');
    assert(!all_digits(s));
    let c = choose|c: int| is_decimal_channel(s, c);
    lemma_first_dot_unique(s, c, d);
    crate::text::lemma_decimal_value(digits_value(s.subrange(0, d)) + 100 * ordinal);
}

} // verus!
