//! The relay of a live segmented playlist as one continuous stream: a state
//! machine that the transport pulls one chunk at a time. The transport does
//! the fetching and the waiting; this module decides what to fetch, when, and
//! when the stream ends.
use vstd::prelude::*;
use crate::remap::str_eq;
use crate::text::{is_digit, occurs_at, occurs_at_exec};

verus! {

/// How much media may be served from one upstream address before it is
/// resolved afresh, in milliseconds (2 h 45 min).
pub const URL_BUDGET_MS: u64 = 9_900_000;

/// The queue length at which the oldest segments are dropped.
pub const QUEUE_DRAIN_AT: usize = 30;

/// How many of the oldest segments are dropped at a time.
pub const QUEUE_DRAIN_COUNT: usize = 10;

/// One media segment of the playlist.
pub struct Segment {
    pub url: String,
    pub played: bool,
    pub duration_ms: u64,
}

/// What the relay knows of a segment.
pub struct SegmentView {
    pub url: Seq<char>,
    pub played: bool,
    pub duration_ms: u64,
}

impl View for Segment {
    type V = SegmentView;

    open spec fn view(&self) -> SegmentView {
        SegmentView { url: self.url@, played: self.played, duration_ms: self.duration_ms }
    }
}

impl PartialEq for Segment {
    /// Segments are the same when their addresses are: duration and play state
    /// are annotations.
    fn eq(&self, other: &Segment) -> (r: bool) {
        str_eq(self.url.as_str(), other.url.as_str())
    }
}

impl vstd::std_specs::cmp::PartialEqSpecImpl for Segment {
    open spec fn obeys_eq_spec() -> bool {
        true
    }

    open spec fn eq_spec(&self, other: &Segment) -> bool {
        self.url@ == other.url@
    }
}

/// The views of a queue of segments.
pub open spec fn queue_view(q: Seq<Segment>) -> Seq<SegmentView> {
    q.map_values(|s: Segment| s@)
}

/// The addresses and durations of a list of found segments.
pub open spec fn found_view(f: Seq<(String, u64)>) -> Seq<(Seq<char>, u64)> {
    f.map_values(|e: (String, u64)| (e.0@, e.1))
}

/// Some segment of `q` has the address `u`.
pub open spec fn has_url(q: Seq<SegmentView>, u: Seq<char>) -> bool {
    exists|k: int| 0 <= k < q.len() && (#[trigger] q[k]).url == u
}

/// No two segments of `q` share an address.
pub open spec fn urls_distinct(q: Seq<SegmentView>) -> bool {
    forall|a: int, b: int| 0 <= a < b < q.len() ==> (#[trigger] q[a]).url != (#[trigger] q[b]).url
}

/// `q` with each found segment appended, in order, unless a segment with its
/// address is already queued.
pub open spec fn appended(q: Seq<SegmentView>, f: Seq<(Seq<char>, u64)>) -> Seq<SegmentView>
    decreases f.len(),
{
    if f.len() == 0 {
        q
    } else {
        let p = appended(q, f.drop_last());
        if has_url(p, f.last().0) {
            p
        } else {
            p.push(SegmentView { url: f.last().0, played: false, duration_ms: f.last().1 })
        }
    }
}

/// `q` without its oldest ten segments once it holds thirty or more.
pub open spec fn drained(q: Seq<SegmentView>) -> Seq<SegmentView> {
    if q.len() >= QUEUE_DRAIN_AT {
        q.subrange(QUEUE_DRAIN_COUNT as int, q.len() as int)
    } else {
        q
    }
}

/// The position of the first segment of `q` not yet played, if any.
#[verifier::opaque]
pub open spec fn first_unplayed(q: Seq<SegmentView>) -> Option<int> {
    if exists|k: int| 0 <= k < q.len() && !(#[trigger] q[k]).played {
        Some(choose|k: int| 0 <= k < q.len() && !(#[trigger] q[k]).played
            && forall|m: int| 0 <= m < k ==> (#[trigger] q[m]).played)
    } else {
        None
    }
}

/// How long to wait before serving the next segment, in milliseconds: media
/// already served, less half the next segment, less the time since the
/// stream started. Positive means wait.
pub open spec fn pacing_wait(served_ms: u64, duration_ms: u64, elapsed_ms: u64) -> int {
    served_ms - duration_ms / 2 - elapsed_ms
}

/// The wait before serving a segment of `duration_ms` when `served_ms` of
/// media went out in the `elapsed_ms` since the stream started.
pub fn pacing_wait_ms(served_ms: u64, duration_ms: u64, elapsed_ms: u64) -> (w: i128)
    ensures
        w == pacing_wait(served_ms, duration_ms, elapsed_ms),
{
    served_ms as i128 - (duration_ms / 2) as i128 - elapsed_ms as i128
}

/// The relay state of one watch connection.
pub struct Relay {
    /// Known segments, oldest first, without repeated addresses.
    pub segments: Vec<Segment>,
    /// The current upstream playlist address.
    pub url: String,
    /// Media served so far, in milliseconds.
    pub served_ms: u64,
    /// Media that may still be served before the address is resolved afresh;
    /// zero once the budget is spent.
    pub budget_ms: u64,
    /// False once the stream has ended; it never starts again.
    pub active: bool,
    /// The segment picked for the chunk being fetched.
    pub pending: Option<usize>,
}

/// What the transport does next for a relay.
pub enum RelayAction {
    /// The stream has ended.
    Stop,
    /// Resolve the station's upstream address afresh and hand the outcome to
    /// `renew_url`.
    RenewUrl,
    /// Fetch the playlist at this address and hand the text to
    /// `take_playlist`, then ask `plan_chunk` for the segment to fetch.
    FetchPlaylist(String),
}

impl Relay {
    /// The next step of a pull: stop once the stream has ended, resolve the
    /// address afresh once its budget is spent, otherwise fetch the playlist.
    pub fn next_action(&self) -> (a: RelayAction)
        ensures
            !self.active ==> a is Stop,
            self.active && self.budget_ms == 0 ==> a is RenewUrl,
            self.active && self.budget_ms > 0 ==> (a matches RelayAction::FetchPlaylist(u) && u@ == self.url@),
    {
        if !self.active {
            RelayAction::Stop
        } else if self.url_expired() {
            RelayAction::RenewUrl
        } else {
            RelayAction::FetchPlaylist(self.url.clone())
        }
    }

    /// The queue of known segments.
    pub open spec fn queue(&self) -> Seq<SegmentView> {
        queue_view(self.segments@)
    }

    /// The relay's invariant: addresses in the queue are distinct, and a
    /// picked segment is in it.
    pub open spec fn wf(&self) -> bool {
        &&& urls_distinct(self.queue())
        &&& self.pending matches Some(i) ==> i < self.segments@.len()
    }

    /// A fresh relay for the upstream address `url`: empty queue, nothing
    /// served, the full address budget.
    pub fn new(url: String) -> (r: Relay)
        ensures
            r.wf(),
            r.segments@.len() == 0,
            r.url == url,
            r.served_ms == 0,
            r.budget_ms == URL_BUDGET_MS,
            r.active,
            r.pending.is_none(),
    {
        Relay { segments: Vec::new(), url, served_ms: 0, budget_ms: URL_BUDGET_MS, active: true, pending: None }
    }

    /// Whether the upstream address must be resolved afresh before the next
    /// playlist fetch.
    pub fn url_expired(&self) -> (b: bool)
        ensures
            b == (self.budget_ms == 0),
    {
        self.budget_ms == 0
    }

    /// Takes the outcome of resolving the address afresh: a new address
    /// renews the budget; none ends the stream.
    pub fn renew_url(&mut self, fresh: Option<String>)
        requires
            old(self).wf(),
        ensures
            final(self).wf(),
            final(self).segments == old(self).segments,
            final(self).served_ms == old(self).served_ms,
            final(self).pending == old(self).pending,
            fresh matches Some(u) ==> final(self).url == u && final(self).budget_ms == URL_BUDGET_MS
                && final(self).active == old(self).active,
            fresh.is_none() ==> !final(self).active && final(self).url == old(self).url
                && final(self).budget_ms == old(self).budget_ms,
    {
        match fresh {
            Some(u) => {
                self.url = u;
                self.budget_ms = URL_BUDGET_MS;
            }
            None => {
                self.active = false;
            }
        }
    }
}

} // verus!

verus! {

/// Whether a segment of `q` has the address `u`.
fn queue_has_url(q: &Vec<Segment>, u: &str) -> (b: bool)
    ensures
        b == has_url(queue_view(q@), u@),
{
    let mut k: usize = 0;
    while k < q.len()
        invariant
            k <= q@.len(),
            forall|m: int| 0 <= m < k ==> (#[trigger] queue_view(q@)[m]).url != u@,
        decreases q@.len() - k,
    {
        if str_eq(q[k].url.as_str(), u) {
            assert(queue_view(q@)[k as int].url == u@);
            return true;
        }
        k = k + 1;
    }
    false
}

/// Appending keeps the addresses of a queue distinct.
pub proof fn lemma_appended_distinct(q: Seq<SegmentView>, f: Seq<(Seq<char>, u64)>)
    requires
        urls_distinct(q),
    ensures
        urls_distinct(appended(q, f)),
    decreases f.len(),
{
    if f.len() > 0 {
        lemma_appended_distinct(q, f.drop_last());
    }
}

/// Dropping the oldest segments keeps the addresses of a queue distinct.
pub proof fn lemma_drained_distinct(q: Seq<SegmentView>)
    requires
        urls_distinct(q),
    ensures
        urls_distinct(drained(q)),
{
    if q.len() >= QUEUE_DRAIN_AT {
        let d = drained(q);
        assert forall|a: int, b: int| 0 <= a < b < d.len() implies (#[trigger] d[a]).url != (#[trigger] d[b]).url by {
            assert(d[a] == q[a + 10]);
            assert(d[b] == q[b + 10]);
        }
    }
}

impl Relay {
    /// Appends the found segments, each address once, and drops the oldest
    /// ten segments where thirty or more are then queued.
    pub fn absorb_segments(&mut self, found: Vec<(String, u64)>)
        requires
            old(self).wf(),
        ensures
            final(self).wf(),
            final(self).queue() == drained(appended(old(self).queue(), found_view(found@))),
            final(self).url == old(self).url,
            final(self).served_ms == old(self).served_ms,
            final(self).budget_ms == old(self).budget_ms,
            final(self).active == old(self).active,
            final(self).pending.is_none(),
    {
        let ghost q0 = self.queue();
        let ghost fv = found_view(found@);
        self.pending = None;
        let mut i: usize = 0;
        while i < found.len()
            invariant
                0 <= i <= found@.len(),
                fv == found_view(found@),
                urls_distinct(q0),
                queue_view(self.segments@) == appended(q0, fv.subrange(0, i as int)),
                self.url == old(self).url,
                self.served_ms == old(self).served_ms,
                self.budget_ms == old(self).budget_ms,
                self.active == old(self).active,
                self.pending.is_none(),
            decreases found@.len() - i,
        {
            let e = &found[i];
            assert(fv.subrange(0, i + 1).drop_last() =~= fv.subrange(0, i as int));
            assert(fv[i as int] == (e.0@, e.1));
            let known = queue_has_url(&self.segments, e.0.as_str());
            if !known {
                self.segments.push(Segment { url: e.0.clone(), played: false, duration_ms: e.1 });
            }
            assert(queue_view(self.segments@) =~= appended(q0, fv.subrange(0, i + 1)));
            i = i + 1;
        }
        assert(fv.subrange(0, found@.len() as int) =~= fv);
        proof {
            lemma_appended_distinct(q0, fv);
        }
        if self.segments.len() >= QUEUE_DRAIN_AT {
            let tail = self.segments.split_off(QUEUE_DRAIN_COUNT);
            self.segments = tail;
            assert(queue_view(self.segments@) =~= drained(appended(q0, fv)));
        }
        proof {
            lemma_drained_distinct(appended(q0, fv));
        }
    }

    /// The position of the first segment not yet played.
    pub fn next_unplayed(&self) -> (r: Option<usize>)
        ensures
            r matches Some(i) ==> first_unplayed(self.queue()) == Some(i as int)
                && i < self.segments@.len() && !self.queue()[i as int].played,
            r.is_none() ==> first_unplayed(self.queue()).is_none(),
    {
        let ghost q = self.queue();
        reveal(first_unplayed);
        let mut k: usize = 0;
        while k < self.segments.len()
            invariant
                q == self.queue(),
                k <= self.segments@.len(),
                forall|m: int| 0 <= m < k ==> (#[trigger] q[m]).played,
            decreases self.segments@.len() - k,
        {
            if !self.segments[k].played {
                assert(!q[k as int].played);
                proof {
                    reveal(first_unplayed);
                    let kk = k as int;
                    assert(0 <= kk < q.len() && !(#[trigger] q[kk]).played
                        && forall|m: int| 0 <= m < kk ==> (#[trigger] q[m]).played);
                    let c = choose|c: int| 0 <= c < q.len() && !(#[trigger] q[c]).played
                        && forall|m: int| 0 <= m < c ==> (#[trigger] q[m]).played;
                    assert(c == k) by {
                        if c < k { assert(q[c].played); }
                        if c > k { assert(q[k as int].played); }
                    }
                    assert(first_unplayed(q) == Some(kk));
                }
                return Some(k);
            }
            assert(q[k as int].played);
            k = k + 1;
        }
        None
    }

    /// Picks the segment to serve next, `elapsed_ms` after the stream started:
    /// its address and the wait before fetching it. Where every queued
    /// segment has been played the stream ends.
    pub fn plan_chunk(&mut self, elapsed_ms: u64) -> (r: Option<(String, i128)>)
        requires
            old(self).wf(),
        ensures
            final(self).wf(),
            final(self).segments == old(self).segments,
            final(self).url == old(self).url,
            final(self).served_ms == old(self).served_ms,
            final(self).budget_ms == old(self).budget_ms,
            match first_unplayed(old(self).queue()) {
                Some(i) => {
                    let s = old(self).queue()[i];
                    &&& final(self).pending == Some(i as usize)
                    &&& final(self).active == old(self).active
                    &&& r matches Some(p) && p.0@ == s.url
                        && p.1 == pacing_wait(old(self).served_ms, s.duration_ms, elapsed_ms)
                },
                None => r.is_none() && !final(self).active && final(self).pending.is_none(),
            },
    {
        match self.next_unplayed() {
            Some(i) => {
                let seg = &self.segments[i];
                assert(self.queue()[i as int] == seg@);
                let wait = pacing_wait_ms(self.served_ms, seg.duration_ms, elapsed_ms);
                let url = seg.url.clone();
                self.pending = Some(i);
                Some((url, wait))
            }
            None => {
                self.active = false;
                self.pending = None;
                None
            }
        }
    }

    /// Takes the outcome of fetching the picked segment: on success it is
    /// marked played, and its duration is added to the media served and taken
    /// from the address budget; on failure the stream ends.
    pub fn chunk_delivered(&mut self, fetched: bool)
        requires
            old(self).wf(),
            old(self).pending.is_some(),
        ensures
            final(self).wf(),
            final(self).url == old(self).url,
            final(self).pending.is_none(),
            !fetched ==> !final(self).active && final(self).segments == old(self).segments
                && final(self).served_ms == old(self).served_ms
                && final(self).budget_ms == old(self).budget_ms,
            fetched ==> {
                let i = old(self).pending.unwrap() as int;
                let d = old(self).queue()[i].duration_ms;
                &&& final(self).active == old(self).active
                &&& final(self).queue() == old(self).queue().update(i,
                        SegmentView { played: true, ..old(self).queue()[i] })
                &&& final(self).served_ms == if old(self).served_ms + d > u64::MAX { u64::MAX as int }
                        else { old(self).served_ms + d }
                &&& final(self).budget_ms == if old(self).budget_ms < d { 0 }
                        else { old(self).budget_ms - d }
            },
    {
        let i = self.pending.unwrap();
        self.pending = None;
        if !fetched {
            self.active = false;
            return;
        }
        let ghost q0 = self.queue();
        let mut seg = self.segments.remove(i);
        let d = seg.duration_ms;
        seg.played = true;
        self.segments.insert(i, seg);
        assert(self.queue() =~= q0.update(i as int, SegmentView { played: true, ..q0[i as int] }));
        self.served_ms = self.served_ms.saturating_add(d);
        self.budget_ms = self.budget_ms.saturating_sub(d);
    }
}

} // verus!

verus! {

/// The segments of a media playlist document, in order, each with its URI as
/// written and its duration in milliseconds; `None` where the text is no valid
/// media playlist.
pub uninterp spec fn playlist_segments(text: Seq<char>) -> Option<Seq<(Seq<char>, u64)>>;

/// The address that the reference `rel` names when resolved against the
/// absolute address `base`; `None` where `base` is no absolute address or
/// `rel` cannot be resolved against it.
pub uninterp spec fn joined_url(base: Seq<char>, rel: Seq<char>) -> Option<Seq<char>>;

/// The number of decimal digits in a row in `t` from position `p`.
pub open spec fn digit_run(t: Seq<char>, p: int) -> nat
    decreases t.len() - p,
{
    if 0 <= p < t.len() && is_digit(t[p]) {
        1 + digit_run(t, p + 1)
    } else {
        0
    }
}

/// Position `r` ends a tag value: end of text, a comma or a line break.
pub open spec fn ends_value(t: Seq<char>, r: int) -> bool {
    r >= t.len() || t[r] == ',' || t[r] == '\n' || t[r] == '\r'
}

/// From `p` stands a plain duration: one to `max` digits, optionally a point
/// and more digits, then the end of the value.
pub open spec fn plain_duration_at(t: Seq<char>, p: int, max: nat) -> bool {
    let n = digit_run(t, p);
    let q = p + n;
    &&& 1 <= n <= max
    &&& if q < t.len() && t[q] == '.' {
        ends_value(t, q + 1 + digit_run(t, q + 1))
    } else {
        ends_value(t, q)
    }
}

/// From `p` stands a number of one to eighteen digits.
pub open spec fn small_count_at(t: Seq<char>, p: int) -> bool {
    1 <= digit_run(t, p) <= 18
}

/// The end of the byte range `<length>[@<offset>]` that stands from `p`, each
/// part one to eighteen digits; `None` where there is no such range.
pub open spec fn byte_range_end(t: Seq<char>, p: int) -> Option<int> {
    let n = digit_run(t, p);
    let q = p + n;
    if !(1 <= n <= 18) {
        None
    } else if q < t.len() && t[q] == '@' {
        let m = digit_run(t, q + 1);
        if 1 <= m <= 18 { Some(q + 1 + m) } else { None }
    } else {
        Some(q)
    }
}

/// `c` can continue a longer name.
pub open spec fn name_char(c: char) -> bool {
    ('a' <= c && c <= 'z') || ('A' <= c && c <= 'Z') || ('0' <= c && c <= '9') || c == '_'
        || c == '-' || c == '.' || c == '/'
}

/// What follows the word `BYTERANGE` at `p` is safe: a tag value that is a
/// bounded byte range, an attribute value that is a quoted bounded byte
/// range, or more of a longer name.
pub open spec fn byte_range_ok(t: Seq<char>, p: int) -> bool {
    if p < t.len() && t[p] == ':' {
        byte_range_end(t, p + 1).is_some() && ends_value(t, byte_range_end(t, p + 1).unwrap())
    } else if p < t.len() && t[p] == '=' {
        &&& p + 1 < t.len() && t[p + 1] == '"'
        &&& byte_range_end(t, p + 2).is_some()
        &&& byte_range_end(t, p + 2).unwrap() < t.len()
        &&& t[byte_range_end(t, p + 2).unwrap()] == '"'
        &&& ends_value(t, byte_range_end(t, p + 2).unwrap() + 1)
    } else {
        p < t.len() && name_char(t[p])
    }
}

/// What follows the word `DURATION` at `p` is safe: a tag separator, an
/// attribute value that is a plain bounded duration, or more of a longer
/// name.
pub open spec fn duration_attr_ok(t: Seq<char>, p: int) -> bool {
    if p < t.len() && t[p] == ':' {
        true
    } else if p < t.len() && t[p] == '=' {
        plain_duration_at(t, p + 1, 18)
    } else {
        p < t.len() && name_char(t[p])
    }
}

/// The playlist text holds only values that the playlist parser takes
/// without panicking: each `#EXTINF:` duration is a plain number of at most
/// nine whole digits, each media sequence number has at most eighteen
/// digits, each byte range (tag or attribute) has parts of at most eighteen
/// digits, and each `DURATION` or `PLANNED-DURATION` attribute is a plain
/// number of at most eighteen whole digits.
pub open spec fn safe_playlist(t: Seq<char>) -> bool {
    &&& forall|i: int| #[trigger] occurs_at(t, "#EXTINF:"@, i)
        ==> plain_duration_at(t, i + "#EXTINF:"@.len(), 9)
    &&& forall|i: int| #[trigger] occurs_at(t, "#EXT-X-MEDIA-SEQUENCE:"@, i)
        ==> small_count_at(t, i + "#EXT-X-MEDIA-SEQUENCE:"@.len())
    &&& forall|i: int| #[trigger] occurs_at(t, "BYTERANGE"@, i)
        ==> byte_range_ok(t, i + "BYTERANGE"@.len())
    &&& forall|i: int| #[trigger] occurs_at(t, "DURATION"@, i)
        ==> duration_attr_ok(t, i + "DURATION"@.len())
}

/// The number of digits in a row in `t` from `p`.
fn digit_run_exec(t: &str, n: usize, p: usize) -> (r: usize)
    requires
        n == t@.len(),
        p <= n,
    ensures
        r == digit_run(t@, p as int),
        p + r <= n,
{
    let mut q: usize = p;
    while q < n && '0' <= t.get_char(q) && t.get_char(q) <= '9'
        invariant
            n == t@.len(),
            p <= q <= n,
            digit_run(t@, p as int) == (q - p) + digit_run(t@, q as int),
        decreases n - q,
    {
        q = q + 1;
    }
    q - p
}

fn ends_value_exec(t: &str, n: usize, r: usize) -> (b: bool)
    requires
        n == t@.len(),
    ensures
        b == ends_value(t@, r as int),
{
    if r >= n {
        true
    } else {
        let c = t.get_char(r);
        c == ',' || c == '\n' || c == '\r'
    }
}

fn char_is(t: &str, n: usize, p: usize, c: char) -> (b: bool)
    requires
        n == t@.len(),
    ensures
        b == (p < n && t@[p as int] == c),
{
    p < n && t.get_char(p) == c
}

fn name_char_at(t: &str, n: usize, p: usize) -> (b: bool)
    requires
        n == t@.len(),
    ensures
        b == (p < n && name_char(t@[p as int])),
{
    if p >= n {
        return false;
    }
    let c = t.get_char(p);
    ('a' <= c && c <= 'z') || ('A' <= c && c <= 'Z') || ('0' <= c && c <= '9') || c == '_'
        || c == '-' || c == '.' || c == '/'
}

fn plain_duration_exec(t: &str, n: usize, p: usize, max: usize) -> (b: bool)
    requires
        n == t@.len(),
        p <= n,
    ensures
        b == plain_duration_at(t@, p as int, max as nat),
{
    let k = digit_run_exec(t, n, p);
    if k < 1 || k > max {
        return false;
    }
    let q = p + k;
    if char_is(t, n, q, '.') {
        let f = digit_run_exec(t, n, q + 1);
        ends_value_exec(t, n, q + 1 + f)
    } else {
        ends_value_exec(t, n, q)
    }
}

fn byte_range_end_exec(t: &str, n: usize, p: usize) -> (r: Option<usize>)
    requires
        n == t@.len(),
        p <= n,
    ensures
        r.is_some() == byte_range_end(t@, p as int).is_some(),
        r matches Some(e) ==> e == byte_range_end(t@, p as int).unwrap() && e <= n,
{
    let k = digit_run_exec(t, n, p);
    if k < 1 || k > 18 {
        return None;
    }
    let q = p + k;
    if char_is(t, n, q, '@') {
        let m = digit_run_exec(t, n, q + 1);
        if m < 1 || m > 18 {
            None
        } else {
            Some(q + 1 + m)
        }
    } else {
        Some(q)
    }
}

fn byte_range_ok_exec(t: &str, n: usize, p: usize) -> (b: bool)
    requires
        n == t@.len(),
        p <= n,
    ensures
        b == byte_range_ok(t@, p as int),
{
    if char_is(t, n, p, ':') {
        match byte_range_end_exec(t, n, p + 1) {
            Some(r) => ends_value_exec(t, n, r),
            None => false,
        }
    } else if char_is(t, n, p, '=') {
        if !char_is(t, n, p + 1, '"') {
            return false;
        }
        match byte_range_end_exec(t, n, p + 2) {
            Some(r) => char_is(t, n, r, '"') && ends_value_exec(t, n, r + 1),
            None => false,
        }
    } else {
        name_char_at(t, n, p)
    }
}

fn duration_attr_ok_exec(t: &str, n: usize, p: usize) -> (b: bool)
    requires
        n == t@.len(),
        p <= n,
    ensures
        b == duration_attr_ok(t@, p as int),
{
    if char_is(t, n, p, ':') {
        true
    } else if char_is(t, n, p, '=') {
        plain_duration_exec(t, n, p + 1, 18)
    } else {
        name_char_at(t, n, p)
    }
}

/// Whether the playlist parser can be handed `text`.
pub fn is_safe_playlist(text: &str) -> (b: bool)
    ensures
        b == safe_playlist(text@),
{
    let n = text.unicode_len();
    proof {
        reveal_strlit("#EXTINF:");
        reveal_strlit("#EXT-X-MEDIA-SEQUENCE:");
        reveal_strlit("BYTERANGE");
        reveal_strlit("DURATION");
    }
    let inf = "#EXTINF:";
    let seq = "#EXT-X-MEDIA-SEQUENCE:";
    let br = "BYTERANGE";
    let du = "DURATION";
    let li = inf.unicode_len();
    let ls = seq.unicode_len();
    let lb = br.unicode_len();
    let ld = du.unicode_len();
    let mut i: usize = 0;
    while i < n
        invariant
            n == text@.len(),
            li == "#EXTINF:"@.len(),
            ls == "#EXT-X-MEDIA-SEQUENCE:"@.len(),
            lb == "BYTERANGE"@.len(),
            ld == "DURATION"@.len(),
            inf@ == "#EXTINF:"@,
            seq@ == "#EXT-X-MEDIA-SEQUENCE:"@,
            br@ == "BYTERANGE"@,
            du@ == "DURATION"@,
            li > 0 && ls > 0 && lb > 0 && ld > 0,
            i <= n,
            forall|j: int| 0 <= j < i && #[trigger] occurs_at(text@, "#EXTINF:"@, j)
                ==> plain_duration_at(text@, j + "#EXTINF:"@.len(), 9),
            forall|j: int| 0 <= j < i && #[trigger] occurs_at(text@, "#EXT-X-MEDIA-SEQUENCE:"@, j)
                ==> small_count_at(text@, j + "#EXT-X-MEDIA-SEQUENCE:"@.len()),
            forall|j: int| 0 <= j < i && #[trigger] occurs_at(text@, "BYTERANGE"@, j)
                ==> byte_range_ok(text@, j + "BYTERANGE"@.len()),
            forall|j: int| 0 <= j < i && #[trigger] occurs_at(text@, "DURATION"@, j)
                ==> duration_attr_ok(text@, j + "DURATION"@.len()),
        decreases n - i,
    {
        if occurs_at_exec(text, n, inf, li, i) {
            if !plain_duration_exec(text, n, i + li, 9) {
                return false;
            }
        }
        if occurs_at_exec(text, n, seq, ls, i) {
            let k = digit_run_exec(text, n, i + ls);
            if k < 1 || k > 18 {
                return false;
            }
        }
        if occurs_at_exec(text, n, br, lb, i) {
            if !byte_range_ok_exec(text, n, i + lb) {
                return false;
            }
        }
        if occurs_at_exec(text, n, du, ld, i) {
            if !duration_attr_ok_exec(text, n, i + ld) {
                return false;
            }
        }
        i = i + 1;
    }
    assert forall|j: int| #[trigger] occurs_at(text@, "#EXTINF:"@, j)
        implies plain_duration_at(text@, j + "#EXTINF:"@.len(), 9) by {
        assert(0 <= j < n);
    }
    assert forall|j: int| #[trigger] occurs_at(text@, "#EXT-X-MEDIA-SEQUENCE:"@, j)
        implies small_count_at(text@, j + "#EXT-X-MEDIA-SEQUENCE:"@.len()) by {
        assert(0 <= j < n);
    }
    assert forall|j: int| #[trigger] occurs_at(text@, "BYTERANGE"@, j)
        implies byte_range_ok(text@, j + "BYTERANGE"@.len()) by {
        assert(0 <= j < n);
    }
    assert forall|j: int| #[trigger] occurs_at(text@, "DURATION"@, j)
        implies duration_attr_ok(text@, j + "DURATION"@.len()) by {
        assert(0 <= j < n);
    }
    true
}

/// Relies on hls_m3u8's `MediaPlaylist::try_from(&str)`: parses a media
/// playlist and lists its segments in order, with each segment's URI and
/// the duration of its `#EXTINF` tag. The parser panics on some values
/// (`Duration::from_secs_f64` on a negative or huge `#EXTINF` or date range
/// duration, an overflowing segment number or byte range end), which
/// `safe_playlist` leaves out.
#[verifier::external_body]
fn parse_media_playlist(text: &str) -> (r: Option<Vec<(String, u64)>>)
    requires
        safe_playlist(text@),
    ensures
        r.is_some() == playlist_segments(text@).is_some(),
        r matches Some(v) ==> found_view(v@) == playlist_segments(text@).unwrap(),
{
    match hls_m3u8::MediaPlaylist::try_from(text) {
        Ok(p) => {
            let mut out = Vec::new();
            for (_, s) in p.segments.iter() {
                out.push((s.uri().to_string(), s.duration.duration().as_millis() as u64));
            }
            Some(out)
        }
        Err(_) => None,
    }
}

/// Relies on url's `Url::parse` and `Url::join` (re-exported by reqwest):
/// resolves a segment reference against the playlist's own address and
/// serialises the result.
#[verifier::external_body]
fn join_url(base: &str, rel: &str) -> (r: Option<String>)
    ensures
        r.is_some() == joined_url(base@, rel@).is_some(),
        r matches Some(u) ==> u@ == joined_url(base@, rel@).unwrap(),
{
    match reqwest::Url::parse(base) {
        Ok(b) => match b.join(rel) {
            Ok(u) => Some(u.to_string()),
            Err(_) => None,
        },
        Err(_) => None,
    }
}

/// The segments `segs` with each URI resolved against `base`; `None` where
/// one cannot be.
pub open spec fn joined_all(base: Seq<char>, segs: Seq<(Seq<char>, u64)>) -> Option<Seq<(Seq<char>, u64)>>
    decreases segs.len(),
{
    if segs.len() == 0 {
        Some(Seq::empty())
    } else {
        match (joined_all(base, segs.drop_last()), joined_url(base, segs.last().0)) {
            (Some(p), Some(u)) => Some(p.push((u, segs.last().1))),
            _ => None,
        }
    }
}

/// Resolves each URI of `segs` against `base`.
pub fn join_all(base: &str, segs: &Vec<(String, u64)>) -> (r: Option<Vec<(String, u64)>>)
    ensures
        r.is_some() == joined_all(base@, found_view(segs@)).is_some(),
        r matches Some(v) ==> found_view(v@) == joined_all(base@, found_view(segs@)).unwrap(),
{
    let ghost sv = found_view(segs@);
    let mut out: Vec<(String, u64)> = Vec::new();
    let mut i: usize = 0;
    assert(sv.subrange(0, 0) =~= Seq::<(Seq<char>, u64)>::empty());
    assert(found_view(out@) =~= Seq::<(Seq<char>, u64)>::empty());
    while i < segs.len()
        invariant
            i <= segs@.len(),
            sv == found_view(segs@),
            joined_all(base@, sv.subrange(0, i as int)) == Some(found_view(out@)),
        decreases segs@.len() - i,
    {
        let e = &segs[i];
        assert(sv.subrange(0, i + 1).drop_last() =~= sv.subrange(0, i as int));
        assert(sv[i as int] == (e.0@, e.1));
        match join_url(base, e.0.as_str()) {
            Some(u) => {
                let ghost before = out@;
                let ghost uv = u@;
                out.push((u, e.1));
                assert(found_view(out@) =~= found_view(before).push((uv, e.1)));
            }
            None => {
                proof {
                    lemma_joined_all_fails(base@, sv, i as int + 1);
                }
                assert(sv.subrange(0, segs@.len() as int) =~= sv);
                return None;
            }
        }
        i = i + 1;
    }
    assert(sv.subrange(0, segs@.len() as int) =~= sv);
    Some(out)
}

/// Once a prefix cannot be resolved, no longer one can.
proof fn lemma_joined_all_fails(base: Seq<char>, s: Seq<(Seq<char>, u64)>, n: int)
    requires
        0 <= n <= s.len(),
        joined_all(base, s.subrange(0, n)).is_none(),
    ensures
        joined_all(base, s).is_none(),
    decreases s.len() - n,
{
    if n < s.len() {
        assert(s.subrange(0, n + 1).drop_last() =~= s.subrange(0, n));
        lemma_joined_all_fails(base, s, n + 1);
    } else {
        assert(s.subrange(0, n) =~= s);
    }
}

impl Relay {
    /// Takes a fetched playlist document: its segments, resolved against the
    /// current address, are appended as `absorb_segments` does. Where the text
    /// holds a value the parser cannot take safely, is no media playlist, or a
    /// segment cannot be resolved, the stream ends.
    pub fn take_playlist(&mut self, text: &str)
        requires
            old(self).wf(),
        ensures
            final(self).wf(),
            final(self).url == old(self).url,
            final(self).served_ms == old(self).served_ms,
            final(self).budget_ms == old(self).budget_ms,
            !safe_playlist(text@) ==> !final(self).active && final(self).segments == old(self).segments,
            safe_playlist(text@) ==> match playlist_segments(text@) {
                Some(segs) => match joined_all(old(self).url@, segs) {
                    Some(f) => final(self).queue() == drained(appended(old(self).queue(), f))
                        && final(self).active == old(self).active && final(self).pending.is_none(),
                    None => !final(self).active && final(self).segments == old(self).segments,
                },
                None => !final(self).active && final(self).segments == old(self).segments,
            },
    {
        if !is_safe_playlist(text) {
            self.active = false;
            return;
        }
        match parse_media_playlist(text) {
            None => {
                self.active = false;
            }
            Some(segs) => {
                match join_all(self.url.as_str(), &segs) {
                    None => {
                        self.active = false;
                    }
                    Some(found) => {
                        self.absorb_segments(found);
                    }
                }
            }
        }
    }
}

} // verus!

verus! {

/// Appending adds at most one segment per found segment, after the queue
/// as it was.
pub proof fn lemma_appended_len(q: Seq<SegmentView>, f: Seq<(Seq<char>, u64)>)
    ensures
        q.len() <= appended(q, f).len() <= q.len() + f.len(),
        appended(q, f).subrange(0, q.len() as int) == q,
    decreases f.len(),
{
    if f.len() > 0 {
        lemma_appended_len(q, f.drop_last());
        let p = appended(q, f.drop_last());
        assert(p.subrange(0, q.len() as int) == q);
        if !has_url(p, f.last().0) {
            let e = SegmentView { url: f.last().0, played: false, duration_ms: f.last().1 };
            assert(p.push(e).subrange(0, q.len() as int) =~= p.subrange(0, q.len() as int));
        }
    } else {
        assert(q.subrange(0, q.len() as int) =~= q);
    }
}

/// Fetching a playlist again keeps every queued segment as it was, played
/// or not, unless the drain drops it: a segment already played is never
/// offered again while it stays queued.
pub proof fn lemma_refetch_keeps_queue(q: Seq<SegmentView>, f: Seq<(Seq<char>, u64)>)
    ensures
        ({
            let a = appended(q, f);
            let s: int = if a.len() >= QUEUE_DRAIN_AT { QUEUE_DRAIN_COUNT as int } else { 0 };
            forall|k: int| s <= k < q.len() ==> #[trigger] drained(a)[k - s] == q[k]
        }),
{
    lemma_appended_len(q, f);
    let a = appended(q, f);
    let s: int = if a.len() >= QUEUE_DRAIN_AT { QUEUE_DRAIN_COUNT as int } else { 0 };
    assert forall|k: int| s <= k < q.len() implies #[trigger] drained(a)[k - s] == q[k] by {
        assert(a.subrange(0, q.len() as int)[k] == q[k]);
    }
}

/// An append-and-drain cycle that appends at most forty-nine segments in all
/// leaves at most thirty-nine queued, and where it drains, at least twenty.
pub proof fn lemma_queue_bound(q: Seq<SegmentView>, f: Seq<(Seq<char>, u64)>)
    requires
        q.len() + f.len() <= 49,
    ensures
        drained(appended(q, f)).len() <= 39,
        appended(q, f).len() >= QUEUE_DRAIN_AT ==> drained(appended(q, f)).len() >= 20,
{
    lemma_appended_len(q, f);
}

/// Taking two playlists in turn, however their segments overlap, never
/// queues one address twice.
pub proof fn lemma_no_duplicate_segments(
    q: Seq<SegmentView>,
    f1: Seq<(Seq<char>, u64)>,
    f2: Seq<(Seq<char>, u64)>,
)
    requires
        urls_distinct(q),
    ensures
        urls_distinct(drained(appended(drained(appended(q, f1)), f2))),
{
    lemma_appended_distinct(q, f1);
    lemma_drained_distinct(appended(q, f1));
    lemma_appended_distinct(drained(appended(q, f1)), f2);
    lemma_drained_distinct(appended(drained(appended(q, f1)), f2));
}

/// Before anything has been served the computed wait is never positive: the
/// first chunk of a relay is not held back.
pub proof fn lemma_first_chunk_not_delayed(duration_ms: u64, elapsed_ms: u64)
    ensures
        pacing_wait(0, duration_ms, elapsed_ms) <= 0,
{
}

} // verus!

verus! {

/// The queue after the segments `f` were all found and the first `k` of
/// them served.
pub open spec fn served_prefix(f: Seq<(Seq<char>, u64)>, k: int) -> Seq<SegmentView> {
    Seq::new(f.len(), |j: int| SegmentView { url: f[j].0, played: j < k, duration_ms: f[j].1 })
}

/// No two found segments share an address.
pub open spec fn found_distinct(f: Seq<(Seq<char>, u64)>) -> bool {
    forall|a: int, b: int| 0 <= a < b < f.len() ==> (#[trigger] f[a]).0 != (#[trigger] f[b]).0
}

proof fn lemma_appended_fresh(f: Seq<(Seq<char>, u64)>, n: int)
    requires
        found_distinct(f),
        0 <= n <= f.len(),
    ensures
        appended(Seq::empty(), f.subrange(0, n)) == served_prefix(f.subrange(0, n), 0),
    decreases n,
{
    if n > 0 {
        let g = f.subrange(0, n);
        assert(g.drop_last() =~= f.subrange(0, n - 1));
        lemma_appended_fresh(f, n - 1);
        let p = served_prefix(f.subrange(0, n - 1), 0);
        assert(!has_url(p, g.last().0)) by {
            if has_url(p, g.last().0) {
                let k = choose|k: int| 0 <= k < p.len() && (#[trigger] p[k]).url == g.last().0;
                assert(f[k].0 == f[n - 1].0);
            }
        }
        assert(p.push(SegmentView { url: g.last().0, played: false, duration_ms: g.last().1 })
            =~= served_prefix(g, 0));
    } else {
        assert(f.subrange(0, 0).len() == 0);
        assert(served_prefix(f.subrange(0, 0), 0) =~= Seq::<SegmentView>::empty());
    }
}

proof fn lemma_appended_known(f: Seq<(Seq<char>, u64)>, q: Seq<SegmentView>, n: int)
    requires
        0 <= n <= f.len(),
        q.len() == f.len(),
        forall|j: int| 0 <= j < f.len() ==> (#[trigger] q[j]).url == f[j].0,
    ensures
        appended(q, f.subrange(0, n)) == q,
    decreases n,
{
    if n > 0 {
        let g = f.subrange(0, n);
        assert(g.drop_last() =~= f.subrange(0, n - 1));
        lemma_appended_known(f, q, n - 1);
        assert(q[n - 1].url == g.last().0);
        assert(has_url(q, g.last().0));
    }
}

/// A playlist of fewer than thirty distinct segments that never changes is
/// served one segment per pull, in playlist order, each once, and then the
/// relay finds nothing left to play: the first fetch queues every segment
/// unplayed, fetching it again adds nothing, the next segment to serve after
/// `k` served ones is segment `k`, and once all are served there is none.
pub proof fn lemma_unchanging_playlist_served_once(f: Seq<(Seq<char>, u64)>, k: int)
    requires
        found_distinct(f),
        f.len() < QUEUE_DRAIN_AT,
        0 <= k <= f.len(),
    ensures
        drained(appended(Seq::empty(), f)) == served_prefix(f, 0),
        drained(appended(served_prefix(f, k), f)) == served_prefix(f, k),
        k < f.len() ==> first_unplayed(served_prefix(f, k)) == Some(k),
        k == f.len() ==> first_unplayed(served_prefix(f, k)).is_none(),
        k < f.len() ==> served_prefix(f, k).update(k,
            SegmentView { played: true, ..served_prefix(f, k)[k] }) == served_prefix(f, k + 1),
{
    assert(f.subrange(0, f.len() as int) =~= f);
    lemma_appended_fresh(f, f.len() as int);
    lemma_appended_known(f, served_prefix(f, k), f.len() as int);
    let q = served_prefix(f, k);
    reveal(first_unplayed);
    if k < f.len() {
        assert(0 <= k < q.len() && !(#[trigger] q[k]).played
            && forall|m: int| 0 <= m < k ==> (#[trigger] q[m]).played);
        let c = choose|c: int| 0 <= c < q.len() && !(#[trigger] q[c]).played
            && forall|m: int| 0 <= m < c ==> (#[trigger] q[m]).played;
        assert(c == k) by {
            if c < k { assert(q[c].played); }
            if c > k { assert(q[k].played); }
        }
        assert(q.update(k, SegmentView { played: true, ..q[k] }) =~= served_prefix(f, k + 1));
    } else {
        assert(!exists|j: int| 0 <= j < q.len() && !(#[trigger] q[j]).played);
    }
}

} // verus!
