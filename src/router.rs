//! The multiplexer: merges the catalogs of several backends into one, applies
//! the remap policy, and routes each station id to the backend that owns it.
use vstd::prelude::*;
use crate::station::Station;
use crate::remap::{
    RemapError, RemapTable, auto_remapped, explicitly_remapped, offset_channel_spec,
    offset_error, auto_remap, explicit_remap, str_eq,
};

verus! {

/// How the channels of merged backends are renumbered.
pub enum RemapPolicy {
    /// Stations pass through unchanged.
    Passthrough,
    /// The backend at position `i` has its channels moved up by `100 * i`.
    AutoOffset,
    /// Channels are taken from a remap table.
    Table(RemapTable),
}

/// `r` is `s`, of the backend at position `ordinal`, after `policy`.
pub open spec fn remapped_by(policy: RemapPolicy, s: Station, r: Station, ordinal: nat) -> bool {
    match policy {
        RemapPolicy::Passthrough => r == s,
        RemapPolicy::AutoOffset => auto_remapped(s, r, ordinal),
        RemapPolicy::Table(t) => explicitly_remapped(s, r, t),
    }
}

/// `policy` cannot remap `s`: the automatic offset finds no number in its
/// channel, or one too large.
pub open spec fn remap_fails(policy: RemapPolicy, s: Station, ordinal: nat) -> bool {
    policy is AutoOffset && offset_channel_spec(s.channel@, ordinal).is_none()
}

/// Applies `policy` to `s`, a station of the backend at position `ordinal`.
pub fn remap_station(policy: &RemapPolicy, s: &Station, ordinal: u64) -> (r: Result<Station, RemapError>)
    ensures
        r matches Ok(st) ==> remapped_by(*policy, *s, st, ordinal as nat),
        r matches Err(e) ==> remap_fails(*policy, *s, ordinal as nat) && e == offset_error(s.channel@),
        r.is_ok() <==> !remap_fails(*policy, *s, ordinal as nat),
{
    match policy {
        RemapPolicy::Passthrough => Ok(s.copy()),
        RemapPolicy::AutoOffset => auto_remap(s, ordinal),
        RemapPolicy::Table(t) => Ok(explicit_remap(s, t)),
    }
}

/// The backend and the position within it of each station of the merged
/// catalog of the first `n` backends, in order.
pub open spec fn positions(b: Seq<Vec<Station>>, n: int) -> Seq<(int, int)>
    decreases n,
{
    if n <= 0 {
        Seq::empty()
    } else {
        positions(b, n - 1) + Seq::new(b[n - 1]@.len(), |j: int| (n - 1, j))
    }
}

/// Every position names a station that exists.
pub proof fn lemma_positions_valid(b: Seq<Vec<Station>>, n: int)
    requires
        0 <= n <= b.len(),
    ensures
        forall|k: int| 0 <= k < positions(b, n).len() ==> {
            let p = #[trigger] positions(b, n)[k];
            0 <= p.0 < n && 0 <= p.1 < b[p.0]@.len()
        },
    decreases n,
{
    if n > 0 {
        lemma_positions_valid(b, n - 1);
        let prev = positions(b, n - 1);
        let row = Seq::new(b[n - 1]@.len(), |j: int| (n - 1, j));
        assert(positions(b, n) == prev + row);
        assert forall|k: int| 0 <= k < positions(b, n).len() implies {
            let p = #[trigger] positions(b, n)[k];
            0 <= p.0 < n && 0 <= p.1 < b[p.0]@.len()
        } by {
            if k < prev.len() {
                assert(positions(b, n)[k] == prev[k]);
            } else {
                assert(positions(b, n)[k] == row[k - prev.len()]);
            }
        }
    }
}

/// Which backend owns a station id.
pub struct Route {
    pub id: String,
    pub backend: usize,
}

/// Why a station id could not be routed.
#[derive(Debug, PartialEq, Eq, Structural)]
pub enum RouteError {
    /// No station of the current catalog has this id.
    NotFound,
}

/// A merged catalog and its route table, rebuilt together on each refresh.
pub struct Catalog {
    pub stations: Vec<Station>,
    pub routes: Vec<Route>,
}

/// The position of the route of `id` among the first `n` routes: the last one
/// with that id.
pub open spec fn route_index(routes: Seq<Route>, id: Seq<char>, n: int) -> Option<int>
    decreases n,
{
    if n <= 0 {
        None
    } else if routes[n - 1].id@ == id {
        Some(n - 1)
    } else {
        route_index(routes, id, n - 1)
    }
}

impl Catalog {
    /// The catalog holds, for each station of `backends` in order, that
    /// station after `policy` and a route to its backend.
    pub open spec fn merged_from(&self, backends: Seq<Vec<Station>>, policy: RemapPolicy) -> bool {
        let pos = positions(backends, backends.len() as int);
        &&& self.stations@.len() == pos.len()
        &&& self.routes@.len() == pos.len()
        &&& forall|k: int| 0 <= k < pos.len() ==> {
            let p = #[trigger] pos[k];
            let s = backends[p.0]@[p.1];
            &&& self.routes@[k].backend == p.0
            &&& self.routes@[k].id@ == s.id@
            &&& remapped_by(policy, s, self.stations@[k], p.0 as nat)
        }
    }

    /// The backend that `id` is routed to, if any.
    pub open spec fn route_of(&self, id: Seq<char>) -> Option<nat> {
        match route_index(self.routes@, id, self.routes@.len() as int) {
            Some(k) => Some(self.routes@[k].backend as nat),
            None => None,
        }
    }

    /// An empty catalog, as before the first refresh.
    pub fn empty() -> (c: Catalog)
        ensures
            c.stations@.len() == 0,
            c.routes@.len() == 0,
    {
        Catalog { stations: Vec::new(), routes: Vec::new() }
    }

    /// The position in `backends` of the backend that owns the station `id`.
    pub fn resolve(&self, id: &str) -> (r: Result<usize, RouteError>)
        ensures
            r matches Ok(b) ==> self.route_of(id@) == Some(b as nat),
            r matches Err(e) ==> self.route_of(id@).is_none() && e == RouteError::NotFound,
    {
        let mut n: usize = self.routes.len();
        while n > 0
            invariant
                n <= self.routes@.len(),
                route_index(self.routes@, id@, self.routes@.len() as int)
                    == route_index(self.routes@, id@, n as int),
            decreases n,
        {
            if str_eq(self.routes[n - 1].id.as_str(), id) {
                return Ok(self.routes[n - 1].backend);
            }
            n = n - 1;
        }
        Err(RouteError::NotFound)
    }
}

/// Merges the catalogs of `backends`, in order, remapping each station by
/// `policy` and recording the backend of each station id. Fails where the
/// policy cannot remap a station.
pub fn refresh(backends: &Vec<Vec<Station>>, policy: &RemapPolicy) -> (r: Result<Catalog, RemapError>)
    ensures
        r matches Ok(c) ==> c.merged_from(backends@, *policy),
        r matches Err(e) ==> exists|k: int| 0 <= k < positions(backends@, backends@.len() as int).len()
            && {
                let p = #[trigger] positions(backends@, backends@.len() as int)[k];
                remap_fails(*policy, backends@[p.0]@[p.1], p.0 as nat)
                    && e == offset_error(backends@[p.0]@[p.1].channel@)
            },
        r.is_ok() <==> forall|k: int| 0 <= k < positions(backends@, backends@.len() as int).len()
            ==> {
                let p = #[trigger] positions(backends@, backends@.len() as int)[k];
                !remap_fails(*policy, backends@[p.0]@[p.1], p.0 as nat)
            },
{
    let ghost b = backends@;
    let mut stations: Vec<Station> = Vec::new();
    let mut routes: Vec<Route> = Vec::new();
    let mut i: usize = 0;
    proof {
        lemma_positions_valid(b, b.len() as int);
    }
    while i < backends.len()
        invariant
            b == backends@,
            i <= b.len(),
            stations@.len() == positions(b, i as int).len(),
            routes@.len() == positions(b, i as int).len(),
            forall|k: int| 0 <= k < positions(b, i as int).len() ==> {
                let p = #[trigger] positions(b, i as int)[k];
                &&& routes@[k].backend == p.0
                &&& routes@[k].id@ == b[p.0]@[p.1].id@
                &&& remapped_by(*policy, b[p.0]@[p.1], stations@[k], p.0 as nat)
            },
        decreases b.len() - i,
    {
        let list = &backends[i];
        let ghost base = positions(b, i as int).len();
        assert(positions(b, i + 1) == positions(b, i as int) + Seq::new(b[i as int]@.len(), |j: int| (i as int, j)));
        let mut j: usize = 0;
        while j < list.len()
            invariant
                b == backends@,
                i < b.len(),
                *list == b[i as int],
                base == positions(b, i as int).len(),
                positions(b, i + 1) == positions(b, i as int) + Seq::new(b[i as int]@.len(), |j: int| (i as int, j)),
                j <= list@.len(),
                stations@.len() == base + j,
                routes@.len() == base + j,
                forall|k: int| 0 <= k < base + j ==> {
                    let p = #[trigger] positions(b, i + 1)[k];
                    &&& routes@[k].backend == p.0
                    &&& routes@[k].id@ == b[p.0]@[p.1].id@
                    &&& remapped_by(*policy, b[p.0]@[p.1], stations@[k], p.0 as nat)
                },
            decreases list@.len() - j,
        {
            let s = &list[j];
            assert(positions(b, i + 1)[base + j] == (i as int, j as int));
            match remap_station(policy, s, i as u64) {
                Ok(st) => {
                    stations.push(st);
                    routes.push(Route { id: s.id.clone(), backend: i });
                }
                Err(e) => {
                    proof {
                        let k = base + j;
                        lemma_positions_valid(b, b.len() as int);
                        lemma_positions_prefix(b, i + 1, b.len() as int);
                        assert(positions(b, b.len() as int)[k] == positions(b, i + 1)[k]);
                    }
                    return Err(e);
                }
            }
            j = j + 1;
        }
        i = i + 1;
    }
    Ok(Catalog { stations, routes })
}

/// The positions of fewer backends are a prefix of those of more.
pub proof fn lemma_positions_prefix(b: Seq<Vec<Station>>, m: int, n: int)
    requires
        0 <= m <= n <= b.len(),
    ensures
        positions(b, m).len() <= positions(b, n).len(),
        forall|k: int| 0 <= k < positions(b, m).len() ==> #[trigger] positions(b, n)[k] == positions(b, m)[k],
    decreases n - m,
{
    if m < n {
        lemma_positions_prefix(b, m, n - 1);
    }
}

} // verus!

verus! {

proof fn lemma_route_index_found(routes: Seq<Route>, id: Seq<char>, n: int, k: int)
    requires
        0 <= k < n <= routes.len(),
        routes[k].id@ == id,
        forall|a: int| k < a < n ==> (#[trigger] routes[a]).id@ != id,
    ensures
        route_index(routes, id, n) == Some(k),
    decreases n,
{
    if n - 1 != k {
        lemma_route_index_found(routes, id, n - 1, k);
    }
}

proof fn lemma_route_index_absent(routes: Seq<Route>, id: Seq<char>, n: int)
    requires
        0 <= n <= routes.len(),
        forall|a: int| 0 <= a < n ==> (#[trigger] routes[a]).id@ != id,
    ensures
        route_index(routes, id, n).is_none(),
    decreases n,
{
    if n > 0 {
        lemma_route_index_absent(routes, id, n - 1);
    }
}

/// No two stations of `backends`, taken together, share an id.
pub open spec fn ids_unique(backends: Seq<Vec<Station>>) -> bool {
    let pos = positions(backends, backends.len() as int);
    forall|a: int, c: int| 0 <= a < c < pos.len() ==>
        (#[trigger] backends[pos[a].0]@[pos[a].1]).id@ != (#[trigger] backends[pos[c].0]@[pos[c].1]).id@
}

/// Remapping never changes a station's id.
pub proof fn lemma_remap_keeps_id(policy: RemapPolicy, s: Station, r: Station, ordinal: nat)
    requires
        remapped_by(policy, s, r, ordinal),
    ensures
        r.id == s.id,
{
}

/// In a freshly merged catalog whose ids are unique, the id of each station
/// is routed to the backend that listed it.
pub proof fn lemma_routes_to_owner(c: Catalog, backends: Seq<Vec<Station>>, policy: RemapPolicy, k: int)
    requires
        c.merged_from(backends, policy),
        ids_unique(backends),
        0 <= k < c.stations@.len(),
    ensures
        c.route_of(c.stations@[k].id@) == Some(positions(backends, backends.len() as int)[k].0 as nat),
{
    let pos = positions(backends, backends.len() as int);
    let p = pos[k];
    let id = c.stations@[k].id@;
    lemma_remap_keeps_id(policy, backends[p.0]@[p.1], c.stations@[k], p.0 as nat);
    assert forall|a: int| k < a < c.routes@.len() implies (#[trigger] c.routes@[a]).id@ != id by {
        let q = pos[a];
        assert(backends[q.0]@[q.1].id@ != backends[p.0]@[p.1].id@);
    }
    lemma_route_index_found(c.routes@, id, c.routes@.len() as int, k);
}

/// In a freshly merged catalog, an id that no station has is routed nowhere.
pub proof fn lemma_unknown_id_not_routed(c: Catalog, backends: Seq<Vec<Station>>, policy: RemapPolicy, id: Seq<char>)
    requires
        c.merged_from(backends, policy),
        forall|k: int| 0 <= k < c.stations@.len() ==> (#[trigger] c.stations@[k]).id@ != id,
    ensures
        c.route_of(id).is_none(),
{
    let pos = positions(backends, backends.len() as int);
    assert forall|a: int| 0 <= a < c.routes@.len() implies (#[trigger] c.routes@[a]).id@ != id by {
        let q = pos[a];
        lemma_remap_keeps_id(policy, backends[q.0]@[q.1], c.stations@[a], q.0 as nat);
    }
    lemma_route_index_absent(c.routes@, id, c.routes@.len() as int);
}

} // verus!

verus! {

/// Several backends presented as one: the remap policy and the last merged
/// catalog with its route table.
pub struct Multiplexer {
    pub policy: RemapPolicy,
    pub catalog: Catalog,
}

impl Multiplexer {
    /// A multiplexer with an empty catalog. The automatic offset, when
    /// enabled, takes precedence over a remap table.
    pub fn new(remap: bool, table: Option<RemapTable>) -> (m: Multiplexer)
        ensures
            remap ==> m.policy is AutoOffset,
            !remap && table.is_none() ==> m.policy is Passthrough,
            !remap && table.is_some() ==> m.policy == RemapPolicy::Table(table.unwrap()),
            m.catalog.stations@.len() == 0,
            m.catalog.routes@.len() == 0,
    {
        let policy = if remap {
            RemapPolicy::AutoOffset
        } else {
            match table {
                Some(t) => RemapPolicy::Table(t),
                None => RemapPolicy::Passthrough,
            }
        };
        Multiplexer { policy, catalog: Catalog::empty() }
    }

    /// Rebuilds the catalog and route table from the current station lists
    /// of the backends, in backend order. On failure the previous catalog
    /// stays as it was.
    pub fn refresh(&mut self, backends: &Vec<Vec<Station>>) -> (r: Result<(), RemapError>)
        ensures
            final(self).policy == old(self).policy,
            r is Ok ==> final(self).catalog.merged_from(backends@, old(self).policy),
            r is Err ==> final(self).catalog == old(self).catalog,
            r.is_ok() <==> forall|k: int| 0 <= k < positions(backends@, backends@.len() as int).len()
                ==> {
                    let p = #[trigger] positions(backends@, backends@.len() as int)[k];
                    !remap_fails(old(self).policy, backends@[p.0]@[p.1], p.0 as nat)
                },
    {
        match refresh(backends, &self.policy) {
            Ok(c) => {
                self.catalog = c;
                Ok(())
            }
            Err(e) => Err(e),
        }
    }

    /// The stations of the last merged catalog.
    pub fn stations(&self) -> (s: &Vec<Station>)
        ensures
            *s == self.catalog.stations,
    {
        &self.catalog.stations
    }

    /// The position of the backend that serves the station `id`.
    pub fn resolve_stream(&self, id: &str) -> (r: Result<usize, RouteError>)
        ensures
            r matches Ok(b) ==> self.catalog.route_of(id@) == Some(b as nat),
            r matches Err(e) ==> self.catalog.route_of(id@).is_none() && e == RouteError::NotFound,
    {
        self.catalog.resolve(id)
    }
}

} // verus!
