//! The routing table: destination to known routes, with per-neighbour
//! link quality and least-recently-used eviction.

use vstd::prelude::*;

use crate::route::spec_age_seconds;
use crate::route::spec_link_quality;
use crate::route::LinkQuality;
use crate::route::Route;
use crate::route::RoutingStats;
use crate::device::Uid;

verus! {

/// Capacity of the routing table (distinct destinations).
pub const MAX_ROUTES: usize = 32;

/// Alternate routes kept per destination.
pub const MAX_ROUTES_PER_DEST: usize = 2;

/// Seconds before a route is considered expired.
pub const ROUTE_EXPIRY_SECONDS: u64 = 300;

/// Seconds after which a route should be refreshed.
pub const ROUTE_REFRESH_SECONDS: u64 = 180;

/// Quality advantage that decides route preference on its own.
pub const QUALITY_SIGNIFICANT_DIFF: u8 = 20;

/// Quality below which a route is deactivated after a failed delivery.
pub const LOW_QUALITY_THRESHOLD: u8 = 50;

/// The value stored under a key in an association list, if the key is
/// present.
pub open spec fn spec_get_by_key<T>(s: Seq<(u8, T)>, key: u8) -> Option<T>
    decreases s.len(),
{
    if s.len() == 0 {
        None
    } else if s[0].0 == key {
        Some(s[0].1)
    } else {
        spec_get_by_key(s.drop_first(), key)
    }
}

/// A first match at index `i` determines the looked-up value.
proof fn lemma_get_by_key_at<T>(s: Seq<(u8, T)>, key: u8, i: int)
    requires
        0 <= i < s.len(),
        s[i].0 == key,
        forall|j: int| 0 <= j < i ==> (#[trigger] s[j]).0 != key,
    ensures
        spec_get_by_key(s, key) == Some(s[i].1),
    decreases i,
{
    if i > 0 {
        lemma_get_by_key_at(s.drop_first(), key, i - 1);
    }
}

/// A key that matches no pair is absent.
proof fn lemma_get_by_key_absent<T>(s: Seq<(u8, T)>, key: u8)
    requires
        forall|j: int| 0 <= j < s.len() ==> (#[trigger] s[j]).0 != key,
    ensures
        spec_get_by_key(s, key) is None,
    decreases s.len(),
{
    if s.len() > 0 {
        lemma_get_by_key_absent(s.drop_first(), key);
    }
}

/// Finds the index of the first pair holding `key`.
fn find_key_index<T>(s: &Vec<(u8, T)>, key: u8) -> (r: Option<usize>)
    ensures
        (r matches Some(i) ==> i < s@.len() && s@[i as int].0 == key && (forall|j: int|
            0 <= j < i ==> (#[trigger] s@[j]).0 != key) && spec_get_by_key(s@, key) == Some(
            s@[i as int].1,
        )),
        (r is None ==> (forall|j: int| 0 <= j < s@.len() ==> (#[trigger] s@[j]).0 != key)
            && spec_get_by_key(s@, key) is None),
{
    let mut i: usize = 0;
    while i < s.len()
        invariant
            i <= s@.len(),
            forall|j: int| 0 <= j < i ==> (#[trigger] s@[j]).0 != key,
        decreases s@.len() - i,
    {
        if s[i].0 == key {
            proof {
                lemma_get_by_key_at(s@, key, i as int);
            }
            return Some(i);
        }
        i = i + 1;
    }
    proof {
        lemma_get_by_key_absent(s@, key);
    }
    None
}

/// Route preference: an active route beats an inactive one; then a
/// significantly higher quality decides; then a significantly lower hop
/// count; then the more recent update.
pub open spec fn spec_is_better_route(route1: Route, route2: Route) -> bool {
    if route1.is_active && !route2.is_active {
        true
    } else if !route1.is_active && route2.is_active {
        false
    } else if route1.quality > route2.quality + QUALITY_SIGNIFICANT_DIFF {
        true
    } else if route2.quality > route1.quality + QUALITY_SIGNIFICANT_DIFF {
        false
    } else if route1.hop_count + 1 < route2.hop_count {
        true
    } else if route2.hop_count + 1 < route1.hop_count {
        false
    } else {
        route1.last_updated > route2.last_updated
    }
}

/// Compares two routes by the preference order.
fn is_better_route(route1: &Route, route2: &Route) -> (r: bool)
    ensures
        r == spec_is_better_route(*route1, *route2),
{
    if route1.is_active && !route2.is_active {
        true
    } else if !route1.is_active && route2.is_active {
        false
    } else if route1.quality as u16 > route2.quality as u16 + QUALITY_SIGNIFICANT_DIFF as u16 {
        true
    } else if route2.quality as u16 > route1.quality as u16 + QUALITY_SIGNIFICANT_DIFF as u16 {
        false
    } else if route1.hop_count as u16 + 1 < route2.hop_count as u16 {
        true
    } else if route2.hop_count as u16 + 1 < route1.hop_count as u16 {
        false
    } else {
        route1.last_updated > route2.last_updated
    }
}

/// The index the preference fold settles on: the scan starts at the first
/// route and moves only when a later route is strictly better than the
/// current best.
pub open spec fn spec_best_idx(s: Seq<Route>) -> int
    decreases s.len(),
{
    if s.len() <= 1 {
        0
    } else {
        let b = spec_best_idx(s.drop_last());
        if spec_is_better_route(s.last(), s[b]) {
            s.len() - 1
        } else {
            b
        }
    }
}

/// The fold index is always in bounds.
proof fn lemma_best_idx_in_bounds(s: Seq<Route>)
    requires
        s.len() > 0,
    ensures
        0 <= spec_best_idx(s) < s.len(),
    decreases s.len(),
{
    if s.len() > 1 {
        lemma_best_idx_in_bounds(s.drop_last());
    }
}

/// If any route is active, the fold settles on an active route.
proof fn lemma_best_idx_active(s: Seq<Route>)
    requires
        s.len() > 0,
        exists|i: int| 0 <= i < s.len() && (#[trigger] s[i]).is_active,
    ensures
        s[spec_best_idx(s)].is_active,
    decreases s.len(),
{
    lemma_best_idx_in_bounds(s);
    if s.len() > 1 {
        let b = spec_best_idx(s.drop_last());
        lemma_best_idx_in_bounds(s.drop_last());
        assert(s.drop_last()[b] == s[b]);
        if s.last().is_active {
            if !spec_is_better_route(s.last(), s[b]) {
                assert(s[b].is_active);
            }
        } else {
            let w = choose|i: int| 0 <= i < s.len() && (#[trigger] s[i]).is_active;
            assert(0 <= w < s.len() - 1);
            assert(s.drop_last()[w].is_active);
            lemma_best_idx_active(s.drop_last());
            assert(s[b].is_active);
            assert(!spec_is_better_route(s.last(), s[b]));
        }
    }
}

/// The index of the first lowest-quality route.
pub open spec fn spec_worst_idx(s: Seq<Route>) -> int
    decreases s.len(),
{
    if s.len() <= 1 {
        0
    } else {
        let w = spec_worst_idx(s.drop_last());
        if s.last().quality < s[w].quality {
            s.len() - 1
        } else {
            w
        }
    }
}

/// The worst index is in bounds and its quality is minimal.
proof fn lemma_worst_idx(s: Seq<Route>)
    requires
        s.len() > 0,
    ensures
        0 <= spec_worst_idx(s) < s.len(),
        forall|j: int|
            0 <= j < s.len() ==> s[spec_worst_idx(s)].quality <= (#[trigger] s[j]).quality,
    decreases s.len(),
{
    if s.len() > 1 {
        let w = spec_worst_idx(s.drop_last());
        lemma_worst_idx(s.drop_last());
        assert forall|j: int|
            0 <= j < s.len() implies s[spec_worst_idx(s)].quality <= (#[trigger] s[j]).quality by {
            if j < s.len() - 1 {
                assert(s.drop_last()[j] == s[j]);
                assert(s.drop_last()[w].quality <= s.drop_last()[j].quality);
            }
            assert(s.drop_last()[w] == s[w]);
        }
    }
}

/// The index of the first route through `hop`, if any.
pub open spec fn spec_hop_idx(s: Seq<Route>, hop: u8) -> Option<int>
    decreases s.len(),
{
    if s.len() == 0 {
        None
    } else if s[0].next_hop@ == hop {
        Some(0int)
    } else {
        match spec_hop_idx(s.drop_first(), hop) {
            Some(i) => Some(i + 1),
            None => None,
        }
    }
}

/// A first match at index `i` determines the found hop index.
proof fn lemma_hop_idx_at(s: Seq<Route>, hop: u8, i: int)
    requires
        0 <= i < s.len(),
        s[i].next_hop@ == hop,
        forall|j: int| 0 <= j < i ==> (#[trigger] s[j]).next_hop@ != hop,
    ensures
        spec_hop_idx(s, hop) == Some(i),
    decreases i,
{
    if i > 0 {
        lemma_hop_idx_at(s.drop_first(), hop, i - 1);
    }
}

/// A hop that matches no route is absent.
proof fn lemma_hop_idx_absent(s: Seq<Route>, hop: u8)
    requires
        forall|j: int| 0 <= j < s.len() ==> (#[trigger] s[j]).next_hop@ != hop,
    ensures
        spec_hop_idx(s, hop) is None,
    decreases s.len(),
{
    if s.len() > 0 {
        lemma_hop_idx_absent(s.drop_first(), hop);
    }
}

/// A usable route: active and not expired.
pub open spec fn spec_route_keep(r: Route, ttl_seconds: u64, now_ms: u64) -> bool {
    r.is_active && !r.spec_is_expired(ttl_seconds, now_ms)
}

/// The index of the first usable route, if any.
pub open spec fn spec_valid_idx(s: Seq<Route>, ttl_seconds: u64, now_ms: u64) -> Option<int>
    decreases s.len(),
{
    if s.len() == 0 {
        None
    } else if spec_route_keep(s[0], ttl_seconds, now_ms) {
        Some(0int)
    } else {
        match spec_valid_idx(s.drop_first(), ttl_seconds, now_ms) {
            Some(i) => Some(i + 1),
            None => None,
        }
    }
}

/// A first usable route at index `i` determines the found index.
proof fn lemma_valid_idx_at(s: Seq<Route>, ttl_seconds: u64, now_ms: u64, i: int)
    requires
        0 <= i < s.len(),
        spec_route_keep(s[i], ttl_seconds, now_ms),
        forall|j: int| 0 <= j < i ==> !spec_route_keep(#[trigger] s[j], ttl_seconds, now_ms),
    ensures
        spec_valid_idx(s, ttl_seconds, now_ms) == Some(i),
    decreases i,
{
    if i > 0 {
        lemma_valid_idx_at(s.drop_first(), ttl_seconds, now_ms, i - 1);
    }
}

/// Without a usable route there is no valid index.
proof fn lemma_valid_idx_absent(s: Seq<Route>, ttl_seconds: u64, now_ms: u64)
    requires
        forall|j: int| 0 <= j < s.len() ==> !spec_route_keep(#[trigger] s[j], ttl_seconds, now_ms),
    ensures
        spec_valid_idx(s, ttl_seconds, now_ms) is None,
    decreases s.len(),
{
    if s.len() > 0 {
        lemma_valid_idx_absent(s.drop_first(), ttl_seconds, now_ms);
    }
}

/// Finds the index the preference fold settles on, if the list is not
/// empty.
fn best_route_index(routes: &Vec<Route>) -> (r: Option<usize>)
    ensures
        (routes@.len() == 0 ==> r is None),
        (routes@.len() > 0 ==> r == Some(spec_best_idx(routes@) as usize)),
{
    if routes.len() == 0 {
        return None;
    }
    let mut best_idx: usize = 0;
    let mut i: usize = 1;
    while i < routes.len()
        invariant
            routes@.len() > 0,
            1 <= i <= routes@.len(),
            best_idx == spec_best_idx(routes@.take(i as int)),
            best_idx < i,
        decreases routes@.len() - i,
    {
        proof {
            routes@.lemma_take_succ_push(i as int);
            assert(routes@.take(i as int + 1).drop_last() =~= routes@.take(i as int));
        }
        if is_better_route(&routes[i], &routes[best_idx]) {
            best_idx = i;
        }
        i = i + 1;
    }
    proof {
        assert(routes@.take(routes@.len() as int) =~= routes@);
    }
    Some(best_idx)
}

/// The routes kept for one destination, with the preferred one and the
/// last time the destination was routed to.
pub(crate) struct RouteEntry {
    routes: Vec<Route>,
    primary_idx: usize,
    last_used: u64,
}

/// The mathematical value of a destination's entry.
#[verifier::ext_equal]
pub struct RouteEntryModel {
    pub routes: Seq<Route>,
    pub primary_idx: int,
    pub last_used: u64,
}

impl RouteEntryModel {
    /// A well-formed entry holds one to `MAX_ROUTES_PER_DEST` routes and
    /// its primary index refers to one of them.
    pub open spec fn wf(self) -> bool {
        &&& 1 <= self.routes.len() <= MAX_ROUTES_PER_DEST
        &&& 0 <= self.primary_idx < self.routes.len()
    }
}

impl View for RouteEntry {
    type V = RouteEntryModel;

    closed spec fn view(&self) -> RouteEntryModel {
        RouteEntryModel {
            routes: self.routes@,
            primary_idx: self.primary_idx as int,
            last_used: self.last_used,
        }
    }
}

impl RouteEntry {
    /// A fresh entry holding one route.
    fn new(route: Route, now_ms: u64) -> (r: RouteEntry)
        ensures
            r@ == (RouteEntryModel {
                routes: seq![route],
                primary_idx: 0int,
                last_used: now_ms,
            }),
            r@.wf(),
    {
        let mut routes: Vec<Route> = Vec::new();
        routes.push(route);
        let r = RouteEntry { routes, primary_idx: 0, last_used: now_ms };
        proof {
            assert(r@.routes =~= seq![route]);
        }
        r
    }

    /// The currently preferred route.
    fn primary_route(&self) -> (r: Option<Route>)
        ensures
            (self@.wf() ==> r == Some(self@.routes[self@.primary_idx])),
            (self@.primary_idx >= self@.routes.len() ==> r is None),
    {
        if self.primary_idx < self.routes.len() {
            Some(self.routes[self.primary_idx])
        } else {
            None
        }
    }

    /// The index of the first route through `next_hop`, if any.
    fn find_route_idx_by_next_hop(&self, next_hop: Uid) -> (r: Option<usize>)
        ensures
            (match spec_hop_idx(self@.routes, next_hop@) {
                Some(i) => r == Some(i as usize) && 0 <= i < self@.routes.len()
                    && self@.routes[i].next_hop@ == next_hop@,
                None => r is None && (forall|j: int|
                    0 <= j < self@.routes.len() ==> (#[trigger] self@.routes[j]).next_hop@
                        != next_hop@),
            }),
    {
        let mut i: usize = 0;
        let hop = next_hop.get();
        while i < self.routes.len()
            invariant
                i <= self@.routes.len(),
                hop == next_hop@,
                forall|j: int| 0 <= j < i ==> (#[trigger] self@.routes[j]).next_hop@ != next_hop@,
            decreases self@.routes.len() - i,
        {
            if self.routes[i].next_hop.get() == hop {
                proof {
                    lemma_hop_idx_at(self@.routes, next_hop@, i as int);
                }
                return Some(i);
            }
            i = i + 1;
        }
        proof {
            lemma_hop_idx_absent(self@.routes, next_hop@);
        }
        None
    }

    /// The index of the first active, unexpired route, if any.
    fn find_valid_route_idx(&self, ttl_seconds: u64, now_ms: u64) -> (r: Option<usize>)
        ensures
            (match spec_valid_idx(self@.routes, ttl_seconds, now_ms) {
                Some(i) => r == Some(i as usize) && 0 <= i < self@.routes.len(),
                None => r is None,
            }),
    {
        let mut i: usize = 0;
        while i < self.routes.len()
            invariant
                i <= self@.routes.len(),
                forall|j: int|
                    0 <= j < i ==> !spec_route_keep(
                        #[trigger] self@.routes[j],
                        ttl_seconds,
                        now_ms,
                    ),
            decreases self@.routes.len() - i,
        {
            let route = self.routes[i];
            if route.is_active && !route.is_expired(ttl_seconds, now_ms) {
                proof {
                    lemma_valid_idx_at(self@.routes, ttl_seconds, now_ms, i as int);
                }
                return Some(i);
            }
            i = i + 1;
        }
        proof {
            lemma_valid_idx_absent(self@.routes, ttl_seconds, now_ms);
        }
        None
    }

    /// The index of the first lowest-quality route, if any.
    fn find_worst_route_idx(&self) -> (r: Option<usize>)
        ensures
            (self@.routes.len() == 0 ==> r is None),
            (self@.routes.len() > 0 ==> r == Some(spec_worst_idx(self@.routes) as usize)),
    {
        if self.routes.len() == 0 {
            return None;
        }
        let mut worst_idx: usize = 0;
        let mut i: usize = 1;
        while i < self.routes.len()
            invariant
                self@.routes.len() > 0,
                1 <= i <= self@.routes.len(),
                worst_idx == spec_worst_idx(self@.routes.take(i as int)),
                worst_idx < i,
            decreases self@.routes.len() - i,
        {
            proof {
                self@.routes.lemma_take_succ_push(i as int);
                assert(self@.routes.take(i as int + 1).drop_last() =~= self@.routes.take(i as int));
            }
            if self.routes[i].quality < self.routes[worst_idx].quality {
                worst_idx = i;
            }
            i = i + 1;
        }
        proof {
            assert(self@.routes.take(self@.routes.len() as int) =~= self@.routes);
        }
        Some(worst_idx)
    }

    /// The index the preference fold settles on, if any route is kept.
    fn find_best_route_idx(&self) -> (r: Option<usize>)
        ensures
            (self@.routes.len() == 0 ==> r is None),
            (self@.routes.len() > 0 ==> r == Some(spec_best_idx(self@.routes) as usize)),
    {
        best_route_index(&self.routes)
    }

    /// Sets the primary index to the preference fold's choice.
    fn update_primary_idx(&mut self)
        ensures
            final(self)@.routes == old(self)@.routes,
            final(self)@.last_used == old(self)@.last_used,
            (old(self)@.routes.len() > 0 ==> final(self)@.primary_idx == spec_best_idx(
                old(self)@.routes,
            ) && 0 <= final(self)@.primary_idx < old(self)@.routes.len()),
            (old(self)@.routes.len() == 0 ==> final(self)@.primary_idx == old(
                self,
            )@.primary_idx),
    {
        if self.routes.len() > 0 {
            proof {
                lemma_best_idx_in_bounds(self@.routes);
            }
        }
        if let Some(best_idx) = self.find_best_route_idx() {
            self.primary_idx = best_idx;
        }
    }

    /// Rewrites the quality of every route through `node`.
    fn requalify(&mut self, node: u8, quality: u8)
        ensures
            final(self)@ == spec_entry_requalified(old(self)@, node, quality),
    {
        let ghost old_routes = self@.routes;
        let mut i: usize = 0;
        while i < self.routes.len()
            invariant
                i <= self@.routes.len(),
                self@.routes.len() == old_routes.len(),
                self@.primary_idx == old(self)@.primary_idx,
                self@.last_used == old(self)@.last_used,
                forall|j: int|
                    0 <= j < i ==> (#[trigger] self@.routes[j]) == spec_route_requalified(
                        old_routes[j],
                        node,
                        quality,
                    ),
                forall|j: int| i <= j < old_routes.len() ==> self@.routes[j] == old_routes[j],
            decreases self@.routes.len() - i,
        {
            if self.routes[i].next_hop.get() == node {
                let mut r = self.routes[i];
                r.quality = quality;
                self.routes.set(i, r);
            }
            i = i + 1;
        }
        proof {
            assert(self@.routes =~= spec_entry_requalified(old(self)@, node, quality).routes);
        }
    }

    /// Applies a delivery outcome to every route through `node`: new
    /// quality, fresh timestamp, and (after a failure that drags the
    /// quality low) deactivation.
    fn apply_delivery(&mut self, node: u8, quality: u8, now_ms: u64, deactivate: bool)
        ensures
            final(self)@ == spec_entry_delivered(old(self)@, node, quality, now_ms, deactivate),
    {
        let ghost old_routes = self@.routes;
        let mut i: usize = 0;
        while i < self.routes.len()
            invariant
                i <= self@.routes.len(),
                self@.routes.len() == old_routes.len(),
                self@.primary_idx == old(self)@.primary_idx,
                self@.last_used == old(self)@.last_used,
                forall|j: int|
                    0 <= j < i ==> (#[trigger] self@.routes[j]) == spec_route_delivered(
                        old_routes[j],
                        node,
                        quality,
                        now_ms,
                        deactivate,
                    ),
                forall|j: int| i <= j < old_routes.len() ==> self@.routes[j] == old_routes[j],
            decreases self@.routes.len() - i,
        {
            if self.routes[i].next_hop.get() == node {
                let mut r = self.routes[i];
                r.quality = quality;
                r.last_updated = now_ms;
                if deactivate && quality < LOW_QUALITY_THRESHOLD {
                    r.is_active = false;
                }
                self.routes.set(i, r);
            }
            i = i + 1;
        }
        proof {
            assert(self@.routes =~= spec_entry_delivered(
                old(self)@,
                node,
                quality,
                now_ms,
                deactivate,
            ).routes);
        }
    }
}

/// A route with its quality rewritten, if it runs through `node`.
pub open spec fn spec_route_requalified(r: Route, node: u8, quality: u8) -> Route {
    if r.next_hop@ == node {
        Route { quality, ..r }
    } else {
        r
    }
}

/// An entry with the quality of every route through `node` rewritten.
pub open spec fn spec_entry_requalified(e: RouteEntryModel, node: u8, quality: u8) -> RouteEntryModel {
    RouteEntryModel {
        routes: Seq::new(e.routes.len(), |i: int| spec_route_requalified(e.routes[i], node, quality)),
        ..e
    }
}

/// A route after a delivery outcome through `node`: new quality and
/// timestamp; a failure that drags the quality under the threshold
/// deactivates it.
pub open spec fn spec_route_delivered(
    r: Route,
    node: u8,
    quality: u8,
    now_ms: u64,
    deactivate: bool,
) -> Route {
    if r.next_hop@ == node {
        Route {
            quality,
            last_updated: now_ms,
            is_active: r.is_active && !(deactivate && quality < LOW_QUALITY_THRESHOLD),
            ..r
        }
    } else {
        r
    }
}

/// An entry after a delivery outcome through `node`.
pub open spec fn spec_entry_delivered(
    e: RouteEntryModel,
    node: u8,
    quality: u8,
    now_ms: u64,
    deactivate: bool,
) -> RouteEntryModel {
    RouteEntryModel {
        routes: Seq::new(
            e.routes.len(),
            |i: int| spec_route_delivered(e.routes[i], node, quality, now_ms, deactivate),
        ),
        ..e
    }
}

/// A link record after folding in a new signal sample: three parts
/// history, one part sample.
pub open spec fn spec_link_smoothed(l: LinkQuality, rssi: i16, snr: i16, now_ms: u64) -> LinkQuality {
    LinkQuality {
        rssi: crate::route::div4_toward_zero(3 * l.rssi + rssi) as i16,
        snr: crate::route::div4_toward_zero(3 * l.snr + snr) as i16,
        last_used: now_ms,
        ..l
    }
}

/// The index of the first least-recently-used entry.
pub open spec fn spec_lru_idx(s: Seq<(u8, RouteEntryModel)>) -> int
    decreases s.len(),
{
    if s.len() <= 1 {
        0
    } else {
        let b = spec_lru_idx(s.drop_last());
        if s.last().1.last_used < s[b].1.last_used {
            s.len() - 1
        } else {
            b
        }
    }
}

/// The least-recently-used index is in bounds and no entry was used
/// less recently: the destination it names is the one a full table
/// evicts.
pub proof fn lemma_lru_is_oldest(s: Seq<(u8, RouteEntryModel)>)
    requires
        s.len() > 0,
    ensures
        0 <= spec_lru_idx(s) < s.len(),
        forall|j: int|
            0 <= j < s.len() ==> s[spec_lru_idx(s)].1.last_used <= (#[trigger] s[j]).1.last_used,
    decreases s.len(),
{
    if s.len() > 1 {
        let w = spec_lru_idx(s.drop_last());
        lemma_lru_is_oldest(s.drop_last());
        assert forall|j: int|
            0 <= j < s.len() implies s[spec_lru_idx(s)].1.last_used <= (
        #[trigger] s[j]).1.last_used by {
            if j < s.len() - 1 {
                assert(s.drop_last()[j] == s[j]);
                assert(s.drop_last()[w].1.last_used <= s.drop_last()[j].1.last_used);
            }
            assert(s.drop_last()[w] == s[w]);
        }
    }
}

/// Finds the index of the first least-recently-used entry.
fn lru_index(routes: &Vec<(u8, RouteEntry)>) -> (r: Option<usize>)
    ensures
        (routes@.len() == 0 ==> r is None),
        (routes@.len() > 0 ==> r == Some(
            spec_lru_idx(routes@.map_values(|e: (u8, RouteEntry)| (e.0, e.1@))) as usize,
        )),
{
    let ghost view = routes@.map_values(|e: (u8, RouteEntry)| (e.0, e.1@));
    if routes.len() == 0 {
        return None;
    }
    let mut oldest: usize = 0;
    let mut i: usize = 1;
    while i < routes.len()
        invariant
            view == routes@.map_values(|e: (u8, RouteEntry)| (e.0, e.1@)),
            view.len() == routes@.len(),
            routes@.len() > 0,
            1 <= i <= routes@.len(),
            oldest == spec_lru_idx(view.take(i as int)),
            oldest < i,
        decreases routes@.len() - i,
    {
        proof {
            view.lemma_take_succ_push(i as int);
            assert(view.take(i as int + 1).drop_last() =~= view.take(i as int));
        }
        if routes[i].1.last_used < routes[oldest].1.last_used {
            oldest = i;
        }
        i = i + 1;
    }
    proof {
        assert(view.take(view.len() as int) =~= view);
    }
    Some(oldest)
}

/// The routing table: at most `MAX_ROUTES` destinations, each with its
/// routes, plus per-neighbour link quality, in insertion order.
pub struct RoutingTable {
    routes: Vec<(u8, RouteEntry)>,
    link_qualities: Vec<(u8, LinkQuality)>,
    route_ttl: u64,
}

/// The mathematical value of the routing table.
#[verifier::ext_equal]
pub struct RoutingTableModel {
    pub routes: Seq<(u8, RouteEntryModel)>,
    pub link_qualities: Seq<(u8, LinkQuality)>,
    pub route_ttl: u64,
}

impl RoutingTableModel {
    /// A well-formed table: bounded, uniquely keyed, every entry well
    /// formed.
    pub open spec fn wf(self) -> bool {
        &&& self.routes.len() <= MAX_ROUTES
        &&& forall|i: int, j: int|
            0 <= i < j < self.routes.len() ==> (#[trigger] self.routes[i]).0 != (
            #[trigger] self.routes[j]).0
        &&& forall|i: int| 0 <= i < self.routes.len() ==> (#[trigger] self.routes[i]).1.wf()
        &&& self.link_qualities.len() <= MAX_ROUTES
        &&& forall|i: int, j: int|
            0 <= i < j < self.link_qualities.len() ==> (#[trigger] self.link_qualities[i]).0 != (
            #[trigger] self.link_qualities[j]).0
    }
}

impl View for RoutingTable {
    type V = RoutingTableModel;

    closed spec fn view(&self) -> RoutingTableModel {
        RoutingTableModel {
            routes: self.routes@.map_values(|e: (u8, RouteEntry)| (e.0, e.1@)),
            link_qualities: self.link_qualities@,
            route_ttl: self.route_ttl,
        }
    }
}

impl Default for RoutingTable {
    /// An empty table with the standard route expiry.
    fn default() -> (r: Self)
        ensures
            r@.routes == Seq::<(u8, RouteEntryModel)>::empty(),
            r@.link_qualities == Seq::<(u8, LinkQuality)>::empty(),
            r@.route_ttl == ROUTE_EXPIRY_SECONDS,
    {
        RoutingTable::new(ROUTE_EXPIRY_SECONDS)
    }
}

impl RoutingTable {
    #[verifier::type_invariant]
    spec fn type_inv(self) -> bool {
        self@.wf()
    }

    /// An empty table whose routes expire after `route_ttl` seconds.
    pub fn new(route_ttl: u64) -> (r: RoutingTable)
        ensures
            r@.routes == Seq::<(u8, RouteEntryModel)>::empty(),
            r@.link_qualities == Seq::<(u8, LinkQuality)>::empty(),
            r@.route_ttl == route_ttl,
    {
        let r = RoutingTable { routes: Vec::new(), link_qualities: Vec::new(), route_ttl };
        proof {
            assert(r@.routes =~= Seq::<(u8, RouteEntryModel)>::empty());
        }
        r
    }

    /// The table is always well formed.
    pub fn check_wf(&self)
        ensures
            self@.wf(),
    {
        proof {
            use_type_invariant(self);
        }
    }

    /// Rewrites the quality of every route through `node` in every entry.
    fn requalify_routes(&mut self, node: u8, quality: u8)
        ensures
            final(self)@.routes == spec_routes_requalified(old(self)@.routes, node, quality),
            final(self)@.link_qualities == old(self)@.link_qualities,
            final(self)@.route_ttl == old(self)@.route_ttl,
    {
        proof {
            use_type_invariant(&*self);
        }
        let ghost old_view = self@.routes;
        let mut source: Vec<(u8, RouteEntry)> = Vec::new();
        std::mem::swap(&mut source, &mut self.routes);
        let ghost all = source@;
        let mut done: Vec<(u8, RouteEntry)> = Vec::new();
        while done.len() < source.len()
            invariant
                done@.len() <= source@.len(),
                source@ == all,
                old_view == all.map_values(|e: (u8, RouteEntry)| (e.0, e.1@)),
                old_view.len() == all.len(),
                old_view.len() <= MAX_ROUTES,
                forall|i: int, j: int|
                    0 <= i < j < old_view.len() ==> (#[trigger] old_view[i]).0 != (
                    #[trigger] old_view[j]).0,
                forall|i: int| 0 <= i < old_view.len() ==> (#[trigger] old_view[i]).1.wf(),
                forall|i: int|
                    0 <= i < done@.len() ==> (#[trigger] done@[i]).0 == old_view[i].0,
                forall|i: int|
                    0 <= i < done@.len() ==> (#[trigger] done@[i].1)@ == spec_entry_requalified(
                        old_view[i].1,
                        node,
                        quality,
                    ),
            decreases source@.len() - done@.len(),
        {
            let idx = done.len();
            let (key, mut entry) = duplicate_route_entry(&source[idx]);
            entry.requalify(node, quality);
            done.push((key, entry));
        }
        proof {
            assert(forall|m: int, n: int|
                0 <= m < n < done@.len() ==> (#[trigger] done@[m]).0 != (#[trigger] done@[n]).0);
        }
        self.routes = done;
        proof {
            assert(self@.routes =~= spec_routes_requalified(old_view, node, quality));
        }
    }

    /// Applies a delivery outcome to every route through `node` in every
    /// entry.
    fn deliver_routes(&mut self, node: u8, quality: u8, now_ms: u64, deactivate: bool)
        ensures
            final(self)@.routes == spec_routes_delivered(
                old(self)@.routes,
                node,
                quality,
                now_ms,
                deactivate,
            ),
            final(self)@.link_qualities == old(self)@.link_qualities,
            final(self)@.route_ttl == old(self)@.route_ttl,
    {
        proof {
            use_type_invariant(&*self);
        }
        let ghost old_view = self@.routes;
        let mut source: Vec<(u8, RouteEntry)> = Vec::new();
        std::mem::swap(&mut source, &mut self.routes);
        let ghost all = source@;
        let mut done: Vec<(u8, RouteEntry)> = Vec::new();
        while done.len() < source.len()
            invariant
                done@.len() <= source@.len(),
                source@ == all,
                old_view == all.map_values(|e: (u8, RouteEntry)| (e.0, e.1@)),
                old_view.len() == all.len(),
                old_view.len() <= MAX_ROUTES,
                forall|i: int, j: int|
                    0 <= i < j < old_view.len() ==> (#[trigger] old_view[i]).0 != (
                    #[trigger] old_view[j]).0,
                forall|i: int| 0 <= i < old_view.len() ==> (#[trigger] old_view[i]).1.wf(),
                forall|i: int|
                    0 <= i < done@.len() ==> (#[trigger] done@[i]).0 == old_view[i].0,
                forall|i: int|
                    0 <= i < done@.len() ==> (#[trigger] done@[i].1)@ == spec_entry_delivered(
                        old_view[i].1,
                        node,
                        quality,
                        now_ms,
                        deactivate,
                    ),
            decreases source@.len() - done@.len(),
        {
            let idx = done.len();
            let (key, mut entry) = duplicate_route_entry(&source[idx]);
            entry.apply_delivery(node, quality, now_ms, deactivate);
            done.push((key, entry));
        }
        proof {
            assert(forall|m: int, n: int|
                0 <= m < n < done@.len() ==> (#[trigger] done@[m]).0 != (#[trigger] done@[n]).0);
        }
        self.routes = done;
        proof {
            assert(self@.routes =~= spec_routes_delivered(
                old_view,
                node,
                quality,
                now_ms,
                deactivate,
            ));
        }
    }

    /// Folds a received signal sample into the link record of `node_id`
    /// (creating one when there is room), then rewrites the quality of
    /// every route through that node from the stored record.
    pub fn update_link_quality(&mut self, node_id: u8, rssi: i16, snr: i16, now_ms: u64)
        ensures
            final(self)@.route_ttl == old(self)@.route_ttl,
            final(self)@.link_qualities == spec_links_updated(
                old(self)@.link_qualities,
                node_id,
                rssi,
                snr,
                now_ms,
            ),
            (match spec_get_by_key(final(self)@.link_qualities, node_id) {
                Some(l) => final(self)@.routes == spec_routes_requalified(
                    old(self)@.routes,
                    node_id,
                    spec_link_quality(l) as u8,
                ),
                None => final(self)@.routes == old(self)@.routes,
            }),
            final(self)@.wf(),
    {
        proof {
            use_type_invariant(&*self);
        }
        let ghost old_links = self@.link_qualities;
        let mut links: Vec<(u8, LinkQuality)> = Vec::new();
        std::mem::swap(&mut links, &mut self.link_qualities);
        let mut stored: Option<LinkQuality> = None;
        match find_key_index(&links, node_id) {
            Some(i) => {
                let mut l = links[i].1;
                l.update_signal_metrics(rssi, snr, now_ms);
                links.set(i, (node_id, l));
                stored = Some(l);
                proof {
                    assert(links@ =~= Seq::new(
                        old_links.len(),
                        |j: int|
                            if old_links[j].0 == node_id {
                                (node_id, spec_link_smoothed(old_links[j].1, rssi, snr, now_ms))
                            } else {
                                old_links[j]
                            },
                    ));
                    lemma_get_by_key_at(links@, node_id, i as int);
                }
            },
            None => {
                if links.len() < MAX_ROUTES {
                    let l = LinkQuality::new(rssi, snr, now_ms);
                    links.push((node_id, l));
                    stored = Some(l);
                    proof {
                        lemma_get_by_key_at(links@, node_id, links@.len() - 1);
                    }
                }
            },
        }
        self.link_qualities = links;
        match stored {
            Some(l) => {
                let q = l.calculate_quality();
                self.requalify_routes(node_id, q);
            },
            None => (),
        }
        proof {
            use_type_invariant(&*self);
        }
    }

    /// Records a delivered message through `node_id`: the link's success
    /// rate rises and every route through the node takes the link's new
    /// quality and timestamp.
    pub fn record_successful_delivery(&mut self, node_id: u8, now_ms: u64)
        ensures
            final(self)@.route_ttl == old(self)@.route_ttl,
            (match spec_get_by_key(old(self)@.link_qualities, node_id) {
                Some(l) => {
                    let l2 = spec_link_success(l, now_ms);
                    &&& final(self)@.link_qualities == spec_links_replaced(
                        old(self)@.link_qualities,
                        node_id,
                        l2,
                    )
                    &&& final(self)@.routes == spec_routes_delivered(
                        old(self)@.routes,
                        node_id,
                        spec_link_quality(l2) as u8,
                        now_ms,
                        false,
                    )
                },
                None => final(self)@ == old(self)@,
            }),
            final(self)@.wf(),
    {
        proof {
            use_type_invariant(&*self);
        }
        let ghost old_links = self@.link_qualities;
        let mut links: Vec<(u8, LinkQuality)> = Vec::new();
        std::mem::swap(&mut links, &mut self.link_qualities);
        let mut stored: Option<LinkQuality> = None;
        match find_key_index(&links, node_id) {
            Some(i) => {
                let mut l = links[i].1;
                l.record_success(now_ms);
                links.set(i, (node_id, l));
                stored = Some(l);
                proof {
                    assert(links@ =~= spec_links_replaced(old_links, node_id, l));
                }
            },
            None => (),
        }
        self.link_qualities = links;
        match stored {
            Some(l) => {
                let q = l.calculate_quality();
                self.deliver_routes(node_id, q, now_ms, false);
            },
            None => (),
        }
        proof {
            use_type_invariant(&*self);
            assert(final(self)@ =~= final(self)@);
        }
    }

    /// Inserts or improves the route to `destination`.  The new route's
    /// quality is taken from the next hop's link record when one exists;
    /// an entry for a new destination evicts the least-recently-used
    /// destination when the table is full.
    pub fn update(&mut self, destination: u8, new_route: Route, now_ms: u64)
        ensures
            final(self)@.routes == spec_table_update(
                old(self)@.routes,
                old(self)@.link_qualities,
                destination,
                new_route,
                now_ms,
            ),
            final(self)@.link_qualities == old(self)@.link_qualities,
            final(self)@.route_ttl == old(self)@.route_ttl,
            final(self)@.wf(),
    {
        proof {
            use_type_invariant(&*self);
        }
        let ghost old_view = self@.routes;
        let ghost links_view = self@.link_qualities;
        let mut route_to_add = new_route;
        match find_key_index(&self.link_qualities, new_route.next_hop.get()) {
            Some(li) => {
                let l = self.link_qualities[li].1;
                route_to_add.quality = l.calculate_quality();
            },
            None => (),
        }
        proof {
            assert(route_to_add == spec_adjusted_route(links_view, new_route));
        }
        let mut routes: Vec<(u8, RouteEntry)> = Vec::new();
        std::mem::swap(&mut routes, &mut self.routes);
        let ghost all = routes@;
        match find_key_index(&routes, destination) {
            Some(ei) => {
                let ghost e = old_view[ei as int].1;
                let (key, mut entry) = routes.remove(ei);
                proof {
                    assert(entry@ == e);
                    assert(e.wf());
                }
                match entry.find_route_idx_by_next_hop(route_to_add.next_hop) {
                    Some(idx) => {
                        entry.routes.set(idx, route_to_add);
                        if is_better_route(&route_to_add, &entry.routes[entry.primary_idx]) {
                            entry.primary_idx = idx;
                        }
                        entry.last_used = now_ms;
                        proof {
                            assert(entry@.routes =~= e.routes.update(
                                spec_hop_idx(e.routes, route_to_add.next_hop@).unwrap(),
                                route_to_add,
                            ));
                        }
                    },
                    None => {
                        if entry.routes.len() < MAX_ROUTES_PER_DEST {
                            let idx = entry.routes.len();
                            let promote = is_better_route(
                                &route_to_add,
                                &entry.routes[entry.primary_idx],
                            );
                            entry.routes.push(route_to_add);
                            if promote {
                                entry.primary_idx = idx;
                            }
                            entry.last_used = now_ms;
                        } else {
                            proof {
                                lemma_worst_idx(entry@.routes);
                            }
                            match entry.find_worst_route_idx() {
                                Some(w) => {
                                    if route_to_add.quality > entry.routes[w].quality {
                                        entry.routes.set(w, route_to_add);
                                        entry.update_primary_idx();
                                    }
                                },
                                None => (),
                            }
                            entry.last_used = now_ms;
                        }
                    },
                }
                proof {
                    assert(entry@ =~= spec_entry_update(e, route_to_add, now_ms));
                }
                routes.insert(ei, (key, entry));
                proof {
                    assert forall|j: int|
                        0 <= j < old_view.len() && j != ei implies (#[trigger] old_view[j]).0
                        != destination by {
                        assert(old_view[ei as int].0 == destination);
                        if j < ei {
                            assert(all[j].0 != destination);
                        }
                    }
                    lemma_get_by_key_at(old_view, destination, ei as int);
                    assert(routes@ =~= all.update(ei as int, routes@[ei as int]));
                    let view2 = routes@.map_values(|p: (u8, RouteEntry)| (p.0, p.1@));
                    assert(view2 =~= spec_table_update(
                        old_view,
                        links_view,
                        destination,
                        new_route,
                        now_ms,
                    ));
                    assert(forall|m: int, n: int|
                        0 <= m < n < view2.len() ==> (#[trigger] view2[m]).0 != (
                        #[trigger] view2[n]).0);
                }
            },
            None => {
                proof {
                    assert forall|j: int|
                        0 <= j < old_view.len() implies (#[trigger] old_view[j]).0
                        != destination by {
                        assert(all[j].0 != destination);
                    }
                    lemma_get_by_key_absent(old_view, destination);
                }
                if routes.len() >= MAX_ROUTES {
                    proof {
                        lemma_lru_is_oldest(old_view);
                    }
                    match lru_index(&routes) {
                        Some(l) => {
                            let _ = routes.remove(l);
                        },
                        None => (),
                    }
                }
                let entry = RouteEntry::new(route_to_add, now_ms);
                routes.push((destination, entry));
                proof {
                    let view2 = routes@.map_values(|p: (u8, RouteEntry)| (p.0, p.1@));
                    assert(view2 =~= spec_table_update(
                        old_view,
                        links_view,
                        destination,
                        new_route,
                        now_ms,
                    ));
                    assert forall|m: int, n: int|
                        0 <= m < n < view2.len() implies (#[trigger] view2[m]).0 != (
                    #[trigger] view2[n]).0 by {
                        if old_view.len() >= MAX_ROUTES {
                            let lv = spec_lru_idx(old_view);
                            let dropped = old_view.remove(lv);
                            if n < view2.len() - 1 {
                                let m0 = if m < lv {
                                    m
                                } else {
                                    m + 1
                                };
                                let n0 = if n < lv {
                                    n
                                } else {
                                    n + 1
                                };
                                assert(view2[m] == old_view[m0]);
                                assert(view2[n] == old_view[n0]);
                            } else {
                                let m0 = if m < lv {
                                    m
                                } else {
                                    m + 1
                                };
                                assert(view2[m] == old_view[m0]);
                                assert(view2[n].0 == destination);
                            }
                        } else {
                            if n == view2.len() - 1 {
                                assert(view2[m] == old_view[m]);
                                assert(view2[n].0 == destination);
                            } else {
                                assert(view2[m] == old_view[m]);
                                assert(view2[n] == old_view[n]);
                            }
                        }
                    }
                }
            },
        }
        self.routes = routes;
        proof {
            use_type_invariant(&*self);
        }
    }

    /// The best route towards `destination`: the primary while usable,
    /// else the first usable alternate (which becomes primary), else the
    /// stale primary as a best-effort hint.  Consulting an entry
    /// refreshes its last-used time.
    pub fn lookup_route(&mut self, destination: u8, now_ms: u64) -> (r: Option<Route>)
        ensures
            r == spec_lookup_result(old(self)@, destination, now_ms),
            final(self)@.link_qualities == old(self)@.link_qualities,
            final(self)@.route_ttl == old(self)@.route_ttl,
            (match spec_get_by_key(old(self)@.routes, destination) {
                None => final(self)@.routes == old(self)@.routes,
                Some(e) => final(self)@.routes == Seq::new(
                    old(self)@.routes.len(),
                    |i: int|
                        if old(self)@.routes[i].0 == destination {
                            (
                                destination,
                                spec_entry_after_lookup(e, old(self)@.route_ttl, now_ms),
                            )
                        } else {
                            old(self)@.routes[i]
                        },
                ),
            }),
            final(self)@.wf(),
    {
        proof {
            use_type_invariant(&*self);
        }
        let ghost old_view = self@.routes;
        let ttl = self.route_ttl;
        let mut routes: Vec<(u8, RouteEntry)> = Vec::new();
        std::mem::swap(&mut routes, &mut self.routes);
        let mut result: Option<Route> = None;
        match find_key_index(&routes, destination) {
            Some(ei) => {
                let ghost e = old_view[ei as int].1;
                let (key, mut entry) = routes.remove(ei);
                proof {
                    assert(entry@ == e);
                    assert(e.wf());
                }
                let p = entry.routes[entry.primary_idx];
                if p.is_active && !p.is_expired(ttl, now_ms) {
                    result = Some(p);
                } else {
                    match entry.find_valid_route_idx(ttl, now_ms) {
                        Some(v) => {
                            result = Some(entry.routes[v]);
                            entry.primary_idx = v;
                        },
                        None => {
                            result = Some(p);
                        },
                    }
                }
                entry.last_used = now_ms;
                routes.insert(ei, (key, entry));
                proof {
                    let all = old(self).routes@;
                    assert forall|j: int|
                        0 <= j < old_view.len() && j != ei implies (#[trigger] old_view[j]).0
                        != destination by {
                        assert(old_view[ei as int].0 == destination);
                        if j < ei {
                            assert(all[j].0 != destination);
                        }
                    }
                    lemma_get_by_key_at(old_view, destination, ei as int);
                    assert(routes@ =~= all.update(ei as int, routes@[ei as int]));
                    let view2 = routes@.map_values(|p: (u8, RouteEntry)| (p.0, p.1@));
                    assert(view2 =~= Seq::new(
                        old_view.len(),
                        |i: int|
                            if old_view[i].0 == destination {
                                (destination, spec_entry_after_lookup(e, ttl, now_ms))
                            } else {
                                old_view[i]
                            },
                    ));
                }
            },
            None => {
                proof {
                    let all = old(self).routes@;
                    assert forall|j: int|
                        0 <= j < old_view.len() implies (#[trigger] old_view[j]).0
                        != destination by {
                        assert(all[j].0 != destination);
                    }
                    lemma_get_by_key_absent(old_view, destination);
                }
            },
        }
        self.routes = routes;
        proof {
            use_type_invariant(&*self);
        }
        result
    }

    /// Whether the routes towards `destination` should be refreshed by a
    /// new discovery.
    pub fn needs_refresh(&self, destination: u8, now_ms: u64) -> (r: bool)
        ensures
            r == spec_needs_refresh(self@, destination, now_ms),
    {
        proof {
            use_type_invariant(self);
        }
        match find_key_index(&self.routes, destination) {
            Some(ei) => {
                proof {
                    assert forall|j: int|
                        0 <= j < ei implies (#[trigger] self@.routes[j]).0 != destination by {
                        assert(self.routes@[j].0 != destination);
                    }
                    lemma_get_by_key_at(self@.routes, destination, ei as int);
                    assert(self@.routes[ei as int].1.wf());
                }
                let entry = &self.routes[ei].1;
                let p = entry.routes[entry.primary_idx];
                p.is_expired(self.route_ttl, now_ms) || (!p.is_expired(
                    ROUTE_REFRESH_SECONDS,
                    now_ms,
                ) && p.quality < 100)
            },
            None => {
                proof {
                    assert forall|j: int|
                        0 <= j < self@.routes.len() implies (#[trigger] self@.routes[j]).0
                        != destination by {
                        assert(self.routes@[j].0 != destination);
                    }
                    lemma_get_by_key_absent(self@.routes, destination);
                }
                true
            },
        }
    }

    /// The destination whose entry was used least recently, if any.
    fn find_least_recently_used(&self) -> (r: Option<u8>)
        ensures
            (self@.routes.len() == 0 ==> r is None),
            (self@.routes.len() > 0 ==> r == Some(
                self@.routes[spec_lru_idx(self@.routes)].0,
            )),
    {
        proof {
            use_type_invariant(self);
            if self@.routes.len() > 0 {
                lemma_lru_is_oldest(self@.routes);
            }
        }
        match lru_index(&self.routes) {
            Some(i) => Some(self.routes[i].0),
            None => None,
        }
    }

    /// Drops expired state: link records unused for three times the route
    /// expiry, routes that are inactive or expired, and destinations left
    /// without any route.  Every surviving route is active and unexpired.
    pub fn cleanup(&mut self, now_ms: u64)
        ensures
            final(self)@.route_ttl == old(self)@.route_ttl,
            final(self)@.link_qualities == old(self)@.link_qualities.filter(
                |l: (u8, LinkQuality)| spec_link_keep(l, old(self)@.route_ttl, now_ms),
            ),
            final(self)@.routes == spec_cleanup_routes(
                old(self)@.routes,
                old(self)@.route_ttl,
                now_ms,
            ),
            forall|i: int, j: int|
                #![trigger final(self)@.routes[i].1.routes[j]]
                0 <= i < final(self)@.routes.len() && 0 <= j
                    < final(self)@.routes[i].1.routes.len() ==> spec_route_keep(
                    final(self)@.routes[i].1.routes[j],
                    old(self)@.route_ttl,
                    now_ms,
                ),
            final(self)@.wf(),
    {
        proof {
            use_type_invariant(&*self);
        }
        let ttl = self.route_ttl;
        let ghost link_pred = |l: (u8, LinkQuality)| spec_link_keep(l, ttl, now_ms);
        let mut links: Vec<(u8, LinkQuality)> = Vec::new();
        std::mem::swap(&mut links, &mut self.link_qualities);
        let ghost all_links = links@;
        let mut kept_links: Vec<(u8, LinkQuality)> = Vec::new();
        let mut i: usize = 0;
        proof {
            reveal(Seq::filter);
            assert(all_links.take(0) =~= Seq::<(u8, LinkQuality)>::empty());
            assert(kept_links@ =~= all_links.take(0).filter(link_pred));
        }
        while i < links.len()
            invariant
                link_pred == (|l: (u8, LinkQuality)| spec_link_keep(l, ttl, now_ms)),
                i <= links@.len(),
                links@ == all_links,
                all_links.len() <= MAX_ROUTES,
                forall|m: int, n: int|
                    0 <= m < n < all_links.len() ==> (#[trigger] all_links[m]).0 != (
                    #[trigger] all_links[n]).0,
                kept_links@ == all_links.take(i as int).filter(link_pred),
                forall|k: int|
                    0 <= k < kept_links@.len() ==> exists|j: int|
                        0 <= j < i && (#[trigger] kept_links@[k]).0 == all_links[j].0,
                forall|m: int, n: int|
                    0 <= m < n < kept_links@.len() ==> (#[trigger] kept_links@[m]).0 != (
                    #[trigger] kept_links@[n]).0,
                kept_links@.len() <= i,
            decreases links@.len() - i,
        {
            let l = links[i];
            let age_secs = if now_ms >= l.1.last_used {
                (now_ms - l.1.last_used) / 1000
            } else {
                0
            };
            let keep = if ttl > u64::MAX / 3 {
                true
            } else {
                age_secs < 3 * ttl
            };
            proof {
                assert(keep == spec_link_keep(l, ttl, now_ms));
            }
            if keep {
                kept_links.push(l);
            }
            proof {
                let k = (i + 1) as int;
                all_links.lemma_take_succ_push(k - 1);
                all_links.take(k - 1).lemma_filter_push(all_links[k - 1], link_pred);
                assert(kept_links@ =~= all_links.take(k).filter(link_pred));
                if keep {
                    assert(forall|kk: int|
                        0 <= kk < kept_links@.len() - 1 ==> (#[trigger] kept_links@[kk]).0
                            != kept_links@[kept_links@.len() - 1].0);
                }
            }
            i = i + 1;
        }
        proof {
            assert(all_links.take(all_links.len() as int) =~= all_links);
            all_links.lemma_filter_len(link_pred);
        }
        self.link_qualities = kept_links;
        let ghost old_view = self@.routes;
        let ghost route_pred = |r: Route| spec_route_keep(r, ttl, now_ms);
        let ghost clean_pair = |p: (u8, RouteEntryModel)| (p.0, spec_cleanup_entry(p.1, ttl, now_ms));
        let ghost nonempty = |p: (u8, RouteEntryModel)| p.1.routes.len() > 0;
        let ghost pair_view = |e: (u8, RouteEntry)| (e.0, e.1@);
        let mut source: Vec<(u8, RouteEntry)> = Vec::new();
        std::mem::swap(&mut source, &mut self.routes);
        let ghost all = source@;
        let mut done: Vec<(u8, RouteEntry)> = Vec::new();
        let mut idx: usize = 0;
        proof {
            reveal(Seq::filter);
            assert(old_view.take(0) =~= Seq::<(u8, RouteEntryModel)>::empty());
            assert(done@.map_values(pair_view) =~= old_view.take(0).map_values(clean_pair).filter(
                nonempty,
            ));
        }
        while idx < source.len()
            invariant
                route_pred == (|r: Route| spec_route_keep(r, ttl, now_ms)),
                clean_pair == (|p: (u8, RouteEntryModel)|
                    (p.0, spec_cleanup_entry(p.1, ttl, now_ms))),
                nonempty == (|p: (u8, RouteEntryModel)| p.1.routes.len() > 0),
                pair_view == (|e: (u8, RouteEntry)| (e.0, e.1@)),
                idx <= source@.len(),
                source@ == all,
                old_view == all.map_values(pair_view),
                old_view.len() == all.len(),
                old_view.len() <= MAX_ROUTES,
                forall|m: int, n: int|
                    0 <= m < n < old_view.len() ==> (#[trigger] old_view[m]).0 != (
                    #[trigger] old_view[n]).0,
                forall|k: int| 0 <= k < old_view.len() ==> (#[trigger] old_view[k]).1.wf(),
                done@.map_values(pair_view) == old_view.take(idx as int).map_values(
                    clean_pair,
                ).filter(nonempty),
                forall|k: int|
                    0 <= k < done@.len() ==> exists|j: int|
                        0 <= j < idx && (#[trigger] done@[k]).0 == all[j].0,
                forall|m: int, n: int|
                    0 <= m < n < done@.len() ==> (#[trigger] done@[m]).0 != (
                    #[trigger] done@[n]).0,
                forall|k: int| 0 <= k < done@.len() ==> (#[trigger] done@[k].1)@.wf(),
                forall|k: int, j: int|
                    #![trigger done@[k].1@.routes[j]]
                    0 <= k < done@.len() && 0 <= j < done@[k].1@.routes.len()
                        ==> spec_route_keep(done@[k].1@.routes[j], ttl, now_ms),
                done@.len() <= idx,
            decreases source@.len() - idx,
        {
            let key = source[idx].0;
            let entry_ref = &source[idx].1;
            let mut kept: Vec<Route> = Vec::new();
            let mut j: usize = 0;
            proof {
                assert(entry_ref@.routes.take(0) =~= Seq::<Route>::empty());
                assert(kept@ =~= entry_ref@.routes.take(0).filter(route_pred));
            }
            while j < entry_ref.routes.len()
                invariant
                    route_pred == (|r: Route| spec_route_keep(r, ttl, now_ms)),
                    j <= entry_ref@.routes.len(),
                    kept@ == entry_ref@.routes.take(j as int).filter(route_pred),
                    kept@.len() <= j,
                decreases entry_ref@.routes.len() - j,
            {
                let r = entry_ref.routes[j];
                let keep = r.is_active && !r.is_expired(ttl, now_ms);
                if keep {
                    kept.push(r);
                }
                proof {
                    let k = (j + 1) as int;
                    entry_ref@.routes.lemma_take_succ_push(k - 1);
                    entry_ref@.routes.take(k - 1).lemma_filter_push(
                        entry_ref@.routes[k - 1],
                        route_pred,
                    );
                    assert(kept@ =~= entry_ref@.routes.take(k).filter(route_pred));
                }
                j = j + 1;
            }
            proof {
                assert(entry_ref@.routes.take(entry_ref@.routes.len() as int)
                    =~= entry_ref@.routes);
                entry_ref@.routes.lemma_filter_len(route_pred);
                broadcast use vstd::seq_lib::group_filter_ensures;

            }
            let pushed = kept.len() > 0;
            if pushed {
                let orig_len = entry_ref.routes.len();
                let old_primary = entry_ref.primary_idx;
                let new_primary: usize = if kept.len() < orig_len && old_primary >= kept.len() {
                    proof {
                        lemma_best_idx_in_bounds(kept@);
                    }
                    match best_route_index(&kept) {
                        Some(b) => b,
                        None => 0,
                    }
                } else {
                    old_primary
                };
                let new_entry = RouteEntry {
                    routes: kept,
                    primary_idx: new_primary,
                    last_used: entry_ref.last_used,
                };
                proof {
                    assert(new_entry@ =~= spec_cleanup_entry(old_view[idx as int].1, ttl, now_ms));
                }
                done.push((key, new_entry));
            }
            proof {
                let k = (idx + 1) as int;
                old_view.lemma_take_succ_push(k - 1);
                old_view.take(k - 1).lemma_push_map_commute(clean_pair, old_view[k - 1]);
                old_view.take(k - 1).map_values(clean_pair).lemma_filter_push(
                    clean_pair(old_view[k - 1]),
                    nonempty,
                );
                assert(clean_pair(old_view[k - 1]).1.routes == old_view[k - 1].1.routes.filter(
                    route_pred,
                ));
                assert(nonempty(clean_pair(old_view[k - 1])) == pushed);
                assert(done@.map_values(pair_view) =~= old_view.take(k).map_values(
                    clean_pair,
                ).filter(nonempty));
                if pushed {
                    assert forall|kk: int|
                        0 <= kk < done@.len() - 1 implies (#[trigger] done@[kk]).0
                        != done@[done@.len() - 1].0 by {
                        let jw = choose|jw: int| 0 <= jw < idx && done@[kk].0 == all[jw].0;
                        assert(old_view[jw] == (all[jw].0, all[jw].1@));
                        assert(old_view[idx as int] == (all[idx as int].0, all[idx as int].1@));
                    }
                }
            }
            idx = idx + 1;
        }
        proof {
            assert(old_view.take(old_view.len() as int) =~= old_view);
        }
        self.routes = done;
        proof {
            use_type_invariant(&*self);
            assert(self@.routes =~= spec_cleanup_routes(old_view, ttl, now_ms));
        }
    }

    /// Counts and averages over the whole table.
    pub fn stats(&self, now_ms: u64) -> (r: RoutingStats)
        ensures
            ({
                let t = spec_tally_table(self@.routes, self@.route_ttl, now_ms);
                &&& r.total_entries == self@.routes.len()
                &&& r.active_routes == t.active
                &&& r.expired_routes == t.expired
                &&& r.avg_hop_count == (if t.route_count > 0 {
                    t.hop_sum / t.route_count
                } else {
                    0int
                })
                &&& r.avg_quality == (if t.route_count > 0 {
                    t.quality_sum / t.route_count
                } else {
                    0int
                })
            }),
    {
        proof {
            use_type_invariant(self);
        }
        let ghost view = self@.routes;
        let ttl = self.route_ttl;
        let mut active: usize = 0;
        let mut expired: usize = 0;
        let mut hop_sum: usize = 0;
        let mut quality_sum: usize = 0;
        let mut route_count: usize = 0;
        let mut i: usize = 0;
        proof {
            assert(view.take(0) =~= Seq::<(u8, RouteEntryModel)>::empty());
        }
        while i < self.routes.len()
            invariant
                i <= view.len(),
                view == self@.routes,
                view.len() == self.routes@.len(),
                view.len() <= MAX_ROUTES,
                ttl == self@.route_ttl,
                forall|k: int| 0 <= k < view.len() ==> (#[trigger] view[k]).1.wf(),
                ({
                    let t = spec_tally_table(view.take(i as int), ttl, now_ms);
                    &&& active == t.active
                    &&& expired == t.expired
                    &&& hop_sum == t.hop_sum
                    &&& quality_sum == t.quality_sum
                    &&& route_count == t.route_count
                }),
            decreases view.len() - i,
        {
            proof {
                assert(forall|k: int|
                    0 <= k < i ==> (#[trigger] view.take(i as int)[k]).1.routes.len()
                        <= MAX_ROUTES_PER_DEST);
                lemma_tally_table_bounds(view.take(i as int), ttl, now_ms);
            }
            let entry = &self.routes[i].1;
            let ghost t0 = spec_tally_table(view.take(i as int), ttl, now_ms);
            let mut j: usize = 0;
            proof {
                assert(view[i as int] == (self.routes@[i as int].0, self.routes@[i as int].1@));
                assert(entry@ == view[i as int].1);
                assert(view[i as int].1.wf());
                assert(entry@.routes.take(0) =~= Seq::<Route>::empty());
            }
            while j < entry.routes.len()
                invariant
                    j <= entry@.routes.len(),
                    entry@.routes.len() <= MAX_ROUTES_PER_DEST,
                    ttl == self@.route_ttl,
                    0 <= t0.active <= t0.route_count,
                    0 <= t0.expired <= t0.route_count,
                    0 <= t0.hop_sum <= 255 * t0.route_count,
                    0 <= t0.quality_sum <= 255 * t0.route_count,
                    0 <= t0.route_count <= MAX_ROUTES_PER_DEST * MAX_ROUTES,
                    ({
                        let t1 = spec_tally_routes(entry@.routes.take(j as int), ttl, now_ms);
                        &&& active == t0.active + t1.active
                        &&& expired == t0.expired + t1.expired
                        &&& hop_sum == t0.hop_sum + t1.hop_sum
                        &&& quality_sum == t0.quality_sum + t1.quality_sum
                        &&& route_count == t0.route_count + t1.route_count
                    }),
                decreases entry@.routes.len() - j,
            {
                proof {
                    lemma_tally_routes_bounds(entry@.routes.take(j as int), ttl, now_ms);
                    entry@.routes.lemma_take_succ_push(j as int);
                    assert(entry@.routes.take(j as int + 1).drop_last() =~= entry@.routes.take(
                        j as int,
                    ));
                }
                let r = entry.routes[j];
                if r.is_active {
                    active = active + 1;
                }
                if r.is_expired(ttl, now_ms) {
                    expired = expired + 1;
                }
                hop_sum = hop_sum + r.hop_count as usize;
                quality_sum = quality_sum + r.quality as usize;
                route_count = route_count + 1;
                j = j + 1;
            }
            proof {
                assert(entry@.routes.take(entry@.routes.len() as int) =~= entry@.routes);
                view.lemma_take_succ_push(i as int);
                assert(view.take(i as int + 1).drop_last() =~= view.take(i as int));
                assert(view.take(i as int + 1).last() == view[i as int]);
            }
            i = i + 1;
        }
        proof {
            assert(view.take(view.len() as int) =~= view);
            assert(forall|k: int|
                0 <= k < view.len() ==> (#[trigger] view[k]).1.routes.len()
                    <= MAX_ROUTES_PER_DEST);
            lemma_tally_table_bounds(view, ttl, now_ms);
        }
        let avg_hop_count: usize = if route_count > 0 {
            hop_sum / route_count
        } else {
            0
        };
        let avg_quality_wide: usize = if route_count > 0 {
            quality_sum / route_count
        } else {
            0
        };
        proof {
            if route_count > 0 {
                assert(quality_sum / route_count <= 255) by (nonlinear_arith)
                    requires
                        quality_sum <= 255 * route_count,
                        route_count > 0,
                ;
            }
        }
        RoutingStats {
            total_entries: self.routes.len(),
            active_routes: active,
            expired_routes: expired,
            avg_hop_count,
            avg_quality: avg_quality_wide as u8,
        }
    }

    /// Records a failed delivery through `node_id`: the link's failure
    /// rate rises, every route through the node takes the link's new
    /// quality and timestamp, and is deactivated when that quality falls
    /// under the threshold.
    pub fn record_failed_delivery(&mut self, node_id: u8, now_ms: u64)
        ensures
            final(self)@.route_ttl == old(self)@.route_ttl,
            (match spec_get_by_key(old(self)@.link_qualities, node_id) {
                Some(l) => {
                    let l2 = spec_link_failure(l, now_ms);
                    &&& final(self)@.link_qualities == spec_links_replaced(
                        old(self)@.link_qualities,
                        node_id,
                        l2,
                    )
                    &&& final(self)@.routes == spec_routes_delivered(
                        old(self)@.routes,
                        node_id,
                        spec_link_quality(l2) as u8,
                        now_ms,
                        true,
                    )
                },
                None => final(self)@ == old(self)@,
            }),
            final(self)@.wf(),
    {
        proof {
            use_type_invariant(&*self);
        }
        let ghost old_links = self@.link_qualities;
        let mut links: Vec<(u8, LinkQuality)> = Vec::new();
        std::mem::swap(&mut links, &mut self.link_qualities);
        let mut stored: Option<LinkQuality> = None;
        match find_key_index(&links, node_id) {
            Some(i) => {
                let mut l = links[i].1;
                l.record_failure(now_ms);
                links.set(i, (node_id, l));
                stored = Some(l);
                proof {
                    assert(links@ =~= spec_links_replaced(old_links, node_id, l));
                }
            },
            None => (),
        }
        self.link_qualities = links;
        match stored {
            Some(l) => {
                let q = l.calculate_quality();
                self.deliver_routes(node_id, q, now_ms, true);
            },
            None => (),
        }
        proof {
            use_type_invariant(&*self);
        }
    }
}

/// An equal copy of a table pair (equal at the model level).
fn duplicate_route_entry(e: &(u8, RouteEntry)) -> (r: (u8, RouteEntry))
    ensures
        r.0 == e.0,
        r.1@ == e.1@,
{
    let mut routes: Vec<Route> = Vec::new();
    let mut i: usize = 0;
    while i < e.1.routes.len()
        invariant
            i <= e.1.routes@.len(),
            routes@ == e.1.routes@.take(i as int),
        decreases e.1.routes@.len() - i,
    {
        routes.push(e.1.routes[i]);
        i = i + 1;
        proof {
            assert(routes@ =~= e.1.routes@.take(i as int));
        }
    }
    proof {
        assert(routes@ =~= e.1.routes@);
    }
    (e.0, RouteEntry { routes, primary_idx: e.1.primary_idx, last_used: e.1.last_used })
}

/// Every entry with the quality of routes through `node` rewritten.
pub open spec fn spec_routes_requalified(
    routes: Seq<(u8, RouteEntryModel)>,
    node: u8,
    quality: u8,
) -> Seq<(u8, RouteEntryModel)> {
    Seq::new(
        routes.len(),
        |i: int| (routes[i].0, spec_entry_requalified(routes[i].1, node, quality)),
    )
}

/// Every entry with a delivery outcome applied to routes through `node`.
pub open spec fn spec_routes_delivered(
    routes: Seq<(u8, RouteEntryModel)>,
    node: u8,
    quality: u8,
    now_ms: u64,
    deactivate: bool,
) -> Seq<(u8, RouteEntryModel)> {
    Seq::new(
        routes.len(),
        |i: int| (routes[i].0, spec_entry_delivered(routes[i].1, node, quality, now_ms, deactivate)),
    )
}

/// The link list after folding a signal sample into `node`'s record: an
/// existing record is smoothed; a missing one is created when there is
/// room, and dropped on the floor when the list is full.
pub open spec fn spec_links_updated(
    links: Seq<(u8, LinkQuality)>,
    node: u8,
    rssi: i16,
    snr: i16,
    now_ms: u64,
) -> Seq<(u8, LinkQuality)> {
    match spec_get_by_key(links, node) {
        Some(_) => Seq::new(
            links.len(),
            |i: int|
                if links[i].0 == node {
                    (node, spec_link_smoothed(links[i].1, rssi, snr, now_ms))
                } else {
                    links[i]
                },
        ),
        None => if links.len() < MAX_ROUTES {
            links.push(
                (
                    node,
                    LinkQuality {
                        rssi,
                        snr,
                        success_rate: 100u8,
                        failure_rate: 0u8,
                        last_used: now_ms,
                    },
                ),
            )
        } else {
            links
        },
    }
}

/// The link list with `node`'s record replaced by a new value.
pub open spec fn spec_links_replaced(
    links: Seq<(u8, LinkQuality)>,
    node: u8,
    value: LinkQuality,
) -> Seq<(u8, LinkQuality)> {
    Seq::new(
        links.len(),
        |i: int|
            if links[i].0 == node {
                (node, value)
            } else {
                links[i]
            },
    )
}

/// A link record after a delivered message: the success rate rises (to at
/// most 100), the failure rate falls.
pub open spec fn spec_link_success(l: LinkQuality, now_ms: u64) -> LinkQuality {
    LinkQuality {
        success_rate: (if l.success_rate < 100 {
            if l.success_rate + 5 <= 100 {
                (l.success_rate + 5) as u8
            } else {
                100u8
            }
        } else {
            l.success_rate
        }),
        failure_rate: (if l.failure_rate >= 5 {
            (l.failure_rate - 5) as u8
        } else {
            0u8
        }),
        last_used: now_ms,
        ..l
    }
}

/// The whole-table value after `update_link_quality`.
pub open spec fn spec_after_update_link_quality(
    m: RoutingTableModel,
    node: u8,
    rssi: i16,
    snr: i16,
    now_ms: u64,
) -> RoutingTableModel {
    let links2 = spec_links_updated(m.link_qualities, node, rssi, snr, now_ms);
    let routes2 = match spec_get_by_key(links2, node) {
        Some(l) => spec_routes_requalified(m.routes, node, spec_link_quality(l) as u8),
        None => m.routes,
    };
    RoutingTableModel { routes: routes2, link_qualities: links2, ..m }
}

/// The whole-table value after `record_successful_delivery`.
pub open spec fn spec_after_record_success(
    m: RoutingTableModel,
    node: u8,
    now_ms: u64,
) -> RoutingTableModel {
    match spec_get_by_key(m.link_qualities, node) {
        Some(l) => {
            let l2 = spec_link_success(l, now_ms);
            RoutingTableModel {
                link_qualities: spec_links_replaced(m.link_qualities, node, l2),
                routes: spec_routes_delivered(
                    m.routes,
                    node,
                    spec_link_quality(l2) as u8,
                    now_ms,
                    false,
                ),
                ..m
            }
        },
        None => m,
    }
}

/// The whole-table value after `record_failed_delivery`.
pub open spec fn spec_after_record_failure(
    m: RoutingTableModel,
    node: u8,
    now_ms: u64,
) -> RoutingTableModel {
    match spec_get_by_key(m.link_qualities, node) {
        Some(l) => {
            let l2 = spec_link_failure(l, now_ms);
            RoutingTableModel {
                link_qualities: spec_links_replaced(m.link_qualities, node, l2),
                routes: spec_routes_delivered(
                    m.routes,
                    node,
                    spec_link_quality(l2) as u8,
                    now_ms,
                    true,
                ),
                ..m
            }
        },
        None => m,
    }
}

/// The whole-table value after `lookup_route`.
pub open spec fn spec_after_lookup(
    m: RoutingTableModel,
    destination: u8,
    now_ms: u64,
) -> RoutingTableModel {
    match spec_get_by_key(m.routes, destination) {
        None => m,
        Some(e) => RoutingTableModel {
            routes: Seq::new(
                m.routes.len(),
                |i: int|
                    if m.routes[i].0 == destination {
                        (destination, spec_entry_after_lookup(e, m.route_ttl, now_ms))
                    } else {
                        m.routes[i]
                    },
            ),
            ..m
        },
    }
}

/// The whole-table value after `update`.
pub open spec fn spec_after_update(
    m: RoutingTableModel,
    destination: u8,
    new_route: Route,
    now_ms: u64,
) -> RoutingTableModel {
    RoutingTableModel {
        routes: spec_table_update(m.routes, m.link_qualities, destination, new_route, now_ms),
        ..m
    }
}

/// A new route with its quality taken from the link record of its next
/// hop, when one exists.
pub open spec fn spec_adjusted_route(links: Seq<(u8, LinkQuality)>, new_route: Route) -> Route {
    match spec_get_by_key(links, new_route.next_hop@) {
        Some(link) => Route { quality: spec_link_quality(link) as u8, ..new_route },
        None => new_route,
    }
}

/// How `update` transforms the entry of an existing destination: a route
/// through a known next hop is overwritten (and may become primary); with
/// room to spare the route is appended; a full entry displaces its worst
/// route only if the newcomer's quality is higher.  The entry's last-used
/// time is refreshed either way.
pub open spec fn spec_entry_update(e: RouteEntryModel, adj: Route, now_ms: u64) -> RouteEntryModel {
    match spec_hop_idx(e.routes, adj.next_hop@) {
        Some(i) => {
            let routes2 = e.routes.update(i, adj);
            RouteEntryModel {
                routes: routes2,
                primary_idx: if spec_is_better_route(adj, routes2[e.primary_idx]) {
                    i
                } else {
                    e.primary_idx
                },
                last_used: now_ms,
            }
        },
        None => if e.routes.len() < MAX_ROUTES_PER_DEST {
            RouteEntryModel {
                routes: e.routes.push(adj),
                primary_idx: if spec_is_better_route(adj, e.routes[e.primary_idx]) {
                    e.routes.len() as int
                } else {
                    e.primary_idx
                },
                last_used: now_ms,
            }
        } else {
            let w = spec_worst_idx(e.routes);
            if adj.quality > e.routes[w].quality {
                let routes2 = e.routes.update(w, adj);
                RouteEntryModel {
                    routes: routes2,
                    primary_idx: spec_best_idx(routes2),
                    last_used: now_ms,
                }
            } else {
                RouteEntryModel { last_used: now_ms, ..e }
            }
        },
    }
}

/// How `update` transforms the whole table: an existing destination's
/// entry is updated in place; a new destination is appended, evicting the
/// least-recently-used entry when the table is full.
pub open spec fn spec_table_update(
    routes: Seq<(u8, RouteEntryModel)>,
    links: Seq<(u8, LinkQuality)>,
    destination: u8,
    new_route: Route,
    now_ms: u64,
) -> Seq<(u8, RouteEntryModel)> {
    let adj = spec_adjusted_route(links, new_route);
    match spec_get_by_key(routes, destination) {
        Some(_) => Seq::new(
            routes.len(),
            |i: int|
                if routes[i].0 == destination {
                    (destination, spec_entry_update(routes[i].1, adj, now_ms))
                } else {
                    routes[i]
                },
        ),
        None => {
            let fresh = (
                destination,
                RouteEntryModel { routes: seq![adj], primary_idx: 0int, last_used: now_ms },
            );
            if routes.len() < MAX_ROUTES {
                routes.push(fresh)
            } else {
                routes.remove(spec_lru_idx(routes)).push(fresh)
            }
        },
    }
}

/// What `lookup_route` returns: the primary route while usable, else the
/// first usable alternate, else the stale primary as a best-effort hint.
pub open spec fn spec_lookup_result(
    m: RoutingTableModel,
    destination: u8,
    now_ms: u64,
) -> Option<Route> {
    match spec_get_by_key(m.routes, destination) {
        None => None,
        Some(e) => {
            let p = e.routes[e.primary_idx];
            if spec_route_keep(p, m.route_ttl, now_ms) {
                Some(p)
            } else {
                match spec_valid_idx(e.routes, m.route_ttl, now_ms) {
                    Some(v) => Some(e.routes[v]),
                    None => Some(p),
                }
            }
        },
    }
}

/// How `lookup_route` touches the entry it consulted: the last-used time
/// is refreshed, and a usable alternate found after a stale primary is
/// promoted to primary.
pub open spec fn spec_entry_after_lookup(
    e: RouteEntryModel,
    ttl_seconds: u64,
    now_ms: u64,
) -> RouteEntryModel {
    let p = e.routes[e.primary_idx];
    if spec_route_keep(p, ttl_seconds, now_ms) {
        RouteEntryModel { last_used: now_ms, ..e }
    } else {
        match spec_valid_idx(e.routes, ttl_seconds, now_ms) {
            Some(v) => RouteEntryModel { primary_idx: v, last_used: now_ms, ..e },
            None => RouteEntryModel { last_used: now_ms, ..e },
        }
    }
}

/// Whether a destination's routes need refreshing: no entry at all, an
/// expired primary, or a still-fresh primary of mediocre quality.
pub open spec fn spec_needs_refresh(m: RoutingTableModel, destination: u8, now_ms: u64) -> bool {
    match spec_get_by_key(m.routes, destination) {
        Some(e) => {
            let p = e.routes[e.primary_idx];
            p.spec_is_expired(m.route_ttl, now_ms) || (!p.spec_is_expired(
                ROUTE_REFRESH_SECONDS,
                now_ms,
            ) && p.quality < 100)
        },
        None => true,
    }
}

/// Whether a link record is young enough to keep: younger than three
/// times the route expiry.
pub open spec fn spec_link_keep(l: (u8, LinkQuality), ttl_seconds: u64, now_ms: u64) -> bool {
    spec_age_seconds(l.1.last_used, now_ms) < 3 * ttl_seconds
}

/// How `cleanup` transforms one entry: only usable routes survive, and a
/// primary index left dangling is re-chosen by the preference fold.
pub open spec fn spec_cleanup_entry(
    e: RouteEntryModel,
    ttl_seconds: u64,
    now_ms: u64,
) -> RouteEntryModel {
    let kept = e.routes.filter(|r: Route| spec_route_keep(r, ttl_seconds, now_ms));
    RouteEntryModel {
        routes: kept,
        primary_idx: if kept.len() < e.routes.len() && e.primary_idx >= kept.len() {
            spec_best_idx(kept)
        } else {
            e.primary_idx
        },
        last_used: e.last_used,
    }
}

/// How `cleanup` transforms the table: every entry keeps only usable
/// routes, and entries left without any route are removed.
pub open spec fn spec_cleanup_routes(
    routes: Seq<(u8, RouteEntryModel)>,
    ttl_seconds: u64,
    now_ms: u64,
) -> Seq<(u8, RouteEntryModel)> {
    routes.map_values(
        |p: (u8, RouteEntryModel)| (p.0, spec_cleanup_entry(p.1, ttl_seconds, now_ms)),
    ).filter(|p: (u8, RouteEntryModel)| p.1.routes.len() > 0)
}

/// Counters accumulated over all routes of the table.
#[verifier::ext_equal]
pub struct StatTally {
    pub active: int,
    pub expired: int,
    pub hop_sum: int,
    pub quality_sum: int,
    pub route_count: int,
}

/// Tallies the routes of one entry.
pub open spec fn spec_tally_routes(s: Seq<Route>, ttl_seconds: u64, now_ms: u64) -> StatTally
    decreases s.len(),
{
    if s.len() == 0 {
        StatTally { active: 0, expired: 0, hop_sum: 0, quality_sum: 0, route_count: 0 }
    } else {
        let t = spec_tally_routes(s.drop_last(), ttl_seconds, now_ms);
        let r = s.last();
        StatTally {
            active: t.active + (if r.is_active {
                1int
            } else {
                0int
            }),
            expired: t.expired + (if r.spec_is_expired(ttl_seconds, now_ms) {
                1int
            } else {
                0int
            }),
            hop_sum: t.hop_sum + r.hop_count,
            quality_sum: t.quality_sum + r.quality,
            route_count: t.route_count + 1,
        }
    }
}

/// Tallies all routes of the table.
pub open spec fn spec_tally_table(
    s: Seq<(u8, RouteEntryModel)>,
    ttl_seconds: u64,
    now_ms: u64,
) -> StatTally
    decreases s.len(),
{
    if s.len() == 0 {
        StatTally { active: 0, expired: 0, hop_sum: 0, quality_sum: 0, route_count: 0 }
    } else {
        let t = spec_tally_table(s.drop_last(), ttl_seconds, now_ms);
        let e = spec_tally_routes(s.last().1.routes, ttl_seconds, now_ms);
        StatTally {
            active: t.active + e.active,
            expired: t.expired + e.expired,
            hop_sum: t.hop_sum + e.hop_sum,
            quality_sum: t.quality_sum + e.quality_sum,
            route_count: t.route_count + e.route_count,
        }
    }
}

/// Per-entry tallies are bounded by the number of routes.
proof fn lemma_tally_routes_bounds(s: Seq<Route>, ttl_seconds: u64, now_ms: u64)
    ensures
        0 <= spec_tally_routes(s, ttl_seconds, now_ms).active <= s.len(),
        0 <= spec_tally_routes(s, ttl_seconds, now_ms).expired <= s.len(),
        0 <= spec_tally_routes(s, ttl_seconds, now_ms).hop_sum <= 255 * s.len(),
        0 <= spec_tally_routes(s, ttl_seconds, now_ms).quality_sum <= 255 * s.len(),
        spec_tally_routes(s, ttl_seconds, now_ms).route_count == s.len(),
    decreases s.len(),
{
    if s.len() > 0 {
        lemma_tally_routes_bounds(s.drop_last(), ttl_seconds, now_ms);
    }
}

/// Whole-table tallies are bounded by the table's capacity, for
/// well-formed entries.
proof fn lemma_tally_table_bounds(s: Seq<(u8, RouteEntryModel)>, ttl_seconds: u64, now_ms: u64)
    requires
        forall|i: int| 0 <= i < s.len() ==> (#[trigger] s[i]).1.routes.len() <= MAX_ROUTES_PER_DEST,
    ensures
        0 <= spec_tally_table(s, ttl_seconds, now_ms).active <= spec_tally_table(
            s,
            ttl_seconds,
            now_ms,
        ).route_count,
        0 <= spec_tally_table(s, ttl_seconds, now_ms).expired <= spec_tally_table(
            s,
            ttl_seconds,
            now_ms,
        ).route_count,
        0 <= spec_tally_table(s, ttl_seconds, now_ms).hop_sum <= 255 * spec_tally_table(
            s,
            ttl_seconds,
            now_ms,
        ).route_count,
        0 <= spec_tally_table(s, ttl_seconds, now_ms).quality_sum <= 255 * spec_tally_table(
            s,
            ttl_seconds,
            now_ms,
        ).route_count,
        0 <= spec_tally_table(s, ttl_seconds, now_ms).route_count <= MAX_ROUTES_PER_DEST * s.len(),
    decreases s.len(),
{
    if s.len() > 0 {
        lemma_tally_table_bounds(s.drop_last(), ttl_seconds, now_ms);
        lemma_tally_routes_bounds(s.last().1.routes, ttl_seconds, now_ms);
        assert(s.drop_last().len() == s.len() - 1);
        assert(forall|i: int|
            0 <= i < s.len() - 1 ==> (#[trigger] s.drop_last()[i]) == s[i]);
    }
}

/// Updating a destination with a route identical to its primary (same
/// next hop, hop count and quality) is a no-op aside from timestamps:
/// the routes keep their places, only the primary's `last_updated` and
/// the entry's `last_used` are refreshed, and the primary choice stands.
pub proof fn lemma_identical_update_noop(e: RouteEntryModel, t: u64, now_ms: u64)
    requires
        e.wf(),
        spec_hop_idx(e.routes, e.routes[e.primary_idx].next_hop@) == Some(e.primary_idx),
    ensures
        ({
            let adj = Route { last_updated: t, ..e.routes[e.primary_idx] };
            spec_entry_update(e, adj, now_ms) == RouteEntryModel {
                routes: e.routes.update(e.primary_idx, adj),
                primary_idx: e.primary_idx,
                last_used: now_ms,
            }
        }),
{
    let adj = Route { last_updated: t, ..e.routes[e.primary_idx] };
    let routes2 = e.routes.update(e.primary_idx, adj);
    assert(routes2[e.primary_idx] == adj);
    assert(!spec_is_better_route(adj, adj));
}

/// A full entry offered a route through a new next hop either displaces
/// its worst route (when the newcomer's quality is strictly higher) or
/// keeps its routes untouched; the last-used time is refreshed either
/// way.
pub proof fn lemma_full_entry_alternate(e: RouteEntryModel, adj: Route, now_ms: u64)
    requires
        e.wf(),
        e.routes.len() == MAX_ROUTES_PER_DEST,
        spec_hop_idx(e.routes, adj.next_hop@) is None,
    ensures
        adj.quality > e.routes[spec_worst_idx(e.routes)].quality ==> spec_entry_update(
            e,
            adj,
            now_ms,
        ).routes == e.routes.update(spec_worst_idx(e.routes), adj),
        adj.quality <= e.routes[spec_worst_idx(e.routes)].quality ==> spec_entry_update(
            e,
            adj,
            now_ms,
        ) == (RouteEntryModel { last_used: now_ms, ..e }),
        spec_entry_update(e, adj, now_ms).last_used == now_ms,
{
}

/// A link record after a failed delivery: the failure rate rises (to at
/// most 100), the success rate falls.
pub open spec fn spec_link_failure(l: LinkQuality, now_ms: u64) -> LinkQuality {
    LinkQuality {
        failure_rate: (if l.failure_rate < 100 {
            if l.failure_rate + 10 <= 100 {
                (l.failure_rate + 10) as u8
            } else {
                100u8
            }
        } else {
            l.failure_rate
        }),
        success_rate: (if l.success_rate >= 10 {
            (l.success_rate - 10) as u8
        } else {
            0u8
        }),
        last_used: now_ms,
        ..l
    }
}

} // verus!
