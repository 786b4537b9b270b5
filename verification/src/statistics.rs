//! Statistics tracking for ad blocking: totals, per-domain aggregates, and a
//! bounded list of recent events. The per-domain table is an
//! insertion-ordered vector, and the top-domains query is a verified stable
//! insertion sort by descending count (data saved as tiebreaker).

use vstd::prelude::*;

use crate::metrics::now_unix_ns;
use crate::metrics::sat_add64;

verus! {

/// A single block/allow event.
#[derive(Debug)]
pub struct BlockEvent {
    /// Milliseconds since the Unix epoch when the event was recorded.
    pub timestamp: u64,
    pub domain: String,
    pub blocked: bool,
    pub size: u64,
}

/// The mathematical value of an event.
pub struct EventV {
    pub timestamp: u64,
    pub domain: Seq<char>,
    pub blocked: bool,
    pub size: u64,
}

impl View for BlockEvent {
    type V = EventV;

    open spec fn view(&self) -> EventV {
        EventV {
            timestamp: self.timestamp,
            domain: self.domain@,
            blocked: self.blocked,
            size: self.size,
        }
    }
}

impl Clone for BlockEvent {
    fn clone(&self) -> (r: Self)
        ensures
            r@ == self@,
    {
        BlockEvent {
            timestamp: self.timestamp,
            domain: self.domain.clone(),
            blocked: self.blocked,
            size: self.size,
        }
    }
}

/// Domain-specific statistics.
#[derive(Debug)]
pub struct DomainStats {
    pub domain: String,
    pub count: u64,
    pub data_saved: u64,
}

/// The mathematical value of a per-domain aggregate.
pub struct DomainStatV {
    pub domain: Seq<char>,
    pub count: u64,
    pub data_saved: u64,
}

impl View for DomainStats {
    type V = DomainStatV;

    open spec fn view(&self) -> DomainStatV {
        DomainStatV { domain: self.domain@, count: self.count, data_saved: self.data_saved }
    }
}

impl Clone for DomainStats {
    fn clone(&self) -> (r: Self)
        ensures
            r@ == self@,
    {
        DomainStats {
            domain: self.domain.clone(),
            count: self.count,
            data_saved: self.data_saved,
        }
    }
}

/// Configuration for statistics tracking.
#[derive(Debug, Clone, Copy)]
pub struct StatisticsConfig {
    /// Maximum number of recent events to keep.
    pub max_recent_events: usize,
}

impl Default for StatisticsConfig {
    fn default() -> (c: Self)
        ensures
            c.max_recent_events == 1000,
    {
        StatisticsConfig { max_recent_events: 1000 }
    }
}

/// The mathematical value of the whole tracker.
pub struct StatsV {
    pub blocked_count: u64,
    pub allowed_count: u64,
    pub data_saved: u64,
    pub domain_stats: Seq<DomainStatV>,
    pub recent_events: Seq<EventV>,
    pub max_recent_events: int,
}

/// Statistics tracker for the ad blocker.
#[derive(Debug)]
pub struct Statistics {
    blocked_count: u64,
    allowed_count: u64,
    data_saved: u64,
    domain_stats: Vec<DomainStats>,
    recent_events: Vec<BlockEvent>,
    config: StatisticsConfig,
}

/// The view of a vector of per-domain aggregates.
pub open spec fn domains_view(s: Seq<DomainStats>) -> Seq<DomainStatV> {
    Seq::new(s.len(), |i: int| s[i]@)
}

/// The view of a vector of events.
pub open spec fn events_view(s: Seq<BlockEvent>) -> Seq<EventV> {
    Seq::new(s.len(), |i: int| s[i]@)
}

impl View for Statistics {
    type V = StatsV;

    closed spec fn view(&self) -> StatsV {
        StatsV {
            blocked_count: self.blocked_count,
            allowed_count: self.allowed_count,
            data_saved: self.data_saved,
            domain_stats: domains_view(self.domain_stats@),
            recent_events: events_view(self.recent_events@),
            max_recent_events: self.config.max_recent_events as int,
        }
    }
}

/// The first index holding `d`, else the length.
pub open spec fn domain_index_from(s: Seq<DomainStatV>, d: Seq<char>, i: int) -> int
    decreases s.len() - i,
{
    if !(0 <= i < s.len()) {
        s.len() as int
    } else if s[i].domain == d {
        i
    } else {
        domain_index_from(s, d, i + 1)
    }
}

/// The table after one blocked hit on `d` of `size` bytes: the first entry
/// for `d` gains one count and `size` bytes, or a fresh entry is appended.
pub open spec fn upsert_domain(s: Seq<DomainStatV>, d: Seq<char>, size: u64) -> Seq<
    DomainStatV,
> {
    let i = domain_index_from(s, d, 0);
    if i < s.len() {
        s.update(
            i,
            DomainStatV {
                domain: s[i].domain,
                count: sat_add64(s[i].count, 1),
                data_saved: sat_add64(s[i].data_saved, size),
            },
        )
    } else {
        s.push(DomainStatV { domain: d, count: 1, data_saved: size })
    }
}

/// The event list after appending `e`, keeping at most `max` events by
/// dropping the oldest.
pub open spec fn push_event(s: Seq<EventV>, e: EventV, max: int) -> Seq<EventV> {
    let t = s.push(e);
    if t.len() > max {
        t.subrange(1, t.len() as int)
    } else {
        t
    }
}

/// Strict "sorts earlier" order for the top-domains listing: more hits
/// first, then more data saved.
pub open spec fn stat_before(a: DomainStatV, b: DomainStatV) -> bool {
    a.count > b.count || (a.count == b.count && a.data_saved > b.data_saved)
}

/// Stable insertion of `x`: it lands before the first entry it strictly
/// precedes, after any equal entries.
pub open spec fn insert_desc(s: Seq<DomainStatV>, x: DomainStatV) -> Seq<DomainStatV>
    decreases s.len(),
{
    if s.len() == 0 {
        seq![x]
    } else if stat_before(x, s[0]) {
        seq![x] + s
    } else {
        seq![s[0]] + insert_desc(s.drop_first(), x)
    }
}

/// Stable insertion sort, descending.
pub open spec fn sort_desc(s: Seq<DomainStatV>) -> Seq<DomainStatV>
    decreases s.len(),
{
    if s.len() == 0 {
        Seq::empty()
    } else {
        insert_desc(sort_desc(s.drop_last()), s.last())
    }
}

/// Inserting at the first position whose entry `x` strictly precedes is
/// what `insert_desc` does.
proof fn lemma_insert_desc_position(s: Seq<DomainStatV>, x: DomainStatV, p: int)
    requires
        0 <= p <= s.len(),
        forall|i: int| 0 <= i < p ==> !stat_before(x, #[trigger] s[i]),
        p < s.len() ==> stat_before(x, s[p]),
    ensures
        insert_desc(s, x) == s.subrange(0, p) + seq![x] + s.subrange(p, s.len() as int),
    decreases p,
{
    if p == 0 {
        if s.len() == 0 {
            assert(insert_desc(s, x) =~= s.subrange(0, 0) + seq![x] + s.subrange(0, 0));
        } else {
            assert(insert_desc(s, x) =~= s.subrange(0, 0) + seq![x] + s.subrange(
                0,
                s.len() as int,
            ));
        }
    } else {
        let t = s.drop_first();
        assert(forall|i: int| 0 <= i < p - 1 ==> !stat_before(x, #[trigger] t[i]));
        lemma_insert_desc_position(t, x, p - 1);
        assert(t.subrange(0, p - 1) =~= s.subrange(1, p));
        assert(t.subrange(p - 1, t.len() as int) =~= s.subrange(p, s.len() as int));
        assert(seq![s[0]] + (t.subrange(0, p - 1) + seq![x] + t.subrange(p - 1, t.len() as int))
            =~= s.subrange(0, p) + seq![x] + s.subrange(p, s.len() as int));
    }
}

impl Statistics {
    /// Create a new statistics instance.
    pub fn new() -> (s: Self)
        ensures
            s@.blocked_count == 0,
            s@.allowed_count == 0,
            s@.data_saved == 0,
            s@.domain_stats == Seq::<DomainStatV>::empty(),
            s@.recent_events == Seq::<EventV>::empty(),
            s@.max_recent_events == 1000,
    {
        Self::with_config(StatisticsConfig::default())
    }

    /// Create a new statistics instance with custom configuration.
    pub fn with_config(config: StatisticsConfig) -> (s: Self)
        ensures
            s@.blocked_count == 0,
            s@.allowed_count == 0,
            s@.data_saved == 0,
            s@.domain_stats == Seq::<DomainStatV>::empty(),
            s@.recent_events == Seq::<EventV>::empty(),
            s@.max_recent_events == config.max_recent_events,
    {
        let s = Statistics {
            blocked_count: 0,
            allowed_count: 0,
            data_saved: 0,
            domain_stats: Vec::new(),
            recent_events: Vec::new(),
            config,
        };
        proof {
            assert(s@.domain_stats =~= Seq::<DomainStatV>::empty());
            assert(s@.recent_events =~= Seq::<EventV>::empty());
        }
        s
    }

    /// Get blocked count.
    pub fn get_blocked_count(&self) -> (r: u64)
        ensures
            r == self@.blocked_count,
    {
        self.blocked_count
    }

    /// Get allowed count.
    pub fn get_allowed_count(&self) -> (r: u64)
        ensures
            r == self@.allowed_count,
    {
        self.allowed_count
    }

    /// Get data saved.
    pub fn get_data_saved(&self) -> (r: u64)
        ensures
            r == self@.data_saved,
    {
        self.data_saved
    }

    /// Get total blocked requests.
    pub fn total_blocked(&self) -> (r: u64)
        ensures
            r == self@.blocked_count,
    {
        self.blocked_count
    }

    /// Get total allowed requests.
    pub fn total_allowed(&self) -> (r: u64)
        ensures
            r == self@.allowed_count,
    {
        self.allowed_count
    }

    /// Get total data saved (in bytes).
    pub fn data_saved(&self) -> (r: u64)
        ensures
            r == self@.data_saved,
    {
        self.data_saved
    }

    /// Record a blocked request: bump the totals, fold the hit into the
    /// per-domain table, and append a recent event (timestamped by the
    /// clock, which nothing is promised about).
    pub fn record_blocked(&mut self, domain: &str, size: u64)
        ensures
            final(self)@.blocked_count == sat_add64(old(self)@.blocked_count, 1),
            final(self)@.allowed_count == old(self)@.allowed_count,
            final(self)@.data_saved == sat_add64(old(self)@.data_saved, size),
            final(self)@.domain_stats == upsert_domain(old(self)@.domain_stats, domain@, size),
            final(self)@.max_recent_events == old(self)@.max_recent_events,
            exists|ts: u64|
                final(self)@.recent_events == push_event(
                    old(self)@.recent_events,
                    EventV { timestamp: ts, domain: domain@, blocked: true, size },
                    old(self)@.max_recent_events,
                ),
    {
        self.blocked_count = if self.blocked_count < u64::MAX {
            self.blocked_count + 1
        } else {
            u64::MAX
        };
        self.data_saved = if self.data_saved <= u64::MAX - size {
            self.data_saved + size
        } else {
            u64::MAX
        };
        let n = self.domain_stats.len();
        let ghost before = domains_view(self.domain_stats@);
        let pos = Self::domain_pos(&self.domain_stats, domain);
        if pos < n {
            let mut e = self.domain_stats[pos].clone();
            e.count = if e.count < u64::MAX {
                e.count + 1
            } else {
                u64::MAX
            };
            e.data_saved = if e.data_saved <= u64::MAX - size {
                e.data_saved + size
            } else {
                u64::MAX
            };
            self.domain_stats[pos] = e;
            proof {
                assert(domains_view(self.domain_stats@) =~= upsert_domain(before, domain@, size));
            }
        } else {
            self.domain_stats.push(
                DomainStats { domain: domain.to_owned(), count: 1, data_saved: size },
            );
            proof {
                assert(domains_view(self.domain_stats@) =~= upsert_domain(before, domain@, size));
            }
        }
        self.add_event(
            BlockEvent {
                timestamp: now_unix_ns() / 1000000,
                domain: domain.to_owned(),
                blocked: true,
                size,
            },
        );
    }

    /// The first index of `domain` in the table, else its length.
    fn domain_pos(v: &Vec<DomainStats>, domain: &str) -> (r: usize)
        ensures
            r == domain_index_from(domains_view(v@), domain@, 0),
            r <= v@.len(),
            r < v@.len() ==> domains_view(v@)[r as int].domain == domain@,
    {
        let ghost dv = domains_view(v@);
        let n = v.len();
        let mut i: usize = 0;
        while i < n
            invariant
                0 <= i <= n,
                n == v@.len(),
                dv == domains_view(v@),
                domain_index_from(dv, domain@, 0) == domain_index_from(dv, domain@, i as int),
            decreases n - i,
        {
            if crate::text::bytes_eq(v[i].domain.as_str().as_bytes(), domain.as_bytes()) {
                proof {
                    vstd::utf8::encode_utf8_decode_utf8(v@[i as int].domain@);
                    vstd::utf8::encode_utf8_decode_utf8(domain@);
                    assert(dv[i as int].domain == domain@);
                }
                return i;
            }
            proof {
                assert(dv[i as int].domain != domain@);
            }
            i += 1;
        }
        n
    }

    /// Record an allowed request.
    pub fn record_allowed(&mut self, domain: &str, size: u64)
        ensures
            final(self)@.allowed_count == sat_add64(old(self)@.allowed_count, 1),
            final(self)@.blocked_count == old(self)@.blocked_count,
            final(self)@.data_saved == old(self)@.data_saved,
            final(self)@.domain_stats == old(self)@.domain_stats,
            final(self)@.max_recent_events == old(self)@.max_recent_events,
            exists|ts: u64|
                final(self)@.recent_events == push_event(
                    old(self)@.recent_events,
                    EventV { timestamp: ts, domain: domain@, blocked: false, size },
                    old(self)@.max_recent_events,
                ),
    {
        self.allowed_count = if self.allowed_count < u64::MAX {
            self.allowed_count + 1
        } else {
            u64::MAX
        };
        self.add_event(
            BlockEvent {
                timestamp: now_unix_ns() / 1000000,
                domain: domain.to_owned(),
                blocked: false,
                size,
            },
        );
    }

    /// Add an event to the recent list, dropping the oldest past the limit.
    fn add_event(&mut self, event: BlockEvent)
        ensures
            final(self)@.recent_events == push_event(
                old(self)@.recent_events,
                event@,
                old(self)@.max_recent_events,
            ),
            final(self)@.blocked_count == old(self)@.blocked_count,
            final(self)@.allowed_count == old(self)@.allowed_count,
            final(self)@.data_saved == old(self)@.data_saved,
            final(self)@.domain_stats == old(self)@.domain_stats,
            final(self)@.max_recent_events == old(self)@.max_recent_events,
    {
        let ghost before = events_view(self.recent_events@);
        self.recent_events.push(event);
        proof {
            assert(events_view(self.recent_events@) =~= before.push(event@));
        }
        if self.recent_events.len() > self.config.max_recent_events {
            let ghost mid = events_view(self.recent_events@);
            self.recent_events.remove(0);
            proof {
                assert(events_view(self.recent_events@) =~= mid.subrange(1, mid.len() as int));
            }
        }
    }

    /// The top blocked domains, sorted by count (descending) with data
    /// saved as tiebreaker, truncated to `limit` entries.
    pub fn top_blocked_domains(&self, limit: usize) -> (r: Vec<DomainStats>)
        ensures
            domains_view(r@) == sort_desc(self@.domain_stats).subrange(
                0,
                if limit <= self@.domain_stats.len() {
                    limit as int
                } else {
                    self@.domain_stats.len() as int
                },
            ),
    {
        let n = self.domain_stats.len();
        let mut sorted: Vec<DomainStats> = Vec::new();
        let ghost dv = domains_view(self.domain_stats@);
        let mut i: usize = 0;
        proof {
            assert(domains_view(sorted@) =~= sort_desc(dv.subrange(0, 0)));
            assert(dv.subrange(0, 0) =~= Seq::<DomainStatV>::empty());
        }
        while i < n
            invariant
                0 <= i <= n,
                n == self.domain_stats@.len(),
                dv == domains_view(self.domain_stats@),
                sorted@.len() == i,
                domains_view(sorted@) == sort_desc(dv.subrange(0, i as int)),
            decreases n - i,
        {
            let x = self.domain_stats[i].clone();
            let ghost prev = domains_view(sorted@);
            let m = sorted.len();
            let mut p: usize = 0;
            while p < m && !Self::before(&x, &sorted[p])
                invariant
                    0 <= p <= m,
                    m == sorted@.len(),
                    prev == domains_view(sorted@),
                    x@ == dv[i as int],
                    0 <= i < dv.len(),
                    forall|q: int| 0 <= q < p ==> !stat_before(x@, #[trigger] prev[q]),
                decreases m - p,
            {
                p += 1;
            }
            proof {
                lemma_insert_desc_position(prev, x@, p as int);
            }
            sorted.insert(p, x);
            proof {
                assert(domains_view(sorted@) =~= prev.subrange(0, p as int) + seq![dv[i as int]]
                    + prev.subrange(p as int, prev.len() as int));
                assert(dv.subrange(0, i + 1).drop_last() =~= dv.subrange(0, i as int));
                assert(dv.subrange(0, i + 1).last() == dv[i as int]);
                assert(domains_view(sorted@) == sort_desc(dv.subrange(0, i + 1)));
            }
            i += 1;
        }
        proof {
            assert(dv.subrange(0, n as int) =~= dv);
        }
        let keep = if limit <= n {
            limit
        } else {
            n
        };
        let mut r: Vec<DomainStats> = Vec::new();
        let mut k: usize = 0;
        while k < keep
            invariant
                0 <= k <= keep,
                keep <= sorted@.len(),
                r@.len() == k,
                forall|q: int| 0 <= q < k ==> #[trigger] r@[q]@ == domains_view(sorted@)[q],
                domains_view(sorted@) == sort_desc(dv),
                keep == (if limit <= dv.len() {
                    limit as int
                } else {
                    dv.len() as int
                }),
            decreases keep - k,
        {
            r.push(sorted[k].clone());
            k += 1;
        }
        proof {
            assert(domains_view(r@) =~= sort_desc(dv).subrange(
                0,
                if limit <= dv.len() {
                    limit as int
                } else {
                    dv.len() as int
                },
            ));
        }
        r
    }

    /// True when `a` sorts strictly earlier than `b`.
    fn before(a: &DomainStats, b: &DomainStats) -> (r: bool)
        ensures
            r == stat_before(a@, b@),
    {
        a.count > b.count || (a.count == b.count && a.data_saved > b.data_saved)
    }

    /// The most recent `limit` events, newest first.
    pub fn recent_events(&self, limit: usize) -> (r: Vec<BlockEvent>)
        ensures
            r@.len() == (if limit <= self@.recent_events.len() {
                limit as int
            } else {
                self@.recent_events.len() as int
            }),
            forall|q: int|
                0 <= q < r@.len() ==> #[trigger] r@[q]@ == self@.recent_events[self@.recent_events.len()
                    - 1 - q],
    {
        let n = self.recent_events.len();
        let keep = if limit <= n {
            limit
        } else {
            n
        };
        let mut r: Vec<BlockEvent> = Vec::new();
        let mut k: usize = 0;
        while k < keep
            invariant
                0 <= k <= keep,
                keep <= n,
                n == self.recent_events@.len(),
                r@.len() == k,
                forall|q: int|
                    0 <= q < k ==> #[trigger] r@[q]@ == events_view(self.recent_events@)[n - 1
                        - q],
            decreases keep - k,
        {
            r.push(self.recent_events[n - 1 - k].clone());
            k += 1;
        }
        r
    }

    /// Reset all statistics.
    pub fn reset(&mut self)
        ensures
            final(self)@.blocked_count == 0,
            final(self)@.allowed_count == 0,
            final(self)@.data_saved == 0,
            final(self)@.domain_stats == Seq::<DomainStatV>::empty(),
            final(self)@.recent_events == Seq::<EventV>::empty(),
            final(self)@.max_recent_events == old(self)@.max_recent_events,
    {
        self.blocked_count = 0;
        self.allowed_count = 0;
        self.data_saved = 0;
        self.domain_stats = Vec::new();
        self.recent_events = Vec::new();
        proof {
            assert(domains_view(self.domain_stats@) =~= Seq::<DomainStatV>::empty());
            assert(events_view(self.recent_events@) =~= Seq::<EventV>::empty());
        }
    }
}

impl Clone for Statistics {
    /// A deep copy with the same mathematical value.
    fn clone(&self) -> (r: Self)
        ensures
            r@ == self@,
    {
        let mut ds: Vec<DomainStats> = Vec::new();
        let mut i: usize = 0;
        let n = self.domain_stats.len();
        while i < n
            invariant
                0 <= i <= n,
                n == self.domain_stats@.len(),
                ds@.len() == i,
                forall|q: int|
                    0 <= q < i ==> #[trigger] ds@[q]@ == domains_view(self.domain_stats@)[q],
            decreases n - i,
        {
            ds.push(self.domain_stats[i].clone());
            i += 1;
        }
        let mut ev: Vec<BlockEvent> = Vec::new();
        let mut j: usize = 0;
        let m = self.recent_events.len();
        while j < m
            invariant
                0 <= j <= m,
                m == self.recent_events@.len(),
                ev@.len() == j,
                forall|q: int|
                    0 <= q < j ==> #[trigger] ev@[q]@ == events_view(self.recent_events@)[q],
            decreases m - j,
        {
            ev.push(self.recent_events[j].clone());
            j += 1;
        }
        let r = Statistics {
            blocked_count: self.blocked_count,
            allowed_count: self.allowed_count,
            data_saved: self.data_saved,
            domain_stats: ds,
            recent_events: ev,
            config: self.config,
        };
        proof {
            assert(domains_view(r.domain_stats@) =~= domains_view(self.domain_stats@));
            assert(events_view(r.recent_events@) =~= events_view(self.recent_events@));
        }
        r
    }
}

impl Default for Statistics {
    fn default() -> (s: Self)
        ensures
            s@.blocked_count == 0,
            s@.allowed_count == 0,
            s@.data_saved == 0,
            s@.domain_stats == Seq::<DomainStatV>::empty(),
            s@.recent_events == Seq::<EventV>::empty(),
            s@.max_recent_events == 1000,
    {
        Self::new()
    }
}

} // verus!
