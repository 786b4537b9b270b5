//! Performance counters observing the decision engine: request totals,
//! block/allow counts, and min/max/average processing latency, with a plain
//! snapshot read. Counters saturate instead of wrapping, so they never
//! decrease and never panic.

use vstd::prelude::*;

verus! {

/// `a + b`, stopping at the largest representable value.
pub open spec fn sat_add64(a: u64, b: u64) -> u64 {
    if a + b > u64::MAX {
        u64::MAX
    } else {
        (a + b) as u64
    }
}

/// Reads the wall clock as nanoseconds since the Unix epoch (0 when the
/// clock reads before the epoch).
///
/// Relies on std::time::SystemTime::now; nothing is promised of the value.
#[verifier::external_body]
pub(crate) fn now_unix_ns() -> u64 {
    match std::time::SystemTime::now().duration_since(std::time::UNIX_EPOCH) {
        Ok(d) => d.as_nanos() as u64,
        Err(_) => 0,
    }
}

/// The metrics after one request is folded in: totals bumped, the latency
/// folded into min/max/sum, and the average refreshed; the size figures
/// and remaining counters are untouched.
pub open spec fn recorded(m: PerformanceMetrics, blocked: bool, time_ns: u64) -> PerformanceMetrics {
    PerformanceMetrics {
        total_requests: sat_add64(m.total_requests, 1),
        blocked_requests: if blocked {
            sat_add64(m.blocked_requests, 1)
        } else {
            m.blocked_requests
        },
        allowed_requests: if blocked {
            m.allowed_requests
        } else {
            sat_add64(m.allowed_requests, 1)
        },
        total_processing_time_ns: sat_add64(m.total_processing_time_ns, time_ns),
        avg_processing_time_ns: (sat_add64(m.total_processing_time_ns, time_ns) as int
            / sat_add64(m.total_requests, 1) as int) as u64,
        max_processing_time_ns: if time_ns > m.max_processing_time_ns {
            time_ns
        } else {
            m.max_processing_time_ns
        },
        min_processing_time_ns: if time_ns < m.min_processing_time_ns {
            time_ns
        } else {
            m.min_processing_time_ns
        },
        ..m
    }
}

/// Performance metrics for the ad blocking engine.
#[derive(Debug)]
pub struct PerformanceMetrics {
    pub total_requests: u64,
    pub blocked_requests: u64,
    pub allowed_requests: u64,
    pub total_processing_time_ns: u64,
    pub avg_processing_time_ns: u64,
    pub max_processing_time_ns: u64,
    pub min_processing_time_ns: u64,
    pub filter_count: usize,
    pub memory_usage_bytes: usize,
    pub parse_errors: u64,
    pub match_errors: u64,
    pub cache_hits: u64,
    pub cache_misses: u64,
    pub cache_size: usize,
}

/// Snapshot of performance metrics at a point in time.
#[derive(Debug, Clone)]
pub struct MetricsSnapshot {
    pub total_requests: u64,
    pub blocked_requests: u64,
    pub allowed_requests: u64,
    pub avg_processing_time_ns: u64,
    pub max_processing_time_ns: u64,
    pub min_processing_time_ns: u64,
    pub filter_count: usize,
    pub memory_usage_bytes: usize,
    pub parse_errors: u64,
    pub match_errors: u64,
    pub cache_hits: u64,
    pub cache_misses: u64,
    pub cache_size: usize,
}

impl PerformanceMetrics {
    /// Create a new performance metrics instance. The minimum latency starts
    /// at the largest value so that the first recorded request sets it.
    pub fn new() -> (m: Self)
        ensures
            m.total_requests == 0,
            m.blocked_requests == 0,
            m.allowed_requests == 0,
            m.total_processing_time_ns == 0,
            m.avg_processing_time_ns == 0,
            m.max_processing_time_ns == 0,
            m.min_processing_time_ns == u64::MAX,
            m.filter_count == 0,
            m.memory_usage_bytes == 0,
            m.parse_errors == 0,
            m.match_errors == 0,
            m.cache_hits == 0,
            m.cache_misses == 0,
            m.cache_size == 0,
    {
        PerformanceMetrics {
            total_requests: 0,
            blocked_requests: 0,
            allowed_requests: 0,
            total_processing_time_ns: 0,
            avg_processing_time_ns: 0,
            max_processing_time_ns: 0,
            min_processing_time_ns: u64::MAX,
            filter_count: 0,
            memory_usage_bytes: 0,
            parse_errors: 0,
            match_errors: 0,
            cache_hits: 0,
            cache_misses: 0,
            cache_size: 0,
        }
    }

    /// Record one request: bump the totals, fold the latency into the
    /// min/max/sum, and refresh the derived average.
    pub fn record_request(&mut self, blocked: bool, time_ns: u64)
        ensures
            *final(self) == recorded(*old(self), blocked, time_ns),
    {
        self.total_requests = if self.total_requests < u64::MAX {
            self.total_requests + 1
        } else {
            u64::MAX
        };
        if blocked {
            self.blocked_requests = if self.blocked_requests < u64::MAX {
                self.blocked_requests + 1
            } else {
                u64::MAX
            };
        } else {
            self.allowed_requests = if self.allowed_requests < u64::MAX {
                self.allowed_requests + 1
            } else {
                u64::MAX
            };
        }
        self.total_processing_time_ns = if self.total_processing_time_ns
            <= u64::MAX - time_ns {
            self.total_processing_time_ns + time_ns
        } else {
            u64::MAX
        };
        if time_ns > self.max_processing_time_ns {
            self.max_processing_time_ns = time_ns;
        }
        if time_ns < self.min_processing_time_ns {
            self.min_processing_time_ns = time_ns;
        }
        self.avg_processing_time_ns = self.total_processing_time_ns / self.total_requests;
    }

    /// Record a cache hit.
    pub fn record_cache_hit(&mut self)
        ensures
            final(self).cache_hits == sat_add64(old(self).cache_hits, 1),
            *final(self) == (PerformanceMetrics { cache_hits: final(self).cache_hits, ..*old(self) }),
    {
        self.cache_hits = if self.cache_hits < u64::MAX {
            self.cache_hits + 1
        } else {
            u64::MAX
        };
    }

    /// Record a cache miss.
    pub fn record_cache_miss(&mut self)
        ensures
            final(self).cache_misses == sat_add64(old(self).cache_misses, 1),
            *final(self) == (PerformanceMetrics {
                cache_misses: final(self).cache_misses,
                ..*old(self)
            }),
    {
        self.cache_misses = if self.cache_misses < u64::MAX {
            self.cache_misses + 1
        } else {
            u64::MAX
        };
    }

    /// Update the filter count.
    pub fn set_filter_count(&mut self, count: usize)
        ensures
            *final(self) == (PerformanceMetrics { filter_count: count, ..*old(self) }),
    {
        self.filter_count = count;
    }

    /// Update the memory usage.
    pub fn set_memory_usage(&mut self, bytes: usize)
        ensures
            *final(self) == (PerformanceMetrics { memory_usage_bytes: bytes, ..*old(self) }),
    {
        self.memory_usage_bytes = bytes;
    }

    /// Update the cache size.
    pub fn set_cache_size(&mut self, size: usize)
        ensures
            *final(self) == (PerformanceMetrics { cache_size: size, ..*old(self) }),
    {
        self.cache_size = size;
    }

    /// Record a parse error.
    pub fn record_parse_error(&mut self)
        ensures
            final(self).parse_errors == sat_add64(old(self).parse_errors, 1),
            *final(self) == (PerformanceMetrics {
                parse_errors: final(self).parse_errors,
                ..*old(self)
            }),
    {
        self.parse_errors = if self.parse_errors < u64::MAX {
            self.parse_errors + 1
        } else {
            u64::MAX
        };
    }

    /// Record a match error.
    pub fn record_match_error(&mut self)
        ensures
            final(self).match_errors == sat_add64(old(self).match_errors, 1),
            *final(self) == (PerformanceMetrics {
                match_errors: final(self).match_errors,
                ..*old(self)
            }),
    {
        self.match_errors = if self.match_errors < u64::MAX {
            self.match_errors + 1
        } else {
            u64::MAX
        };
    }

    /// Get a snapshot of the current values; an untouched minimum latency is
    /// reported as 0.
    pub fn snapshot(&self) -> (s: MetricsSnapshot)
        ensures
            s.total_requests == self.total_requests,
            s.blocked_requests == self.blocked_requests,
            s.allowed_requests == self.allowed_requests,
            s.avg_processing_time_ns == self.avg_processing_time_ns,
            s.max_processing_time_ns == self.max_processing_time_ns,
            s.min_processing_time_ns == if self.min_processing_time_ns == u64::MAX {
                0
            } else {
                self.min_processing_time_ns
            },
            s.filter_count == self.filter_count,
            s.memory_usage_bytes == self.memory_usage_bytes,
            s.parse_errors == self.parse_errors,
            s.match_errors == self.match_errors,
            s.cache_hits == self.cache_hits,
            s.cache_misses == self.cache_misses,
            s.cache_size == self.cache_size,
    {
        MetricsSnapshot {
            total_requests: self.total_requests,
            blocked_requests: self.blocked_requests,
            allowed_requests: self.allowed_requests,
            avg_processing_time_ns: self.avg_processing_time_ns,
            max_processing_time_ns: self.max_processing_time_ns,
            min_processing_time_ns: if self.min_processing_time_ns == u64::MAX {
                0
            } else {
                self.min_processing_time_ns
            },
            filter_count: self.filter_count,
            memory_usage_bytes: self.memory_usage_bytes,
            parse_errors: self.parse_errors,
            match_errors: self.match_errors,
            cache_hits: self.cache_hits,
            cache_misses: self.cache_misses,
            cache_size: self.cache_size,
        }
    }

    /// Reset the request, latency, error and cache counters; the filter
    /// count, memory usage and cache size figures are kept.
    pub fn reset(&mut self)
        ensures
            final(self).total_requests == 0,
            final(self).blocked_requests == 0,
            final(self).allowed_requests == 0,
            final(self).total_processing_time_ns == 0,
            final(self).avg_processing_time_ns == 0,
            final(self).max_processing_time_ns == 0,
            final(self).min_processing_time_ns == u64::MAX,
            final(self).parse_errors == 0,
            final(self).match_errors == 0,
            final(self).cache_hits == 0,
            final(self).cache_misses == 0,
            final(self).filter_count == old(self).filter_count,
            final(self).memory_usage_bytes == old(self).memory_usage_bytes,
            final(self).cache_size == old(self).cache_size,
    {
        self.total_requests = 0;
        self.blocked_requests = 0;
        self.allowed_requests = 0;
        self.total_processing_time_ns = 0;
        self.avg_processing_time_ns = 0;
        self.max_processing_time_ns = 0;
        self.min_processing_time_ns = u64::MAX;
        self.parse_errors = 0;
        self.match_errors = 0;
        self.cache_hits = 0;
        self.cache_misses = 0;
    }
}

impl Default for PerformanceMetrics {
    fn default() -> (m: Self)
        ensures
            m.total_requests == 0,
            m.blocked_requests == 0,
            m.min_processing_time_ns == u64::MAX,
    {
        Self::new()
    }
}

/// Performance timer for measuring request processing time.
pub struct PerfTimer {
    start_ns: u64,
}

impl PerfTimer {
    /// Start a new timer at the current clock reading.
    pub fn start() -> Self {
        PerfTimer { start_ns: now_unix_ns() }
    }

    /// Nanoseconds elapsed since the timer started, by the same clock; 0
    /// when the clock moved backwards.
    pub fn elapsed(&self) -> u64 {
        let now = now_unix_ns();
        if now >= self.start_ns {
            now - self.start_ns
        } else {
            0
        }
    }
}

} // verus!
