//! A verified ad-blocking filter engine.
//!
//! Filter-list text is parsed into typed rules, the literal rules are compiled
//! into a multi-pattern automaton, and every request URL is then answered with
//! a block/allow decision that applies exception precedence, host-boundary
//! validation and wildcard semantics.

pub mod filter_engine;
pub mod filter_list;
pub mod filter_updater;
pub mod matching;
pub mod metrics;
pub mod rules;
pub mod statistics;
pub mod text;
pub mod utils;

pub use filter_engine::BlockDecision;
pub use filter_engine::FilterEngine;
pub use filter_list::FilterListLoader;
pub use filter_updater::FilterUpdater;
pub use filter_updater::UpdateConfig;
pub use statistics::BlockEvent;
pub use statistics::DomainStats;
pub use statistics::Statistics;

use vstd::prelude::*;
use vstd::string::StringSliceAdditionalSpecFns;

use crate::filter_engine::compiled_view;
use crate::filter_engine::default_rules;
use crate::filter_engine::engine_decision;
use crate::filter_engine::rules_of_lines;
use crate::filter_engine::strs_bytes;
use crate::filter_engine::EngineV;
use crate::filter_list::filter_lines;
use crate::metrics::sat_add64;
use crate::statistics::push_event;
use crate::statistics::upsert_domain;
use crate::statistics::EventV;
use crate::statistics::StatsV;
use crate::utils::domain_of;

verus! {

/// The error taxonomy of the core: a construction failure of the pattern
/// automaton, an inconsistency in the rule-options layer, or an input/output
/// failure reported by a caller-side collaborator.
#[derive(Debug, Clone, Copy, PartialEq, Eq, Structural)]
pub enum CoreError {
    /// Malformed automaton input at construction time.
    Parse,
    /// An inconsistent option combination in the rule-options layer.
    Match,
    /// A filter list or cache could not be read.
    Io,
}

impl CoreError {
    /// A short human-readable description of the error.
    pub fn message(&self) -> (m: &'static str)
        ensures
            self is Parse ==> m@ == "filter compilation failed"@,
            self is Match ==> m@ == "inconsistent rule options"@,
            self is Io ==> m@ == "filter source could not be read"@,
    {
        match self {
            CoreError::Parse => "filter compilation failed",
            CoreError::Match => "inconsistent rule options",
            CoreError::Io => "filter source could not be read",
        }
    }
}

/// Core configuration for the ad blocking engine.
#[derive(Debug, Clone)]
pub struct Config {
    /// Enable verbose logging.
    pub debug: bool,
    /// Maximum memory usage in MB.
    pub max_memory_mb: usize,
    /// Rule update interval in seconds.
    pub update_interval: u64,
}

impl Default for Config {
    fn default() -> (c: Self)
        ensures
            !c.debug,
            c.max_memory_mb == 30,
            c.update_interval == 86400,
    {
        Config { debug: false, max_memory_mb: 30, update_interval: 86400 }
    }
}

/// Main entry point for the ad blocking engine: one compiled filter engine
/// together with the statistics it feeds.
pub struct AdBlockCore {
    engine: FilterEngine,
    statistics: Statistics,
    config: Config,
}

impl AdBlockCore {
    /// The engine's internal invariant.
    pub closed spec fn wf(&self) -> bool {
        self.engine.wf()
    }

    /// The compiled engine's mathematical value.
    pub closed spec fn engine_view(&self) -> EngineV {
        self.engine@
    }

    /// The statistics' mathematical value.
    pub closed spec fn stats_view(&self) -> StatsV {
        self.statistics@
    }

    /// The automaton hits the engine's search reports for `url`.
    pub closed spec fn core_hits(&self, url: Seq<u8>) -> Seq<(int, int)> {
        self.engine.spec_hits(url)
    }

    /// The engine's performance metrics.
    pub closed spec fn metrics_view(&self) -> crate::metrics::PerformanceMetrics {
        self.engine.spec_metrics()
    }

    /// Create a new instance with the given configuration, starting from
    /// the default rule set.
    pub fn new(config: Config) -> (r: Result<Self, CoreError>)
        ensures
            r is Ok,
            r matches Ok(c) ==> c.wf() && c.engine_view() == compiled_view(default_rules())
                && c.stats_view().blocked_count == 0 && c.stats_view().allowed_count == 0,
    {
        let engine = match FilterEngine::new(&config) {
            Ok(e) => e,
            Err(e) => {
                return Err(e);
            },
        };
        Ok(AdBlockCore { engine, statistics: Statistics::new(), config })
    }

    /// Create a new instance with custom patterns.
    pub fn with_patterns(patterns: Vec<String>) -> (r: Result<Self, CoreError>)
        ensures
            r is Ok,
            r matches Ok(c) ==> c.wf() && c.engine_view() == compiled_view(
                rules_of_lines(strs_bytes(patterns@)),
            ) && c.stats_view().blocked_count == 0 && c.stats_view().allowed_count == 0,
    {
        let engine = FilterEngine::new_with_patterns(patterns);
        Ok(AdBlockCore { engine, statistics: Statistics::new(), config: Config::default() })
    }

    /// Create a new instance from a filter list. Fails exactly when the
    /// engine's automaton cannot be built over the list's literal patterns.
    pub fn from_filter_list(filter_list: &str) -> (r: Result<Self, CoreError>)
        ensures
            ({
                let rules = rules_of_lines(filter_lines(filter_list.spec_bytes()));
                let infos = crate::filter_engine::literal_infos_from(rules, 0);
                r is Ok <==> (infos.len() == 0 || crate::filter_engine::ac_build_ok(
                    crate::filter_engine::infos_pat_bytes(infos),
                ))
            }),
            r matches Ok(c) ==> c.wf() && c.engine_view() == compiled_view(
                rules_of_lines(filter_lines(filter_list.spec_bytes())),
            ) && c.stats_view().blocked_count == 0 && c.stats_view().allowed_count == 0,
    {
        let engine = match FilterEngine::from_filter_list(filter_list) {
            Ok(e) => e,
            Err(e) => {
                return Err(e);
            },
        };
        Ok(AdBlockCore { engine, statistics: Statistics::new(), config: Config::default() })
    }

    /// Check if a URL should be blocked, track the decision in the
    /// statistics under the URL's domain, and fold its outcome and latency
    /// into the engine's metrics.
    pub fn check_url(&mut self, url: &str, size: u64) -> (d: BlockDecision)
        requires
            old(self).wf(),
        ensures
            final(self).wf(),
            final(self).engine_view() == old(self).engine_view(),
            exists|t: u64|
                final(self).metrics_view() == crate::metrics::recorded(
                    old(self).metrics_view(),
                    d@.should_block,
                    t,
                ),
            d@ == engine_decision(
                old(self).engine_view(),
                old(self).core_hits(url.spec_bytes()),
                url.spec_bytes(),
            ),
            final(self).stats_view().blocked_count == if d@.should_block {
                sat_add64(old(self).stats_view().blocked_count, 1)
            } else {
                old(self).stats_view().blocked_count
            },
            final(self).stats_view().allowed_count == if d@.should_block {
                old(self).stats_view().allowed_count
            } else {
                sat_add64(old(self).stats_view().allowed_count, 1)
            },
            final(self).stats_view().data_saved == if d@.should_block {
                sat_add64(old(self).stats_view().data_saved, size)
            } else {
                old(self).stats_view().data_saved
            },
            final(self).stats_view().domain_stats == if d@.should_block {
                upsert_domain(
                    old(self).stats_view().domain_stats,
                    vstd::utf8::decode_utf8(domain_of(url.spec_bytes())),
                    size,
                )
            } else {
                old(self).stats_view().domain_stats
            },
            exists|ts: u64|
                final(self).stats_view().recent_events == push_event(
                    old(self).stats_view().recent_events,
                    EventV {
                        timestamp: ts,
                        domain: vstd::utf8::decode_utf8(domain_of(url.spec_bytes())),
                        blocked: d@.should_block,
                        size,
                    },
                    old(self).stats_view().max_recent_events,
                ),
    {
        let timer = crate::metrics::PerfTimer::start();
        let decision = self.engine.should_block(url);
        let domain = crate::utils::extract_domain(url);
        proof {
            vstd::utf8::encode_utf8_decode_utf8(domain@);
        }
        let elapsed = timer.elapsed();
        self.engine.record_decision(decision.should_block, elapsed);
        self.track_decision(&decision, domain.as_str(), size);
        proof {
            assert(decision@.should_block == decision.should_block);
            assert(exists|t: u64|
                self.metrics_view() == crate::metrics::recorded(
                    old(self).metrics_view(),
                    decision@.should_block,
                    t,
                )) by {
                assert(self.metrics_view() == crate::metrics::recorded(
                    old(self).metrics_view(),
                    decision@.should_block,
                    elapsed,
                ));
            }
        }
        decision
    }

    /// Track the blocking decision in statistics.
    fn track_decision(&mut self, decision: &BlockDecision, domain: &str, size: u64)
        ensures
            final(self).engine == old(self).engine,
            final(self).config == old(self).config,
            final(self).statistics@.blocked_count == if decision.should_block {
                sat_add64(old(self).statistics@.blocked_count, 1)
            } else {
                old(self).statistics@.blocked_count
            },
            final(self).statistics@.allowed_count == if decision.should_block {
                old(self).statistics@.allowed_count
            } else {
                sat_add64(old(self).statistics@.allowed_count, 1)
            },
            final(self).statistics@.data_saved == if decision.should_block {
                sat_add64(old(self).statistics@.data_saved, size)
            } else {
                old(self).statistics@.data_saved
            },
            final(self).statistics@.domain_stats == if decision.should_block {
                upsert_domain(old(self).statistics@.domain_stats, domain@, size)
            } else {
                old(self).statistics@.domain_stats
            },
            final(self).statistics@.max_recent_events == old(
                self,
            ).statistics@.max_recent_events,
            exists|ts: u64|
                final(self).statistics@.recent_events == push_event(
                    old(self).statistics@.recent_events,
                    EventV {
                        timestamp: ts,
                        domain: domain@,
                        blocked: decision.should_block,
                        size,
                    },
                    old(self).statistics@.max_recent_events,
                ),
    {
        if decision.should_block {
            self.statistics.record_blocked(domain, size);
        } else {
            self.statistics.record_allowed(domain, size);
        }
    }

    /// Get a copy of the current statistics.
    pub fn get_statistics(&self) -> (s: Statistics)
        ensures
            s@ == self.stats_view(),
    {
        self.statistics.clone()
    }

    /// Get a reference to the filter engine.
    pub fn engine(&self) -> (e: &FilterEngine)
        ensures
            e@ == self.engine_view(),
            e.wf() == self.wf(),
    {
        &self.engine
    }
}

} // verus!
