//! The filter engine: classification of raw rules, compilation of the
//! literal rules into a multi-pattern automaton, and the block/allow
//! decision procedure with exception precedence and host-boundary
//! validation.
//!
//! The automaton itself is the `aho_corasick` crate, taken on trust behind
//! named results: `ac_patterns` names what an automaton holds, `ac_build_ok`
//! names when construction succeeds, and `ac_hits` names the sequence of
//! `(pattern index, start)` matches that one search reports. Everything the
//! engine does with those hits is verified.

use vstd::prelude::*;
use vstd::string::StringExecFns;
use vstd::string::StringSliceAdditionalSpecFns;
use vstd::utf8::encode_utf8;

use crate::filter_list::filter_lines;
use crate::filter_list::FilterListLoader;
use crate::matching::exception_match;
use crate::matching::match_exception;
use crate::matching::match_subdomain;
use crate::matching::match_wildcard;
use crate::matching::subdomain_match;
use crate::matching::wildcard_match;
use crate::matching::B_CARET;
use crate::matching::B_PIPE;
use crate::matching::B_SLASH;
use crate::matching::B_STAR;
use crate::metrics::PerformanceMetrics;
use crate::text::contains_bytes;
use crate::text::is_match_at;
use crate::text::is_suffix_of;
use crate::text::lemma_after_ascii_byte;
use crate::text::occurs;
use crate::text::split_str_at;
use crate::CoreError;
use crate::Config;

verus! {

pub const B_AT: u8 = 64;

/// Result of a block decision.
#[derive(Debug, Clone, PartialEq)]
pub struct BlockDecision {
    /// Whether the request should be blocked.
    pub should_block: bool,
    /// Optional reason for the decision.
    pub reason: Option<String>,
}

/// The mathematical value of a decision: the outcome and the reason text.
pub struct DecisionV {
    pub should_block: bool,
    pub reason: Option<Seq<char>>,
}

impl View for BlockDecision {
    type V = DecisionV;

    open spec fn view(&self) -> DecisionV {
        DecisionV {
            should_block: self.should_block,
            reason: match self.reason {
                Option::Some(s) => Option::Some(s@),
                Option::None => Option::None,
            },
        }
    }
}

/// Pattern matching statistics.
#[derive(Debug, Clone)]
pub struct PatternStats {
    /// Number of compiled patterns.
    pub compiled_patterns: usize,
    /// Whether the multi-pattern automaton is in use.
    pub uses_aho_corasick: bool,
}

/// The shape of a filter rule.
#[derive(Debug, Clone, Copy, PartialEq, Eq, Structural)]
pub enum RuleKind {
    /// Simple domain blocking: any substring hit blocks.
    Domain,
    /// Pattern with wildcards.
    Wildcard,
    /// Anchored domain rule (the `||domain^` syntax).
    Subdomain,
    /// Exception rule: a match forces "allow".
    Exception,
}

/// Type of filter rule, with the text it matches on.
#[derive(Debug, Clone)]
pub enum FilterRule {
    /// Simple domain blocking (e.g. `doubleclick.net`).
    Domain(String),
    /// Pattern with wildcards (e.g. `*/ads/*`).
    Pattern(String),
    /// Anchored subdomain pattern (e.g. `||domain.com^`, stripped).
    SubdomainPattern(String),
    /// Exception rule (e.g. `@@||example.com/ads/acceptable`, stripped).
    Exception(String),
}

/// The mathematical value of a rule: its kind and its pattern text.
pub struct RuleV {
    pub kind: RuleKind,
    pub pat: Seq<char>,
}

impl View for FilterRule {
    type V = RuleV;

    open spec fn view(&self) -> RuleV {
        match self {
            FilterRule::Domain(s) => RuleV { kind: RuleKind::Domain, pat: s@ },
            FilterRule::Pattern(s) => RuleV { kind: RuleKind::Wildcard, pat: s@ },
            FilterRule::SubdomainPattern(s) => RuleV { kind: RuleKind::Subdomain, pat: s@ },
            FilterRule::Exception(s) => RuleV { kind: RuleKind::Exception, pat: s@ },
        }
    }
}

/// The UTF-8 bytes of a rule's pattern, which the matchers run on.
pub open spec fn pat_bytes(r: RuleV) -> Seq<u8> {
    encode_utf8(r.pat)
}

/// Which kind a raw rule line is classified as.
pub open spec fn rule_kind_of(b: Seq<u8>) -> RuleKind {
    if b.len() >= 2 && b[0] == B_AT && b[1] == B_AT {
        RuleKind::Exception
    } else if b.len() >= 2 && b[0] == B_PIPE && b[1] == B_PIPE {
        if b.len() >= 3 && b.last() == B_CARET {
            RuleKind::Subdomain
        } else {
            RuleKind::Wildcard
        }
    } else if occurs(b, seq![B_STAR]) || (b.len() > 0 && b[0] == B_SLASH && is_suffix_of(
        seq![B_SLASH, B_STAR],
        b,
    )) {
        RuleKind::Wildcard
    } else {
        RuleKind::Domain
    }
}

/// The pattern bytes a raw rule line keeps: exception rules drop the leading
/// `@@`, subdomain rules drop `||` and the trailing `^`, the rest keep the
/// whole line.
pub open spec fn rule_pat_bytes_of(b: Seq<u8>) -> Seq<u8> {
    if b.len() >= 2 && b[0] == B_AT && b[1] == B_AT {
        b.subrange(2, b.len() as int)
    } else if b.len() >= 3 && b[0] == B_PIPE && b[1] == B_PIPE && b.last() == B_CARET {
        b.subrange(2, b.len() - 1)
    } else {
        b
    }
}

/// The rule value that classification of a raw line yields.
pub open spec fn rule_v_of(b: Seq<u8>) -> RuleV {
    RuleV { kind: rule_kind_of(b), pat: vstd::utf8::decode_utf8(rule_pat_bytes_of(b)) }
}

/// The rule values of a sequence of raw lines.
pub open spec fn rules_of_lines(ls: Seq<Seq<u8>>) -> Seq<RuleV> {
    Seq::new(ls.len(), |i: int| rule_v_of(ls[i]))
}

/// Info kept for each literal pattern fed to the automaton, aligned with the
/// automaton's own pattern ordinals.
#[derive(Debug, Clone)]
pub struct PatternInfo {
    pub pattern: String,
    pub rule_type: PatternType,
}

#[derive(Debug, Clone, Copy, PartialEq, Eq, Structural)]
pub enum PatternType {
    Domain,
    Subdomain,
}

impl View for PatternInfo {
    type V = RuleV;

    open spec fn view(&self) -> RuleV {
        RuleV {
            kind: match self.rule_type {
                PatternType::Domain => RuleKind::Domain,
                PatternType::Subdomain => RuleKind::Subdomain,
            },
            pat: self.pattern@,
        }
    }
}

/// The view of a sequence of rules or infos.
pub open spec fn rules_view(rs: Seq<FilterRule>) -> Seq<RuleV> {
    Seq::new(rs.len(), |i: int| rs[i]@)
}

pub open spec fn infos_view(rs: Seq<PatternInfo>) -> Seq<RuleV> {
    Seq::new(rs.len(), |i: int| rs[i]@)
}

/// The literal (Domain / Subdomain) rules among `rules`, from index `i` on,
/// in order: these are the patterns the automaton is built over.
pub open spec fn literal_infos_from(rules: Seq<RuleV>, i: int) -> Seq<RuleV>
    decreases rules.len() - i,
{
    if i < 0 || i >= rules.len() {
        Seq::empty()
    } else if rules[i].kind == RuleKind::Domain || rules[i].kind == RuleKind::Subdomain {
        seq![rules[i]] + literal_infos_from(rules, i + 1)
    } else {
        literal_infos_from(rules, i + 1)
    }
}

/// The byte patterns of a sequence of infos.
pub open spec fn infos_pat_bytes(infos: Seq<RuleV>) -> Seq<Seq<u8>> {
    Seq::new(infos.len(), |i: int| pat_bytes(infos[i]))
}

/// The byte patterns of a vector of strings.
pub open spec fn strs_bytes(ss: Seq<String>) -> Seq<Seq<u8>> {
    Seq::new(ss.len(), |i: int| encode_utf8(ss[i]@))
}

/// The mathematical value of an engine: its rules, the infos the automaton
/// was last compiled over, and whether an automaton is present.
pub struct EngineV {
    pub rules: Seq<RuleV>,
    pub infos: Seq<RuleV>,
    pub compiled: bool,
}

/// The view an engine has right after compiling a rule list.
pub open spec fn compiled_view(rules: Seq<RuleV>) -> EngineV {
    let infos = literal_infos_from(rules, 0);
    EngineV {
        rules,
        infos,
        compiled: infos.len() > 0 && ac_build_ok(infos_pat_bytes(infos)),
    }
}

/// What one automaton holds: the byte patterns it was built over, in order.
pub uninterp spec fn ac_patterns(ac: aho_corasick::AhoCorasick) -> Seq<Seq<u8>>;

/// Whether automaton construction succeeds over the given patterns.
pub uninterp spec fn ac_build_ok(pats: Seq<Seq<u8>>) -> bool;

/// The `(pattern index, start offset)` matches, in reported order, that one
/// standard-semantics automaton search over `hay` yields.
pub uninterp spec fn ac_hits(pats: Seq<Seq<u8>>, hay: Seq<u8>) -> Seq<(int, int)>;

#[verifier::external_type_specification]
#[verifier::external_body]
pub struct ExAhoCorasick(aho_corasick::AhoCorasick);

/// Builds the automaton over the given patterns.
///
/// Relies on aho_corasick::AhoCorasick::new: it builds a standard-semantics
/// automaton over exactly the given patterns, in order, and fails only as a
/// deterministic function of the pattern list (its size limits).
#[verifier::external_body]
fn ac_new(patterns: &Vec<String>) -> (r: Option<aho_corasick::AhoCorasick>)
    ensures
        r is Some <==> ac_build_ok(strs_bytes(patterns@)),
        r matches Some(ac) ==> ac_patterns(ac) == strs_bytes(patterns@),
{
    aho_corasick::AhoCorasick::new(patterns).ok()
}

/// One hit reported by the automaton.
struct AcHit {
    pattern: usize,
    start: usize,
}

/// Runs one search and collects every reported match.
///
/// Relies on aho_corasick::AhoCorasick::find_iter: it reports non-overlapping
/// matches in scan order; every reported match is a real occurrence of the
/// identified pattern at the reported offset; and it reports no match if and
/// only if no pattern occurs in the haystack at all (the `is_match`
/// contract). The reported sequence is a function of the pattern list and
/// the haystack alone.
#[verifier::external_body]
fn ac_find_all(ac: &aho_corasick::AhoCorasick, hay: &str) -> (r: Vec<AcHit>)
    ensures
        Seq::new(r@.len(), |k: int| (r@[k].pattern as int, r@[k].start as int)) == ac_hits(
            ac_patterns(*ac),
            hay.spec_bytes(),
        ),
        forall|k: int|
            0 <= k < r@.len() ==> 0 <= (#[trigger] r@[k]).pattern < ac_patterns(*ac).len()
                && is_match_at(
                hay.spec_bytes(),
                ac_patterns(*ac)[r@[k].pattern as int],
                r@[k].start as int,
            ),
        r@.len() == 0 ==> forall|pi: int|
            0 <= pi < ac_patterns(*ac).len() ==> !occurs(
                hay.spec_bytes(),
                #[trigger] ac_patterns(*ac)[pi],
            ),
{
    ac.find_iter(hay).map(
        |m: aho_corasick::Match| AcHit { pattern: m.pattern().as_usize(), start: m.start() },
    ).collect()
}

/// The reason the first matching exception rule (from index `i` on) gives,
/// if any.
pub open spec fn exception_reason_from(rules: Seq<RuleV>, url: Seq<u8>, i: int) -> Option<
    Seq<char>,
>
    decreases rules.len() - i,
{
    if i < 0 || i >= rules.len() {
        Option::None
    } else if rules[i].kind == RuleKind::Exception && exception_match(url, pat_bytes(rules[i])) {
        Option::Some("Whitelisted by exception: "@ + rules[i].pat)
    } else {
        exception_reason_from(rules, url, i + 1)
    }
}

/// The reason the first accepted automaton hit (from hit `j` on) gives, if
/// any: a Domain hit is accepted outright, a Subdomain hit only when the
/// host-boundary condition validates it.
pub open spec fn hit_reason_from(
    infos: Seq<RuleV>,
    hits: Seq<(int, int)>,
    url: Seq<u8>,
    j: int,
) -> Option<Seq<char>>
    decreases hits.len() - j,
{
    if j < 0 || j >= hits.len() {
        Option::None
    } else {
        let pi = hits[j].0;
        if 0 <= pi < infos.len() {
            if infos[pi].kind == RuleKind::Subdomain {
                if subdomain_match(url, pat_bytes(infos[pi])) {
                    Option::Some("Matched subdomain: "@ + infos[pi].pat)
                } else {
                    hit_reason_from(infos, hits, url, j + 1)
                }
            } else {
                Option::Some("Matched ad domain: "@ + infos[pi].pat)
            }
        } else {
            hit_reason_from(infos, hits, url, j + 1)
        }
    }
}

/// The reason the first matching wildcard rule (from index `i` on) gives,
/// if any.
pub open spec fn wildcard_reason_from(rules: Seq<RuleV>, url: Seq<u8>, i: int) -> Option<
    Seq<char>,
>
    decreases rules.len() - i,
{
    if i < 0 || i >= rules.len() {
        Option::None
    } else if rules[i].kind == RuleKind::Wildcard && wildcard_match(url, pat_bytes(rules[i])) {
        Option::Some("Matched pattern: "@ + rules[i].pat)
    } else {
        wildcard_reason_from(rules, url, i + 1)
    }
}

/// The decision an engine makes on `url`, given the hits its automaton
/// reports: the exception pass runs first and forces "allow"; then the
/// automaton hits are validated in reported order; then the wildcard rules
/// run in registration order; otherwise the request passes.
pub open spec fn engine_decision(v: EngineV, hits: Seq<(int, int)>, url: Seq<u8>) -> DecisionV {
    match exception_reason_from(v.rules, url, 0) {
        Option::Some(r) => DecisionV { should_block: false, reason: Option::Some(r) },
        Option::None => match hit_reason_from(v.infos, hits, url, 0) {
            Option::Some(r) => DecisionV { should_block: true, reason: Option::Some(r) },
            Option::None => match wildcard_reason_from(v.rules, url, 0) {
                Option::Some(r) => DecisionV { should_block: true, reason: Option::Some(r) },
                Option::None => DecisionV { should_block: false, reason: Option::None },
            },
        },
    }
}

/// Main filter engine for ad blocking.
pub struct FilterEngine {
    rules: Vec<FilterRule>,
    domain_matcher: Option<aho_corasick::AhoCorasick>,
    pattern_info: Vec<PatternInfo>,
    metrics: PerformanceMetrics,
}

impl View for FilterEngine {
    type V = EngineV;

    closed spec fn view(&self) -> EngineV {
        EngineV {
            rules: rules_view(self.rules@),
            infos: infos_view(self.pattern_info@),
            compiled: self.domain_matcher is Some,
        }
    }
}

impl FilterEngine {
    /// The engine's performance metrics, as a specification value.
    pub closed spec fn spec_metrics(&self) -> PerformanceMetrics {
        self.metrics
    }

    /// The engine's internal invariant: when an automaton is present it was
    /// built over exactly the byte patterns of the info table.
    pub closed spec fn wf(&self) -> bool {
        match self.domain_matcher {
            Option::Some(ac) => ac_patterns(ac) == infos_pat_bytes(self@.infos)
                && self@.infos.len() > 0,
            Option::None => true,
        }
    }

    /// The hits the engine's automaton reports for `url`; none when no
    /// automaton is present.
    pub open spec fn spec_hits(&self, url: Seq<u8>) -> Seq<(int, int)> {
        if self@.compiled {
            ac_hits(infos_pat_bytes(self@.infos), url)
        } else {
            Seq::empty()
        }
    }

    /// Parse a raw rule string into a FilterRule.
    pub fn parse_rule(raw_rule: String) -> (r: FilterRule)
        ensures
            r@.kind == rule_kind_of(encode_utf8(raw_rule@)),
            encode_utf8(r@.pat) == rule_pat_bytes_of(encode_utf8(raw_rule@)),
            r@ == rule_v_of(encode_utf8(raw_rule@)),
    {
        proof {
            vstd::utf8::encode_utf8_valid_utf8(raw_rule@);
            vstd::utf8::encode_utf8_decode_utf8(raw_rule@);
        }
        let st = raw_rule.as_str();
        let b = st.as_bytes();
        let n = b.len();
        if n >= 2 && b[0] == B_AT && b[1] == B_AT {
            proof {
                lemma_after_ascii_byte(st.spec_bytes(), 2);
            }
            let stripped = split_str_at(st, 2).1;
            proof {
                vstd::utf8::encode_utf8_decode_utf8(stripped@);
            }
            FilterRule::Exception(stripped.to_owned())
        } else if n >= 2 && b[0] == B_PIPE && b[1] == B_PIPE {
            if n >= 3 && b[n - 1] == B_CARET {
                proof {
                    lemma_after_ascii_byte(st.spec_bytes(), 2);
                }
                let mid = split_str_at(st, 2).1;
                let domain = split_str_at(mid, mid.as_bytes().len() - 1).0;
                proof {
                    vstd::utf8::encode_utf8_decode_utf8(domain@);
                    assert(domain.spec_bytes() =~= st.spec_bytes().subrange(
                        2,
                        st.spec_bytes().len() - 1,
                    ));
                }
                FilterRule::SubdomainPattern(domain.to_owned())
            } else {
                FilterRule::Pattern(raw_rule)
            }
        } else {
            let star: [u8; 1] = [B_STAR];
            let stars = vstd::array::array_as_slice(&star);
            let tail: [u8; 2] = [B_SLASH, B_STAR];
            let tails = vstd::array::array_as_slice(&tail);
            proof {
                assert(stars@ =~= seq![B_STAR]);
                assert(tails@ =~= seq![B_SLASH, B_STAR]);
            }
            if contains_bytes(b, stars) || (n > 0 && b[0] == B_SLASH
                && crate::text::ends_with_bytes(b, tails)) {
                FilterRule::Pattern(raw_rule)
            } else {
                FilterRule::Domain(raw_rule)
            }
        }
    }

    /// Compile patterns for efficient matching: gather the literal rules
    /// into the info table (aligned with the automaton's pattern ordinals)
    /// and build the automaton over them, leaving it absent when there are
    /// no literal patterns or construction fails.
    pub fn compile_patterns(&mut self)
        ensures
            final(self)@ == compiled_view(old(self)@.rules),
            final(self).wf(),
            final(self).spec_metrics() == (PerformanceMetrics {
                filter_count: old(self)@.rules.len() as usize,
                ..old(self).spec_metrics()
            }),
    {
        let ghost rv = rules_view(self.rules@);
        let mut patterns: Vec<String> = Vec::new();
        let mut info: Vec<PatternInfo> = Vec::new();
        let n = self.rules.len();
        let mut i: usize = 0;
        while i < n
            invariant
                0 <= i <= n,
                n == self.rules@.len(),
                rv == rules_view(self.rules@),
                patterns@.len() == info@.len(),
                forall|k: int|
                    0 <= k < info@.len() ==> encode_utf8(patterns@[k]@) == pat_bytes(
                        #[trigger] infos_view(info@)[k],
                    ),
                literal_infos_from(rv, 0) =~= infos_view(info@) + literal_infos_from(
                    rv,
                    i as int,
                ),
            decreases n - i,
        {
            let ghost old_info = infos_view(info@);
            match &self.rules[i] {
                FilterRule::Domain(d) => {
                    patterns.push(d.clone());
                    info.push(PatternInfo { pattern: d.clone(), rule_type: PatternType::Domain });
                    proof {
                        assert(infos_view(info@) =~= old_info + seq![rv[i as int]]);
                        assert((old_info + seq![rv[i as int]]) + literal_infos_from(
                            rv,
                            i + 1,
                        ) =~= old_info + (seq![rv[i as int]] + literal_infos_from(rv, i + 1)));
                    }
                },
                FilterRule::SubdomainPattern(d) => {
                    patterns.push(d.clone());
                    info.push(
                        PatternInfo { pattern: d.clone(), rule_type: PatternType::Subdomain },
                    );
                    proof {
                        assert(infos_view(info@) =~= old_info + seq![rv[i as int]]);
                        assert((old_info + seq![rv[i as int]]) + literal_infos_from(
                            rv,
                            i + 1,
                        ) =~= old_info + (seq![rv[i as int]] + literal_infos_from(rv, i + 1)));
                    }
                },
                FilterRule::Pattern(_) => {
                    proof {
                        assert(infos_view(info@) =~= old_info);
                    }
                },
                FilterRule::Exception(_) => {
                    proof {
                        assert(infos_view(info@) =~= old_info);
                    }
                },
            }
            i += 1;
        }
        proof {
            assert(literal_infos_from(rv, n as int) =~= Seq::<RuleV>::empty());
            assert(infos_view(info@) =~= literal_infos_from(rv, 0));
            assert(strs_bytes(patterns@) =~= infos_pat_bytes(infos_view(info@)));
        }
        self.pattern_info = info;
        if patterns.len() == 0 {
            self.domain_matcher = None;
        } else {
            self.domain_matcher = ac_new(&patterns);
        }
        let count = self.rules.len();
        self.metrics.set_filter_count(count);
    }

    /// Create a filter engine from a filter list string. Fails exactly when
    /// there are literal patterns and automaton construction fails over
    /// them.
    pub fn from_filter_list(filter_list: &str) -> (r: Result<Self, CoreError>)
        ensures
            ({
                let rules = rules_of_lines(filter_lines(filter_list.spec_bytes()));
                let infos = literal_infos_from(rules, 0);
                &&& (r is Ok <==> (infos.len() == 0 || ac_build_ok(infos_pat_bytes(infos))))
                &&& (r matches Ok(e) ==> e@ == compiled_view(rules) && e.wf())
                &&& (r is Err ==> r->Err_0 == CoreError::Parse)
            }),
    {
        let loader = FilterListLoader::new();
        let raw_rules = match loader.parse_filter_list(filter_list) {
            Ok(v) => v,
            Err(e) => {
                return Err(e);
            },
        };
        let mut engine = Self::from_raw_rules(raw_rules);
        proof {
            let rules = rules_of_lines(filter_lines(filter_list.spec_bytes()));
            assert(engine@.rules =~= rules);
            assert(engine@ == compiled_view(rules));
        }
        if engine.pattern_info.len() > 0 && engine.domain_matcher.is_none() {
            Err(CoreError::Parse)
        } else {
            Ok(engine)
        }
    }

    /// Build an engine by classifying each raw rule line and compiling.
    fn from_raw_rules(raw_rules: Vec<String>) -> (e: Self)
        ensures
            e@ == compiled_view(rules_of_lines(strs_bytes(raw_rules@))),
            e.wf(),
    {
        let mut rules: Vec<FilterRule> = Vec::new();
        let n = raw_rules.len();
        let mut i: usize = 0;
        while i < n
            invariant
                0 <= i <= n,
                n == raw_rules@.len(),
                rules@.len() == i,
                forall|k: int|
                    0 <= k < i ==> rules_view(rules@)[k] == rule_v_of(
                        #[trigger] strs_bytes(raw_rules@)[k],
                    ),
            decreases n - i,
        {
            let r = Self::parse_rule(raw_rules[i].clone());
            rules.push(r);
            i += 1;
        }
        let mut engine = FilterEngine {
            rules,
            domain_matcher: None,
            pattern_info: Vec::new(),
            metrics: PerformanceMetrics::new(),
        };
        proof {
            assert(rules_view(engine.rules@) =~= rules_of_lines(strs_bytes(raw_rules@)));
        }
        engine.compile_patterns();
        engine
    }

    /// Create a new filter engine with the default ad-blocking rules. As
    /// with `new_with_patterns`, the view's `compiled` flag records whether
    /// the automaton was built.
    pub fn new_with_defaults() -> (e: Self)
        ensures
            e@ == compiled_view(default_rules()),
            e.wf(),
    {
        let mut rules: Vec<FilterRule> = Vec::new();
        rules.push(FilterRule::Domain("doubleclick.net".to_owned()));
        rules.push(FilterRule::Domain("googleadservices.com".to_owned()));
        rules.push(FilterRule::Domain("googlesyndication.com".to_owned()));
        rules.push(FilterRule::Domain("facebook.com/tr".to_owned()));
        rules.push(FilterRule::Domain("amazon-adsystem.com".to_owned()));
        let mut engine = FilterEngine {
            rules,
            domain_matcher: None,
            pattern_info: Vec::new(),
            metrics: PerformanceMetrics::new(),
        };
        proof {
            assert(rules_view(engine.rules@) =~= default_rules());
        }
        engine.compile_patterns();
        engine
    }

    /// Create a new filter engine with custom patterns. This constructor is
    /// infallible: the view's `compiled` flag (pinned by `compiled_view`)
    /// records whether the automaton was built, and when construction fails
    /// over a non-empty literal list — a remote size-limit case of the
    /// builder — the automaton is left absent and no literal rule matches.
    /// A caller that must surface that condition uses `from_filter_list`,
    /// which reports it as an error.
    pub fn new_with_patterns(patterns: Vec<String>) -> (e: Self)
        ensures
            e@ == compiled_view(rules_of_lines(strs_bytes(patterns@))),
            e.wf(),
    {
        Self::from_raw_rules(patterns)
    }

    /// Create a new filter engine from configuration, which starts from the
    /// default rule set; further lists are loaded by the host around it.
    pub fn new(config: &Config) -> (r: Result<Self, CoreError>)
        ensures
            r is Ok,
            r matches Ok(e) ==> e@ == compiled_view(default_rules()) && e.wf(),
    {
        let _ = config;
        Ok(Self::new_with_defaults())
    }

    /// Get pattern statistics.
    pub fn get_pattern_stats(&self) -> (s: PatternStats)
        ensures
            s.compiled_patterns == self@.rules.len(),
            s.uses_aho_corasick == self@.compiled,
    {
        PatternStats {
            compiled_patterns: self.rules.len(),
            uses_aho_corasick: self.domain_matcher.is_some(),
        }
    }

    /// Add a single raw rule to the engine without recompiling; the
    /// automaton keeps serving the previously compiled literal patterns
    /// until `build_domain_matcher` runs.
    pub fn add_rule(&mut self, rule: &str)
        requires
            old(self).wf(),
        ensures
            final(self).wf(),
            final(self)@.rules == old(self)@.rules + seq![
                rule_v_of(encode_utf8(rule@)),
            ],
            final(self)@.infos == old(self)@.infos,
            final(self)@.compiled == old(self)@.compiled,
            final(self).spec_metrics() == old(self).spec_metrics(),
    {
        let parsed = Self::parse_rule(rule.to_owned());
        self.rules.push(parsed);
        proof {
            assert(rules_view(self.rules@) =~= rules_view(old(self).rules@) + seq![
                rule_v_of(encode_utf8(rule@)),
            ]);
            assert(infos_view(self.pattern_info@) == infos_view(old(self).pattern_info@));
        }
    }

    /// Rebuild the domain matcher (alias for compile_patterns).
    pub fn build_domain_matcher(&mut self)
        ensures
            final(self)@ == compiled_view(old(self)@.rules),
            final(self).wf(),
            final(self).spec_metrics() == (PerformanceMetrics {
                filter_count: old(self)@.rules.len() as usize,
                ..old(self).spec_metrics()
            }),
    {
        self.compile_patterns();
    }

    /// Load rules from EasyList format content: every kept line is added
    /// and the automaton is rebuilt. Fails exactly when the rebuilt literal
    /// pattern list is non-empty and automaton construction fails over it.
    pub fn load_easylist_rules(&mut self, content: &str) -> (r: Result<(), CoreError>)
        requires
            old(self).wf(),
        ensures
            final(self).wf(),
            final(self)@ == compiled_view(
                old(self)@.rules + rules_of_lines(filter_lines(content.spec_bytes())),
            ),
            r is Ok <==> (final(self)@.infos.len() == 0 || ac_build_ok(
                infos_pat_bytes(final(self)@.infos),
            )),
    {
        let loader = FilterListLoader::new();
        let raw_rules = match loader.parse_filter_list(content) {
            Ok(v) => v,
            Err(e) => {
                return Err(e);
            },
        };
        let ghost added = rules_of_lines(filter_lines(content.spec_bytes()));
        let n = raw_rules.len();
        let mut i: usize = 0;
        while i < n
            invariant
                0 <= i <= n,
                self.wf(),
                n == raw_rules@.len(),
                raw_rules@.len() == added.len(),
                forall|k: int|
                    0 <= k < added.len() ==> added[k] == rule_v_of(
                        encode_utf8(#[trigger] raw_rules@[k]@),
                    ),
                self@.rules =~= old(self)@.rules + added.subrange(0, i as int),
                self@.infos == old(self)@.infos,
                self.spec_metrics() == old(self).spec_metrics(),
            decreases n - i,
        {
            let ghost before = self@.rules;
            let r = Self::parse_rule(raw_rules[i].clone());
            self.rules.push(r);
            proof {
                assert(rules_view(self.rules@) =~= before + seq![rule_v_of(
                    encode_utf8(raw_rules@[i as int]@),
                )]);
                assert(self@.rules =~= old(self)@.rules + added.subrange(0, i + 1));
                assert(infos_view(self.pattern_info@) == old(self)@.infos);
            }
            i += 1;
        }
        proof {
            assert(added.subrange(0, added.len() as int) =~= added);
        }
        self.build_domain_matcher();
        if self.pattern_info.len() > 0 && self.domain_matcher.is_none() {
            Err(CoreError::Parse)
        } else {
            Ok(())
        }
    }

    /// Check if a URL matches a subdomain pattern.
    fn matches_subdomain(&self, url: &str, domain: &str) -> (r: bool)
        ensures
            r == subdomain_match(url.spec_bytes(), domain.spec_bytes()),
    {
        match_subdomain(url.as_bytes(), domain.as_bytes())
    }

    /// Check if a URL matches a wildcard pattern.
    fn matches_wildcard_pattern(&self, url: &str, pattern: &str) -> (r: bool)
        ensures
            r == wildcard_match(url.spec_bytes(), pattern.spec_bytes()),
    {
        match_wildcard(url.as_bytes(), pattern.as_bytes())
    }

    /// Check if a URL matches an exception pattern.
    fn matches_exception_pattern(&self, url: &str, pattern: &str) -> (r: bool)
        ensures
            r == exception_match(url.spec_bytes(), pattern.spec_bytes()),
    {
        match_exception(url.as_bytes(), pattern.as_bytes())
    }

    /// Check the automaton's hits against the info table, in reported
    /// order; the first accepted hit yields the blocking decision.
    fn check_aho_corasick_matches(&self, url: &str) -> (r: Option<BlockDecision>)
        requires
            self.wf(),
        ensures
            ({
                let hr = hit_reason_from(
                    self@.infos,
                    self.spec_hits(url.spec_bytes()),
                    url.spec_bytes(),
                    0,
                );
                match r {
                    Option::Some(d) => d@.should_block && d@.reason == hr && hr is Some,
                    Option::None => hr is None,
                }
            }),
    {
        let matcher = match &self.domain_matcher {
            None => {
                return None;
            },
            Some(m) => m,
        };
        let hits = ac_find_all(matcher, url);
        let ghost hv = self.spec_hits(url.spec_bytes());
        proof {
            assert(hv == Seq::new(
                hits@.len(),
                |k: int| (hits@[k].pattern as int, hits@[k].start as int),
            ));
        }
        let m = hits.len();
        let mut j: usize = 0;
        while j < m
            invariant
                0 <= j <= m,
                m == hits@.len(),
                self.wf(),
                self@.compiled,
                hv == self.spec_hits(url.spec_bytes()),
                hv.len() == hits@.len(),
                forall|k: int|
                    0 <= k < hits@.len() ==> 0 <= (#[trigger] hits@[k]).pattern
                        < self@.infos.len(),
                forall|k: int|
                    0 <= k < hits@.len() ==> hv[k] == (
                        (#[trigger] hits@[k]).pattern as int,
                        hits@[k].start as int,
                    ),
                hit_reason_from(self@.infos, hv, url.spec_bytes(), 0) == hit_reason_from(
                    self@.infos,
                    hv,
                    url.spec_bytes(),
                    j as int,
                ),
            decreases m - j,
        {
            let pi = hits[j].pattern;
            let info = &self.pattern_info[pi];
            proof {
                assert(info@ == self@.infos[pi as int]);
            }
            match info.rule_type {
                PatternType::Subdomain => {
                    if self.matches_subdomain(url, info.pattern.as_str()) {
                        let reason = reason_text("Matched subdomain: ", info.pattern.as_str());
                        return Some(BlockDecision { should_block: true, reason: Some(reason) });
                    }
                },
                PatternType::Domain => {
                    let reason = reason_text("Matched ad domain: ", info.pattern.as_str());
                    return Some(BlockDecision { should_block: true, reason: Some(reason) });
                },
            }
            j += 1;
        }
        None
    }

    /// Check if a URL should be blocked.
    pub fn should_block(&self, url: &str) -> (d: BlockDecision)
        requires
            self.wf(),
        ensures
            d@ == engine_decision(self@, self.spec_hits(url.spec_bytes()), url.spec_bytes()),
    {
        let ghost ub = url.spec_bytes();
        let n = self.rules.len();
        let mut i: usize = 0;
        while i < n
            invariant
                0 <= i <= n,
                n == self.rules@.len(),
                exception_reason_from(self@.rules, ub, 0) == exception_reason_from(
                    self@.rules,
                    ub,
                    i as int,
                ),
                ub == url.spec_bytes(),
            decreases n - i,
        {
            proof {
                assert(self@.rules[i as int] == self.rules@[i as int]@);
            }
            match &self.rules[i] {
                FilterRule::Exception(pattern) => {
                    if self.matches_exception_pattern(url, pattern.as_str()) {
                        let reason = reason_text("Whitelisted by exception: ", pattern.as_str());
                        return BlockDecision { should_block: false, reason: Some(reason) };
                    }
                },
                _ => {},
            }
            i += 1;
        }
        if let Some(decision) = self.check_aho_corasick_matches(url) {
            return decision;
        }
        let mut i: usize = 0;
        while i < n
            invariant
                0 <= i <= n,
                n == self.rules@.len(),
                exception_reason_from(self@.rules, ub, 0) is None,
                hit_reason_from(self@.infos, self.spec_hits(ub), ub, 0) is None,
                wildcard_reason_from(self@.rules, ub, 0) == wildcard_reason_from(
                    self@.rules,
                    ub,
                    i as int,
                ),
                ub == url.spec_bytes(),
                self.wf(),
            decreases n - i,
        {
            proof {
                assert(self@.rules[i as int] == self.rules@[i as int]@);
            }
            match &self.rules[i] {
                FilterRule::Pattern(pattern) => {
                    if self.matches_wildcard_pattern(url, pattern.as_str()) {
                        let reason = reason_text("Matched pattern: ", pattern.as_str());
                        return BlockDecision { should_block: true, reason: Some(reason) };
                    }
                },
                _ => {},
            }
            i += 1;
        }
        BlockDecision { should_block: false, reason: None }
    }

    /// Fold one decision's outcome and processing latency into the
    /// engine's own metrics; the compiled state is untouched.
    pub fn record_decision(&mut self, blocked: bool, time_ns: u64)
        ensures
            final(self)@ == old(self)@,
            final(self).wf() == old(self).wf(),
            final(self).spec_metrics() == crate::metrics::recorded(
                old(self).spec_metrics(),
                blocked,
                time_ns,
            ),
    {
        self.metrics.record_request(blocked, time_ns);
    }

    /// Get the performance metrics.
    pub fn get_metrics(&self) -> (m: &PerformanceMetrics)
        ensures
            *m == self.spec_metrics(),
    {
        &self.metrics
    }

    /// Reset the performance metrics.
    pub fn reset_metrics(&mut self)
        ensures
            final(self)@ == old(self)@,
            final(self).wf() == old(self).wf(),
            final(self).spec_metrics().total_requests == 0,
            final(self).spec_metrics().blocked_requests == 0,
            final(self).spec_metrics().allowed_requests == 0,
    {
        self.metrics.reset();
    }
}

/// The default ad-blocking rule set.
pub open spec fn default_rules() -> Seq<RuleV> {
    seq![
        RuleV { kind: RuleKind::Domain, pat: "doubleclick.net"@ },
        RuleV { kind: RuleKind::Domain, pat: "googleadservices.com"@ },
        RuleV { kind: RuleKind::Domain, pat: "googlesyndication.com"@ },
        RuleV { kind: RuleKind::Domain, pat: "facebook.com/tr"@ },
        RuleV { kind: RuleKind::Domain, pat: "amazon-adsystem.com"@ },
    ]
}

/// A reason string: a fixed prefix followed by the pattern text.
fn reason_text(prefix: &str, pattern: &str) -> (r: String)
    ensures
        r@ == prefix@ + pattern@,
{
    let mut s = String::from_str(prefix);
    s.append(pattern);
    s
}

/// Compilation is deterministic: two engines compiled from the same rule
/// list have equal views, and so make the same decision on every URL,
/// whatever single hit sequence their (shared) pattern list yields.
pub proof fn lemma_compile_deterministic(v1: EngineV, v2: EngineV, url: Seq<u8>)
    requires
        v1 == compiled_view(v1.rules),
        v2 == compiled_view(v2.rules),
        v1.rules == v2.rules,
    ensures
        v1 == v2,
        engine_decision(v1, ac_hits(infos_pat_bytes(v1.infos), url), url) == engine_decision(
            v2,
            ac_hits(infos_pat_bytes(v2.infos), url),
            url,
        ),
{
}

/// A URL whose host the anchor matches holds the domain text somewhere.
proof fn lemma_subdomain_match_occurs(url: Seq<u8>, db: Seq<u8>)
    requires
        subdomain_match(url, db),
    ensures
        occurs(url, db),
{
    crate::text::lemma_first_occurrence_is_match(url, crate::matching::scheme_sep(), 0);
    let a = crate::text::first_occurrence_from(url, crate::matching::scheme_sep(), 0) + 3;
    let e = crate::text::byte_index_from(url, B_SLASH, a);
    crate::text::lemma_byte_index_from(url, B_SLASH, a);
    let h = crate::matching::host_of(url);
    if h == db {
        assert(is_match_at(url, db, a)) by {
            assert(url.subrange(a, a + db.len()) =~= h);
        }
        assert(0 <= a && is_match_at(url, db, a));
    } else {
        let dd = seq![crate::matching::B_DOT] + db;
        assert(crate::text::is_suffix_of(dd, h));
        assert(occurs(h, db)) by {
            assert(is_match_at(h, db, h.len() - db.len())) by {
                assert(h.subrange(h.len() - dd.len(), h.len() as int) == dd);
                assert(h.subrange(h.len() - db.len(), h.len() as int) =~= dd.subrange(
                    1,
                    dd.len() as int,
                ));
                assert(dd.subrange(1, dd.len() as int) =~= db);
            }
            assert(0 <= h.len() - db.len() && is_match_at(h, db, h.len() - db.len()));
        }
        crate::text::lemma_occurs_in_subrange(url, a, e, db);
    }
}

/// When a lone anchored rule's host condition fails, no automaton hit is
/// ever accepted.
proof fn lemma_single_subdomain_no_hit(
    infos: Seq<RuleV>,
    hits: Seq<(int, int)>,
    url: Seq<u8>,
    j: int,
)
    requires
        0 <= j,
        infos.len() == 1,
        infos[0].kind == RuleKind::Subdomain,
        !subdomain_match(url, pat_bytes(infos[0])),
    ensures
        hit_reason_from(infos, hits, url, j) is None,
    decreases hits.len() - j,
{
    if j < hits.len() {
        lemma_single_subdomain_no_hit(infos, hits, url, j + 1);
    }
}

/// The anchored-domain law: an engine holding exactly one `||d^` rule
/// blocks a URL precisely when the URL's host equals `d` or ends with
/// `"." + d`, for any hit sequence that is sound for the pattern list and
/// empty only when `d` occurs nowhere in the URL (which is what the
/// automaton search reports).
pub proof fn lemma_subdomain_anchor_decides(
    v: EngineV,
    hits: Seq<(int, int)>,
    url: Seq<u8>,
    d: Seq<char>,
)
    requires
        v.rules == seq![RuleV { kind: RuleKind::Subdomain, pat: d }],
        v.infos == literal_infos_from(v.rules, 0),
        forall|k: int| 0 <= k < hits.len() ==> 0 <= (#[trigger] hits[k]).0 < v.infos.len(),
        hits.len() == 0 ==> !occurs(url, encode_utf8(d)),
    ensures
        engine_decision(v, hits, url).should_block == subdomain_match(url, encode_utf8(d)),
{
    let r = RuleV { kind: RuleKind::Subdomain, pat: d };
    assert(literal_infos_from(v.rules, 1) =~= Seq::<RuleV>::empty());
    assert(v.infos =~= seq![r]);
    assert(exception_reason_from(v.rules, url, 1) is None);
    assert(exception_reason_from(v.rules, url, 0) is None);
    assert(wildcard_reason_from(v.rules, url, 1) is None);
    assert(wildcard_reason_from(v.rules, url, 0) is None);
    let db = encode_utf8(d);
    if subdomain_match(url, db) {
        lemma_subdomain_match_occurs(url, db);
        assert(hits.len() > 0);
        assert(hits[0].0 == 0);
        assert(hit_reason_from(v.infos, hits, url, 0) is Some);
    } else {
        lemma_single_subdomain_no_hit(v.infos, hits, url, 0);
    }
}

/// The host of `"https://" + h + "/" + rest` is exactly `h`, for any host
/// text free of slashes and colons.
pub proof fn lemma_host_of_assembled(h: Seq<u8>, rest: Seq<u8>)
    requires
        forall|j: int| 0 <= j < h.len() ==> h[j] != B_SLASH && h[j] != 58u8,
    ensures
        ({
            let url = encode_utf8("https://"@) + h + seq![B_SLASH] + rest;
            crate::matching::has_scheme(url) && crate::matching::host_of(url) == h
        }),
{
    reveal_strlit("https://");
    assert(vstd::utf8::is_ascii_chars("https://"@));
    vstd::utf8::is_ascii_chars_encode_utf8("https://"@);
    let pre = encode_utf8("https://"@);
    assert(pre.len() == 8);
    assert(pre[0] == 104 && pre[1] == 116 && pre[2] == 116 && pre[3] == 112 && pre[4] == 115
        && pre[5] == 58 && pre[6] == 47 && pre[7] == 47);
    let url = pre + h + seq![B_SLASH] + rest;
    let sep = crate::matching::scheme_sep();
    assert(is_match_at(url, sep, 5)) by {
        assert(url.subrange(5, 8) =~= sep);
    }
    assert(forall|j: int| 0 <= j < 5 ==> !is_match_at(url, sep, j)) by {
        assert forall|j: int| 0 <= j < 5 implies !is_match_at(url, sep, j) by {
            if is_match_at(url, sep, j) {
                assert(url.subrange(j, j + 3)[0] == url[j]);
                assert(url[j] == 58);
            }
        }
    }
    crate::text::lemma_first_occurrence(url, sep, 0, 5);
    assert(0 <= 5 && is_match_at(url, sep, 5));
    assert(forall|j: int| 8 <= j < 8 + h.len() ==> url[j] == h[j - 8] && url[j] != B_SLASH);
    assert(url[8 + h.len() as int] == B_SLASH);
    crate::text::lemma_byte_index_pin(url, B_SLASH, 8, 8 + h.len() as int);
    assert(crate::matching::host_of(url) =~= h);
}

/// The anchored-domain law on whole URLs: for every domain `d`, an engine
/// holding exactly the rule `||d^` blocks `https://` + host + `/` + path
/// precisely when the host equals `d` or ends with `"." + d` — so `d`
/// itself and every dot-separated subdomain of it are blocked, while hosts
/// that merely extend `d` at either end are not.
pub proof fn lemma_anchor_rule_on_url(
    v: EngineV,
    hits: Seq<(int, int)>,
    h: Seq<u8>,
    rest: Seq<u8>,
    d: Seq<char>,
)
    requires
        v.rules == seq![RuleV { kind: RuleKind::Subdomain, pat: d }],
        v.infos == literal_infos_from(v.rules, 0),
        forall|j: int| 0 <= j < h.len() ==> h[j] != B_SLASH && h[j] != 58u8,
        forall|k: int| 0 <= k < hits.len() ==> 0 <= (#[trigger] hits[k]).0 < v.infos.len(),
        hits.len() == 0 ==> !occurs(
            encode_utf8("https://"@) + h + seq![B_SLASH] + rest,
            encode_utf8(d),
        ),
    ensures
        ({
            let url = encode_utf8("https://"@) + h + seq![B_SLASH] + rest;
            engine_decision(v, hits, url).should_block == (h == encode_utf8(d) || is_suffix_of(
                seq![crate::matching::B_DOT] + encode_utf8(d),
                h,
            ))
        }),
{
    let url = encode_utf8("https://"@) + h + seq![B_SLASH] + rest;
    lemma_host_of_assembled(h, rest);
    lemma_subdomain_anchor_decides(v, hits, url, d);
}

} // verus!
