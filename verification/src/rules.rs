//! The richer rule representation: parsing of EasyList lines into typed
//! rules carrying a `$option` set (content-type flags, first/third-party,
//! domain scope, sitekey), translation of filter patterns into regex text,
//! and the option-aware matcher with its exception-before-block precedence.

use vstd::prelude::*;
use vstd::string::StrSliceExecFns;
use vstd::string::StringSliceAdditionalSpecFns;
use vstd::utf8::decode_utf8;
use vstd::utf8::encode_utf8;

use crate::filter_engine::B_AT;
use crate::filter_list::B_BANG;
use crate::filter_list::B_HASH;
use crate::filter_list::B_LBRACKET;
use crate::filter_list::B_TILDE;
use crate::matching::split_on_byte;
use crate::matching::split_str_on;
use crate::matching::B_CARET;
use crate::matching::B_PIPE;
use crate::matching::B_STAR;
use crate::text::byte_index_from;
use crate::text::bytes_eq;
use crate::text::push_char;
use crate::text::ends_with_bytes;
use crate::text::find_byte_from;
use crate::text::find_from;
use crate::text::first_occurrence_from;
use crate::text::is_prefix_of;
use crate::text::is_suffix_of;
use crate::text::lemma_after_ascii_byte;
use crate::text::lemma_byte_index_from;
use crate::text::occurs;
use crate::text::rbyte_index_upto;
use crate::text::rfind_byte;
use crate::text::split_str_at;
use crate::text::starts_with_bytes;
use crate::text::trim_ascii;
use crate::text::trim_spec;

verus! {

pub const B_RBRACKET: u8 = 93;

pub const B_DOLLAR: u8 = 36;

pub const B_COMMA: u8 = 44;

/// Rule type enumeration.
#[derive(Debug, Clone, Copy, PartialEq, Eq, Structural)]
pub enum RuleType {
    /// Block URL pattern.
    Block,
    /// Allow URL pattern (exception).
    Allow,
    /// Element hiding rule.
    ElementHide,
    /// Content script injection.
    ScriptInject,
}

/// Content types for filtering.
#[derive(Debug, Clone, Copy, PartialEq, Eq, Structural)]
pub enum ContentType {
    Script,
    Image,
    Stylesheet,
    Object,
    XmlHttpRequest,
    Subdocument,
    Document,
    Websocket,
    Media,
    Font,
    Other,
}

/// Rule options and modifiers; absent flags leave the rule unconstrained.
#[derive(Debug)]
pub struct RuleOptions {
    pub third_party: Option<bool>,
    pub first_party: Option<bool>,
    pub script: Option<bool>,
    pub image: Option<bool>,
    pub stylesheet: Option<bool>,
    pub object: Option<bool>,
    pub xmlhttprequest: Option<bool>,
    pub subdocument: Option<bool>,
    pub document: Option<bool>,
    pub websocket: Option<bool>,
    pub webrtc: Option<bool>,
    pub ping: Option<bool>,
    pub media: Option<bool>,
    pub font: Option<bool>,
    pub popup: Option<bool>,
    pub domain: Option<Vec<String>>,
    pub sitekey: Option<String>,
}

/// The mathematical value of an option set.
pub struct OptionsV {
    pub third_party: Option<bool>,
    pub first_party: Option<bool>,
    pub script: Option<bool>,
    pub image: Option<bool>,
    pub stylesheet: Option<bool>,
    pub object: Option<bool>,
    pub xmlhttprequest: Option<bool>,
    pub subdocument: Option<bool>,
    pub document: Option<bool>,
    pub websocket: Option<bool>,
    pub webrtc: Option<bool>,
    pub ping: Option<bool>,
    pub media: Option<bool>,
    pub font: Option<bool>,
    pub popup: Option<bool>,
    pub domain: Option<Seq<Seq<char>>>,
    pub sitekey: Option<Seq<char>>,
}

/// The view of a vector of strings as character sequences.
pub open spec fn strings_view(ss: Seq<String>) -> Seq<Seq<char>> {
    Seq::new(ss.len(), |i: int| ss[i]@)
}

impl View for RuleOptions {
    type V = OptionsV;

    open spec fn view(&self) -> OptionsV {
        OptionsV {
            third_party: self.third_party,
            first_party: self.first_party,
            script: self.script,
            image: self.image,
            stylesheet: self.stylesheet,
            object: self.object,
            xmlhttprequest: self.xmlhttprequest,
            subdocument: self.subdocument,
            document: self.document,
            websocket: self.websocket,
            webrtc: self.webrtc,
            ping: self.ping,
            media: self.media,
            font: self.font,
            popup: self.popup,
            domain: match &self.domain {
                Option::Some(v) => Option::Some(strings_view(v@)),
                Option::None => Option::None,
            },
            sitekey: match &self.sitekey {
                Option::Some(s) => Option::Some(s@),
                Option::None => Option::None,
            },
        }
    }
}

/// The option set with every field absent.
pub open spec fn default_options() -> OptionsV {
    OptionsV {
        third_party: Option::None,
        first_party: Option::None,
        script: Option::None,
        image: Option::None,
        stylesheet: Option::None,
        object: Option::None,
        xmlhttprequest: Option::None,
        subdocument: Option::None,
        document: Option::None,
        websocket: Option::None,
        webrtc: Option::None,
        ping: Option::None,
        media: Option::None,
        font: Option::None,
        popup: Option::None,
        domain: Option::None,
        sitekey: Option::None,
    }
}

impl Default for RuleOptions {
    fn default() -> (o: Self)
        ensures
            o@ == default_options(),
    {
        RuleOptions {
            third_party: None,
            first_party: None,
            script: None,
            image: None,
            stylesheet: None,
            object: None,
            xmlhttprequest: None,
            subdocument: None,
            document: None,
            websocket: None,
            webrtc: None,
            ping: None,
            media: None,
            font: None,
            popup: None,
            domain: None,
            sitekey: None,
        }
    }
}

/// A parsed filter rule.
#[derive(Debug)]
pub struct FilterRule {
    pub rule_type: RuleType,
    pub pattern: String,
    pub domains: Option<Vec<String>>,
    pub options: RuleOptions,
}

/// The mathematical value of a parsed rule.
pub struct FilterRuleV {
    pub rule_type: RuleType,
    pub pattern: Seq<char>,
    pub domains: Option<Seq<Seq<char>>>,
    pub options: OptionsV,
}

impl View for FilterRule {
    type V = FilterRuleV;

    open spec fn view(&self) -> FilterRuleV {
        FilterRuleV {
            rule_type: self.rule_type,
            pattern: self.pattern@,
            domains: match &self.domains {
                Option::Some(v) => Option::Some(strings_view(v@)),
                Option::None => Option::None,
            },
            options: self.options@,
        }
    }
}

#[verifier::opaque]
pub open spec fn flag_slot(t: Seq<u8>) -> Option<(int, bool)> {
    if t == encode_utf8("third-party"@) {
        Option::Some((0int, true))
    } else if t == encode_utf8("~third-party"@) {
        Option::Some((0int, false))
    } else if t == encode_utf8("first-party"@) {
        Option::Some((1int, true))
    } else if t == encode_utf8("~first-party"@) {
        Option::Some((1int, false))
    } else if t == encode_utf8("script"@) {
        Option::Some((2int, true))
    } else if t == encode_utf8("~script"@) {
        Option::Some((2int, false))
    } else if t == encode_utf8("image"@) {
        Option::Some((3int, true))
    } else if t == encode_utf8("~image"@) {
        Option::Some((3int, false))
    } else if t == encode_utf8("stylesheet"@) {
        Option::Some((4int, true))
    } else if t == encode_utf8("~stylesheet"@) {
        Option::Some((4int, false))
    } else if t == encode_utf8("object"@) {
        Option::Some((5int, true))
    } else if t == encode_utf8("~object"@) {
        Option::Some((5int, false))
    } else if t == encode_utf8("xmlhttprequest"@) {
        Option::Some((6int, true))
    } else if t == encode_utf8("~xmlhttprequest"@) {
        Option::Some((6int, false))
    } else if t == encode_utf8("subdocument"@) {
        Option::Some((7int, true))
    } else if t == encode_utf8("~subdocument"@) {
        Option::Some((7int, false))
    } else if t == encode_utf8("document"@) {
        Option::Some((8int, true))
    } else if t == encode_utf8("~document"@) {
        Option::Some((8int, false))
    } else if t == encode_utf8("websocket"@) {
        Option::Some((9int, true))
    } else if t == encode_utf8("~websocket"@) {
        Option::Some((9int, false))
    } else if t == encode_utf8("webrtc"@) {
        Option::Some((10int, true))
    } else if t == encode_utf8("~webrtc"@) {
        Option::Some((10int, false))
    } else if t == encode_utf8("ping"@) {
        Option::Some((11int, true))
    } else if t == encode_utf8("~ping"@) {
        Option::Some((11int, false))
    } else if t == encode_utf8("media"@) {
        Option::Some((12int, true))
    } else if t == encode_utf8("~media"@) {
        Option::Some((12int, false))
    } else if t == encode_utf8("font"@) {
        Option::Some((13int, true))
    } else if t == encode_utf8("~font"@) {
        Option::Some((13int, false))
    } else if t == encode_utf8("popup"@) {
        Option::Some((14int, true))
    } else if t == encode_utf8("~popup"@) {
        Option::Some((14int, false))
    } else {
        Option::None
    }
}

/// The option set with one content/party flag set.
pub open spec fn set_flag(o: OptionsV, s: int, v: bool) -> OptionsV {
    if s == 0 {
        OptionsV { third_party: Option::Some(v), ..o }
    } else if s == 1 {
        OptionsV { first_party: Option::Some(v), ..o }
    } else if s == 2 {
        OptionsV { script: Option::Some(v), ..o }
    } else if s == 3 {
        OptionsV { image: Option::Some(v), ..o }
    } else if s == 4 {
        OptionsV { stylesheet: Option::Some(v), ..o }
    } else if s == 5 {
        OptionsV { object: Option::Some(v), ..o }
    } else if s == 6 {
        OptionsV { xmlhttprequest: Option::Some(v), ..o }
    } else if s == 7 {
        OptionsV { subdocument: Option::Some(v), ..o }
    } else if s == 8 {
        OptionsV { document: Option::Some(v), ..o }
    } else if s == 9 {
        OptionsV { websocket: Option::Some(v), ..o }
    } else if s == 10 {
        OptionsV { webrtc: Option::Some(v), ..o }
    } else if s == 11 {
        OptionsV { ping: Option::Some(v), ..o }
    } else if s == 12 {
        OptionsV { media: Option::Some(v), ..o }
    } else if s == 13 {
        OptionsV { font: Option::Some(v), ..o }
    } else if s == 14 {
        OptionsV { popup: Option::Some(v), ..o }
    } else {
        o
    }
}

/// One `$option` token folded into an option set. Unknown tokens are
/// ignored for forward compatibility; `domain=` fills the pipe-separated
/// scope list (entries trimmed), `sitekey=` the sitekey.
pub open spec fn apply_option(o: OptionsV, t: Seq<u8>) -> OptionsV {
    match flag_slot(t) {
        Option::Some(sv) => set_flag(o, sv.0, sv.1),
        Option::None => if is_prefix_of(encode_utf8("domain="@), t) {
            let rest = t.subrange(7, t.len() as int);
            OptionsV {
                domain: Option::Some(
                    Seq::new(
                        split_on_byte(rest, B_PIPE).len(),
                        |i: int| decode_utf8(trim_spec(split_on_byte(rest, B_PIPE)[i])),
                    ),
                ),
                ..o
            }
        } else if is_prefix_of(encode_utf8("sitekey="@), t) {
            OptionsV { sitekey: Option::Some(decode_utf8(t.subrange(8, t.len() as int))), ..o }
        } else {
            o
        },
    }
}

/// The option set after folding in the first `i` comma-separated tokens
/// (each trimmed).
pub open spec fn options_upto(tokens: Seq<Seq<u8>>, i: int) -> OptionsV
    decreases i,
{
    if i <= 0 || i > tokens.len() {
        default_options()
    } else {
        apply_option(options_upto(tokens, i - 1), trim_spec(tokens[i - 1]))
    }
}

/// The option set an option string parses to.
pub open spec fn options_of(optstr: Seq<u8>) -> OptionsV {
    options_upto(split_on_byte(optstr, B_COMMA), split_on_byte(optstr, B_COMMA).len() as int)
}

/// What a URL rule line (no cosmetic separator) parses to.
pub open spec fn url_rule_of(b: Seq<u8>) -> FilterRuleV {
    let q = rbyte_index_upto(b, B_DOLLAR, b.len() as int);
    let pat = if q >= 0 {
        b.subrange(0, q)
    } else {
        b
    };
    let opts = if q >= 0 {
        options_of(b.subrange(q + 1, b.len() as int))
    } else {
        default_options()
    };
    let stripped = if pat.len() >= 2 && pat[0] == B_AT && pat[1] == B_AT {
        pat.subrange(2, pat.len() as int)
    } else {
        pat
    };
    let rt = if pat.len() >= 2 && pat[0] == B_AT && pat[1] == B_AT {
        RuleType::Allow
    } else {
        RuleType::Block
    };
    FilterRuleV { rule_type: rt, pattern: decode_utf8(stripped), domains: opts.domain, options: opts }
}

/// What an element hiding line parses to: the `#@#` form is an exception
/// (Allow), the `##` form hides; the text before the separator is a
/// comma-separated domain list, the text after it the selector.
pub open spec fn hiding_rule_of(b: Seq<u8>) -> FilterRuleV {
    let exc = occurs(b, seq![B_HASH, B_AT, B_HASH]);
    let sep = if exc {
        seq![B_HASH, B_AT, B_HASH]
    } else {
        seq![B_HASH, B_HASH]
    };
    let p = first_occurrence_from(b, sep, 0);
    let before = b.subrange(0, p);
    let after = b.subrange(p + sep.len(), b.len() as int);
    FilterRuleV {
        rule_type: if exc {
            RuleType::Allow
        } else {
            RuleType::ElementHide
        },
        pattern: decode_utf8(trim_spec(after)),
        domains: if before.len() == 0 {
            Option::None
        } else {
            Option::Some(
                Seq::new(
                    split_on_byte(before, B_COMMA).len(),
                    |i: int| decode_utf8(trim_spec(split_on_byte(before, B_COMMA)[i])),
                ),
            )
        },
        options: default_options(),
    }
}

/// What one raw line parses to: comments, metadata and empty lines yield
/// nothing; cosmetic lines go to the hiding parser, the rest to the URL
/// parser.
pub open spec fn parsed_rule_of(raw: Seq<u8>) -> Option<FilterRuleV> {
    let b = trim_spec(raw);
    if b.len() == 0 || b[0] == B_BANG {
        Option::None
    } else if b[0] == B_LBRACKET && b.last() == B_RBRACKET {
        Option::None
    } else if occurs(b, seq![B_HASH, B_HASH]) || occurs(b, seq![B_HASH, B_AT, B_HASH]) {
        Option::Some(hiding_rule_of(b))
    } else {
        Option::Some(url_rule_of(b))
    }
}

/// One character of a filter pattern, rendered into regex text.
pub open spec fn regex_escape(c: char) -> Seq<char> {
    if c == '*' {
        seq!['.', '*']
    } else if c == '^' {
        seq!['(', '[', '?', '/', '&', '#', ']', '|', '$', ')']
    } else if c == '?' {
        seq!['.']
    } else if c == '.' || c == '+' || c == '(' || c == ')' || c == '[' || c == ']' || c == '{'
        || c == '}' || c == '$' {
        seq!['\\', c]
    } else {
        seq![c]
    }
}

/// The regex text for the pattern characters from `i` on; a final `|`
/// becomes an end anchor.
pub open spec fn regex_body(p: Seq<char>, i: int) -> Seq<char>
    decreases p.len() - i,
{
    if i < 0 || i >= p.len() {
        Seq::empty()
    } else {
        let enc = if p[i] == '|' && i == p.len() - 1 {
            seq!['$']
        } else {
            regex_escape(p[i])
        };
        enc + regex_body(p, i + 1)
    }
}

/// The number of pattern characters a leading anchor consumes.
pub open spec fn regex_anchor_len(p: Seq<char>) -> int {
    if p.len() >= 2 && p[0] == '|' && p[1] == '|' {
        2
    } else if p.len() >= 1 && p[0] == '|' {
        1
    } else {
        0
    }
}

/// The regex text a leading anchor renders to.
pub open spec fn regex_anchor(p: Seq<char>) -> Seq<char> {
    if p.len() >= 2 && p[0] == '|' && p[1] == '|' {
        "^(https?://)?([^/]*\\.)?"@
    } else if p.len() >= 1 && p[0] == '|' {
        seq!['^']
    } else {
        Seq::empty()
    }
}

/// The full regex text of a filter pattern.
pub open spec fn regex_translate(p: Seq<char>) -> Seq<char> {
    regex_anchor(p) + regex_body(p, regex_anchor_len(p))
}

/// What one compiled regex holds: the pattern text it was built from.
pub uninterp spec fn regex_source(re: regex::Regex) -> Seq<char>;

#[verifier::external_type_specification]
#[verifier::external_body]
pub struct ExRegex(regex::Regex);

/// Compiles regex text.
///
/// Relies on regex::Regex::new: a successfully compiled regex keeps exactly
/// the pattern string it was given, which `as_str` hands back.
#[verifier::external_body]
fn regex_new(s: &str) -> (r: Option<regex::Regex>)
    ensures
        r matches Some(re) ==> regex_source(re) == s@,
{
    regex::Regex::new(s).ok()
}

/// Reads a compiled regex's pattern text back.
///
/// Relies on regex::Regex::as_str: it returns the original pattern string.
#[verifier::external_body]
fn regex_as_str(re: &regex::Regex) -> (r: &str)
    ensures
        r@ == regex_source(*re),
{
    re.as_str()
}

/// Rule parser for EasyList format, with a cache of compiled regexes.
pub struct RuleParser {
    compiled_patterns: Vec<(String, regex::Regex)>,
}

impl RuleParser {
    /// Every cached regex was compiled from the translation of its key.
    pub closed spec fn wf(&self) -> bool {
        forall|i: int|
            0 <= i < self.compiled_patterns@.len() ==> regex_source(
                (#[trigger] self.compiled_patterns@[i]).1,
            ) == regex_translate(self.compiled_patterns@[i].0@)
    }

    /// Create a new rule parser.
    pub fn new() -> (p: Self)
        ensures
            p.wf(),
    {
        RuleParser { compiled_patterns: Vec::new() }
    }

    /// Parse a single rule line.
    pub fn parse_rule(&mut self, line: &str) -> (r: Option<FilterRule>)
        requires
            old(self).wf(),
        ensures
            final(self).wf(),
            match r {
                Option::Some(rule) => parsed_rule_of(line.spec_bytes()) == Option::Some(rule@),
                Option::None => parsed_rule_of(line.spec_bytes()) is None,
            },
    {
        let line = trim_ascii(line);
        let b = line.as_bytes();
        let n = b.len();
        if n == 0 || b[0] == B_BANG {
            return None;
        }
        if b[0] == B_LBRACKET && b[n - 1] == B_RBRACKET {
            return None;
        }
        let hide: [u8; 2] = [B_HASH, B_HASH];
        let hides = vstd::array::array_as_slice(&hide);
        let exc: [u8; 3] = [B_HASH, B_AT, B_HASH];
        let excs = vstd::array::array_as_slice(&exc);
        proof {
            assert(hides@ =~= seq![B_HASH, B_HASH]);
            assert(excs@ =~= seq![B_HASH, B_AT, B_HASH]);
        }
        let has_hide = find_from(b, hides, 0).is_some();
        let has_exc = find_from(b, excs, 0).is_some();
        if has_hide || has_exc {
            Some(self.parse_element_hiding_rule(line, has_exc))
        } else {
            Some(self.parse_url_rule(line))
        }
    }

    /// Parse an element hiding rule; `is_exception` says whether the line
    /// holds the `#@#` separator.
    fn parse_element_hiding_rule(&self, line: &str, is_exception: bool) -> (r: FilterRule)
        requires
            is_exception == occurs(line.spec_bytes(), seq![B_HASH, B_AT, B_HASH]),
            is_exception || occurs(line.spec_bytes(), seq![B_HASH, B_HASH]),
        ensures
            r@ == hiding_rule_of(line.spec_bytes()),
    {
        let b = line.as_bytes();
        let hide: [u8; 2] = [B_HASH, B_HASH];
        let hides = vstd::array::array_as_slice(&hide);
        let exc: [u8; 3] = [B_HASH, B_AT, B_HASH];
        let excs = vstd::array::array_as_slice(&exc);
        proof {
            assert(hides@ =~= seq![B_HASH, B_HASH]);
            assert(excs@ =~= seq![B_HASH, B_AT, B_HASH]);
        }
        let seps: &[u8] = if is_exception {
            excs
        } else {
            hides
        };
        let n = b.len();
        let p = match find_from(b, seps, 0) {
            Some(p) => p,
            None => 0,
        };
        proof {
            let lb = line.spec_bytes();
            let w = seps@.len() as int;
            assert(lb.subrange(p as int, p + w)[0] == lb[p as int]);
            assert(lb.subrange(p as int, p + w)[w - 1] == lb[p + w - 1]);
            assert(lb[p as int] == B_HASH && lb[p + w - 1] == B_HASH);
            vstd::utf8::encode_utf8_valid_utf8(line@);
            lemma_after_ascii_byte(lb, p + w);
        }
        let parts = split_str_at(line, p);
        let after = if is_exception {
            split_str_at(line, p + 3).1
        } else {
            split_str_at(line, p + 2).1
        };
        let selector = trim_ascii(after);
        let domains: Option<Vec<String>> = if parts.0.len() == 0 {
            None
        } else {
            Some(Self::split_trimmed(parts.0, B_COMMA))
        };
        proof {
            vstd::utf8::encode_utf8_decode_utf8(selector@);
        }
        FilterRule {
            rule_type: if is_exception {
                RuleType::Allow
            } else {
                RuleType::ElementHide
            },
            pattern: selector.to_owned(),
            domains,
            options: RuleOptions::default(),
        }
    }

    /// Split on a separator and trim each piece.
    fn split_trimmed(s: &str, sep: u8) -> (r: Vec<String>)
        requires
            sep < 0x80,
        ensures
            strings_view(r@) == Seq::new(
                split_on_byte(s.spec_bytes(), sep).len(),
                |i: int| decode_utf8(trim_spec(split_on_byte(s.spec_bytes(), sep)[i])),
            ),
    {
        let pieces = split_str_on(s, sep);
        let mut r: Vec<String> = Vec::new();
        let n = pieces.len();
        let mut i: usize = 0;
        while i < n
            invariant
                0 <= i <= n,
                n == pieces@.len(),
                pieces@.len() == split_on_byte(s.spec_bytes(), sep).len(),
                forall|k: int|
                    0 <= k < n ==> (#[trigger] pieces@[k]).spec_bytes() == split_on_byte(
                        s.spec_bytes(),
                        sep,
                    )[k],
                r@.len() == i,
                forall|k: int|
                    0 <= k < i ==> #[trigger] r@[k]@ == decode_utf8(
                        trim_spec(split_on_byte(s.spec_bytes(), sep)[k]),
                    ),
            decreases n - i,
        {
            let t = trim_ascii(pieces[i]);
            proof {
                vstd::utf8::encode_utf8_decode_utf8(t@);
            }
            r.push(t.to_owned());
            i += 1;
        }
        proof {
            assert(strings_view(r@) =~= Seq::new(
                split_on_byte(s.spec_bytes(), sep).len(),
                |i: int| decode_utf8(trim_spec(split_on_byte(s.spec_bytes(), sep)[i])),
            ));
        }
        r
    }

    /// Parse a URL filtering rule: split a trailing `$options` suffix at
    /// the last `$`, strip an `@@` exception marker, and record the regex
    /// translation of the pattern in the cache.
    fn parse_url_rule(&mut self, line: &str) -> (r: FilterRule)
        requires
            old(self).wf(),
        ensures
            final(self).wf(),
            r@ == url_rule_of(line.spec_bytes()),
    {
        let b = line.as_bytes();
        let n = b.len();
        let (pattern, optstr): (&str, Option<&str>) = match rfind_byte(b, B_DOLLAR) {
            Some(q) => {
                proof {
                    vstd::utf8::encode_utf8_valid_utf8(line@);
                    lemma_after_ascii_byte(line.spec_bytes(), q + 1);
                }
                let parts = split_str_at(line, q);
                let rest = split_str_at(line, q + 1).1;
                (parts.0, Some(rest))
            },
            None => (line, None),
        };
        let options = match optstr {
            Some(o) => Self::parse_options_str(o),
            None => RuleOptions::default(),
        };
        let pb = pattern.as_bytes();
        let (rule_type, pattern) = if pb.len() >= 2 && pb[0] == B_AT && pb[1] == B_AT {
            proof {
                vstd::utf8::encode_utf8_valid_utf8(pattern@);
                lemma_after_ascii_byte(pattern.spec_bytes(), 2);
            }
            (RuleType::Allow, split_str_at(pattern, 2).1)
        } else {
            (RuleType::Block, pattern)
        };
        let _regex_text = self.pattern_to_regex(pattern);
        let domains = Self::clone_domains(&options.domain);
        proof {
            vstd::utf8::encode_utf8_decode_utf8(pattern@);
        }
        FilterRule { rule_type, pattern: pattern.to_owned(), domains, options }
    }

    /// A copy of the domain scope list.
    fn clone_domains(d: &Option<Vec<String>>) -> (r: Option<Vec<String>>)
        ensures
            (match r {
                Option::Some(v) => match d {
                    Option::Some(dv) => strings_view(v@) == strings_view(dv@),
                    Option::None => false,
                },
                Option::None => d is None,
            }),
    {
        match d {
            None => None,
            Some(v) => {
                let mut out: Vec<String> = Vec::new();
                let n = v.len();
                let mut i: usize = 0;
                while i < n
                    invariant
                        0 <= i <= n,
                        n == v@.len(),
                        out@.len() == i,
                        forall|k: int| 0 <= k < i ==> #[trigger] out@[k]@ == v@[k]@,
                    decreases n - i,
                {
                    out.push(v[i].clone());
                    i += 1;
                }
                proof {
                    assert(strings_view(out@) =~= strings_view(v@));
                }
                Some(out)
            },
        }
    }

    /// Parse rule options from the text after the `$`.
    fn parse_options_str(optstr: &str) -> (r: RuleOptions)
        ensures
            r@ == options_of(optstr.spec_bytes()),
    {
        let tokens = split_str_on(optstr, B_COMMA);
        let ghost tv = split_on_byte(optstr.spec_bytes(), B_COMMA);
        let mut options = RuleOptions::default();
        let n = tokens.len();
        let mut i: usize = 0;
        while i < n
            invariant
                0 <= i <= n,
                n == tokens@.len(),
                tokens@.len() == tv.len(),
                forall|k: int| 0 <= k < n ==> (#[trigger] tokens@[k]).spec_bytes() == tv[k],
                options@ == options_upto(tv, i as int),
            decreases n - i,
        {
            let tok = trim_ascii(tokens[i]);
            Self::apply_option_token(&mut options, tok);
            i += 1;
        }
        options
    }

    /// Which flag a token names, if any.
    fn find_flag(t: &[u8]) -> (r: Option<(usize, bool)>)
        ensures
            match r {
                Option::Some(p) => flag_slot(t@) == Option::Some((p.0 as int, p.1)),
                Option::None => flag_slot(t@) is None,
            },
    {
        proof {
            reveal(flag_slot);
        }
        if bytes_eq(t, "third-party".as_bytes()) {
            Some((0, true))
        } else if bytes_eq(t, "~third-party".as_bytes()) {
            Some((0, false))
        } else if bytes_eq(t, "first-party".as_bytes()) {
            Some((1, true))
        } else if bytes_eq(t, "~first-party".as_bytes()) {
            Some((1, false))
        } else if bytes_eq(t, "script".as_bytes()) {
            Some((2, true))
        } else if bytes_eq(t, "~script".as_bytes()) {
            Some((2, false))
        } else if bytes_eq(t, "image".as_bytes()) {
            Some((3, true))
        } else if bytes_eq(t, "~image".as_bytes()) {
            Some((3, false))
        } else if bytes_eq(t, "stylesheet".as_bytes()) {
            Some((4, true))
        } else if bytes_eq(t, "~stylesheet".as_bytes()) {
            Some((4, false))
        } else if bytes_eq(t, "object".as_bytes()) {
            Some((5, true))
        } else if bytes_eq(t, "~object".as_bytes()) {
            Some((5, false))
        } else if bytes_eq(t, "xmlhttprequest".as_bytes()) {
            Some((6, true))
        } else if bytes_eq(t, "~xmlhttprequest".as_bytes()) {
            Some((6, false))
        } else if bytes_eq(t, "subdocument".as_bytes()) {
            Some((7, true))
        } else if bytes_eq(t, "~subdocument".as_bytes()) {
            Some((7, false))
        } else if bytes_eq(t, "document".as_bytes()) {
            Some((8, true))
        } else if bytes_eq(t, "~document".as_bytes()) {
            Some((8, false))
        } else if bytes_eq(t, "websocket".as_bytes()) {
            Some((9, true))
        } else if bytes_eq(t, "~websocket".as_bytes()) {
            Some((9, false))
        } else if bytes_eq(t, "webrtc".as_bytes()) {
            Some((10, true))
        } else if bytes_eq(t, "~webrtc".as_bytes()) {
            Some((10, false))
        } else if bytes_eq(t, "ping".as_bytes()) {
            Some((11, true))
        } else if bytes_eq(t, "~ping".as_bytes()) {
            Some((11, false))
        } else if bytes_eq(t, "media".as_bytes()) {
            Some((12, true))
        } else if bytes_eq(t, "~media".as_bytes()) {
            Some((12, false))
        } else if bytes_eq(t, "font".as_bytes()) {
            Some((13, true))
        } else if bytes_eq(t, "~font".as_bytes()) {
            Some((13, false))
        } else if bytes_eq(t, "popup".as_bytes()) {
            Some((14, true))
        } else if bytes_eq(t, "~popup".as_bytes()) {
            Some((14, false))
        } else {
            None
        }
    }

    /// Set one content/party flag.
    fn store_flag(options: &mut RuleOptions, s: usize, v: bool)
        ensures
            final(options)@ == set_flag(old(options)@, s as int, v),
    {
        if s == 0 {
            options.third_party = Some(v);
        } else if s == 1 {
            options.first_party = Some(v);
        } else if s == 2 {
            options.script = Some(v);
        } else if s == 3 {
            options.image = Some(v);
        } else if s == 4 {
            options.stylesheet = Some(v);
        } else if s == 5 {
            options.object = Some(v);
        } else if s == 6 {
            options.xmlhttprequest = Some(v);
        } else if s == 7 {
            options.subdocument = Some(v);
        } else if s == 8 {
            options.document = Some(v);
        } else if s == 9 {
            options.websocket = Some(v);
        } else if s == 10 {
            options.webrtc = Some(v);
        } else if s == 11 {
            options.ping = Some(v);
        } else if s == 12 {
            options.media = Some(v);
        } else if s == 13 {
            options.font = Some(v);
        } else if s == 14 {
            options.popup = Some(v);
        }
    }

    /// Fold one trimmed option token into the option set.
    fn apply_option_token(options: &mut RuleOptions, tok: &str)
        ensures
            final(options)@ == apply_option(old(options)@, tok.spec_bytes()),
    {
        let t = tok.as_bytes();
        match Self::find_flag(t) {
            Some((s, v)) => {
                Self::store_flag(options, s, v);
            },
            None => {
                if starts_with_bytes(t, "domain=".as_bytes()) {
                    proof {
                        reveal_strlit("domain=");
                        assert(vstd::utf8::is_ascii_chars("domain="@));
                        vstd::utf8::is_ascii_chars_encode_utf8("domain="@);
                        let tb = tok.spec_bytes();
                        let pre = encode_utf8("domain="@);
                        assert(pre.len() == 7);
                        assert(tb.subrange(0, 7)[6] == tb[6]);
                        assert(tb[6] == pre[6]);
                        assert(pre[6] == 0x3d);
                        vstd::utf8::encode_utf8_valid_utf8(tok@);
                        lemma_after_ascii_byte(tb, 7);
                    }
                    let rest = split_str_at(tok, 7).1;
                    options.domain = Some(Self::split_trimmed(rest, B_PIPE));
                } else if starts_with_bytes(t, "sitekey=".as_bytes()) {
                    proof {
                        reveal_strlit("sitekey=");
                        assert(vstd::utf8::is_ascii_chars("sitekey="@));
                        vstd::utf8::is_ascii_chars_encode_utf8("sitekey="@);
                        let tb = tok.spec_bytes();
                        let pre = encode_utf8("sitekey="@);
                        assert(pre.len() == 8);
                        assert(tb.subrange(0, 8)[7] == tb[7]);
                        assert(tb[7] == pre[7]);
                        assert(pre[7] == 0x3d);
                        vstd::utf8::encode_utf8_valid_utf8(tok@);
                        lemma_after_ascii_byte(tb, 8);
                    }
                    let rest = split_str_at(tok, 8).1;
                    proof {
                        vstd::utf8::encode_utf8_decode_utf8(rest@);
                    }
                    options.sitekey = Some(rest.to_owned());
                }
            },
        }
    }

    /// Convert a filter pattern to regex text, compiling and caching the
    /// result; on a cache hit the cached regex's own pattern text is
    /// returned.
    pub fn pattern_to_regex(&mut self, pattern: &str) -> (r: String)
        requires
            old(self).wf(),
        ensures
            final(self).wf(),
            r@ == regex_translate(pattern@),
    {
        let n = self.compiled_patterns.len();
        let mut i: usize = 0;
        while i < n
            invariant
                0 <= i <= n,
                n == self.compiled_patterns@.len(),
                self.wf(),
            decreases n - i,
        {
            if bytes_eq(
                self.compiled_patterns[i].0.as_str().as_bytes(),
                pattern.as_bytes(),
            ) {
                proof {
                    vstd::utf8::encode_utf8_decode_utf8(self.compiled_patterns@[i as int].0@);
                    vstd::utf8::encode_utf8_decode_utf8(pattern@);
                }
                let r = regex_as_str(&self.compiled_patterns[i].1).to_owned();
                return r;
            }
            i += 1;
        }
        let rx = Self::translate(pattern);
        match regex_new(rx.as_str()) {
            Some(re) => {
                let ghost before = self.compiled_patterns@;
                self.compiled_patterns.push((pattern.to_owned(), re));
                proof {
                    assert(forall|k: int|
                        0 <= k < before.len() ==> self.compiled_patterns@[k] == before[k]);
                }
            },
            None => {},
        }
        rx
    }

    /// Render a filter pattern into regex text.
    fn translate(pattern: &str) -> (r: String)
        ensures
            r@ == regex_translate(pattern@),
    {
        let len = pattern.unicode_len();
        let mut out = String::new();
        let start: usize;
        if len >= 2 && pattern.get_char(0) == '|' && pattern.get_char(1) == '|' {
            out.append("^(https?://)?([^/]*\\.)?");
            start = 2;
        } else if len >= 1 && pattern.get_char(0) == '|' {
            out.append("^");
            proof {
                reveal_strlit("^");
                assert("^"@ =~= seq!['^']);
            }
            start = 1;
        } else {
            start = 0;
        }
        proof {
            assert(out@ =~= regex_anchor(pattern@));
            assert(start as int == regex_anchor_len(pattern@));
        }
        let mut i: usize = start;
        while i < len
            invariant
                start <= i <= len,
                len == pattern@.len(),
                out@ + regex_body(pattern@, i as int) == regex_anchor(pattern@) + regex_body(
                    pattern@,
                    start as int,
                ),
            decreases len - i,
        {
            let ghost prev = out@;
            let c = pattern.get_char(i);
            if c == '|' && i == len - 1 {
                push_char(&mut out, '$');
                proof {
                    assert(out@ =~= prev + seq!['$']);
                }
            } else if c == '*' {
                out.append(".*");
                proof {
                    reveal_strlit(".*");
                    assert(".*"@ =~= seq!['.', '*']);
                    assert(out@ =~= prev + regex_escape(c));
                }
            } else if c == '^' {
                out.append("([?/&#]|$)");
                proof {
                    reveal_strlit("([?/&#]|$)");
                    assert("([?/&#]|$)"@ =~= seq![
                        '(',
                        '[',
                        '?',
                        '/',
                        '&',
                        '#',
                        ']',
                        '|',
                        '$',
                        ')',
                    ]);
                    assert(out@ =~= prev + regex_escape(c));
                }
            } else if c == '?' {
                push_char(&mut out, '.');
                proof {
                    assert(out@ =~= prev + regex_escape(c));
                }
            } else if c == '.' || c == '+' || c == '(' || c == ')' || c == '[' || c == ']' || c
                == '{' || c == '}' || c == '$' {
                push_char(&mut out, '\\');
                push_char(&mut out, c);
                proof {
                    assert(out@ =~= prev + regex_escape(c));
                }
            } else {
                push_char(&mut out, c);
                proof {
                    assert(out@ =~= prev + regex_escape(c));
                }
            }
            i += 1;
        }
        proof {
            assert(regex_body(pattern@, len as int) =~= Seq::<char>::empty());
            assert(out@ + Seq::<char>::empty() =~= out@);
        }
        out
    }
}

impl Default for RuleParser {
    fn default() -> (p: Self)
        ensures
            p.wf(),
    {
        Self::new()
    }
}

/// Match options for rule matching.
#[derive(Debug)]
pub struct MatchOptions {
    pub domain: Option<String>,
    pub content_type: ContentType,
    pub is_third_party: bool,
}

/// The mathematical value of a match context.
pub struct MatchOptionsV {
    pub domain: Option<Seq<char>>,
    pub content_type: ContentType,
    pub is_third_party: bool,
}

impl View for MatchOptions {
    type V = MatchOptionsV;

    open spec fn view(&self) -> MatchOptionsV {
        MatchOptionsV {
            domain: match &self.domain {
                Option::Some(s) => Option::Some(s@),
                Option::None => Option::None,
            },
            content_type: self.content_type,
            is_third_party: self.is_third_party,
        }
    }
}

/// `x` with every leading wildcard byte removed.
pub open spec fn trim_lead_stars(x: Seq<u8>) -> Seq<u8>
    decreases x.len(),
{
    if x.len() > 0 && x[0] == B_STAR {
        trim_lead_stars(x.drop_first())
    } else {
        x
    }
}

/// Whether a relevant content-type flag permits the request: an absent
/// flag applies, an explicit `false` rejects.
pub open spec fn content_allowed(o: OptionsV, ct: ContentType) -> bool {
    match ct {
        ContentType::Script => o.script != Option::Some(false),
        ContentType::Image => o.image != Option::Some(false),
        ContentType::Stylesheet => o.stylesheet != Option::Some(false),
        ContentType::Object => o.object != Option::Some(false),
        ContentType::XmlHttpRequest => o.xmlhttprequest != Option::Some(false),
        ContentType::Subdocument => o.subdocument != Option::Some(false),
        ContentType::Document => o.document != Option::Some(false),
        ContentType::Websocket => o.websocket != Option::Some(false),
        ContentType::Media => o.media != Option::Some(false),
        ContentType::Font => o.font != Option::Some(false),
        ContentType::Other => true,
    }
}

/// True when a scope entry is a plain (non-negated) one the page ends
/// with.
pub open spec fn scope_positive(page: Seq<u8>, d: Seq<char>) -> bool {
    let db = encode_utf8(d);
    !(db.len() > 0 && db[0] == B_TILDE) && is_suffix_of(db, page)
}

/// True when a scope entry is a `~`-negated one that vetoes the page: the
/// page ends with the text after the `~`.
pub open spec fn scope_negates(page: Seq<u8>, d: Seq<char>) -> bool {
    let db = encode_utf8(d);
    db.len() > 0 && db[0] == B_TILDE && is_suffix_of(db.subrange(1, db.len() as int), page)
}

/// Whether a domain scope admits the page: the page must end with at least
/// one non-negated entry and with no `~`-negated entry.
pub open spec fn scope_allows(page: Seq<u8>, ds: Seq<Seq<char>>) -> bool {
    (exists|i: int| 0 <= i < ds.len() && #[trigger] scope_positive(page, ds[i])) && (forall|i: int|
        0 <= i < ds.len() ==> !scope_negates(page, #[trigger] ds[i]))
}

/// The option-aware matcher's pattern test: a `||domain^...` pattern is
/// held to the same anchored host-boundary condition as the engine's
/// anchor rules, so the two matchers agree on option-free rules; anything
/// else tests for the pattern with its outer wildcards dropped.
pub open spec fn rm_pattern_match(p: Seq<u8>, url: Seq<u8>) -> bool {
    if is_prefix_of(seq![B_PIPE, B_PIPE], p) && byte_index_from(
        p.subrange(2, p.len() as int),
        B_CARET,
        0,
    ) < p.len() - 2 {
        crate::matching::subdomain_match(
            url,
            p.subrange(2, p.len() as int).subrange(
                0,
                byte_index_from(p.subrange(2, p.len() as int), B_CARET, 0),
            ),
        )
    } else {
        occurs(url, crate::matching::trim_end_stars(trim_lead_stars(p)))
    }
}

/// Whether a rule applies to the request: the domain scope must admit the
/// page (a required scope with no page domain never applies), the
/// content-type flags must permit it, and the pattern must match the URL.
pub open spec fn rule_matches(r: FilterRuleV, url: Seq<u8>, m: MatchOptionsV) -> bool {
    (match r.options.domain {
        Option::None => true,
        Option::Some(ds) => match m.domain {
            Option::Some(page) => scope_allows(encode_utf8(page), ds),
            Option::None => false,
        },
    }) && content_allowed(r.options, m.content_type) && rm_pattern_match(
        encode_utf8(r.pattern),
        url,
    )
}

/// Whether any rule from index `i` on matches.
pub open spec fn any_match_from(
    rules: Seq<FilterRuleV>,
    url: Seq<u8>,
    m: MatchOptionsV,
    i: int,
) -> bool
    decreases rules.len() - i,
{
    if i < 0 || i >= rules.len() {
        false
    } else {
        rule_matches(rules[i], url, m) || any_match_from(rules, url, m, i + 1)
    }
}

/// The option-aware outcome: blocked exactly when no allow rule matches
/// and some block rule does.
pub open spec fn rm_should_block(
    allow: Seq<FilterRuleV>,
    block: Seq<FilterRuleV>,
    url: Seq<u8>,
    m: MatchOptionsV,
) -> bool {
    !any_match_from(allow, url, m, 0) && any_match_from(block, url, m, 0)
}

/// The element-hiding rules (from index `i` on) that apply to a domain: a
/// rule without a domain list is global; one with a list applies when the
/// domain ends with one of its entries.
pub open spec fn ehr_applies(r: FilterRuleV, domain: Seq<u8>) -> bool {
    match r.domains {
        Option::None => true,
        Option::Some(ds) => exists|i: int|
            0 <= i < ds.len() && #[trigger] is_suffix_of(encode_utf8(ds[i]), domain),
    }
}

pub open spec fn ehr_filter_from(rules: Seq<FilterRuleV>, domain: Seq<u8>, i: int) -> Seq<
    FilterRuleV,
>
    decreases rules.len() - i,
{
    if i < 0 || i >= rules.len() {
        Seq::empty()
    } else if ehr_applies(rules[i], domain) {
        seq![rules[i]] + ehr_filter_from(rules, domain, i + 1)
    } else {
        ehr_filter_from(rules, domain, i + 1)
    }
}

/// A matching scope entry witnesses that an element-hiding rule applies.
proof fn lemma_ehr_witness(r: FilterRuleV, domain: Seq<u8>, dsv: Seq<Seq<char>>, i: int)
    requires
        r.domains == Option::Some(dsv),
        0 <= i < dsv.len(),
        is_suffix_of(encode_utf8(dsv[i]), domain),
    ensures
        ehr_applies(r, domain),
{
    let ds = r.domains->Some_0;
    assert(ds == dsv);
    assert(is_suffix_of(encode_utf8(ds[i]), domain));
}

/// With no matching scope entry the rule does not apply.
proof fn lemma_ehr_no_witness(r: FilterRuleV, domain: Seq<u8>, dsv: Seq<Seq<char>>)
    requires
        r.domains == Option::Some(dsv),
        forall|k: int| 0 <= k < dsv.len() ==> !is_suffix_of(encode_utf8(#[trigger] dsv[k]), domain),
    ensures
        !ehr_applies(r, domain),
{
    let ds = r.domains->Some_0;
    assert(ds == dsv);
    assert(forall|k: int|
        0 <= k < ds.len() ==> !is_suffix_of(encode_utf8(#[trigger] ds[k]), domain));
}

/// The view of a rule list.
pub open spec fn rules_list_view(s: Seq<FilterRule>) -> Seq<FilterRuleV> {
    Seq::new(s.len(), |i: int| s[i]@)
}

/// One entry of the domain-scope side index.
pub struct IndexEntry {
    pub is_block: bool,
    pub domain: String,
    pub rule_indices: Vec<usize>,
}

/// The mathematical value of an index entry.
pub struct IndexEntryV {
    pub is_block: bool,
    pub domain: Seq<char>,
    pub rule_indices: Seq<usize>,
}

impl View for IndexEntry {
    type V = IndexEntryV;

    open spec fn view(&self) -> IndexEntryV {
        IndexEntryV {
            is_block: self.is_block,
            domain: self.domain@,
            rule_indices: self.rule_indices@,
        }
    }
}

/// The view of the side index.
pub open spec fn index_view(s: Seq<IndexEntry>) -> Seq<IndexEntryV> {
    Seq::new(s.len(), |i: int| s[i]@)
}

/// The first index-entry position for a key, else the length.
pub open spec fn index_pos_from(s: Seq<IndexEntryV>, is_block: bool, d: Seq<char>, i: int) -> int
    decreases s.len() - i,
{
    if !(0 <= i < s.len()) {
        s.len() as int
    } else if s[i].is_block == is_block && s[i].domain == d {
        i
    } else {
        index_pos_from(s, is_block, d, i + 1)
    }
}

/// The side index after recording `ri` under one key.
pub open spec fn index_upsert(s: Seq<IndexEntryV>, is_block: bool, d: Seq<char>, ri: usize) -> Seq<
    IndexEntryV,
> {
    let i = index_pos_from(s, is_block, d, 0);
    if i < s.len() {
        s.update(
            i,
            IndexEntryV {
                is_block: s[i].is_block,
                domain: s[i].domain,
                rule_indices: s[i].rule_indices.push(ri),
            },
        )
    } else {
        s.push(IndexEntryV { is_block, domain: d, rule_indices: seq![ri] })
    }
}

/// The side index after recording `ri` under the first `k` scope domains.
pub open spec fn index_upsert_all(
    s: Seq<IndexEntryV>,
    is_block: bool,
    ds: Seq<Seq<char>>,
    k: int,
    ri: usize,
) -> Seq<IndexEntryV>
    decreases k,
{
    if k <= 0 || k > ds.len() {
        s
    } else {
        index_upsert(index_upsert_all(s, is_block, ds, k - 1, ri), is_block, ds[k - 1], ri)
    }
}

/// The mathematical value of the matcher.
pub struct MatcherV {
    pub block_rules: Seq<FilterRuleV>,
    pub allow_rules: Seq<FilterRuleV>,
    pub element_hide_rules: Seq<FilterRuleV>,
    pub domain_index: Seq<IndexEntryV>,
}

/// Rule matcher: linear exception-before-block matching over parsed rules,
/// with a domain-keyed side index of scoped rules.
pub struct RuleMatcher {
    block_rules: Vec<FilterRule>,
    allow_rules: Vec<FilterRule>,
    element_hide_rules: Vec<FilterRule>,
    domain_index: Vec<IndexEntry>,
}

impl View for RuleMatcher {
    type V = MatcherV;

    closed spec fn view(&self) -> MatcherV {
        MatcherV {
            block_rules: rules_list_view(self.block_rules@),
            allow_rules: rules_list_view(self.allow_rules@),
            element_hide_rules: rules_list_view(self.element_hide_rules@),
            domain_index: index_view(self.domain_index@),
        }
    }
}

impl RuleMatcher {
    /// Create a new rule matcher.
    pub fn new() -> (m: Self)
        ensures
            m@.block_rules == Seq::<FilterRuleV>::empty(),
            m@.allow_rules == Seq::<FilterRuleV>::empty(),
            m@.element_hide_rules == Seq::<FilterRuleV>::empty(),
            m@.domain_index == Seq::<IndexEntryV>::empty(),
    {
        let m = RuleMatcher {
            block_rules: Vec::new(),
            allow_rules: Vec::new(),
            element_hide_rules: Vec::new(),
            domain_index: Vec::new(),
        };
        proof {
            assert(m@.block_rules =~= Seq::<FilterRuleV>::empty());
            assert(m@.allow_rules =~= Seq::<FilterRuleV>::empty());
            assert(m@.element_hide_rules =~= Seq::<FilterRuleV>::empty());
            assert(m@.domain_index =~= Seq::<IndexEntryV>::empty());
        }
        m
    }

    /// Add a parsed rule: block and allow rules also feed the side index
    /// under their scope domains; script-injection rules are not kept.
    pub fn add_rule(&mut self, rule: FilterRule)
        ensures
            rule.rule_type == RuleType::Block ==> final(self)@ == (MatcherV {
                block_rules: old(self)@.block_rules.push(rule@),
                domain_index: match rule@.options.domain {
                    Option::Some(ds) => index_upsert_all(
                        old(self)@.domain_index,
                        true,
                        ds,
                        ds.len() as int,
                        old(self)@.block_rules.len() as usize,
                    ),
                    Option::None => old(self)@.domain_index,
                },
                ..old(self)@
            }),
            rule.rule_type == RuleType::Allow ==> final(self)@ == (MatcherV {
                allow_rules: old(self)@.allow_rules.push(rule@),
                domain_index: match rule@.options.domain {
                    Option::Some(ds) => index_upsert_all(
                        old(self)@.domain_index,
                        false,
                        ds,
                        ds.len() as int,
                        old(self)@.allow_rules.len() as usize,
                    ),
                    Option::None => old(self)@.domain_index,
                },
                ..old(self)@
            }),
            rule.rule_type == RuleType::ElementHide ==> final(self)@ == (MatcherV {
                element_hide_rules: old(self)@.element_hide_rules.push(rule@),
                ..old(self)@
            }),
            rule.rule_type == RuleType::ScriptInject ==> final(self)@ == old(self)@,
    {
        match rule.rule_type {
            RuleType::Block => {
                let index = self.block_rules.len();
                let ghost rv = rule@;
                self.block_rules.push(rule);
                proof {
                    assert(rules_list_view(self.block_rules@) =~= rules_list_view(
                        old(self).block_rules@,
                    ).push(rv));
                    assert(rules_list_view(self.allow_rules@) =~= old(self)@.allow_rules);
                    assert(rules_list_view(self.element_hide_rules@)
                        =~= old(self)@.element_hide_rules);
                }
                self.update_domain_index(index, true);
            },
            RuleType::Allow => {
                let index = self.allow_rules.len();
                let ghost rv = rule@;
                self.allow_rules.push(rule);
                proof {
                    assert(rules_list_view(self.allow_rules@) =~= rules_list_view(
                        old(self).allow_rules@,
                    ).push(rv));
                    assert(rules_list_view(self.block_rules@) =~= old(self)@.block_rules);
                    assert(rules_list_view(self.element_hide_rules@)
                        =~= old(self)@.element_hide_rules);
                }
                self.update_domain_index(index, false);
            },
            RuleType::ElementHide => {
                let ghost rv = rule@;
                self.element_hide_rules.push(rule);
                proof {
                    assert(rules_list_view(self.element_hide_rules@) =~= rules_list_view(
                        old(self).element_hide_rules@,
                    ).push(rv));
                    assert(rules_list_view(self.block_rules@) =~= old(self)@.block_rules);
                    assert(rules_list_view(self.allow_rules@) =~= old(self)@.allow_rules);
                    assert(index_view(self.domain_index@) =~= old(self)@.domain_index);
                }
            },
            RuleType::ScriptInject => {},
        }
    }

    /// Record a newly added rule's index under each of its scope domains.
    fn update_domain_index(&mut self, rule_index: usize, is_block: bool)
        ensures
            final(self)@ == (MatcherV {
                domain_index: ({
                    let rules = if is_block {
                        old(self)@.block_rules
                    } else {
                        old(self)@.allow_rules
                    };
                    if 0 <= rule_index < rules.len() {
                        match rules[rule_index as int].options.domain {
                            Option::Some(ds) => index_upsert_all(
                                old(self)@.domain_index,
                                is_block,
                                ds,
                                ds.len() as int,
                                rule_index,
                            ),
                            Option::None => old(self)@.domain_index,
                        }
                    } else {
                        old(self)@.domain_index
                    }
                }),
                ..old(self)@
            }),
    {
        let rules = if is_block {
            &self.block_rules
        } else {
            &self.allow_rules
        };
        if rule_index >= rules.len() {
            return ;
        }
        let ds: Vec<String> = match &rules[rule_index].options.domain {
            None => {
                return ;
            },
            Some(d) => Self::clone_strings(d),
        };
        let ghost dsv = strings_view(ds@);
        let n = ds.len();
        let mut k: usize = 0;
        while k < n
            invariant
                0 <= k <= n,
                n == ds@.len(),
                dsv == strings_view(ds@),
                index_view(self.domain_index@) == index_upsert_all(
                    old(self)@.domain_index,
                    is_block,
                    dsv,
                    k as int,
                    rule_index,
                ),
                self.block_rules@ == old(self).block_rules@,
                self.allow_rules@ == old(self).allow_rules@,
                self.element_hide_rules@ == old(self).element_hide_rules@,
            decreases n - k,
        {
            proof {
                assert(dsv[k as int] == ds@[k as int]@);
            }
            self.index_insert(is_block, &ds[k], rule_index);
            k += 1;
        }
    }

    /// A copy of a string list.
    fn clone_strings(v: &Vec<String>) -> (r: Vec<String>)
        ensures
            strings_view(r@) == strings_view(v@),
    {
        let mut out: Vec<String> = Vec::new();
        let n = v.len();
        let mut i: usize = 0;
        while i < n
            invariant
                0 <= i <= n,
                n == v@.len(),
                out@.len() == i,
                forall|k: int| 0 <= k < i ==> #[trigger] out@[k]@ == v@[k]@,
            decreases n - i,
        {
            out.push(v[i].clone());
            i += 1;
        }
        proof {
            assert(strings_view(out@) =~= strings_view(v@));
        }
        out
    }

    /// Record one rule index under one key of the side index.
    fn index_insert(&mut self, is_block: bool, domain: &String, rule_index: usize)
        ensures
            final(self)@ == (MatcherV {
                domain_index: index_upsert(old(self)@.domain_index, is_block, domain@, rule_index),
                ..old(self)@
            }),
            final(self).block_rules == old(self).block_rules,
            final(self).allow_rules == old(self).allow_rules,
            final(self).element_hide_rules == old(self).element_hide_rules,
    {
        let ghost iv = index_view(self.domain_index@);
        let n = self.domain_index.len();
        let mut i: usize = 0;
        while i < n
            invariant
                0 <= i <= n,
                n == self.domain_index@.len(),
                iv == index_view(self.domain_index@),
                self.domain_index@ == old(self).domain_index@,
                self.block_rules == old(self).block_rules,
                self.allow_rules == old(self).allow_rules,
                self.element_hide_rules == old(self).element_hide_rules,
                index_pos_from(iv, is_block, domain@, 0) == index_pos_from(
                    iv,
                    is_block,
                    domain@,
                    i as int,
                ),
            decreases n - i,
        {
            let hit = self.domain_index[i].is_block == is_block && bytes_eq(
                self.domain_index[i].domain.as_str().as_bytes(),
                domain.as_str().as_bytes(),
            );
            if hit {
                proof {
                    vstd::utf8::encode_utf8_decode_utf8(self.domain_index@[i as int].domain@);
                    vstd::utf8::encode_utf8_decode_utf8(domain@);
                    assert(iv[i as int].domain == domain@);
                }
                let mut e = IndexEntry {
                    is_block: self.domain_index[i].is_block,
                    domain: self.domain_index[i].domain.clone(),
                    rule_indices: Self::clone_indices(&self.domain_index[i].rule_indices),
                };
                e.rule_indices.push(rule_index);
                self.domain_index[i] = e;
                proof {
                    assert(index_view(self.domain_index@) =~= index_upsert(
                        iv,
                        is_block,
                        domain@,
                        rule_index,
                    ));
                }
                return ;
            }
            proof {
                assert(!(iv[i as int].is_block == is_block && iv[i as int].domain == domain@));
            }
            i += 1;
        }
        let mut fresh: Vec<usize> = Vec::new();
        fresh.push(rule_index);
        proof {
            assert(fresh@ =~= seq![rule_index]);
        }
        self.domain_index.push(
            IndexEntry { is_block, domain: domain.clone(), rule_indices: fresh },
        );
        proof {
            assert(index_view(self.domain_index@) =~= index_upsert(
                iv,
                is_block,
                domain@,
                rule_index,
            ));
        }
    }

    /// A copy of an index list.
    fn clone_indices(v: &Vec<usize>) -> (r: Vec<usize>)
        ensures
            r@ == v@,
    {
        let mut out: Vec<usize> = Vec::new();
        let n = v.len();
        let mut i: usize = 0;
        while i < n
            invariant
                0 <= i <= n,
                n == v@.len(),
                out@ =~= v@.subrange(0, i as int),
            decreases n - i,
        {
            out.push(v[i]);
            i += 1;
        }
        proof {
            assert(out@ =~= v@);
        }
        out
    }

    /// Check if a URL should be blocked: allow rules are consulted first
    /// and win; then the block rules.
    pub fn should_block(&self, url: &str, options: &MatchOptions) -> (r: bool)
        ensures
            r == rm_should_block(
                self@.allow_rules,
                self@.block_rules,
                url.spec_bytes(),
                options@,
            ),
    {
        let n = self.allow_rules.len();
        let mut i: usize = 0;
        while i < n
            invariant
                0 <= i <= n,
                n == self.allow_rules@.len(),
                any_match_from(self@.allow_rules, url.spec_bytes(), options@, 0)
                    == any_match_from(self@.allow_rules, url.spec_bytes(), options@, i as int),
            decreases n - i,
        {
            proof {
                assert(self@.allow_rules[i as int] == self.allow_rules@[i as int]@);
            }
            if self.matches_rule(&self.allow_rules[i], url, options) {
                return false;
            }
            i += 1;
        }
        let m = self.block_rules.len();
        let mut j: usize = 0;
        while j < m
            invariant
                0 <= j <= m,
                m == self.block_rules@.len(),
                !any_match_from(self@.allow_rules, url.spec_bytes(), options@, 0),
                any_match_from(self@.block_rules, url.spec_bytes(), options@, 0)
                    == any_match_from(self@.block_rules, url.spec_bytes(), options@, j as int),
            decreases m - j,
        {
            proof {
                assert(self@.block_rules[j as int] == self.block_rules@[j as int]@);
            }
            if self.matches_rule(&self.block_rules[j], url, options) {
                return true;
            }
            j += 1;
        }
        false
    }

    /// Check if a rule matches the request.
    fn matches_rule(&self, rule: &FilterRule, url: &str, options: &MatchOptions) -> (r: bool)
        ensures
            r == rule_matches(rule@, url.spec_bytes(), options@),
    {
        match &rule.options.domain {
            Some(domains) => {
                match &options.domain {
                    Some(page_domain) => {
                        let pb = page_domain.as_str().as_bytes();
                        if !Self::scope_admits(pb, domains) {
                            return false;
                        }
                    },
                    None => {
                        return false;
                    },
                }
            },
            None => {},
        }
        if !self.matches_content_type(rule, options) {
            return false;
        }
        self.matches_pattern(rule.pattern.as_str(), url)
    }

    /// Whether the scope admits the page domain: one pass notes a positive
    /// suffix match and stops on a negated veto.
    fn scope_admits(page: &[u8], domains: &Vec<String>) -> (r: bool)
        ensures
            r == scope_allows(page@, strings_view(domains@)),
    {
        let ghost dsv = strings_view(domains@);
        let n = domains.len();
        let mut i: usize = 0;
        let mut positive = false;
        while i < n
            invariant
                0 <= i <= n,
                n == domains@.len(),
                dsv == strings_view(domains@),
                positive == (exists|k: int|
                    0 <= k < i && #[trigger] scope_positive(page@, dsv[k])),
                forall|k: int| 0 <= k < i ==> !scope_negates(page@, #[trigger] dsv[k]),
            decreases n - i,
        {
            let d = &domains[i];
            let db = d.as_str().as_bytes();
            proof {
                assert(dsv[i as int] == domains@[i as int]@);
            }
            if db.len() > 0 && db[0] == B_TILDE {
                let rest = vstd::slice::slice_subrange(db, 1, db.len());
                if ends_with_bytes(page, rest) {
                    proof {
                        assert(scope_negates(page@, dsv[i as int]));
                    }
                    return false;
                }
            } else {
                if ends_with_bytes(page, db) {
                    proof {
                        assert(scope_positive(page@, dsv[i as int]));
                    }
                    positive = true;
                }
            }
            i += 1;
        }
        positive
    }

    /// Check content type restrictions: an absent flag applies.
    fn matches_content_type(&self, rule: &FilterRule, options: &MatchOptions) -> (r: bool)
        ensures
            r == content_allowed(rule@.options, options@.content_type),
    {
        let opts = &rule.options;
        match options.content_type {
            ContentType::Script => Self::flag_allows(&opts.script),
            ContentType::Image => Self::flag_allows(&opts.image),
            ContentType::Stylesheet => Self::flag_allows(&opts.stylesheet),
            ContentType::Object => Self::flag_allows(&opts.object),
            ContentType::XmlHttpRequest => Self::flag_allows(&opts.xmlhttprequest),
            ContentType::Subdocument => Self::flag_allows(&opts.subdocument),
            ContentType::Document => Self::flag_allows(&opts.document),
            ContentType::Websocket => Self::flag_allows(&opts.websocket),
            ContentType::Media => Self::flag_allows(&opts.media),
            ContentType::Font => Self::flag_allows(&opts.font),
            ContentType::Other => true,
        }
    }

    /// An absent or `true` flag applies; an explicit `false` rejects.
    fn flag_allows(flag: &Option<bool>) -> (r: bool)
        ensures
            r == (*flag != Option::Some(false)),
    {
        match flag {
            Some(b) => *b,
            None => true,
        }
    }

    /// Match a URL against a pattern with the matcher's regex-free test.
    fn matches_pattern(&self, pattern: &str, url: &str) -> (r: bool)
        ensures
            r == rm_pattern_match(pattern.spec_bytes(), url.spec_bytes()),
    {
        let pb = pattern.as_bytes();
        let ub = url.as_bytes();
        let marker: [u8; 2] = [B_PIPE, B_PIPE];
        let markers = vstd::array::array_as_slice(&marker);
        proof {
            assert(markers@ =~= seq![B_PIPE, B_PIPE]);
        }
        if starts_with_bytes(pb, markers) {
            let stripped = vstd::slice::slice_subrange(pb, 2, pb.len());
            let c = find_byte_from(stripped, B_CARET, 0);
            proof {
                lemma_byte_index_from(stripped@, B_CARET, 0);
            }
            if c < stripped.len() {
                let dom = vstd::slice::slice_subrange(stripped, 0, c);
                return crate::matching::match_subdomain(ub, dom);
            }
        }
        let lead_trimmed = Self::trim_lead(pb);
        let trimmed = crate::matching::trim_stars_end(lead_trimmed);
        find_from(ub, trimmed.as_slice(), 0).is_some()
    }

    /// The tail of `x` after its leading wildcard bytes.
    fn trim_lead(x: &[u8]) -> (r: &[u8])
        ensures
            r@ == trim_lead_stars(x@),
    {
        let n = x.len();
        proof {
            assert(x@.subrange(0, n as int) =~= x@);
        }
        let mut a: usize = 0;
        while a < n && x[a] == B_STAR
            invariant
                0 <= a <= n,
                n == x@.len(),
                trim_lead_stars(x@) == trim_lead_stars(x@.subrange(a as int, n as int)),
            decreases n - a,
        {
            proof {
                assert(x@.subrange(a as int, n as int).drop_first() =~= x@.subrange(
                    a + 1,
                    n as int,
                ));
            }
            a += 1;
        }
        let r = vstd::slice::slice_subrange(x, a, n);
        proof {
            assert(trim_lead_stars(r@) == r@);
        }
        r
    }

    /// Get the element hiding rules that apply to a domain.
    pub fn get_element_hiding_rules(&self, domain: &str) -> (r: Vec<&FilterRule>)
        ensures
            Seq::new(r@.len(), |i: int| r@[i]@) == ehr_filter_from(
                self@.element_hide_rules,
                domain.spec_bytes(),
                0,
            ),
    {
        let ghost ev = self@.element_hide_rules;
        let ghost db = domain.spec_bytes();
        let mut r: Vec<&FilterRule> = Vec::new();
        let ghost mut done: Seq<FilterRuleV> = Seq::empty();
        let n = self.element_hide_rules.len();
        let mut i: usize = 0;
        proof {
            assert(ehr_filter_from(ev, db, 0) =~= Seq::<FilterRuleV>::empty() + ehr_filter_from(
                ev,
                db,
                0,
            ));
        }
        while i < n
            invariant
                0 <= i <= n,
                n == self.element_hide_rules@.len(),
                ev == self@.element_hide_rules,
                db == domain.spec_bytes(),
                done.len() == r@.len(),
                forall|k: int| 0 <= k < r@.len() ==> #[trigger] r@[k]@ == done[k],
                ehr_filter_from(ev, db, 0) == done + ehr_filter_from(ev, db, i as int),
            decreases n - i,
        {
            proof {
                assert(ev[i as int] == self.element_hide_rules@[i as int]@);
            }
            let rule = &self.element_hide_rules[i];
            if Self::ehr_rule_applies(rule, domain) {
                proof {
                    assert((done + seq![ev[i as int]]) + ehr_filter_from(ev, db, i + 1) =~= done
                        + (seq![ev[i as int]] + ehr_filter_from(ev, db, i + 1)));
                    done = done + seq![ev[i as int]];
                }
                r.push(rule);
            }
            i += 1;
        }
        proof {
            assert(ehr_filter_from(ev, db, n as int) =~= Seq::<FilterRuleV>::empty());
            assert(done + Seq::<FilterRuleV>::empty() =~= done);
            assert(Seq::new(r@.len(), |k: int| r@[k]@) =~= done);
        }
        r
    }

    /// Whether an element-hiding rule applies to the domain.
    fn ehr_rule_applies(rule: &FilterRule, domain: &str) -> (r: bool)
        ensures
            r == ehr_applies(rule@, domain.spec_bytes()),
    {
        match &rule.domains {
            None => true,
            Some(ds) => {
                let db = domain.as_bytes();
                let ghost dsv = strings_view(ds@);
                let n = ds.len();
                let mut i: usize = 0;
                while i < n
                    invariant
                        0 <= i <= n,
                        n == ds@.len(),
                        dsv == strings_view(ds@),
                        db@ == domain.spec_bytes(),
                        rule@.domains == Option::Some(dsv),
                        forall|k: int|
                            0 <= k < i ==> !is_suffix_of(
                                encode_utf8(#[trigger] dsv[k]),
                                domain.spec_bytes(),
                            ),
                    decreases n - i,
                {
                    if ends_with_bytes(db, ds[i].as_str().as_bytes()) {
                        proof {
                            assert(dsv[i as int] == ds@[i as int]@);
                            lemma_ehr_witness(rule@, domain.spec_bytes(), dsv, i as int);
                        }
                        return true;
                    }
                    i += 1;
                }
                proof {
                    lemma_ehr_no_witness(rule@, domain.spec_bytes(), dsv);
                }
                false
            },
        }
    }
}

impl Default for RuleMatcher {
    fn default() -> Self {
        Self::new()
    }
}

/// The two matchers agree on an option-free anchor rule: an engine holding
/// exactly the rule `||d^` and a rule matcher holding exactly the same
/// rule, unstripped and without options, block every URL alike — both
/// exactly when the anchored host condition holds — whatever match context
/// the option-aware matcher is given and whatever sound hit sequence the
/// engine's automaton reports.
pub proof fn lemma_matchers_agree_on_anchor(
    v: crate::filter_engine::EngineV,
    hits: Seq<(int, int)>,
    url: Seq<u8>,
    d: Seq<char>,
    m_allow: Seq<FilterRuleV>,
    m_block: Seq<FilterRuleV>,
    m: MatchOptionsV,
)
    requires
        v.rules == seq![
            crate::filter_engine::RuleV {
                kind: crate::filter_engine::RuleKind::Subdomain,
                pat: d,
            },
        ],
        v.infos == crate::filter_engine::literal_infos_from(v.rules, 0),
        forall|k: int| 0 <= k < hits.len() ==> 0 <= (#[trigger] hits[k]).0 < v.infos.len(),
        hits.len() == 0 ==> !occurs(url, encode_utf8(d)),
        m_allow.len() == 0,
        m_block.len() == 1,
        m_block[0].options == default_options(),
        encode_utf8(m_block[0].pattern) == seq![B_PIPE, B_PIPE] + encode_utf8(d) + seq![
            B_CARET,
        ],
        forall|j: int| 0 <= j < encode_utf8(d).len() ==> encode_utf8(d)[j] != B_CARET,
    ensures
        crate::filter_engine::engine_decision(v, hits, url).should_block == rm_should_block(
            m_allow,
            m_block,
            url,
            m,
        ),
        crate::filter_engine::engine_decision(v, hits, url).should_block
            == crate::matching::subdomain_match(url, encode_utf8(d)),
{
    crate::filter_engine::lemma_subdomain_anchor_decides(v, hits, url, d);
    let db = encode_utf8(d);
    let p = encode_utf8(m_block[0].pattern);
    assert(is_prefix_of(seq![B_PIPE, B_PIPE], p)) by {
        assert(p.subrange(0, 2) =~= seq![B_PIPE, B_PIPE]);
    }
    let stripped = p.subrange(2, p.len() as int);
    assert(stripped =~= db + seq![B_CARET]);
    assert(forall|j: int| 0 <= j < db.len() ==> stripped[j] == db[j] && stripped[j] != B_CARET);
    assert(stripped[db.len() as int] == B_CARET);
    crate::text::lemma_byte_index_pin(stripped, B_CARET, 0, db.len() as int);
    assert(stripped.subrange(0, db.len() as int) =~= db);
    assert(rm_pattern_match(p, url) == crate::matching::subdomain_match(url, db));
    assert(content_allowed(default_options(), m.content_type)) by {
        match m.content_type {
            ContentType::Script => {},
            ContentType::Image => {},
            ContentType::Stylesheet => {},
            ContentType::Object => {},
            ContentType::XmlHttpRequest => {},
            ContentType::Subdocument => {},
            ContentType::Document => {},
            ContentType::Websocket => {},
            ContentType::Media => {},
            ContentType::Font => {},
            ContentType::Other => {},
        }
    }
    assert(rule_matches(m_block[0], url, m) == crate::matching::subdomain_match(url, db));
    assert(!any_match_from(m_allow, url, m, 0));
    assert(!any_match_from(m_block, url, m, 1));
    assert(any_match_from(m_block, url, m, 0) == rule_matches(m_block[0], url, m));
}

} // verus!
