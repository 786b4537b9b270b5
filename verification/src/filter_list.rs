//! Filter list loading and parsing.
//!
//! Splits EasyList-format text into trimmed rule lines, dropping comments,
//! bracketed metadata and cosmetic (CSS) lines; the cosmetic lines are served
//! by a separate accessor keyed by page domain.

use vstd::prelude::*;
use vstd::string::StrSliceExecFns;
use vstd::string::StringSliceAdditionalSpecFns;
use vstd::utf8::is_continuation_byte;

use crate::filter_engine::B_AT;
use crate::text::byte_index_from;
use crate::text::bytes_eq;
use crate::text::find_byte_from;
use crate::text::find_from;
use crate::text::first_occurrence_from;
use crate::text::is_prefix_of;
use crate::text::lemma_byte_index_from;
use crate::text::occurs;
use crate::text::split_str_at;
use crate::text::starts_with_bytes;
use crate::text::trim_ascii;
use crate::text::trim_spec;
use crate::CoreError;

verus! {

pub const B_NEWLINE: u8 = 10;

pub const B_BANG: u8 = 33;

pub const B_HASH: u8 = 35;

pub const B_LBRACKET: u8 = 91;

pub const B_TILDE: u8 = 126;

/// The cosmetic-rule separator `##`.
pub open spec fn hide_sep() -> Seq<u8> {
    seq![B_HASH, B_HASH]
}

/// The cosmetic exception separator `#@#`.
pub open spec fn hide_exc_sep() -> Seq<u8> {
    seq![B_HASH, B_AT, B_HASH]
}

/// True when a trimmed line is kept as a rule: non-empty, no comment or
/// metadata prefix, and not a cosmetic line (neither `##` nor `#@#`).
pub open spec fn keep_line(l: Seq<u8>) -> bool {
    l.len() > 0 && l[0] != B_BANG && l[0] != B_LBRACKET && !occurs(l, hide_sep()) && !occurs(
        l,
        hide_exc_sep(),
    )
}

/// The trimmed rule lines of a filter list, in order.
pub open spec fn filter_lines(b: Seq<u8>) -> Seq<Seq<u8>>
    decreases b.len(),
{
    let p = byte_index_from(b, B_NEWLINE, 0);
    if 0 <= p < b.len() {
        let line = trim_spec(b.subrange(0, p));
        let rest = filter_lines(b.subrange(p + 1, b.len() as int));
        if keep_line(line) {
            seq![line] + rest
        } else {
            rest
        }
    } else {
        let line = trim_spec(b);
        if keep_line(line) {
            seq![line]
        } else {
            seq![]
        }
    }
}

/// The CSS selectors that one trimmed line contributes for `domain`: a
/// global `##selector` line always applies; a `domains##selector` line
/// applies when the domain part equals `domain`, and a `~excluded##selector`
/// line applies when `excluded` differs from `domain`.
pub open spec fn css_line_rules(l: Seq<u8>, domain: Seq<u8>) -> Seq<Seq<u8>> {
    if is_prefix_of(hide_sep(), l) {
        seq![l.subrange(2, l.len() as int)]
    } else if occurs(l, hide_sep()) {
        let p = first_occurrence_from(l, hide_sep(), 0);
        let dom = l.subrange(0, p);
        let sel = l.subrange(p + 2, l.len() as int);
        if dom.len() > 0 && dom[0] == B_TILDE {
            if dom.subrange(1, dom.len() as int) != domain {
                seq![sel]
            } else {
                seq![]
            }
        } else if dom == domain {
            seq![sel]
        } else {
            seq![]
        }
    } else {
        seq![]
    }
}

/// All CSS selectors of the filter list that apply to `domain`, in order.
pub open spec fn css_rules_spec(b: Seq<u8>, domain: Seq<u8>) -> Seq<Seq<u8>>
    decreases b.len(),
{
    let p = byte_index_from(b, B_NEWLINE, 0);
    if 0 <= p < b.len() {
        css_line_rules(trim_spec(b.subrange(0, p)), domain) + css_rules_spec(
            b.subrange(p + 1, b.len() as int),
            domain,
        )
    } else {
        css_line_rules(trim_spec(b), domain)
    }
}

/// Filter list loader for parsing EasyList format.
pub struct FilterListLoader {}

/// Parsed filter rule types.
#[derive(Debug, Clone)]
pub enum ParsedRule {
    /// URL blocking rule.
    UrlBlock(String),
    /// Exception rule (whitelist).
    Exception(String),
    /// CSS element hiding rule.
    CssHide { selector: String, domains: Vec<String> },
}

impl FilterListLoader {
    /// Create a new filter list loader.
    pub fn new() -> (l: Self) {
        FilterListLoader {  }
    }

    /// Parse a filter list string into trimmed rule lines. Malformed lines
    /// are dropped, never reported: parsing itself cannot fail.
    pub fn parse_filter_list(&self, content: &str) -> (r: Result<Vec<String>, CoreError>)
        ensures
            r is Ok,
            ({
                let ls = filter_lines(content.spec_bytes());
                let out = r->Ok_0;
                out@.len() == ls.len() && (forall|i: int|
                    0 <= i < out@.len() ==> vstd::utf8::encode_utf8(out@[i]@) == ls[i])
            }),
    {
        let mut out: Vec<String> = Vec::new();
        let ghost mut done: Seq<Seq<u8>> = Seq::empty();
        let mut rem: &str = content;
        loop
            invariant
                done.len() == out@.len(),
                forall|i: int| 0 <= i < out@.len() ==> vstd::utf8::encode_utf8(out@[i]@) == done[i],
                filter_lines(content.spec_bytes()) == done + filter_lines(rem.spec_bytes()),
            decreases rem.spec_bytes().len(),
        {
            let rb = rem.as_bytes();
            let p = find_byte_from(rb, B_NEWLINE, 0);
            proof {
                lemma_byte_index_from(rb@, B_NEWLINE, 0);
            }
            if p < rb.len() {
                let parts = split_str_at(rem, p);
                let line = trim_ascii(parts.0);
                if Self::keep(line) {
                    proof {
                        done = done + seq![line.spec_bytes()];
                    }
                    out.push(line.to_owned());
                }
                proof {
                    vstd::utf8::encode_utf8_valid_utf8(parts.1@);
                    crate::text::lemma_after_ascii_byte(parts.1.spec_bytes(), 1);
                }
                let next = split_str_at(parts.1, 1).1;
                proof {
                    assert(parts.1.spec_bytes().subrange(
                        1,
                        parts.1.spec_bytes().len() as int,
                    ) =~= rem.spec_bytes().subrange(p + 1, rem.spec_bytes().len() as int));
                }
                rem = next;
            } else {
                let line = trim_ascii(rem);
                if Self::keep(line) {
                    proof {
                        done = done + seq![line.spec_bytes()];
                    }
                    out.push(line.to_owned());
                }
                proof {
                    assert(filter_lines(content.spec_bytes()) == done);
                }
                return Ok(out);
            }
        }
    }

    /// True when a trimmed line is kept as a rule.
    fn keep(line: &str) -> (r: bool)
        ensures
            r == keep_line(line.spec_bytes()),
    {
        let b = line.as_bytes();
        if b.len() == 0 {
            return false;
        }
        if b[0] == B_BANG || b[0] == B_LBRACKET {
            return false;
        }
        let sep: [u8; 2] = [B_HASH, B_HASH];
        let seps = vstd::array::array_as_slice(&sep);
        let exc: [u8; 3] = [B_HASH, B_AT, B_HASH];
        let excs = vstd::array::array_as_slice(&exc);
        proof {
            assert(seps@ =~= hide_sep());
            assert(excs@ =~= hide_exc_sep());
        }
        !find_from(b, seps, 0).is_some() && !find_from(b, excs, 0).is_some()
    }

    /// Get the CSS selectors that apply to `domain`.
    pub fn get_css_rules(&self, content: &str, domain: &str) -> (r: Result<
        Vec<String>,
        CoreError,
    >)
        ensures
            r is Ok,
            ({
                let ls = css_rules_spec(content.spec_bytes(), domain.spec_bytes());
                let out = r->Ok_0;
                out@.len() == ls.len() && (forall|i: int|
                    0 <= i < out@.len() ==> vstd::utf8::encode_utf8(out@[i]@) == ls[i])
            }),
    {
        let mut out: Vec<String> = Vec::new();
        let ghost mut done: Seq<Seq<u8>> = Seq::empty();
        let mut rem: &str = content;
        loop
            invariant
                done.len() == out@.len(),
                forall|i: int| 0 <= i < out@.len() ==> vstd::utf8::encode_utf8(out@[i]@) == done[i],
                css_rules_spec(content.spec_bytes(), domain.spec_bytes()) == done + css_rules_spec(
                    rem.spec_bytes(),
                    domain.spec_bytes(),
                ),
            decreases rem.spec_bytes().len(),
        {
            let rb = rem.as_bytes();
            let p = find_byte_from(rb, B_NEWLINE, 0);
            proof {
                lemma_byte_index_from(rb@, B_NEWLINE, 0);
            }
            if p < rb.len() {
                let parts = split_str_at(rem, p);
                let line = trim_ascii(parts.0);
                Self::push_css_line(&mut out, line, domain);
                proof {
                    done = done + css_line_rules(line.spec_bytes(), domain.spec_bytes());
                }
                proof {
                    vstd::utf8::encode_utf8_valid_utf8(parts.1@);
                    crate::text::lemma_after_ascii_byte(parts.1.spec_bytes(), 1);
                }
                let next = split_str_at(parts.1, 1).1;
                proof {
                    assert(parts.1.spec_bytes().subrange(
                        1,
                        parts.1.spec_bytes().len() as int,
                    ) =~= rem.spec_bytes().subrange(p + 1, rem.spec_bytes().len() as int));
                }
                rem = next;
            } else {
                let line = trim_ascii(rem);
                Self::push_css_line(&mut out, line, domain);
                proof {
                    done = done + css_line_rules(line.spec_bytes(), domain.spec_bytes());
                    assert(css_rules_spec(content.spec_bytes(), domain.spec_bytes()) == done);
                }
                return Ok(out);
            }
        }
    }

    /// Append the selectors of one trimmed line that apply to `domain`.
    fn push_css_line(out: &mut Vec<String>, line: &str, domain: &str)
        ensures
            ({
                let add = css_line_rules(line.spec_bytes(), domain.spec_bytes());
                final(out)@.len() == old(out)@.len() + add.len() && (forall|i: int|
                    0 <= i < old(out)@.len() ==> final(out)@[i] == old(out)@[i]) && (forall|i: int|
                    0 <= i < add.len() ==> vstd::utf8::encode_utf8(final(out)@[old(out)@.len() + i]@)
                        == add[i])
            }),
    {
        let b = line.as_bytes();
        let sep: [u8; 2] = [B_HASH, B_HASH];
        let seps = vstd::array::array_as_slice(&sep);
        proof {
            assert(seps@ =~= hide_sep());
        }
        if starts_with_bytes(b, seps) {
            proof {
                vstd::utf8::encode_utf8_valid_utf8(line@);
                crate::text::lemma_after_ascii_byte(line.spec_bytes(), 2);
            }
            let sel = split_str_at(line, 2).1;
            out.push(sel.to_owned());
            return ;
        }
        let n = b.len();
        match find_from(b, seps, 0) {
            None => {},
            Some(p) => {
                assert(p + 2 <= n);
                let dparts = split_str_at(line, p);
                let dom = dparts.0;
                proof {
                    vstd::utf8::encode_utf8_valid_utf8(line@);
                    crate::text::lemma_after_ascii_byte(line.spec_bytes(), p + 2);
                }
                let selpart = split_str_at(line, p + 2).1;
                let db = dom.as_bytes();
                let domb = domain.as_bytes();
                if db.len() > 0 && db[0] == B_TILDE {
                    proof {
                        vstd::utf8::encode_utf8_valid_utf8(dom@);
                        crate::text::lemma_after_ascii_byte(dom.spec_bytes(), 1);
                    }
                    let excluded = split_str_at(dom, 1).1;
                    if !bytes_eq(excluded.as_bytes(), domb) {
                        out.push(selpart.to_owned());
                    }
                } else if bytes_eq(db, domb) {
                    out.push(selpart.to_owned());
                }
            },
        }
    }
}

impl Default for FilterListLoader {
    fn default() -> Self {
        Self::new()
    }
}

} // verus!
