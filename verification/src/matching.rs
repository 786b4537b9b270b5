//! URL matching semantics: host extraction with boundary validation,
//! wildcard patterns, and the composite patterns that exception rules use.
//! Every matcher is specified as a function over byte sequences and the
//! executable code is proved to return exactly that function's value.

use vstd::prelude::*;
use vstd::slice::slice_subrange;
use vstd::string::StringSliceAdditionalSpecFns;

use crate::text::byte_index_from;
use crate::text::bytes_eq;
use crate::text::ends_with_bytes;
use crate::text::find_byte_from;
use crate::text::find_from;
use crate::text::first_occurrence_from;
use crate::text::is_match_at;
use crate::text::is_prefix_of;
use crate::text::is_suffix_of;
use crate::text::lemma_byte_index_from;
use crate::text::lemma_byte_index_pin;
use crate::text::occurs;
use crate::text::occurs_from;
use crate::text::starts_with_bytes;

verus! {

pub const B_STAR: u8 = 42;

pub const B_DOT: u8 = 46;

pub const B_SLASH: u8 = 47;

pub const B_COLON: u8 = 58;

pub const B_CARET: u8 = 94;

pub const B_PIPE: u8 = 124;

/// The scheme separator `://`.
pub open spec fn scheme_sep() -> Seq<u8> {
    seq![B_COLON, B_SLASH, B_SLASH]
}

/// True when the URL has a `scheme://` prefix somewhere.
pub open spec fn has_scheme(url: Seq<u8>) -> bool {
    occurs(url, scheme_sep())
}

/// The authority component: the text after the first `://`, up to the first
/// `/` after it (or the end). Meaningful only when `has_scheme(url)`.
pub open spec fn host_of(url: Seq<u8>) -> Seq<u8>
    recommends
        has_scheme(url),
{
    let a = first_occurrence_from(url, scheme_sep(), 0) + 3;
    url.subrange(a, byte_index_from(url, B_SLASH, a))
}

/// Anchored host matching: the URL's host equals `domain` or ends with
/// `"." + domain`. URLs without a scheme separator never match.
pub open spec fn subdomain_match(url: Seq<u8>, domain: Seq<u8>) -> bool {
    has_scheme(url) && {
        let h = host_of(url);
        h == domain || is_suffix_of(seq![B_DOT] + domain, h)
    }
}

/// The pieces of `p` between occurrences of `sep`.
pub open spec fn split_on_byte(p: Seq<u8>, sep: u8) -> Seq<Seq<u8>>
    decreases p.len(),
{
    let i = byte_index_from(p, sep, 0);
    if 0 <= i < p.len() {
        seq![p.subrange(0, i)] + split_on_byte(p.subrange(i + 1, p.len() as int), sep)
    } else {
        seq![p]
    }
}

/// True when `p` starts with a wildcard.
pub open spec fn starts_star(p: Seq<u8>) -> bool {
    p.len() > 0 && p[0] == B_STAR
}

/// True when `p` ends with a wildcard.
pub open spec fn ends_star(p: Seq<u8>) -> bool {
    p.len() > 0 && p.last() == B_STAR
}

/// The greedy left-to-right wildcard matcher, from fragment `k` on with the
/// cursor at `pos`. The first fragment of a start-anchored pattern must sit
/// at position 0; the last fragment of an end-anchored pattern must end the
/// remaining tail; each other fragment is found at or after the cursor, which
/// then advances past its first occurrence. Empty fragments (from doubled
/// wildcards) are skipped.
pub open spec fn glob_from(
    parts: Seq<Seq<u8>>,
    k: int,
    url: Seq<u8>,
    pos: int,
    sstar: bool,
    estar: bool,
) -> bool
    decreases parts.len() - k,
{
    if k < 0 || k >= parts.len() {
        true
    } else {
        let part = parts[k];
        if part.len() == 0 {
            glob_from(parts, k + 1, url, pos, sstar, estar)
        } else if k == 0 && !sstar {
            is_prefix_of(part, url) && glob_from(parts, 1, url, part.len() as int, sstar, estar)
        } else if k == parts.len() - 1 && !estar {
            is_suffix_of(part, url.subrange(pos, url.len() as int))
        } else {
            occurs_from(url, part, pos) && glob_from(
                parts,
                k + 1,
                url,
                first_occurrence_from(url, part, pos) + part.len(),
                sstar,
                estar,
            )
        }
    }
}

/// Wildcard pattern matching as the engine applies it to a whole URL.
pub open spec fn wildcard_match(url: Seq<u8>, p: Seq<u8>) -> bool {
    glob_from(split_on_byte(p, B_STAR), 0, url, 0, starts_star(p), ends_star(p))
}

/// `x` with every trailing wildcard removed.
pub open spec fn trim_end_stars(x: Seq<u8>) -> Seq<u8>
    decreases x.len(),
{
    if x.len() > 0 && x.last() == B_STAR {
        trim_end_stars(x.drop_last())
    } else {
        x
    }
}

/// Matching for a pattern of the `||domain...` family (already stripped of
/// the `||` marker): a plain anchored domain, a `domain^` form, or a
/// `domain/path` form whose path part is checked after the first occurrence
/// of the domain text in the URL.
pub open spec fn subdomain_pattern_match(url: Seq<u8>, pat: Seq<u8>) -> bool {
    if pat.len() > 0 && pat.last() == B_CARET {
        subdomain_match(url, pat.drop_last())
    } else {
        let sp = byte_index_from(pat, B_SLASH, 0);
        if sp < pat.len() {
            let d = pat.subrange(0, sp);
            let path = pat.subrange(sp, pat.len() as int);
            subdomain_match(url, d) && occurs(url, d) && {
                let after = url.subrange(
                    first_occurrence_from(url, d, 0) + d.len(),
                    url.len() as int,
                );
                if byte_index_from(path, B_STAR, 0) < path.len() {
                    wildcard_match(after, path)
                } else {
                    is_prefix_of(path, after)
                }
            }
        } else {
            subdomain_match(url, pat)
        }
    }
}

/// Matching for a `domain/path` pattern split at the first `/`: the text
/// after the first occurrence of the domain part must start with the path
/// part (trailing wildcards dropped), or the path part is exactly `/*`.
pub open spec fn domain_path_match(url: Seq<u8>, pat: Seq<u8>) -> bool {
    let sp = byte_index_from(pat, B_SLASH, 0);
    let d = pat.subrange(0, sp);
    let path = pat.subrange(sp, pat.len() as int);
    occurs(url, d) && {
        let after = url.subrange(first_occurrence_from(url, d, 0) + d.len(), url.len() as int);
        path == seq![B_SLASH, B_STAR] || is_prefix_of(trim_end_stars(path), after)
    }
}

/// How an exception rule's inner pattern is matched: `||`-anchored patterns
/// use the anchored-domain family, patterns holding a wildcard use the
/// wildcard matcher, `domain/path` patterns use the path form, and anything
/// else is a plain substring test.
pub open spec fn exception_match(url: Seq<u8>, pat: Seq<u8>) -> bool {
    if is_prefix_of(seq![B_PIPE, B_PIPE], pat) {
        subdomain_pattern_match(url, pat.subrange(2, pat.len() as int))
    } else if byte_index_from(pat, B_STAR, 0) < pat.len() {
        wildcard_match(url, pat)
    } else if byte_index_from(pat, B_SLASH, 0) < pat.len() {
        domain_path_match(url, pat)
    } else {
        occurs(url, pat)
    }
}

/// `byte_index_from` looked at through a suffix of the sequence.
pub proof fn lemma_byte_index_sub(p: Seq<u8>, sep: u8, cur: int)
    requires
        0 <= cur <= p.len(),
    ensures
        byte_index_from(p.subrange(cur, p.len() as int), sep, 0) == byte_index_from(
            p,
            sep,
            cur,
        ) - cur,
{
    let suf = p.subrange(cur, p.len() as int);
    let u = byte_index_from(p, sep, cur);
    lemma_byte_index_from(p, sep, cur);
    assert(forall|j: int| 0 <= j < u - cur ==> suf[j] == p[j + cur] && suf[j] != sep);
    if u < p.len() {
        assert(suf[u - cur] == sep);
    }
    lemma_byte_index_pin(suf, sep, 0, u - cur);
}

/// Copies a byte slice into a vector.
fn slice_to_vec_u8(piece: &[u8]) -> (r: Vec<u8>)
    ensures
        r@ == piece@,
{
    let mut pv: Vec<u8> = Vec::new();
    let mut k: usize = 0;
    while k < piece.len()
        invariant
            0 <= k <= piece@.len(),
            pv@ =~= piece@.subrange(0, k as int),
        decreases piece@.len() - k,
    {
        pv.push(piece[k]);
        k += 1;
    }
    proof {
        assert(pv@ =~= piece@);
    }
    pv
}

/// Splits `p` at every occurrence of `sep`.
pub fn split_byte(p: &[u8], sep: u8) -> (r: Vec<Vec<u8>>)
    ensures
        r@.len() == split_on_byte(p@, sep).len(),
        forall|i: int| 0 <= i < r@.len() ==> r@[i]@ == split_on_byte(p@, sep)[i],
{
    let mut r: Vec<Vec<u8>> = Vec::new();
    let mut cur: usize = 0;
    let ghost mut done: Seq<Seq<u8>> = Seq::empty();
    proof {
        assert(p@.subrange(0, p@.len() as int) =~= p@);
    }
    loop
        invariant
            0 <= cur <= p@.len(),
            done.len() == r@.len(),
            forall|i: int| 0 <= i < r@.len() ==> r@[i]@ == done[i],
            split_on_byte(p@, sep) == done + split_on_byte(
                p@.subrange(cur as int, p@.len() as int),
                sep,
            ),
        decreases p@.len() - cur + 1,
    {
        let ghost suf = p@.subrange(cur as int, p@.len() as int);
        let i = find_byte_from(p, sep, cur);
        proof {
            lemma_byte_index_from(p@, sep, cur as int);
            lemma_byte_index_sub(p@, sep, cur as int);
        }
        if i < p.len() {
            let piece = slice_subrange(p, cur, i);
            let pv = slice_to_vec_u8(piece);
            proof {
                let nsuf = p@.subrange(cur + 1 + (i - cur), p@.len() as int);
                assert(suf.subrange(0, i - cur) =~= p@.subrange(cur as int, i as int));
                assert(suf.subrange(i - cur + 1, suf.len() as int) =~= nsuf);
                assert(split_on_byte(suf, sep) == seq![suf.subrange(0, i - cur)] + split_on_byte(
                    nsuf,
                    sep,
                ));
                assert((done + split_on_byte(suf, sep)) =~= (done + seq![pv@]) + split_on_byte(
                    nsuf,
                    sep,
                ));
                done = done + seq![pv@];
            }
            r.push(pv);
            cur = i + 1;
        } else {
            let piece = slice_subrange(p, cur, p.len());
            let pv = slice_to_vec_u8(piece);
            proof {
                assert(split_on_byte(suf, sep) == seq![suf]);
                assert((done + split_on_byte(suf, sep)) =~= done + seq![pv@]);
                done = done + seq![pv@];
            }
            r.push(pv);
            proof {
                assert(split_on_byte(p@, sep) == done);
            }
            return r;
        }
    }
}

/// A wildcard pattern that does not begin with a wildcard is anchored at
/// the start: it matches only URLs that begin with its first literal
/// fragment, which is never empty.
pub proof fn lemma_wildcard_prefix_anchor(url: Seq<u8>, p: Seq<u8>)
    requires
        p.len() > 0,
        !starts_star(p),
        wildcard_match(url, p),
    ensures
        split_on_byte(p, B_STAR)[0].len() > 0,
        is_prefix_of(split_on_byte(p, B_STAR)[0], url),
{
    let parts = split_on_byte(p, B_STAR);
    let i = byte_index_from(p, B_STAR, 0);
    lemma_byte_index_from(p, B_STAR, 0);
    if 0 <= i < p.len() {
        assert(i >= 1);
        assert(parts[0] == p.subrange(0, i));
    } else {
        assert(parts[0] == p);
    }
    assert(glob_from(parts, 0, url, 0, starts_star(p), ends_star(p)));
}

/// Splits `s` at every occurrence of the ASCII byte `sep`, keeping string
/// slices.
pub fn split_str_on<'a>(s: &'a str, sep: u8) -> (r: Vec<&'a str>)
    requires
        sep < 0x80,
    ensures
        r@.len() == split_on_byte(s.spec_bytes(), sep).len(),
        forall|i: int|
            0 <= i < r@.len() ==> (#[trigger] r@[i]).spec_bytes() == split_on_byte(
                s.spec_bytes(),
                sep,
            )[i],
{
    let mut r: Vec<&'a str> = Vec::new();
    let ghost mut done: Seq<Seq<u8>> = Seq::empty();
    let mut rem: &str = s;
    loop
        invariant
            done.len() == r@.len(),
            forall|i: int| 0 <= i < r@.len() ==> (#[trigger] r@[i]).spec_bytes() == done[i],
            split_on_byte(s.spec_bytes(), sep) == done + split_on_byte(rem.spec_bytes(), sep),
            sep < 0x80,
        decreases rem.spec_bytes().len(),
    {
        let rb = rem.as_bytes();
        let p = find_byte_from(rb, sep, 0);
        proof {
            lemma_byte_index_from(rb@, sep, 0);
            lemma_byte_index_sub(rem.spec_bytes(), sep, 0);
        }
        if p < rb.len() {
            let parts = crate::text::split_str_at(rem, p);
            proof {
                done = done + seq![parts.0.spec_bytes()];
                vstd::utf8::encode_utf8_valid_utf8(parts.1@);
                crate::text::lemma_after_ascii_byte(parts.1.spec_bytes(), 1);
            }
            r.push(parts.0);
            let next = crate::text::split_str_at(parts.1, 1).1;
            proof {
                assert(parts.1.spec_bytes().subrange(
                    1,
                    parts.1.spec_bytes().len() as int,
                ) =~= rem.spec_bytes().subrange(p + 1, rem.spec_bytes().len() as int));
                assert(parts.0.spec_bytes() =~= rem.spec_bytes().subrange(0, p as int));
            }
            rem = next;
        } else {
            proof {
                done = done + seq![rem.spec_bytes()];
                assert(split_on_byte(rem.spec_bytes(), sep) == seq![rem.spec_bytes()]);
                assert(split_on_byte(s.spec_bytes(), sep) == done);
            }
            r.push(rem);
            return r;
        }
    }
}

/// The host part of `url` with its bounds, when `url` holds `://`.
pub(crate) fn host_bounds(url: &[u8]) -> (r: Option<(usize, usize)>)
    ensures
        match r {
            Some((a, b)) => has_scheme(url@) && a == first_occurrence_from(url@, scheme_sep(), 0)
                + 3 && b == byte_index_from(url@, B_SLASH, a as int) && a <= b <= url@.len()
                && url@.subrange(a as int, b as int) == host_of(url@),
            None => !has_scheme(url@),
        },
{
    let sep: [u8; 3] = [B_COLON, B_SLASH, B_SLASH];
    let seps = vstd::array::array_as_slice(&sep);
    proof {
        assert(seps@ =~= scheme_sep());
    }
    let ulen = url.len();
    match find_from(url, seps, 0) {
        None => None,
        Some(p) => {
            let a = p + 3;
            let b = find_byte_from(url, B_SLASH, a);
            proof {
                lemma_byte_index_from(url@, B_SLASH, a as int);
            }
            Some((a, b))
        },
    }
}

/// Anchored host matching against `domain`.
pub fn match_subdomain(url: &[u8], domain: &[u8]) -> (r: bool)
    ensures
        r == subdomain_match(url@, domain@),
{
    match host_bounds(url) {
        None => false,
        Some((a, b)) => {
            let host = slice_subrange(url, a, b);
            if bytes_eq(host, domain) {
                true
            } else {
                let mut dotted: Vec<u8> = Vec::new();
                dotted.push(B_DOT);
                let mut i: usize = 0;
                while i < domain.len()
                    invariant
                        0 <= i <= domain@.len(),
                        dotted@ =~= seq![B_DOT] + domain@.subrange(0, i as int),
                    decreases domain@.len() - i,
                {
                    dotted.push(domain[i]);
                    i += 1;
                }
                proof {
                    assert(dotted@ =~= seq![B_DOT] + domain@);
                }
                ends_with_bytes(host, dotted.as_slice())
            }
        },
    }
}

/// The greedy wildcard matcher.
pub fn match_wildcard(url: &[u8], pat: &[u8]) -> (r: bool)
    ensures
        r == wildcard_match(url@, pat@),
{
    let parts = split_byte(pat, B_STAR);
    let sstar = pat.len() > 0 && pat[0] == B_STAR;
    let estar = pat.len() > 0 && pat[pat.len() - 1] == B_STAR;
    proof {
        assert(sstar == starts_star(pat@));
        assert(estar == ends_star(pat@));
    }
    let ghost pv = split_on_byte(pat@, B_STAR);
    let ulen = url.len();
    let mut pos: usize = 0;
    let mut k: usize = 0;
    while k < parts.len()
        invariant
            0 <= k <= parts@.len(),
            0 <= pos <= url@.len(),
            ulen == url@.len(),
            url@.len() <= usize::MAX,
            parts@.len() == pv.len(),
            forall|i: int| 0 <= i < parts@.len() ==> parts@[i]@ == pv[i],
            pv == split_on_byte(pat@, B_STAR),
            sstar == starts_star(pat@),
            estar == ends_star(pat@),
            wildcard_match(url@, pat@) == glob_from(pv, k as int, url@, pos as int, sstar, estar),
        decreases parts@.len() - k,
    {
        let part = &parts[k];
        proof {
            assert(part@ == pv[k as int]);
        }
        if part.len() == 0 {
            k += 1;
        } else if k == 0 && !sstar {
            if !starts_with_bytes(url, part.as_slice()) {
                return false;
            }
            pos = part.len();
            k = 1;
        } else if k == parts.len() - 1 && !estar {
            let tail = slice_subrange(url, pos, ulen);
            let ok = ends_with_bytes(tail, part.as_slice());
            if !ok {
                return false;
            }
            k += 1;
        } else {
            match find_from(url, part.as_slice(), pos) {
                None => {
                    return false;
                },
                Some(q) => {
                    pos = q + part.len();
                    k += 1;
                },
            }
        }
    }
    true
}

/// Matching for `||domain`, `||domain^` and `||domain/path` forms, with the
/// `||` marker already stripped.
pub fn match_subdomain_pattern(url: &[u8], pat: &[u8]) -> (r: bool)
    ensures
        r == subdomain_pattern_match(url@, pat@),
{
    if pat.len() > 0 && pat[pat.len() - 1] == B_CARET {
        let d = slice_subrange(pat, 0, pat.len() - 1);
        proof {
            assert(d@ =~= pat@.drop_last());
        }
        match_subdomain(url, d)
    } else {
        let sp = find_byte_from(pat, B_SLASH, 0);
        proof {
            lemma_byte_index_from(pat@, B_SLASH, 0);
        }
        if sp < pat.len() {
            let d = slice_subrange(pat, 0, sp);
            let path = slice_subrange(pat, sp, pat.len());
            if !match_subdomain(url, d) {
                return false;
            }
            let ulen = url.len();
            match find_from(url, d, 0) {
                None => false,
                Some(q) => {
                    let after = slice_subrange(url, q + d.len(), ulen);
                    let star = find_byte_from(path, B_STAR, 0);
                    proof {
                        lemma_byte_index_from(path@, B_STAR, 0);
                    }
                    if star < path.len() {
                        match_wildcard(after, path)
                    } else {
                        starts_with_bytes(after, path)
                    }
                },
            }
        } else {
            match_subdomain(url, pat)
        }
    }
}

/// Matching for a `domain/path` pattern (the pattern holds a `/`).
pub fn match_domain_path(url: &[u8], pat: &[u8]) -> (r: bool)
    ensures
        r == domain_path_match(url@, pat@),
{
    let sp = find_byte_from(pat, B_SLASH, 0);
    proof {
        lemma_byte_index_from(pat@, B_SLASH, 0);
    }
    let d = slice_subrange(pat, 0, sp);
    let path = slice_subrange(pat, sp, pat.len());
    let ulen = url.len();
    match find_from(url, d, 0) {
        None => false,
        Some(q) => {
            let after = slice_subrange(url, q + d.len(), ulen);
            let lit: [u8; 2] = [B_SLASH, B_STAR];
            let lits = vstd::array::array_as_slice(&lit);
            proof {
                assert(lits@ =~= seq![B_SLASH, B_STAR]);
            }
            if bytes_eq(path, lits) {
                true
            } else {
                let trimmed = trim_stars_end(path);
                starts_with_bytes(after, trimmed.as_slice())
            }
        },
    }
}

/// `x` with every trailing wildcard byte removed.
pub(crate) fn trim_stars_end(x: &[u8]) -> (r: Vec<u8>)
    ensures
        r@ == trim_end_stars(x@),
{
    let mut e: usize = x.len();
    proof {
        assert(x@.subrange(0, x@.len() as int) =~= x@);
    }
    while e > 0 && x[e - 1] == B_STAR
        invariant
            0 <= e <= x@.len(),
            trim_end_stars(x@) == trim_end_stars(x@.subrange(0, e as int)),
        decreases e,
    {
        proof {
            let cur = x@.subrange(0, e as int);
            assert(cur.drop_last() =~= x@.subrange(0, e - 1));
        }
        e -= 1;
    }
    proof {
        let cur = x@.subrange(0, e as int);
        if e > 0 {
            assert(cur.last() == x@[e - 1]);
        }
        assert(trim_end_stars(cur) == cur);
    }
    let piece = slice_subrange(x, 0, e);
    slice_to_vec_u8(piece)
}

/// Matching for an exception rule's inner pattern.
pub fn match_exception(url: &[u8], pat: &[u8]) -> (r: bool)
    ensures
        r == exception_match(url@, pat@),
{
    let marker: [u8; 2] = [B_PIPE, B_PIPE];
    let markers = vstd::array::array_as_slice(&marker);
    proof {
        assert(markers@ =~= seq![B_PIPE, B_PIPE]);
    }
    if starts_with_bytes(pat, markers) {
        let inner = slice_subrange(pat, 2, pat.len());
        match_subdomain_pattern(url, inner)
    } else {
        let star = find_byte_from(pat, B_STAR, 0);
        proof {
            lemma_byte_index_from(pat@, B_STAR, 0);
        }
        if star < pat.len() {
            match_wildcard(url, pat)
        } else {
            let slash = find_byte_from(pat, B_SLASH, 0);
            proof {
                lemma_byte_index_from(pat@, B_SLASH, 0);
            }
            if slash < pat.len() {
                match_domain_path(url, pat)
            } else {
                let r = find_from(url, pat, 0).is_some();
                r
            }
        }
    }
}

} // verus!
