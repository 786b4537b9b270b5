//! Utility functions for the ad blocker.

use vstd::prelude::*;
use vstd::string::StringSliceAdditionalSpecFns;
use vstd::utf8::encode_utf8;

use crate::matching::has_scheme;
use crate::matching::host_bounds;
use crate::matching::host_of;
use crate::matching::B_SLASH;
use crate::text::byte_index_from;
use crate::text::find_byte_from;
use crate::text::lemma_after_ascii_byte;
use crate::text::lemma_byte_index_from;
use crate::text::split_str_at;

verus! {

/// The domain of a URL: the authority after `scheme://` up to the first
/// `/`, or, without a scheme, the whole text up to the first `/`.
pub open spec fn domain_of(u: Seq<u8>) -> Seq<u8> {
    if has_scheme(u) {
        host_of(u)
    } else {
        u.subrange(0, byte_index_from(u, B_SLASH, 0))
    }
}

/// Extract the domain from a URL.
pub fn extract_domain(url: &str) -> (r: String)
    ensures
        encode_utf8(r@) == domain_of(url.spec_bytes()),
{
    let b = url.as_bytes();
    match host_bounds(b) {
        Some((a, e)) => {
            proof {
                vstd::utf8::encode_utf8_valid_utf8(url@);
                let ub = url.spec_bytes();
                crate::text::lemma_first_occurrence_is_match(ub, crate::matching::scheme_sep(), 0);
                let p = crate::text::first_occurrence_from(ub, crate::matching::scheme_sep(), 0);
                assert(ub.subrange(p, p + 3)[2] == ub[a - 1]);
                assert(ub[a - 1] == crate::matching::scheme_sep()[2]);
                lemma_after_ascii_byte(ub, a as int);
                lemma_byte_index_from(ub, B_SLASH, a as int);
            }
            let tail = split_str_at(url, a).1;
            proof {
                let tb = tail.spec_bytes();
                if (e - a) < tb.len() {
                    assert(tb[(e - a) as int] == url.spec_bytes()[e as int]);
                }
            }
            let host = split_str_at(tail, e - a).0;
            proof {
                assert(host.spec_bytes() =~= url.spec_bytes().subrange(a as int, e as int));
            }
            host.to_owned()
        },
        None => {
            let sl = find_byte_from(b, B_SLASH, 0);
            proof {
                lemma_byte_index_from(url.spec_bytes(), B_SLASH, 0);
            }
            let part = split_str_at(url, sl).0;
            part.to_owned()
        },
    }
}

} // verus!
