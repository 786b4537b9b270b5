//! Filter list updating: the interval policy deciding when a new download
//! is due, and merging of several filter lists into one. Fetching and disk
//! caching are the host's work; it hands the text in and takes it back.

use vstd::prelude::*;
use vstd::string::StrSliceExecFns;
use vstd::string::StringExecFns;

use crate::metrics::now_unix_ns;
use crate::text::push_char;
use crate::CoreError;

verus! {

/// The character for one decimal digit.
pub open spec fn digit_char(d: int) -> char
    recommends
        0 <= d <= 9,
{
    ((48 + d) as u8) as char
}

/// The decimal digits of `n`, most significant first.
pub open spec fn dec_digits(n: int) -> Seq<char>
    recommends
        n >= 0,
    decreases n,
{
    if n < 10 {
        seq![digit_char(n)]
    } else {
        dec_digits(n / 10) + seq![digit_char(n % 10)]
    }
}

/// `s` reversed.
pub open spec fn rev_chars(s: Seq<char>) -> Seq<char> {
    Seq::new(s.len(), |i: int| s[s.len() - 1 - i])
}

/// The decimal text of `n`.
fn u64_digits(n: u64) -> (r: String)
    ensures
        r@ == dec_digits(n as int),
{
    if n == 0 {
        let c = 48u8 as char;
        let mut out = String::new();
        push_char(&mut out, c);
        proof {
            assert(c == digit_char(0));
            assert(out@ =~= dec_digits(0));
        }
        return out;
    }
    let mut rev: Vec<char> = Vec::new();
    let mut x = n;
    proof {
        assert(rev_chars(rev@) =~= Seq::<char>::empty());
        assert(dec_digits(n as int) + Seq::<char>::empty() =~= dec_digits(n as int));
    }
    while x > 0
        invariant
            x <= n,
            x > 0 ==> dec_digits(n as int) == dec_digits(x as int) + rev_chars(rev@),
            x == 0 ==> dec_digits(n as int) == rev_chars(rev@),
        decreases x,
    {
        let ghost prev = rev@;
        let d = (x % 10) as u8;
        let c = (48 + d) as char;
        proof {
            assert(0 <= x as int % 10 < 10);
            assert(d as int == x as int % 10);
            assert(c == digit_char(x as int % 10));
        }
        rev.push(c);
        proof {
            assert(rev_chars(rev@) =~= seq![c] + rev_chars(prev));
            if x >= 10 {
                assert(dec_digits(x as int) == dec_digits(x as int / 10) + seq![c]);
                assert((dec_digits(x as int / 10) + seq![c]) + rev_chars(prev) =~= dec_digits(
                    x as int / 10,
                ) + rev_chars(rev@));
                assert(x as int / 10 == (x / 10) as int);
            } else {
                assert(dec_digits(x as int) == seq![c]);
                assert(seq![c] + rev_chars(prev) =~= rev_chars(rev@));
            }
        }
        x = x / 10;
    }
    let m = rev.len();
    let mut out = String::new();
    let mut j: usize = 0;
    while j < m
        invariant
            0 <= j <= m,
            m == rev@.len(),
            dec_digits(n as int) == rev_chars(rev@),
            out@ =~= rev_chars(rev@).subrange(0, j as int),
        decreases m - j,
    {
        push_char(&mut out, rev[m - 1 - j]);
        proof {
            assert(out@ =~= rev_chars(rev@).subrange(0, j + 1));
        }
        j += 1;
    }
    proof {
        assert(out@ =~= rev_chars(rev@));
    }
    out
}

/// The merged list's comment header, stamped with a clock reading in
/// milliseconds since the Unix epoch.
pub open spec fn merge_header(ts: u64) -> Seq<char> {
    "! Merged Filter List\n! Generated at: "@ + dec_digits(ts as int) + "\n\n"@
}

/// Configuration for filter updates.
#[derive(Debug)]
pub struct UpdateConfig {
    /// URLs to download filter lists from.
    pub urls: Vec<String>,
    /// How often to check for updates, in milliseconds.
    pub update_interval: u64,
    /// Directory to cache downloaded filters, as a path string.
    pub cache_dir: Option<String>,
}

/// Filter list updater.
pub struct FilterUpdater {
    config: UpdateConfig,
    last_update: Option<u64>,
}

/// One list followed by a newline; the newline is added only when the list
/// does not already end with one.
pub open spec fn list_with_newline(l: Seq<char>) -> Seq<char> {
    if l.len() > 0 && l.last() == '\n' {
        l
    } else {
        l.push('\n')
    }
}

/// The lists from index `i` on, each newline-terminated, concatenated.
pub open spec fn merged_lists_from(ls: Seq<Seq<char>>, i: int) -> Seq<char>
    decreases ls.len() - i,
{
    if i < 0 || i >= ls.len() {
        Seq::empty()
    } else {
        list_with_newline(ls[i]) + merged_lists_from(ls, i + 1)
    }
}

impl FilterUpdater {
    /// The moment of the last successful update, in milliseconds since the
    /// Unix epoch, when one has happened.
    pub closed spec fn spec_last_update(&self) -> Option<u64> {
        self.last_update
    }

    /// The configured update interval in milliseconds.
    pub closed spec fn spec_interval(&self) -> u64 {
        self.config.update_interval
    }

    /// Create a new filter updater; any cached state on disk is the host's
    /// to restore.
    pub fn new(config: UpdateConfig) -> (r: Result<Self, CoreError>)
        ensures
            r is Ok,
            r matches Ok(u) ==> u.spec_last_update() is None && u.spec_interval()
                == config.update_interval,
    {
        Ok(FilterUpdater { config, last_update: None })
    }

    /// Restore a previously recorded update moment, in milliseconds since
    /// the Unix epoch; the host hands this back after reading its cache
    /// metadata on startup.
    pub fn restore_last_update(&mut self, at_ms: u64)
        ensures
            final(self).spec_last_update() == Option::Some(at_ms),
            final(self).spec_interval() == old(self).spec_interval(),
    {
        self.last_update = Some(at_ms);
    }

    /// The update decision as a function of the clock reading: an update is
    /// due when none has happened, when the clock moved backwards, or when
    /// the interval has elapsed.
    pub fn needs_update_at(last_update: Option<u64>, now_ms: u64, interval_ms: u64) -> (r: bool)
        ensures
            r == match last_update {
                Option::None => true,
                Option::Some(l) => now_ms < l || now_ms - l >= interval_ms,
            },
    {
        match last_update {
            None => true,
            Some(l) => now_ms < l || now_ms - l >= interval_ms,
        }
    }

    /// Check if an update is needed. The answer depends on the clock; with
    /// no update recorded yet it is always true.
    pub fn needs_update(&self) -> (r: bool)
        ensures
            self.spec_last_update() is None ==> r,
    {
        let now_ms = now_unix_ns() / 1000000;
        Self::needs_update_at(self.last_update, now_ms, self.config.update_interval)
    }

    /// Accept new filter content: the update moment is recorded; writing
    /// the content to the cache directory is the host's work.
    pub fn update_with_content(&mut self, content: &str) -> (r: Result<(), CoreError>)
        ensures
            r is Ok,
            final(self).spec_last_update() is Some,
            final(self).spec_interval() == old(self).spec_interval(),
    {
        let _ = content;
        self.last_update = Some(now_unix_ns() / 1000000);
        Ok(())
    }

    /// Merge multiple filter lists under a timestamped comment header, each
    /// list newline-terminated. The stamp is a clock reading, so only its
    /// existence is promised.
    pub fn merge_filter_lists(&self, lists: Vec<&str>) -> (r: String)
        ensures
            exists|ts: u64|
                r@ == merge_header(ts) + merged_lists_from(
                    Seq::new(lists@.len(), |i: int| lists@[i]@),
                    0,
                ),
    {
        let ghost lv = Seq::new(lists@.len(), |i: int| lists@[i]@);
        let ts = now_unix_ns() / 1000000;
        let mut merged = String::from_str("! Merged Filter List\n! Generated at: ");
        let stamp = u64_digits(ts);
        merged.append(stamp.as_str());
        merged.append("\n\n");
        proof {
            assert(merged@ == merge_header(ts));
        }
        let n = lists.len();
        let mut i: usize = 0;
        while i < n
            invariant
                0 <= i <= n,
                n == lists@.len(),
                lv == Seq::new(lists@.len(), |k: int| lists@[k]@),
                merged@ + merged_lists_from(lv, i as int) == merge_header(ts)
                    + merged_lists_from(lv, 0),
            decreases n - i,
        {
            let ghost prev = merged@;
            let li = lists[i];
            merged.append(li);
            let len = li.unicode_len();
            if len > 0 && li.get_char(len - 1) == '\n' {
                proof {
                    assert(merged@ == prev + list_with_newline(lv[i as int]));
                }
            } else {
                merged.append("\n");
                proof {
                    reveal_strlit("\n");
                    assert("\n"@ =~= seq!['\n']);
                    assert(lv[i as int].push('\n') =~= lv[i as int] + seq!['\n']);
                    assert(merged@ == prev + list_with_newline(lv[i as int]));
                }
            }
            proof {
                assert((prev + list_with_newline(lv[i as int])) + merged_lists_from(lv, i + 1)
                    =~= prev + merged_lists_from(lv, i as int));
            }
            i += 1;
        }
        proof {
            assert(merged_lists_from(lv, n as int) =~= Seq::<char>::empty());
            assert(merged@ + Seq::<char>::empty() =~= merged@);
            assert(exists|t: u64| merged@ == merge_header(t) + merged_lists_from(lv, 0)) by {
                assert(merged@ == merge_header(ts) + merged_lists_from(lv, 0));
            }
        }
        merged
    }
}

} // verus!
