//! Pulling model weights from the Hugging Face hub: the URL a repository id names,
//! and when a running download reports its progress.

use vstd::prelude::*;

use crate::text::{chars_match_at, to_chars};

verus! {

/// `s` with every occurrence of `pat` replaced by `rep`, scanning left to right
/// without overlap (an empty pattern replaces nothing).
pub open spec fn replaced(s: Seq<char>, pat: Seq<char>, rep: Seq<char>) -> Seq<char>
    decreases s.len(),
{
    if pat.len() > 0 && pat.len() <= s.len() && s.take(pat.len() as int) == pat {
        rep + replaced(s.skip(pat.len() as int), pat, rep)
    } else if s.len() > 0 {
        seq![s[0]] + replaced(s.drop_first(), pat, rep)
    } else {
        s
    }
}

/// `pat` occurs in `s` at `j`.
pub open spec fn occurs_at(s: Seq<char>, pat: Seq<char>, j: int) -> bool {
    0 <= j && j + pat.len() <= s.len() && s.subrange(j, j + pat.len()) == pat
}

/// A stretch in which `pat` does not start comes out unchanged.
proof fn lemma_replaced_plain(s: Seq<char>, pat: Seq<char>, rep: Seq<char>, n: int)
    requires
        pat.len() > 0,
        0 <= n <= s.len(),
        forall|j: int| 0 <= j < n ==> !#[trigger] occurs_at(s, pat, j),
    ensures
        replaced(s, pat, rep) == s.subrange(0, n) + replaced(s.skip(n), pat, rep),
    decreases n,
{
    if n == 0 {
        assert(s.skip(0) =~= s);
        assert(s.subrange(0, 0) + replaced(s, pat, rep) =~= replaced(s, pat, rep));
    } else {
        let t = s.drop_first();
        assert forall|j: int| 0 <= j < n - 1 implies !#[trigger] occurs_at(t, pat, j) by {
            assert(!occurs_at(s, pat, j + 1));
            if j + pat.len() <= t.len() {
                assert(t.subrange(j, j + pat.len()) =~= s.subrange(j + 1, j + 1 + pat.len()));
            }
        }
        lemma_replaced_plain(t, pat, rep, n - 1);
        assert(t.skip(n - 1) =~= s.skip(n));
        assert(seq![s[0]] + t.subrange(0, n - 1) =~= s.subrange(0, n));
        assert(!occurs_at(s, pat, 0));
        if pat.len() <= s.len() {
            assert(s.take(pat.len() as int) =~= s.subrange(0, pat.len() as int));
        }
    }
}

/// `s` with every occurrence of `pat` replaced by `rep`, left to right.
pub fn replace_all(s: &str, pat: &str, rep: &str) -> (r: String)
    requires
        pat@.len() > 0,
    ensures
        r@ == replaced(s@, pat@, rep@),
{
    let c: Vec<char> = to_chars(s);
    let m: usize = pat.unicode_len();
    let mut out: String = String::new();
    let mut start: usize = 0;
    let mut k: usize = 0;
    assert(c@.skip(0) =~= c@);
    while k < c.len()
        invariant
            c@ == s@,
            m == pat@.len(),
            m > 0,
            start <= k <= c@.len(),
            out@ + replaced(c@.skip(start as int), pat@, rep@) == replaced(s@, pat@, rep@),
            forall|j: int| start <= j < k ==> !#[trigger] occurs_at(c@, pat@, j),
        decreases c@.len() - k,
    {
        if chars_match_at(&c, k, pat) {
            let seg: &str = s.substring_char(start, k);
            let ghost rest = c@.skip(start as int);
            proof {
                assert forall|j: int| 0 <= j < k - start implies !#[trigger] occurs_at(rest, pat@, j) by {
                    assert(!occurs_at(c@, pat@, start + j));
                    if j + pat@.len() <= rest.len() {
                        assert(rest.subrange(j, j + pat@.len()) =~= c@.subrange(start + j, start + j + pat@.len()));
                    }
                }
                lemma_replaced_plain(rest, pat@, rep@, (k - start) as int);
                assert(rest.skip(k - start) =~= c@.skip(k as int));
                assert(rest.subrange(0, k - start) =~= seg@);
                let at = c@.skip(k as int);
                assert(at.take(m as int) =~= c@.subrange(k as int, k + m));
                assert(at.skip(m as int) =~= c@.skip(k + m));
            }
            let ghost before = out@;
            out.append(seg);
            out.append(rep);
            proof {
                assert(out@ + replaced(c@.skip(k + m), pat@, rep@) =~= before + (seg@ + (rep@ + replaced(
                    c@.skip(k + m),
                    pat@,
                    rep@,
                ))));
            }
            start = k + m;
            k = k + m;
        } else {
            k = k + 1;
        }
    }
    let tail: &str = s.substring_char(start, c.len());
    proof {
        let rest = c@.skip(start as int);
        assert forall|j: int| 0 <= j < c@.len() - start implies !#[trigger] occurs_at(rest, pat@, j) by {
            assert(!occurs_at(c@, pat@, start + j));
            if j + pat@.len() <= rest.len() {
                assert(rest.subrange(j, j + pat@.len()) =~= c@.subrange(start + j, start + j + pat@.len()));
            }
        }
        lemma_replaced_plain(rest, pat@, rep@, (c@.len() - start) as int);
        assert(rest.skip(c@.len() - start) =~= Seq::<char>::empty());
        assert(rest.subrange(0, c@.len() - start) =~= tail@);
    }
    let ghost before = out@;
    out.append(tail);
    assert(out@ =~= before + tail@);
    out
}

/// The hub path of a repository id: the legacy `facebookresearch/jepa:` prefix
/// names the `facebookresearch` organisation.
pub open spec fn hub_repo_path(repo_id: Seq<char>) -> Seq<char> {
    replaced(repo_id, "facebookresearch/jepa:"@, "facebookresearch/"@)
}

/// Where the weights of a repository are fetched from.
pub open spec fn spec_weights_url(repo_id: Seq<char>) -> Seq<char> {
    "https://huggingface.co/"@ + hub_repo_path(repo_id) + "/resolve/main/model.safetensors"@
}

/// The direct download URL of a repository's `model.safetensors`.
pub fn weights_url(repo_id: &str) -> (url: String)
    ensures
        url@ == spec_weights_url(repo_id@),
{
    proof {
        reveal_strlit("facebookresearch/jepa:");
    }
    let path: String = replace_all(repo_id, "facebookresearch/jepa:", "facebookresearch/");
    let mut url: String = String::from_str("https://huggingface.co/");
    url.append(path.as_str());
    url.append("/resolve/main/model.safetensors");
    url
}

/// Least time between two progress reports of a running download.
pub const PROGRESS_INTERVAL_MS: u64 = 200;

/// Milliseconds from `from` to `now` on a monotonic clock (never negative).
pub open spec fn elapsed_ms(from: int, now: int) -> int {
    if now >= from {
        now - from
    } else {
        0
    }
}

/// Bytes received so far by a download, and when progress was last reported.
pub struct DownloadMeter {
    downloaded: u64,
    total: u64,
    last_report_ms: u64,
}

impl DownloadMeter {
    pub closed spec fn downloaded(&self) -> nat {
        self.downloaded as nat
    }

    /// The announced length (0 when the server announced none).
    pub closed spec fn total(&self) -> nat {
        self.total as nat
    }

    pub closed spec fn last_report_ms(&self) -> nat {
        self.last_report_ms as nat
    }

    /// A download of `total` announced bytes starting at `now_ms`.
    pub fn new(total: u64, now_ms: u64) -> (m: Self)
        ensures
            m.downloaded() == 0,
            m.total() == total,
            m.last_report_ms() == now_ms,
    {
        DownloadMeter { downloaded: 0, total, last_report_ms: now_ms }
    }

    /// Count a received chunk of `len` bytes at `now_ms`; returns whether progress
    /// is reported now: when [`PROGRESS_INTERVAL_MS`] have passed since the last
    /// report, or when the announced length is reached.
    pub fn record_chunk(&mut self, len: u64, now_ms: u64) -> (report: bool)
        requires
            old(self).downloaded() + len <= u64::MAX,
        ensures
            final(self).downloaded() == old(self).downloaded() + len,
            final(self).total() == old(self).total(),
            report == (elapsed_ms(old(self).last_report_ms() as int, now_ms as int) >= PROGRESS_INTERVAL_MS
                || final(self).downloaded() == final(self).total()),
            final(self).last_report_ms() == if report {
                now_ms as nat
            } else {
                old(self).last_report_ms()
            },
    {
        self.downloaded = self.downloaded + len;
        let since: u64 = if now_ms >= self.last_report_ms {
            now_ms - self.last_report_ms
        } else {
            0
        };
        let report: bool = since >= PROGRESS_INTERVAL_MS || self.downloaded == self.total;
        if report {
            self.last_report_ms = now_ms;
        }
        report
    }

    pub fn downloaded_bytes(&self) -> (n: u64)
        ensures
            n == self.downloaded(),
    {
        self.downloaded
    }

    pub fn total_bytes(&self) -> (n: u64)
        ensures
            n == self.total(),
    {
        self.total
    }
}

} // verus!
