//! Repository metadata, repository preferences and registry index validation.

use vstd::prelude::*;

use crate::text::{
    before_char, before_char_chars, chars_of, contains_chars, contains_sub, decimal, ends_with_chars,
    eq_ignore_ascii_case, eq_ignore_case, has_prefix, has_suffix, is_blank, lower, lower_string,
    starts_with_chars, str_byte_len, str_equal, str_is_blank, byte_len, string_from_chars, sub_chars,
    u64_text,
};
use crate::version::{Requirement, Version, VersionView, version_text};

verus! {

/// The built-in rtwKit repository index.
pub const BUILTIN_REPOSITORY: &'static str = "https://martrtr.github.io/rtwKit/index.json";

/// A configured package repository.
#[derive(Debug)]
pub struct RepositoryPreference {
    /// Index URL.
    pub url: String,
    /// Whether the repository is loaded.
    pub enabled: bool,
}

/// Plain-value view of a repository preference.
pub open spec fn pref_view(p: RepositoryPreference) -> (Seq<char>, bool) {
    (p.url@, p.enabled)
}

/// Plain-value views of a list of repository preferences.
pub open spec fn prefs_view(ps: Seq<RepositoryPreference>) -> Seq<(Seq<char>, bool)> {
    ps.map_values(|p: RepositoryPreference| pref_view(p))
}

impl RepositoryPreference {
    /// The built-in repository, enabled.
    pub fn builtin() -> (r: RepositoryPreference)
        ensures
            r.url@ == BUILTIN_REPOSITORY@,
            r.enabled,
    {
        RepositoryPreference { url: String::from_str(BUILTIN_REPOSITORY), enabled: true }
    }

    /// Copies the preference.
    pub fn copy(&self) -> (r: RepositoryPreference)
        ensures
            pref_view(r) == pref_view(*self),
    {
        RepositoryPreference { url: self.url.clone(), enabled: self.enabled }
    }
}

/// Index of the first entry with that URL, or -1.
pub open spec fn first_with_url(ps: Seq<(Seq<char>, bool)>, url: Seq<char>) -> int
    decreases ps.len(),
{
    if ps.len() == 0 {
        -1
    } else if ps[0].0 == url {
        0
    } else {
        let r = first_with_url(ps.drop_first(), url);
        if r < 0 {
            -1
        } else {
            r + 1
        }
    }
}

/// Facts about `first_with_url`.
pub proof fn lemma_first_with_url(ps: Seq<(Seq<char>, bool)>, url: Seq<char>)
    ensures
        -1 <= first_with_url(ps, url) < ps.len(),
        first_with_url(ps, url) >= 0 ==> ps[first_with_url(ps, url)].0 == url,
        forall|k: int| 0 <= k < ps.len() && (first_with_url(ps, url) < 0 || k < first_with_url(ps, url)) ==> ps[k].0 != url,
    decreases ps.len(),
{
    if ps.len() > 0 && ps[0].0 != url {
        lemma_first_with_url(ps.drop_first(), url);
        assert forall|k: int| 0 <= k < ps.len() && (first_with_url(ps, url) < 0 || k < first_with_url(ps, url)) implies ps[k].0 != url by {
            if k > 0 {
                assert(ps[k] == ps.drop_first()[k - 1]);
            }
        }
    }
}

/// The list with the built-in repository moved (or added, enabled) to the front.
pub open spec fn builtin_first(ps: Seq<(Seq<char>, bool)>) -> Seq<(Seq<char>, bool)> {
    let i = first_with_url(ps, BUILTIN_REPOSITORY@);
    if i >= 0 {
        seq![ps[i]] + ps.remove(i)
    } else {
        seq![(BUILTIN_REPOSITORY@, true)] + ps
    }
}

/// `url` is the URL of some entry.
pub open spec fn has_url(ps: Seq<(Seq<char>, bool)>, url: Seq<char>) -> bool {
    exists|k: int| 0 <= k < ps.len() && (#[trigger] ps[k]).0 == url
}

/// Later entries whose URL already occurred are dropped.
pub open spec fn dedup_urls(ps: Seq<(Seq<char>, bool)>) -> Seq<(Seq<char>, bool)>
    decreases ps.len(),
{
    if ps.len() == 0 {
        Seq::empty()
    } else {
        let d = dedup_urls(ps.drop_last());
        if has_url(d, ps.last().0) {
            d
        } else {
            d.push(ps.last())
        }
    }
}

/// The stored repositories, or just the built-in one when nothing was stored.
pub open spec fn stored_or_default(stored: Option<Seq<(Seq<char>, bool)>>) -> Seq<(Seq<char>, bool)> {
    match stored {
        Some(s) => s,
        None => seq![(BUILTIN_REPOSITORY@, true)],
    }
}

/// What repository normalization produces.
pub open spec fn normalized_repositories(stored: Option<Seq<(Seq<char>, bool)>>) -> Seq<(Seq<char>, bool)> {
    dedup_urls(builtin_first(stored_or_default(stored)))
}

fn copy_prefs(ps: &Vec<RepositoryPreference>) -> (r: Vec<RepositoryPreference>)
    ensures
        prefs_view(r@) == prefs_view(ps@),
{
    let mut out: Vec<RepositoryPreference> = Vec::new();
    let mut i: usize = 0;
    while i < ps.len()
        invariant
            i <= ps@.len(),
            prefs_view(out@) =~= prefs_view(ps@.take(i as int)),
        decreases ps@.len() - i,
    {
        let c = ps[i].copy();
        let ghost before = out@;
        out.push(c);
        proof {
            assert(ps@.take(i + 1) =~= ps@.take(i as int).push(ps@[i as int]));
            assert(out@ == before.push(c));
            assert(prefs_view(out@) =~= prefs_view(before).push(pref_view(c)));
            assert(prefs_view(ps@.take(i + 1)) =~= prefs_view(ps@.take(i as int)).push(pref_view(ps@[i as int])));
        }
        i = i + 1;
    }
    proof {
        assert(ps@.take(ps@.len() as int) =~= ps@);
    }
    out
}

fn url_is(p: &RepositoryPreference, url: &str) -> (r: bool)
    ensures
        r == (p.url@ == url@),
{
    str_equal(p.url.as_str(), url)
}

/// Puts the built-in repository first (adding it when absent) and drops
/// repeated URLs, keeping each URL's first entry.
pub fn normalize_repositories(stored: Option<Vec<RepositoryPreference>>) -> (r: Vec<RepositoryPreference>)
    ensures
        prefs_view(r@) == normalized_repositories(match stored {
            Some(s) => Some(prefs_view(s@)),
            None => None,
        }),
{
    let ghost sv = match &stored {
        Some(s) => Some(prefs_view(s@)),
        None => None,
    };
    let mut repositories: Vec<RepositoryPreference> = match stored {
        Some(s) => s,
        None => {
            let mut v = Vec::new();
            v.push(RepositoryPreference::builtin());
            v
        },
    };
    proof {
        assert(prefs_view(repositories@) =~= stored_or_default(sv));
    }
    let ghost base = prefs_view(repositories@);
    let mut position: Option<usize> = None;
    let mut k: usize = 0;
    proof {
        lemma_first_with_url(base, BUILTIN_REPOSITORY@);
    }
    while k < repositories.len()
        invariant
            k <= repositories@.len(),
            base == prefs_view(repositories@),
            position.is_none() ==> forall|m: int| 0 <= m < k ==> base[m].0 != BUILTIN_REPOSITORY@,
            position.is_some() ==> position.unwrap() as int == first_with_url(base, BUILTIN_REPOSITORY@),
            -1 <= first_with_url(base, BUILTIN_REPOSITORY@) < base.len(),
            first_with_url(base, BUILTIN_REPOSITORY@) >= 0 ==> base[first_with_url(base, BUILTIN_REPOSITORY@)].0 == BUILTIN_REPOSITORY@,
            forall|m: int| 0 <= m < base.len() && (first_with_url(base, BUILTIN_REPOSITORY@) < 0 || m < first_with_url(base, BUILTIN_REPOSITORY@)) ==> base[m].0 != BUILTIN_REPOSITORY@,
        decreases repositories@.len() - k,
    {
        proof {
            assert(base[k as int].0 == repositories@[k as int].url@);
        }
        if position.is_none() && url_is(&repositories[k], BUILTIN_REPOSITORY) {
            position = Some(k);
        }
        k = k + 1;
    }
    match position {
        Some(i) => {
            let builtin = repositories.remove(i);
            repositories.insert(0, builtin);
            proof {
                assert(prefs_view(repositories@) =~= builtin_first(base));
            }
        },
        None => {
            proof {
                assert(first_with_url(base, BUILTIN_REPOSITORY@) < 0);
            }
            repositories.insert(0, RepositoryPreference::builtin());
            proof {
                assert(prefs_view(repositories@) =~= builtin_first(base));
            }
        },
    }
    let ghost front = prefs_view(repositories@);
    let mut out: Vec<RepositoryPreference> = Vec::new();
    let mut i: usize = 0;
    while i < repositories.len()
        invariant
            i <= repositories@.len(),
            front == prefs_view(repositories@),
            prefs_view(out@) == dedup_urls(front.take(i as int)),
        decreases repositories@.len() - i,
    {
        let mut seen = false;
        let mut j: usize = 0;
        while j < out.len()
            invariant
                j <= out@.len(),
                i < repositories@.len(),
                seen == exists|m: int| 0 <= m < j && (#[trigger] out@[m]).url@ == repositories@[i as int].url@,
            decreases out@.len() - j,
        {
            if str_equal(out[j].url.as_str(), repositories[i].url.as_str()) {
                seen = true;
            }
            j = j + 1;
        }
        proof {
            let t = front.take(i + 1);
            assert(t.drop_last() =~= front.take(i as int));
            assert(t.last() == pref_view(repositories@[i as int]));
            let d = prefs_view(out@);
            if seen {
                let m = choose|m: int| 0 <= m < out@.len() && (#[trigger] out@[m]).url@ == repositories@[i as int].url@;
                assert(d[m].0 == t.last().0);
            } else {
                assert forall|m: int| 0 <= m < d.len() implies (#[trigger] d[m]).0 != t.last().0 by {
                    assert(d[m] == pref_view(out@[m]));
                }
            }
        }
        if !seen {
            out.push(repositories[i].copy());
            proof {
                assert(prefs_view(out@) =~= dedup_urls(front.take(i as int)).push(front[i as int]));
            }
        }
        i = i + 1;
    }
    proof {
        assert(front.take(repositories@.len() as int) =~= front);
    }
    out
}

/// No URL occurs twice.
pub open spec fn unique_urls(ps: Seq<(Seq<char>, bool)>) -> bool {
    forall|a: int, b: int| 0 <= a < b < ps.len() ==> (#[trigger] ps[a]).0 != (#[trigger] ps[b]).0
}

proof fn lemma_has_url_push(ps: Seq<(Seq<char>, bool)>, x: (Seq<char>, bool), u: Seq<char>)
    ensures
        has_url(ps.push(x), u) == (has_url(ps, u) || x.0 == u),
{
    let q = ps.push(x);
    if has_url(ps, u) {
        let k = choose|k: int| 0 <= k < ps.len() && (#[trigger] ps[k]).0 == u;
        assert(q[k] == ps[k]);
    }
    if x.0 == u {
        assert(q[ps.len() as int] == x);
    }
    if has_url(q, u) {
        let k = choose|k: int| 0 <= k < q.len() && (#[trigger] q[k]).0 == u;
        if k < ps.len() {
            assert(ps[k] == q[k]);
        }
    }
}

/// What dropping repeated URLs keeps: no URL twice, the same URLs, the first
/// entry; a list without repeated URLs is kept whole.
proof fn lemma_dedup_urls(ps: Seq<(Seq<char>, bool)>)
    ensures
        unique_urls(dedup_urls(ps)),
        forall|u: Seq<char>| #[trigger] has_url(dedup_urls(ps), u) == has_url(ps, u),
        unique_urls(ps) ==> dedup_urls(ps) == ps,
        ps.len() > 0 ==> dedup_urls(ps).len() > 0 && dedup_urls(ps)[0] == ps[0],
    decreases ps.len(),
{
    if ps.len() > 0 {
        let init = ps.drop_last();
        let x = ps.last();
        lemma_dedup_urls(init);
        let d = dedup_urls(init);
        assert(init.push(x) =~= ps);
        assert forall|u: Seq<char>| #[trigger] has_url(dedup_urls(ps), u) == has_url(ps, u) by {
            lemma_has_url_push(init, x, u);
            lemma_has_url_push(d, x, u);
        }
        if !has_url(d, x.0) {
            let q = d.push(x);
            assert forall|a: int, b: int| 0 <= a < b < q.len() implies (#[trigger] q[a]).0 != (#[trigger] q[b]).0 by {
                if b == d.len() {
                    assert(q[a] == d[a]);
                } else {
                    assert(q[a] == d[a] && q[b] == d[b]);
                }
            }
        }
        if unique_urls(ps) {
            assert forall|a: int, b: int| 0 <= a < b < init.len() implies (#[trigger] init[a]).0 != (#[trigger] init[b]).0 by {
                assert(init[a] == ps[a] && init[b] == ps[b]);
            }
            assert(d == init);
            assert(!has_url(d, x.0)) by {
                if has_url(d, x.0) {
                    let k = choose|k: int| 0 <= k < d.len() && (#[trigger] d[k]).0 == x.0;
                    assert(ps[k] == init[k]);
                    assert(ps[ps.len() - 1] == x);
                }
            }
        }
        if init.len() == 0 {
            assert(d.len() == 0);
            assert(!has_url(d, x.0));
        }
    }
}

/// Facts about `builtin_first`: the built-in repository is first, carrying the
/// stored entry's flag where there is one, and no URL is lost.
proof fn lemma_builtin_first(ps: Seq<(Seq<char>, bool)>)
    ensures
        builtin_first(ps).len() > 0,
        builtin_first(ps)[0].0 == BUILTIN_REPOSITORY@,
        has_url(ps, BUILTIN_REPOSITORY@) ==> builtin_first(ps)[0] == ps[first_with_url(ps, BUILTIN_REPOSITORY@)],
        !has_url(ps, BUILTIN_REPOSITORY@) ==> builtin_first(ps)[0] == (BUILTIN_REPOSITORY@, true),
        forall|u: Seq<char>| has_url(ps, u) ==> #[trigger] has_url(builtin_first(ps), u),
{
    lemma_first_with_url(ps, BUILTIN_REPOSITORY@);
    let i = first_with_url(ps, BUILTIN_REPOSITORY@);
    let q = builtin_first(ps);
    if has_url(ps, BUILTIN_REPOSITORY@) {
        let k = choose|k: int| 0 <= k < ps.len() && (#[trigger] ps[k]).0 == BUILTIN_REPOSITORY@;
        assert(i >= 0);
    }
    if i < 0 {
        assert forall|u: Seq<char>| has_url(ps, u) implies #[trigger] has_url(q, u) by {
            let k = choose|k: int| 0 <= k < ps.len() && (#[trigger] ps[k]).0 == u;
            assert(q[k + 1] == ps[k]);
        }
    } else {
        assert forall|u: Seq<char>| has_url(ps, u) implies #[trigger] has_url(q, u) by {
            let k = choose|k: int| 0 <= k < ps.len() && (#[trigger] ps[k]).0 == u;
            if k == i {
                assert(q[0] == ps[k]);
            } else if k < i {
                assert(q[k + 1] == ps[k]);
            } else {
                assert(q[k] == ps[k]);
            }
        }
    }
}

/// Normalized repositories start with the built-in repository (keeping the
/// stored entry's enabled flag, or enabled when it was not stored), name no URL
/// twice, and keep every stored URL.
pub proof fn law_normalized_repositories(stored: Option<Seq<(Seq<char>, bool)>>)
    ensures
        ({
            let r = normalized_repositories(stored);
            let s = stored_or_default(stored);
            &&& r.len() > 0
            &&& r[0].0 == BUILTIN_REPOSITORY@
            &&& has_url(s, BUILTIN_REPOSITORY@) ==> r[0] == s[first_with_url(s, BUILTIN_REPOSITORY@)]
            &&& !has_url(s, BUILTIN_REPOSITORY@) ==> r[0] == (BUILTIN_REPOSITORY@, true)
            &&& unique_urls(r)
            &&& forall|u: Seq<char>| has_url(s, u) ==> #[trigger] has_url(r, u)
        }),
{
    let s = stored_or_default(stored);
    lemma_builtin_first(s);
    lemma_dedup_urls(builtin_first(s));
}

/// Normalizing repositories that were already normalized changes nothing.
pub proof fn law_normalize_repositories_idempotent(stored: Option<Seq<(Seq<char>, bool)>>)
    ensures
        normalized_repositories(Some(normalized_repositories(stored))) == normalized_repositories(stored),
{
    let r = normalized_repositories(stored);
    law_normalized_repositories(stored);
    assert(first_with_url(r, BUILTIN_REPOSITORY@) == 0);
    assert(seq![r[0]] + r.remove(0) =~= r);
    assert(builtin_first(r) == r);
    lemma_dedup_urls(r);
}


/// A check's outcome agrees with the error it is specified to report (if any).
pub open spec fn outcome(r: Result<(), String>, e: Option<Seq<char>>) -> bool {
    match r {
        Ok(()) => e.is_none(),
        Err(m) => e == Some(m@),
    }
}

/// The first error of an HTTPS URL check, if any.
pub open spec fn https_error(url: Seq<char>, label: Seq<char>) -> Option<Seq<char>> {
    if !has_prefix(url, "https://"@) {
        Some(label + " must use HTTPS"@)
    } else {
        let authority = url.skip(8);
        if authority.len() == 0 || authority[0] == '/' || contains_sub(before_char(authority, '/'), "@"@) {
            Some(label + " is invalid"@)
        } else {
            None
        }
    }
}

/// Builds `a + b`.
pub fn join2(a: &str, b: &str) -> (r: String)
    ensures
        r@ == a@ + b@,
{
    let mut out = String::from_str(a);
    out.append(b);
    out
}

/// Requires an `https://` URL with a non-empty host that holds no user info.
pub fn validate_https_url(url: &str, label: &str) -> (r: Result<(), String>)
    ensures
        outcome(r, https_error(url@, label@)),
{
    let u = chars_of(url);
    let prefix = chars_of("https://");
    proof {
        reveal_strlit("https://");
    }
    if !starts_with_chars(u.as_slice(), prefix.as_slice()) {
        return Err(join2(label, " must use HTTPS"));
    }
    let authority = sub_chars(u.as_slice(), 8, u.len());
    proof {
        assert(u@.subrange(8, u@.len() as int) =~= u@.skip(8));
    }
    let host = before_char_chars(authority.as_slice(), '/');
    let at = chars_of("@");
    if authority.len() == 0 || authority[0] == '/' || contains_chars(host.as_slice(), at.as_slice()) {
        return Err(join2(label, " is invalid"));
    }
    Ok(())
}

/// The first error of a repository URL check, if any.
pub open spec fn repository_url_error(url: Seq<char>) -> Option<Seq<char>> {
    match https_error(url, "repository URL"@) {
        Some(e) => Some(e),
        None => if byte_len(url) > 2048 {
            Some("repository URL exceeds 2048 bytes"@)
        } else {
            None
        },
    }
}

/// Validates a repository index URL.
pub fn validate_repository_url(url: &str) -> (r: Result<(), String>)
    ensures
        outcome(r, repository_url_error(url@)),
{
    match validate_https_url(url, "repository URL") {
        Err(e) => return Err(e),
        Ok(()) => {},
    }
    if str_byte_len(url) > 2048 {
        return Err(String::from_str("repository URL exceeds 2048 bytes"));
    }
    Ok(())
}

/// The URL path without query or fragment.
pub open spec fn url_path(url: Seq<char>) -> Seq<char> {
    before_char(before_char(url, '#'), '?')
}

/// The first error of a direct RTW URL check, if any.
pub open spec fn rtw_url_error(url: Seq<char>) -> Option<Seq<char>> {
    match https_error(url, "RTW URL"@) {
        Some(e) => Some(e),
        None => if !has_suffix(lower(url_path(url)), ".rtw"@) {
            Some("direct install URL must point to a .rtw file"@)
        } else if byte_len(url) > 4096 {
            Some("RTW URL exceeds 4096 bytes"@)
        } else {
            None
        },
    }
}

/// Validates a direct `.rtw` download URL.
pub fn validate_rtw_url(url: &str) -> (r: Result<(), String>)
    ensures
        outcome(r, rtw_url_error(url@)),
{
    match validate_https_url(url, "RTW URL") {
        Err(e) => return Err(e),
        Ok(()) => {},
    }
    let u = chars_of(url);
    let no_fragment = before_char_chars(u.as_slice(), '#');
    let path = before_char_chars(no_fragment.as_slice(), '?');
    let path_text = string_from_chars(path.as_slice());
    let lowered = lower_string(path_text.as_str());
    let lc = chars_of(lowered.as_str());
    let suffix = chars_of(".rtw");
    if !ends_with_chars(lc.as_slice(), suffix.as_slice()) {
        return Err(String::from_str("direct install URL must point to a .rtw file"));
    }
    if str_byte_len(url) > 4096 {
        return Err(String::from_str("RTW URL exceeds 4096 bytes"));
    }
    Ok(())
}

/// An ASCII hexadecimal digit.
pub open spec fn is_hex(c: char) -> bool {
    ('0' <= c && c <= '9') || ('a' <= c && c <= 'f') || ('A' <= c && c <= 'F')
}

/// The first error of a `sha256:<hex>` digest check, if any.
pub open spec fn sha256_error(value: Seq<char>) -> Option<Seq<char>> {
    if !has_prefix(value, "sha256:"@) {
        Some("artifact digest must use sha256:<hex>"@)
    } else {
        let hex = value.skip(7);
        if hex.len() == 64 && forall|i: int| 0 <= i < hex.len() ==> is_hex(#[trigger] hex[i]) {
            None
        } else {
            Some("artifact SHA-256 must contain exactly 64 hex digits"@)
        }
    }
}

/// Validates a `sha256:` digest with exactly 64 hex digits.
pub fn validate_sha256(value: &str) -> (r: Result<(), String>)
    ensures
        outcome(r, sha256_error(value@)),
{
    let v = chars_of(value);
    let prefix = chars_of("sha256:");
    proof {
        reveal_strlit("sha256:");
    }
    if !starts_with_chars(v.as_slice(), prefix.as_slice()) {
        return Err(String::from_str("artifact digest must use sha256:<hex>"));
    }
    let hex = sub_chars(v.as_slice(), 7, v.len());
    proof {
        assert(v@.subrange(7, v@.len() as int) =~= v@.skip(7));
    }
    if hex.len() != 64 {
        return Err(String::from_str("artifact SHA-256 must contain exactly 64 hex digits"));
    }
    let mut i: usize = 0;
    while i < hex.len()
        invariant
            i <= hex@.len(),
            hex@ == value@.skip(7),
            has_prefix(value@, "sha256:"@),
            hex@.len() == 64,
            forall|k: int| 0 <= k < i ==> is_hex(#[trigger] hex@[k]),
        decreases hex@.len() - i,
    {
        let c = hex[i];
        if !(('0' <= c && c <= '9') || ('a' <= c && c <= 'f') || ('A' <= c && c <= 'F')) {
            proof {
                assert(!is_hex(hex@[i as int]));
                assert(!(forall|k: int| 0 <= k < hex@.len() ==> is_hex(#[trigger] hex@[k])));
            }
            return Err(String::from_str("artifact SHA-256 must contain exactly 64 hex digits"));
        }
        i = i + 1;
    }
    Ok(())
}


/// The first error among checks `0..n`, in order.
pub open spec fn first_err(f: spec_fn(int) -> Option<Seq<char>>, n: int) -> Option<Seq<char>>
    decreases n,
{
    if n <= 0 {
        None
    } else {
        match first_err(f, n - 1) {
            Some(e) => Some(e),
            None => f(n - 1),
        }
    }
}

/// Once an earlier check failed, later prefixes report the same first error.
pub proof fn lemma_first_err_stable(f: spec_fn(int) -> Option<Seq<char>>, k: int, n: int)
    requires
        0 <= k <= n,
        first_err(f, k).is_some(),
    ensures
        first_err(f, n) == first_err(f, k),
    decreases n - k,
{
    if k < n {
        lemma_first_err_stable(f, k, n - 1);
    }
}

/// `a` unless it is `None`, then `b`.
pub open spec fn or_else(a: Option<Seq<char>>, b: Option<Seq<char>>) -> Option<Seq<char>> {
    if a.is_some() {
        a
    } else {
        b
    }
}

/// A release artifact published by a repository.
#[derive(Debug)]
pub struct PublishedArtifact {
    /// Artifact file name.
    pub file: String,
    /// Download URL.
    pub url: String,
    /// `sha256:<hex>` digest.
    pub sha256: String,
    /// Size in bytes.
    pub size: u64,
}

/// A presentation asset (logo, README, repository icon) published by a repository.
#[derive(Debug)]
pub struct PublishedAsset {
    /// Asset file name.
    pub file: String,
    /// Download URL.
    pub url: String,
    /// `sha256:<hex>` digest.
    pub sha256: String,
    /// Size in bytes.
    pub size: u64,
    /// Declared media type.
    pub media_type: String,
}

/// Source provenance of a release.
#[derive(Debug)]
pub struct PublishedSource {
    /// Source repository.
    pub repository: String,
    /// Release tag.
    pub tag: String,
    /// Source commit.
    pub commit: String,
}

/// A dependency of a release on another package.
#[derive(Debug)]
pub struct PackageDependency {
    /// Required package identifier.
    pub id: String,
    /// Accepted versions.
    pub requirement: Requirement,
}

/// One published release of a package.
#[derive(Debug)]
pub struct RegistryVersion {
    /// Release version.
    pub version: Version,
    /// RTW content identity.
    pub content: String,
    /// Packages this release needs.
    pub dependencies: Vec<PackageDependency>,
    /// Published artifact.
    pub artifact: PublishedArtifact,
    /// Source provenance.
    pub source: PublishedSource,
}

/// One package of a registry index.
#[derive(Debug)]
pub struct RegistryPackage {
    /// Package identifier.
    pub id: String,
    /// URL-safe short name.
    pub slug: String,
    /// Display name.
    pub name: String,
    /// Description.
    pub description: String,
    /// License expression.
    pub license: String,
    /// Authors.
    pub authors: Vec<String>,
    /// Homepage URL.
    pub homepage: Option<String>,
    /// Source URL.
    pub source_url: Option<String>,
    /// Logo asset.
    pub logo: Option<PublishedAsset>,
    /// README asset.
    pub readme: Option<PublishedAsset>,
    /// Newest release.
    pub latest: Version,
    /// Published releases.
    pub versions: Vec<RegistryVersion>,
}

/// Identity a repository publishes about itself.
#[derive(Debug)]
pub struct PublishedRepository {
    /// Repository identifier.
    pub id: String,
    /// Display name.
    pub name: String,
    /// Homepage URL.
    pub homepage: Option<String>,
    /// Icon asset.
    pub icon: Option<PublishedAsset>,
}

/// A repository's registry index.
#[derive(Debug)]
pub struct RegistryIndex {
    /// Index schema version.
    pub schema: u32,
    /// Optional repository identity.
    pub repository: Option<PublishedRepository>,
    /// Packages.
    pub packages: Vec<RegistryPackage>,
}

/// Media types accepted for images.
pub open spec fn image_media_types() -> Seq<Seq<char>> {
    seq!["image/png"@, "image/webp"@]
}

/// Media types accepted for README documents.
pub open spec fn readme_media_types() -> Seq<Seq<char>> {
    seq!["text/markdown; charset=utf-8"@, "text/markdown"@]
}

/// The first error of a presentation asset check, if any.
pub open spec fn presentation_error(a: PublishedAsset, label: Seq<char>, max_size: u64, allowed: Seq<Seq<char>>) -> Option<Seq<char>> {
    or_else(https_error(a.url@, label), or_else(sha256_error(a.sha256@), if is_blank(a.file@) {
        Some(label + " file name cannot be empty"@)
    } else if a.size == 0 || a.size > max_size {
        Some(label + " size "@ + decimal(a.size as nat) + " is outside the allowed 1..="@ + decimal(max_size as nat) + " bytes"@)
    } else if !media_ok(a.media_type@, allowed) {
        Some(label + " media type '"@ + a.media_type@ + "' is unsupported"@)
    } else {
        None
    }))
}

/// The media types accepted for an asset kind.
pub open spec fn allowed_types(images: bool) -> Seq<Seq<char>> {
    if images {
        image_media_types()
    } else {
        readme_media_types()
    }
}

/// The media type is one of the allowed ones, ASCII case-insensitively.
pub open spec fn media_ok(media_type: Seq<char>, allowed: Seq<Seq<char>>) -> bool {
    exists|k: int| 0 <= k < allowed.len() && eq_ignore_case(media_type, #[trigger] allowed[k])
}

fn media_type_allowed(media_type: &str, images: bool) -> (r: bool)
    ensures
        r == media_ok(media_type@, allowed_types(images)),
{
    let ghost allowed = allowed_types(images);
    let (a, b) = if images {
        ("image/png", "image/webp")
    } else {
        ("text/markdown; charset=utf-8", "text/markdown")
    };
    proof {
        assert(allowed[0] == a@ && allowed[1] == b@);
    }
    let r = eq_ignore_ascii_case(media_type, a) || eq_ignore_ascii_case(media_type, b);
    proof {
        if !r {
            assert forall|k: int| 0 <= k < allowed.len() implies !eq_ignore_case(media_type@, #[trigger] allowed[k]) by {
                if k == 0 {
                } else {
                    assert(k == 1);
                }
            }
        }
    }
    r
}

/// Validates a presentation asset: HTTPS URL, digest, file name, size bound and
/// media type (`images` selects PNG/WebP, otherwise Markdown).
pub fn validate_presentation_asset(asset: &PublishedAsset, label: &str, max_size: u64, images: bool) -> (r: Result<(), String>)
    ensures
        outcome(r, presentation_error(*asset, label@, max_size, allowed_types(images))),
{
    match validate_https_url(asset.url.as_str(), label) {
        Err(e) => return Err(e),
        Ok(()) => {},
    }
    match validate_sha256(asset.sha256.as_str()) {
        Err(e) => return Err(e),
        Ok(()) => {},
    }
    if str_is_blank(asset.file.as_str()) {
        return Err(join2(label, " file name cannot be empty"));
    }
    if asset.size == 0 || asset.size > max_size {
        let mut m = join2(label, " size ");
        let size = u64_text(asset.size);
        m.append(size.as_str());
        m.append(" is outside the allowed 1..=");
        let max = u64_text(max_size);
        m.append(max.as_str());
        m.append(" bytes");
        return Err(m);
    }
    if !media_type_allowed(asset.media_type.as_str(), images) {
        let mut m = join2(label, " media type '");
        m.append(asset.media_type.as_str());
        m.append("' is unsupported");
        return Err(m);
    }
    Ok(())
}


/// Registry index schemas this package manager reads.
pub open spec fn schema_supported(schema: u32) -> bool {
    schema == 1 || schema == 2 || schema == 3
}

/// The first error of a repository identity check, if any.
pub open spec fn repository_error(r: PublishedRepository) -> Option<Seq<char>> {
    if is_blank(r.id@) || byte_len(r.id@) > 128 || is_blank(r.name@) || byte_len(r.name@) > 128 {
        Some("repository identity metadata is invalid"@)
    } else {
        or_else(match r.homepage {
            Some(h) => https_error(h@, "repository homepage"@),
            None => None,
        }, match r.icon {
            Some(i) => presentation_error(i, "repository icon"@, 524288, image_media_types()),
            None => None,
        })
    }
}

/// `"package '<id>'"`.
pub open spec fn pkg_label(id: Seq<char>) -> Seq<char> {
    "package '"@ + id + "'"@
}

/// `"package '<id>' version <version>"`.
pub open spec fn pkg_version_label(id: Seq<char>, v: VersionView) -> Seq<char> {
    pkg_label(id) + " version "@ + version_text(v)
}

/// The error of the `m`-th dependency of a release, if any.
pub open spec fn dependency_error(id: Seq<char>, v: RegistryVersion, m: int) -> Option<Seq<char>> {
    let deps = v.dependencies@;
    if deps[m].id@ == id {
        Some(pkg_version_label(id, v.version@) + " depends on itself"@)
    } else if exists|j: int| 0 <= j < m && (#[trigger] deps[j]).id@ == deps[m].id@ {
        Some(pkg_version_label(id, v.version@) + " repeats dependency '"@ + deps[m].id@ + "'"@)
    } else {
        None
    }
}

/// No check of the first `n` reports an error exactly when none of them does.
pub proof fn lemma_first_err_none(f: spec_fn(int) -> Option<Seq<char>>, n: int)
    ensures
        first_err(f, n).is_none() <==> forall|m: int| 0 <= m < n ==> (#[trigger] f(m)).is_none(),
    decreases n,
{
    if n > 0 {
        lemma_first_err_none(f, n - 1);
    }
}

/// The dependencies of a release pass validation exactly when they name
/// distinct packages, none of them the release's own package.
pub proof fn law_dependencies_accepted(id: Seq<char>, v: RegistryVersion)
    ensures
        first_err(|m: int| dependency_error(id, v, m), v.dependencies@.len() as int).is_none() <==> {
            &&& forall|m: int| 0 <= m < v.dependencies@.len() ==> (#[trigger] v.dependencies@[m]).id@ != id
            &&& forall|a: int, b: int|
                0 <= a < b < v.dependencies@.len() ==> (#[trigger] v.dependencies@[a]).id@ != (#[trigger] v.dependencies@[b]).id@
        },
{
    let f = |m: int| dependency_error(id, v, m);
    let deps = v.dependencies@;
    lemma_first_err_none(f, deps.len() as int);
    if first_err(f, deps.len() as int).is_none() {
        assert forall|m: int| 0 <= m < deps.len() implies (#[trigger] deps[m]).id@ != id by {
            assert(f(m).is_none());
        }
        assert forall|a: int, b: int| 0 <= a < b < deps.len() implies (#[trigger] deps[a]).id@ != (#[trigger] deps[b]).id@ by {
            assert(f(b).is_none());
        }
    } else {
        let m = choose|m: int| 0 <= m < deps.len() && (#[trigger] f(m)).is_some();
        if deps[m].id@ != id {
            let j = choose|j: int| 0 <= j < m && (#[trigger] deps[j]).id@ == deps[m].id@;
            assert(deps[j].id@ == deps[m].id@);
        }
    }
}

/// The error of the `k`-th release of a package, if any.
pub open spec fn release_error(p: RegistryPackage, k: int) -> Option<Seq<char>> {
    let vs = p.versions@;
    let v = vs[k];
    let label = pkg_version_label(p.id@, v.version@);
    if v.content@ != "rintawa.extension@1"@ {
        Some(label + " has unsupported content '"@ + v.content@ + "'"@)
    } else if exists|j: int| 0 <= j < k && (#[trigger] vs[j]).version@ == v.version@ {
        Some(pkg_label(p.id@) + " repeats version "@ + version_text(v.version@))
    } else {
        or_else(rtw_url_error(v.artifact.url@), if is_blank(v.artifact.file@) || !has_suffix(lower(v.artifact.file@), ".rtw"@) {
            Some(label + " has an invalid artifact file name"@)
        } else if is_blank(v.source.repository@) || is_blank(v.source.tag@) || is_blank(v.source.commit@) {
            Some(label + " has incomplete source provenance"@)
        } else {
            or_else(sha256_error(v.artifact.sha256@), if v.artifact.size == 0 {
                Some(label + " has zero-sized artifact"@)
            } else {
                first_err(|m: int| dependency_error(p.id@, v, m), v.dependencies@.len() as int)
            })
        })
    }
}

/// A release is accepted exactly when its content kind is supported, its
/// version is not repeated, its artifact URL, file name, provenance, digest and
/// size are valid, and its dependencies name distinct packages other than its
/// own.
pub proof fn law_release_accepted(p: RegistryPackage, k: int)
    requires
        0 <= k < p.versions@.len(),
    ensures
        release_error(p, k).is_none() <==> {
            let v = p.versions@[k];
            &&& v.content@ == "rintawa.extension@1"@
            &&& forall|j: int| 0 <= j < k ==> (#[trigger] p.versions@[j]).version@ != v.version@
            &&& rtw_url_error(v.artifact.url@).is_none()
            &&& !is_blank(v.artifact.file@) && has_suffix(lower(v.artifact.file@), ".rtw"@)
            &&& !is_blank(v.source.repository@) && !is_blank(v.source.tag@) && !is_blank(v.source.commit@)
            &&& sha256_error(v.artifact.sha256@).is_none()
            &&& v.artifact.size != 0
            &&& forall|m: int| 0 <= m < v.dependencies@.len() ==> (#[trigger] v.dependencies@[m]).id@ != p.id@
            &&& forall|a: int, b: int|
                0 <= a < b < v.dependencies@.len() ==> (#[trigger] v.dependencies@[a]).id@ != (#[trigger] v.dependencies@[b]).id@
        },
{
    law_dependencies_accepted(p.id@, p.versions@[k]);
}


/// The error of the `i`-th package of an index, if any.
pub open spec fn package_error(ps: Seq<RegistryPackage>, i: int) -> Option<Seq<char>> {
    let p = ps[i];
    if is_blank(p.id@) || is_blank(p.name@) {
        Some("registry package id/name cannot be empty"@)
    } else if is_blank(p.slug@) {
        Some(pkg_label(p.id@) + " has an empty slug"@)
    } else if exists|j: int| 0 <= j < i && (#[trigger] ps[j]).id@ == p.id@ {
        Some("duplicate package id '"@ + p.id@ + "'"@)
    } else if p.authors@.len() > 32 || exists|a: int| 0 <= a < p.authors@.len() && (is_blank((#[trigger] p.authors@[a])@) || byte_len(p.authors@[a]@) > 128) {
        Some(pkg_label(p.id@) + " has invalid authors metadata"@)
    } else {
        or_else(match p.homepage {
            Some(h) => https_error(h@, "package homepage"@),
            None => None,
        }, or_else(match p.source_url {
            Some(u) => https_error(u@, "package source URL"@),
            None => None,
        }, or_else(match p.logo {
            Some(a) => presentation_error(a, "package logo"@, 524288, image_media_types()),
            None => None,
        }, or_else(match p.readme {
            Some(a) => presentation_error(a, "package README"@, 1048576, readme_media_types()),
            None => None,
        }, if p.versions@.len() == 0 {
            Some(pkg_label(p.id@) + " has no versions"@)
        } else if !(exists|k: int| 0 <= k < p.versions@.len() && (#[trigger] p.versions@[k]).version@ == p.latest@) {
            Some(pkg_label(p.id@) + " latest "@ + version_text(p.latest@) + " is absent from versions"@)
        } else {
            first_err(|k: int| release_error(p, k), p.versions@.len() as int)
        }))))
    }
}

/// The first error of a registry index, if any.
pub open spec fn registry_error(index: RegistryIndex) -> Option<Seq<char>> {
    if !schema_supported(index.schema) {
        Some("unsupported registry schema "@ + decimal(index.schema as nat))
    } else {
        or_else(match index.repository {
            Some(r) => repository_error(r),
            None => None,
        }, first_err(|i: int| package_error(index.packages@, i), index.packages@.len() as int))
    }
}

/// A package entry is accepted exactly when its identifier, name and slug are
/// not blank, no earlier entry has its identifier, its authors are at most 32
/// non-blank names of at most 128 bytes, its homepage, source URL, logo and
/// README are valid, it has releases including its latest version, and every
/// release is accepted.
pub proof fn law_package_accepted(ps: Seq<RegistryPackage>, i: int)
    requires
        0 <= i < ps.len(),
    ensures
        package_error(ps, i).is_none() <==> {
            let p = ps[i];
            &&& !is_blank(p.id@) && !is_blank(p.name@) && !is_blank(p.slug@)
            &&& forall|j: int| 0 <= j < i ==> (#[trigger] ps[j]).id@ != p.id@
            &&& p.authors@.len() <= 32
            &&& forall|a: int| 0 <= a < p.authors@.len() ==> !is_blank((#[trigger] p.authors@[a])@) && byte_len(p.authors@[a]@) <= 128
            &&& (p.homepage matches Some(h) ==> https_error(h@, "package homepage"@).is_none())
            &&& (p.source_url matches Some(u) ==> https_error(u@, "package source URL"@).is_none())
            &&& (p.logo matches Some(a) ==> presentation_error(a, "package logo"@, 524288, image_media_types()).is_none())
            &&& (p.readme matches Some(a) ==> presentation_error(a, "package README"@, 1048576, readme_media_types()).is_none())
            &&& p.versions@.len() > 0
            &&& exists|k: int| 0 <= k < p.versions@.len() && (#[trigger] p.versions@[k]).version@ == p.latest@
            &&& forall|k: int| 0 <= k < p.versions@.len() ==> (#[trigger] release_error(p, k)).is_none()
        },
{
    let p = ps[i];
    let f = |k: int| release_error(p, k);
    let n = p.versions@.len() as int;
    lemma_first_err_none(f, n);
    if forall|k: int| 0 <= k < n ==> (#[trigger] release_error(p, k)).is_none() {
        assert forall|k: int| 0 <= k < n implies (#[trigger] f(k)).is_none() by {
            assert(release_error(p, k).is_none());
        }
    }
    if first_err(f, n).is_none() {
        assert forall|k: int| 0 <= k < n implies (#[trigger] release_error(p, k)).is_none() by {
            assert(f(k).is_none());
        }
    }
}

/// An index is accepted exactly when its schema is supported, its repository
/// identity (if any) is valid, and every package entry is accepted.
pub proof fn law_registry_accepted(index: RegistryIndex)
    ensures
        registry_error(index).is_none() <==> {
            &&& schema_supported(index.schema)
            &&& (index.repository matches Some(r) ==> repository_error(r).is_none())
            &&& forall|i: int| 0 <= i < index.packages@.len() ==> (#[trigger] package_error(index.packages@, i)).is_none()
        },
{
    let f = |i: int| package_error(index.packages@, i);
    let n = index.packages@.len() as int;
    lemma_first_err_none(f, n);
    if forall|i: int| 0 <= i < n ==> (#[trigger] package_error(index.packages@, i)).is_none() {
        assert forall|i: int| 0 <= i < n implies (#[trigger] f(i)).is_none() by {
            assert(package_error(index.packages@, i).is_none());
        }
    }
    if first_err(f, n).is_none() {
        assert forall|i: int| 0 <= i < n implies (#[trigger] package_error(index.packages@, i)).is_none() by {
            assert(f(i).is_none());
        }
    }
}

fn opt_https(url: &Option<String>, label: &str) -> (r: Result<(), String>)
    ensures
        outcome(r, match url {
            Some(u) => https_error(u@, label@),
            None => None,
        }),
{
    match url {
        Some(u) => validate_https_url(u.as_str(), label),
        None => Ok(()),
    }
}

fn opt_asset(asset: &Option<PublishedAsset>, label: &str, max_size: u64, images: bool) -> (r: Result<(), String>)
    ensures
        outcome(r, match asset {
            Some(a) => presentation_error(*a, label@, max_size, allowed_types(images)),
            None => None,
        }),
{
    match asset {
        Some(a) => validate_presentation_asset(a, label, max_size, images),
        None => Ok(()),
    }
}

fn package_prefix(id: &str) -> (r: String)
    ensures
        r@ == pkg_label(id@),
{
    let mut m = String::from_str("package '");
    m.append(id);
    m.append("'");
    m
}

fn version_prefix(id: &str, v: &Version) -> (r: String)
    ensures
        r@ == pkg_version_label(id@, v@),
{
    let mut m = package_prefix(id);
    m.append(" version ");
    let t = v.text();
    m.append(t.as_str());
    m
}

fn check_dependencies(id: &str, v: &RegistryVersion) -> (r: Result<(), String>)
    ensures
        outcome(r, first_err(|m: int| dependency_error(id@, *v, m), v.dependencies@.len() as int)),
{
    let ghost f = |m: int| dependency_error(id@, *v, m);
    let deps = &v.dependencies;
    let mut m: usize = 0;
    while m < deps.len()
        invariant
            m <= deps@.len(),
            deps == &v.dependencies,
            f == (|m: int| dependency_error(id@, *v, m)),
            first_err(f, m as int).is_none(),
        decreases deps@.len() - m,
    {
        if str_equal(deps[m].id.as_str(), id) {
            let mut e = version_prefix(id, &v.version);
            e.append(" depends on itself");
            proof {
                assert(first_err(f, m + 1) == Some(e@));
                lemma_first_err_stable(f, m + 1, deps@.len() as int);
            }
            return Err(e);
        }
        let mut j: usize = 0;
        while j < m
            invariant
                j <= m < deps@.len(),
                deps == &v.dependencies,
                f == (|m: int| dependency_error(id@, *v, m)),
                first_err(f, m as int).is_none(),
                deps@[m as int].id@ != id@,
                forall|q: int| 0 <= q < j ==> (#[trigger] deps@[q]).id@ != deps@[m as int].id@,
            decreases m - j,
        {
            if str_equal(deps[j].id.as_str(), deps[m].id.as_str()) {
                let mut e = version_prefix(id, &v.version);
                e.append(" repeats dependency '");
                e.append(deps[m].id.as_str());
                e.append("'");
                proof {
                    assert(first_err(f, m + 1) == Some(e@));
                    lemma_first_err_stable(f, m + 1, deps@.len() as int);
                }
                return Err(e);
            }
            j = j + 1;
        }
        proof {
            assert(f(m as int).is_none());
        }
        m = m + 1;
    }
    Ok(())
}

fn check_release(p: &RegistryPackage, k: usize) -> (r: Result<(), String>)
    requires
        k < p.versions@.len(),
    ensures
        outcome(r, release_error(*p, k as int)),
{
    let vs = &p.versions;
    let v = &vs[k];
    if !str_equal(v.content.as_str(), "rintawa.extension@1") {
        let mut e = version_prefix(p.id.as_str(), &v.version);
        e.append(" has unsupported content '");
        e.append(v.content.as_str());
        e.append("'");
        return Err(e);
    }
    let mut j: usize = 0;
    while j < k
        invariant
            j <= k < vs@.len(),
            vs == &p.versions,
            vs@[k as int].content@ == "rintawa.extension@1"@,
            forall|q: int| 0 <= q < j ==> (#[trigger] vs@[q]).version@ != vs@[k as int].version@,
        decreases k - j,
    {
        if vs[j].version.same(&vs[k].version) {
            let mut e = package_prefix(p.id.as_str());
            e.append(" repeats version ");
            let t = vs[k].version.text();
            e.append(t.as_str());
            return Err(e);
        }
        j = j + 1;
    }
    match validate_rtw_url(v.artifact.url.as_str()) {
        Err(e) => return Err(e),
        Ok(()) => {},
    }
    let file_lower = lower_string(v.artifact.file.as_str());
    let fl = chars_of(file_lower.as_str());
    let rtw = chars_of(".rtw");
    if str_is_blank(v.artifact.file.as_str()) || !ends_with_chars(fl.as_slice(), rtw.as_slice()) {
        let mut e = version_prefix(p.id.as_str(), &v.version);
        e.append(" has an invalid artifact file name");
        return Err(e);
    }
    if str_is_blank(v.source.repository.as_str()) || str_is_blank(v.source.tag.as_str()) || str_is_blank(v.source.commit.as_str()) {
        let mut e = version_prefix(p.id.as_str(), &v.version);
        e.append(" has incomplete source provenance");
        return Err(e);
    }
    match validate_sha256(v.artifact.sha256.as_str()) {
        Err(e) => return Err(e),
        Ok(()) => {},
    }
    if v.artifact.size == 0 {
        let mut e = version_prefix(p.id.as_str(), &v.version);
        e.append(" has zero-sized artifact");
        return Err(e);
    }
    check_dependencies(p.id.as_str(), v)
}

fn check_authors(authors: &Vec<String>) -> (r: bool)
    ensures
        r == !(authors@.len() > 32 || exists|a: int| 0 <= a < authors@.len() && (is_blank((#[trigger] authors@[a])@) || byte_len(authors@[a]@) > 128)),
{
    if authors.len() > 32 {
        return false;
    }
    let mut a: usize = 0;
    while a < authors.len()
        invariant
            a <= authors@.len(),
            forall|q: int| 0 <= q < a ==> !(is_blank((#[trigger] authors@[q])@) || byte_len(authors@[q]@) > 128),
        decreases authors@.len() - a,
    {
        if str_is_blank(authors[a].as_str()) || str_byte_len(authors[a].as_str()) > 128 {
            return false;
        }
        a = a + 1;
    }
    true
}

fn check_package(ps: &Vec<RegistryPackage>, i: usize) -> (r: Result<(), String>)
    requires
        i < ps@.len(),
    ensures
        outcome(r, package_error(ps@, i as int)),
{
    let p = &ps[i];
    if str_is_blank(p.id.as_str()) || str_is_blank(p.name.as_str()) {
        return Err(String::from_str("registry package id/name cannot be empty"));
    }
    if str_is_blank(p.slug.as_str()) {
        let mut e = package_prefix(p.id.as_str());
        e.append(" has an empty slug");
        return Err(e);
    }
    let mut j: usize = 0;
    while j < i
        invariant
            j <= i < ps@.len(),
            !is_blank(ps@[i as int].id@) && !is_blank(ps@[i as int].name@) && !is_blank(ps@[i as int].slug@),
            forall|q: int| 0 <= q < j ==> (#[trigger] ps@[q]).id@ != ps@[i as int].id@,
        decreases i - j,
    {
        if str_equal(ps[j].id.as_str(), ps[i].id.as_str()) {
            let mut e = String::from_str("duplicate package id '");
            e.append(ps[i].id.as_str());
            e.append("'");
            return Err(e);
        }
        j = j + 1;
    }
    if !check_authors(&p.authors) {
        let mut e = package_prefix(p.id.as_str());
        e.append(" has invalid authors metadata");
        return Err(e);
    }
    match opt_https(&p.homepage, "package homepage") {
        Err(e) => return Err(e),
        Ok(()) => {},
    }
    match opt_https(&p.source_url, "package source URL") {
        Err(e) => return Err(e),
        Ok(()) => {},
    }
    match opt_asset(&p.logo, "package logo", 524288, true) {
        Err(e) => return Err(e),
        Ok(()) => {},
    }
    match opt_asset(&p.readme, "package README", 1048576, false) {
        Err(e) => return Err(e),
        Ok(()) => {},
    }
    if p.versions.len() == 0 {
        let mut e = package_prefix(p.id.as_str());
        e.append(" has no versions");
        return Err(e);
    }
    let mut found = false;
    let mut k: usize = 0;
    while k < p.versions.len()
        invariant
            k <= p.versions@.len(),
            found == exists|q: int| 0 <= q < k && (#[trigger] p.versions@[q]).version@ == p.latest@,
        decreases p.versions@.len() - k,
    {
        if p.versions[k].version.same(&p.latest) {
            found = true;
        }
        k = k + 1;
    }
    if !found {
        let mut e = package_prefix(p.id.as_str());
        e.append(" latest ");
        let t = p.latest.text();
        e.append(t.as_str());
        e.append(" is absent from versions");
        return Err(e);
    }
    let ghost f = |k: int| release_error(*p, k);
    proof {
        assert(package_error(ps@, i as int) == first_err(f, p.versions@.len() as int));
    }
    let mut k: usize = 0;
    while k < p.versions.len()
        invariant
            k <= p.versions@.len(),
            f == (|k: int| release_error(*p, k)),
            package_error(ps@, i as int) == first_err(f, p.versions@.len() as int),
            first_err(f, k as int).is_none(),
        decreases p.versions@.len() - k,
    {
        match check_release(p, k) {
            Err(e) => {
                proof {
                    assert(first_err(f, k + 1) == Some(e@));
                    lemma_first_err_stable(f, k + 1, p.versions@.len() as int);
                }
                return Err(e);
            },
            Ok(()) => {},
        }
        k = k + 1;
    }
    Ok(())
}

/// Validates a registry index; the error is the first failed check in
/// document order.
pub fn validate_registry(index: &RegistryIndex) -> (r: Result<(), String>)
    ensures
        outcome(r, registry_error(*index)),
{
    if !(index.schema == 1 || index.schema == 2 || index.schema == 3) {
        let mut e = String::from_str("unsupported registry schema ");
        let t = u64_text(index.schema as u64);
        e.append(t.as_str());
        return Err(e);
    }
    match &index.repository {
        Some(r) => {
            if str_is_blank(r.id.as_str()) || str_byte_len(r.id.as_str()) > 128 || str_is_blank(r.name.as_str())
                || str_byte_len(r.name.as_str()) > 128 {
                return Err(String::from_str("repository identity metadata is invalid"));
            }
            match opt_https(&r.homepage, "repository homepage") {
                Err(e) => return Err(e),
                Ok(()) => {},
            }
            match opt_asset(&r.icon, "repository icon", 524288, true) {
                Err(e) => return Err(e),
                Ok(()) => {},
            }
        },
        None => {},
    }
    let ghost f = |i: int| package_error(index.packages@, i);
    proof {
        assert(registry_error(*index) == first_err(f, index.packages@.len() as int));
    }
    let mut i: usize = 0;
    while i < index.packages.len()
        invariant
            i <= index.packages@.len(),
            f == (|i: int| package_error(index.packages@, i)),
            registry_error(*index) == first_err(f, index.packages@.len() as int),
            first_err(f, i as int).is_none(),
        decreases index.packages@.len() - i,
    {
        match check_package(&index.packages, i) {
            Err(e) => {
                proof {
                    assert(first_err(f, i + 1) == Some(e@));
                    lemma_first_err_stable(f, i + 1, index.packages@.len() as int);
                }
                return Err(e);
            },
            Ok(()) => {},
        }
        i = i + 1;
    }
    Ok(())
}

} // verus!
