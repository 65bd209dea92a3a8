//! Dependency resolution over the merged catalog: which release of each package
//! an install needs, and in what order the releases are installed.

use vstd::prelude::*;

use crate::catalog::{ids_distinct, Catalog, CatalogPackage};
use crate::registry::{PackageDependency, RegistryVersion};
use crate::text::{seq_order, str_equal, text_order};
use crate::version::{
    exact_requirement_text, pre_valid, same_version_numbers, semver_matches, semver_order, version_text, Requirement, Version,
    VersionView,
};

verus! {

/// A dependency as plain values: package identifier and requirement text.
pub type DepView = (Seq<char>, Seq<char>);

/// A choice of release: index of the package in the catalog, index of the release.
pub type Pick = (int, int);

/// Plain-value view of a dependency.
pub open spec fn dep_view(d: PackageDependency) -> DepView {
    (d.id@, d.requirement@)
}

/// The dependencies a release declares.
pub open spec fn release_deps(r: RegistryVersion) -> Seq<DepView> {
    r.dependencies@.map_values(|d: PackageDependency| dep_view(d))
}

/// `pick` names a release of the catalog package with identifier `id`.
pub open spec fn pick_ok(c: Catalog, id: Seq<char>, pick: Pick) -> bool {
    &&& 0 <= pick.0 < c.packages@.len()
    &&& c.packages@[pick.0].id@ == id
    &&& 0 <= pick.1 < c.packages@[pick.0].versions@.len()
}

/// The release a pick names.
pub open spec fn picked_release(c: Catalog, pick: Pick) -> RegistryVersion {
    c.packages@[pick.0].versions@[pick.1]
}

/// The version picked for `id`.
pub open spec fn picked_version(c: Catalog, s: Map<Seq<char>, Pick>, id: Seq<char>) -> VersionView {
    picked_release(c, s[id]).version@
}

/// The dependencies of the release picked for `id`.
pub open spec fn picked_deps(c: Catalog, s: Map<Seq<char>, Pick>, id: Seq<char>) -> Seq<DepView> {
    release_deps(picked_release(c, s[id]))
}

/// The picks include the dependency's package, at a version its requirement accepts.
pub open spec fn dep_met(c: Catalog, s: Map<Seq<char>, Pick>, d: DepView) -> bool {
    s.dom().contains(d.0) && semver_matches(d.1, picked_version(c, s, d.0))
}

/// `s` resolves the install of `root` under `root_req`: every pick names a
/// catalog release, every dependency of a picked release is met, and so is the
/// root requirement.
pub open spec fn is_resolution(c: Catalog, root: Seq<char>, root_req: Seq<char>, s: Map<Seq<char>, Pick>) -> bool {
    &&& forall|id: Seq<char>| #[trigger] s.dom().contains(id) ==> pick_ok(c, id, s[id])
    &&& forall|id: Seq<char>, m: int|
        s.dom().contains(id) && 0 <= m < picked_deps(c, s, id).len() ==> dep_met(c, s, #[trigger] picked_deps(c, s, id)[m])
    &&& dep_met(c, s, (root, root_req))
}

/// `s` keeps every pick of `g`.
pub open spec fn extends(s: Map<Seq<char>, Pick>, g: Map<Seq<char>, Pick>) -> bool {
    forall|id: Seq<char>| #[trigger] g.dom().contains(id) ==> s.dom().contains(id) && s[id] == g[id]
}

/// Plain-value view of chosen versions.
pub open spec fn chosen_view(v: Seq<(String, Version)>) -> Seq<(Seq<char>, VersionView)> {
    v.map_values(|e: (String, Version)| (e.0@, e.1@))
}

/// Plain-value view of collected requirements.
pub open spec fn reqs_view(v: Seq<(String, Requirement)>) -> Seq<DepView> {
    v.map_values(|e: (String, Requirement)| (e.0@, e.1@))
}

/// The chosen versions are exactly the picks of `g`, one entry per package.
pub open spec fn chosen_ok(c: Catalog, cv: Seq<(Seq<char>, VersionView)>, g: Map<Seq<char>, Pick>) -> bool {
    &&& forall|a: int, b: int| 0 <= a < b < cv.len() ==> #[trigger] cv[a].0 != #[trigger] cv[b].0
    &&& forall|t: int| 0 <= t < cv.len() ==> {
        &&& g.dom().contains(#[trigger] cv[t].0)
        &&& pick_ok(c, cv[t].0, g[cv[t].0])
        &&& cv[t].1 == picked_version(c, g, cv[t].0)
    }
    &&& forall|id: Seq<char>| #[trigger] g.dom().contains(id) ==> exists|t: int| 0 <= t < cv.len() && #[trigger] cv[t].0 == id
}

/// `d` is a dependency of one of the picked releases.
pub open spec fn dep_of_pick(c: Catalog, g: Map<Seq<char>, Pick>, d: DepView) -> bool {
    exists|id: Seq<char>, m: int| g.dom().contains(id) && 0 <= m < picked_deps(c, g, id).len() && #[trigger] picked_deps(c, g, id)[m] == d
}

/// The collected requirements are the root requirement followed by the
/// dependencies of the picked releases, and include all of them.
pub open spec fn reqs_ok(c: Catalog, root: Seq<char>, root_req: Seq<char>, rv: Seq<DepView>, g: Map<Seq<char>, Pick>) -> bool {
    &&& rv.len() >= 1
    &&& rv[0] == (root, root_req)
    &&& forall|j: int| 1 <= j < rv.len() ==> dep_of_pick(c, g, #[trigger] rv[j])
    &&& forall|id: Seq<char>, m: int|
        g.dom().contains(id) && 0 <= m < picked_deps(c, g, id).len() ==> rv.contains(#[trigger] picked_deps(c, g, id)[m])
    &&& forall|id: Seq<char>| #[trigger] g.dom().contains(id) ==> exists|j: int| 0 <= j < rv.len() && #[trigger] rv[j].0 == id
}

/// Some chosen entry has identifier `id`.
pub open spec fn has_id(cv: Seq<(Seq<char>, VersionView)>, id: Seq<char>) -> bool {
    exists|t: int| 0 <= t < cv.len() && #[trigger] cv[t].0 == id
}

/// Every requirement with identifier `id` accepts `v`.
pub open spec fn all_accept(rv: Seq<DepView>, id: Seq<char>, v: VersionView) -> bool {
    forall|j: int| 0 <= j < rv.len() && (#[trigger] rv[j]).0 == id ==> semver_matches(rv[j].1, v)
}

/// Every exact requirement on `id` among `rv` names the numbers and
/// pre-release of `v`.
pub open spec fn pinned_by(rv: Seq<DepView>, id: Seq<char>, v: VersionView) -> bool {
    forall|j: int, w: VersionView|
        #![trigger rv[j], exact_requirement_text(w)]
        0 <= j < rv.len() && rv[j].0 == id && rv[j].1 == exact_requirement_text(w) && pre_valid(w.3) ==> same_version_numbers(v, w)
}

/// Whether every collected requirement on `id` accepts `v`.
fn accepted_by_all(reqs: &Vec<(String, Requirement)>, id: &str, v: &Version) -> (r: bool)
    ensures
        r == all_accept(reqs_view(reqs@), id@, v@),
        r ==> pinned_by(reqs_view(reqs@), id@, v@),
{
    let ghost rv = reqs_view(reqs@);
    let mut j: usize = 0;
    while j < reqs.len()
        invariant
            rv == reqs_view(reqs@),
            j <= reqs.len(),
            forall|k: int| 0 <= k < j && (#[trigger] rv[k]).0 == id@ ==> semver_matches(rv[k].1, v@),
            forall|k: int, w: VersionView|
                #![trigger rv[k], exact_requirement_text(w)]
                0 <= k < j && rv[k].0 == id@ && rv[k].1 == exact_requirement_text(w) && pre_valid(w.3) ==> same_version_numbers(v@, w),
        decreases reqs.len() - j,
    {
        if str_equal(reqs[j].0.as_str(), id) && !reqs[j].1.matches(v) {
            assert(rv[j as int] == (reqs@[j as int].0@, reqs@[j as int].1@));
            return false;
        }
        assert(rv[j as int] == (reqs@[j as int].0@, reqs@[j as int].1@));
        j = j + 1;
    }
    true
}

/// Whether `id` has a chosen version.
fn is_chosen(chosen: &Vec<(String, Version)>, id: &str) -> (r: bool)
    ensures
        r == has_id(chosen_view(chosen@), id@),
{
    let ghost cv = chosen_view(chosen@);
    let mut t: usize = 0;
    while t < chosen.len()
        invariant
            cv == chosen_view(chosen@),
            t <= chosen.len(),
            forall|k: int| 0 <= k < t ==> (#[trigger] cv[k]).0 != id@,
        decreases chosen.len() - t,
    {
        assert(cv[t as int].0 == chosen@[t as int].0@);
        if str_equal(chosen[t].0.as_str(), id) {
            return true;
        }
        t = t + 1;
    }
    false
}

/// The chosen entry, least by identifier, whose version some collected
/// requirement on it refuses.
fn first_violation(reqs: &Vec<(String, Requirement)>, chosen: &Vec<(String, Version)>) -> (r: Option<usize>)
    ensures
        match r {
            None => forall|t: int| 0 <= t < chosen@.len() ==> all_accept(reqs_view(reqs@), #[trigger] chosen_view(chosen@)[t].0, chosen_view(chosen@)[t].1),
            Some(t) => {
                &&& t < chosen@.len()
                &&& !all_accept(reqs_view(reqs@), chosen_view(chosen@)[t as int].0, chosen_view(chosen@)[t as int].1)
                &&& forall|u: int| 0 <= u < chosen@.len() && !all_accept(reqs_view(reqs@), #[trigger] chosen_view(chosen@)[u].0, chosen_view(chosen@)[u].1)
                    ==> seq_order(chosen_view(chosen@)[t as int].0, chosen_view(chosen@)[u].0) <= 0
            },
        },
{
    let ghost cv = chosen_view(chosen@);
    let ghost rv = reqs_view(reqs@);
    let mut best: Option<usize> = None;
    let mut t: usize = 0;
    while t < chosen.len()
        invariant
            cv == chosen_view(chosen@),
            rv == reqs_view(reqs@),
            t <= chosen.len(),
            match best {
                None => forall|k: int| 0 <= k < t ==> all_accept(rv, #[trigger] cv[k].0, cv[k].1),
                Some(b) => {
                    &&& b < t
                    &&& !all_accept(rv, cv[b as int].0, cv[b as int].1)
                    &&& forall|u: int| 0 <= u < t && !all_accept(rv, #[trigger] cv[u].0, cv[u].1) ==> seq_order(cv[b as int].0, cv[u].0) <= 0
                },
            },
        decreases chosen.len() - t,
    {
        assert(cv[t as int] == (chosen@[t as int].0@, chosen@[t as int].1@));
        if !accepted_by_all(reqs, chosen[t].0.as_str(), &chosen[t].1) {
            match best {
                None => {
                    best = Some(t);
                    proof {
                        crate::text::lemma_seq_order_basics(cv[t as int].0, cv[t as int].0);
                    }
                },
                Some(b) => {
                    assert(cv[b as int] == (chosen@[b as int].0@, chosen@[b as int].1@));
                    proof {
                        crate::text::lemma_seq_order_basics(cv[b as int].0, cv[t as int].0);
                    }
                    if text_order(chosen[t].0.as_str(), chosen[b].0.as_str()) < 0 {
                        best = Some(t);
                        proof {
                            crate::text::lemma_seq_order_basics(cv[t as int].0, cv[t as int].0);
                            assert forall|u: int| 0 <= u < t + 1 && !all_accept(rv, #[trigger] cv[u].0, cv[u].1) implies seq_order(cv[t as int].0, cv[u].0) <= 0 by {
                                if u < t {
                                    crate::text::lemma_seq_order_basics(cv[b as int].0, cv[u].0);
                                    if seq_order(cv[b as int].0, cv[u].0) < 0 {
                                        crate::text::lemma_seq_order_transitive(cv[t as int].0, cv[b as int].0, cv[u].0);
                                    } else {
                                        assert(cv[b as int].0 == cv[u].0);
                                    }
                                }
                            }
                        }
                    }
                },
            }
        }
        t = t + 1;
    }
    best
}

/// The collected requirement, least by identifier, on a package that has no
/// chosen version yet.
fn first_unresolved(reqs: &Vec<(String, Requirement)>, chosen: &Vec<(String, Version)>) -> (r: Option<usize>)
    ensures
        match r {
            None => forall|j: int| 0 <= j < reqs@.len() ==> has_id(chosen_view(chosen@), #[trigger] reqs_view(reqs@)[j].0),
            Some(j) => {
                &&& j < reqs@.len()
                &&& !has_id(chosen_view(chosen@), reqs_view(reqs@)[j as int].0)
                &&& forall|k: int|
                    0 <= k < reqs@.len() && !has_id(chosen_view(chosen@), #[trigger] reqs_view(reqs@)[k].0) ==> seq_order(
                        reqs_view(reqs@)[j as int].0,
                        reqs_view(reqs@)[k].0,
                    ) <= 0
            },
        },
{
    let ghost cv = chosen_view(chosen@);
    let ghost rv = reqs_view(reqs@);
    let mut best: Option<usize> = None;
    let mut j: usize = 0;
    while j < reqs.len()
        invariant
            cv == chosen_view(chosen@),
            rv == reqs_view(reqs@),
            j <= reqs.len(),
            match best {
                None => forall|k: int| 0 <= k < j ==> has_id(cv, #[trigger] rv[k].0),
                Some(b) => {
                    &&& b < j
                    &&& !has_id(cv, rv[b as int].0)
                    &&& forall|k: int| 0 <= k < j && !has_id(cv, #[trigger] rv[k].0) ==> seq_order(rv[b as int].0, rv[k].0) <= 0
                },
            },
        decreases reqs.len() - j,
    {
        assert(rv[j as int] == (reqs@[j as int].0@, reqs@[j as int].1@));
        if !is_chosen(chosen, reqs[j].0.as_str()) {
            match best {
                None => {
                    best = Some(j);
                    proof {
                        crate::text::lemma_seq_order_basics(rv[j as int].0, rv[j as int].0);
                    }
                },
                Some(b) => {
                    assert(rv[b as int] == (reqs@[b as int].0@, reqs@[b as int].1@));
                    proof {
                        crate::text::lemma_seq_order_basics(rv[b as int].0, rv[j as int].0);
                    }
                    if text_order(reqs[j].0.as_str(), reqs[b].0.as_str()) < 0 {
                        best = Some(j);
                        proof {
                            crate::text::lemma_seq_order_basics(rv[j as int].0, rv[j as int].0);
                            assert forall|k: int| 0 <= k < j + 1 && !has_id(cv, #[trigger] rv[k].0) implies seq_order(rv[j as int].0, rv[k].0) <= 0 by {
                                if k < j {
                                    crate::text::lemma_seq_order_basics(rv[b as int].0, rv[k].0);
                                    if seq_order(rv[b as int].0, rv[k].0) < 0 {
                                        crate::text::lemma_seq_order_transitive(rv[j as int].0, rv[b as int].0, rv[k].0);
                                    } else {
                                        assert(rv[b as int].0 == rv[k].0);
                                    }
                                }
                            }
                        }
                    }
                },
            }
        }
        j = j + 1;
    }
    best
}

/// Any resolution that keeps the picks of `g` meets every collected requirement.
proof fn lemma_reqs_met(c: Catalog, root: Seq<char>, q: Seq<char>, rv: Seq<DepView>, g: Map<Seq<char>, Pick>, s: Map<Seq<char>, Pick>)
    requires
        reqs_ok(c, root, q, rv, g),
        is_resolution(c, root, q, s),
        extends(s, g),
    ensures
        forall|j: int| 0 <= j < rv.len() ==> dep_met(c, s, #[trigger] rv[j]),
{
    assert forall|j: int| 0 <= j < rv.len() implies dep_met(c, s, #[trigger] rv[j]) by {
        if j >= 1 {
            assert(dep_of_pick(c, g, rv[j]));
            let (id, m) = choose|id: Seq<char>, m: int|
                g.dom().contains(id) && 0 <= m < picked_deps(c, g, id).len() && #[trigger] picked_deps(c, g, id)[m] == rv[j];
            assert(s[id] == g[id]);
            assert(picked_deps(c, s, id) == picked_deps(c, g, id));
            assert(dep_met(c, s, picked_deps(c, s, id)[m]));
        }
    }
}

/// When every requirement names a chosen package and accepts its version, the
/// picks resolve the install.
proof fn lemma_complete(c: Catalog, root: Seq<char>, q: Seq<char>, rv: Seq<DepView>, cv: Seq<(Seq<char>, VersionView)>, g: Map<Seq<char>, Pick>)
    requires
        chosen_ok(c, cv, g),
        reqs_ok(c, root, q, rv, g),
        forall|j: int| 0 <= j < rv.len() ==> has_id(cv, #[trigger] rv[j].0),
        forall|t: int| 0 <= t < cv.len() ==> all_accept(rv, #[trigger] cv[t].0, cv[t].1),
    ensures
        is_resolution(c, root, q, g),
{
    assert forall|id: Seq<char>| #[trigger] g.dom().contains(id) implies pick_ok(c, id, g[id]) by {
        let t = choose|t: int| 0 <= t < cv.len() && #[trigger] cv[t].0 == id;
    }
    assert forall|j: int| 0 <= j < rv.len() implies dep_met(c, g, #[trigger] rv[j]) by {
        assert(has_id(cv, rv[j].0));
        let t = choose|t: int| 0 <= t < cv.len() && #[trigger] cv[t].0 == rv[j].0;
        assert(all_accept(rv, cv[t].0, cv[t].1));
    }
    assert forall|id: Seq<char>, m: int|
        g.dom().contains(id) && 0 <= m < picked_deps(c, g, id).len() implies dep_met(c, g, #[trigger] picked_deps(c, g, id)[m]) by {
        let d = picked_deps(c, g, id)[m];
        assert(rv.contains(d));
        let j = choose|j: int| 0 <= j < rv.len() && rv[j] == d;
        assert(dep_met(c, g, rv[j]));
    }
    assert(dep_met(c, g, rv[0]));
}

/// A chosen version that a collected requirement refuses rules out every
/// resolution that keeps the picks.
proof fn lemma_violation(c: Catalog, root: Seq<char>, q: Seq<char>, rv: Seq<DepView>, cv: Seq<(Seq<char>, VersionView)>, g: Map<Seq<char>, Pick>, t: int)
    requires
        chosen_ok(c, cv, g),
        reqs_ok(c, root, q, rv, g),
        0 <= t < cv.len(),
        !all_accept(rv, cv[t].0, cv[t].1),
    ensures
        !exists|s: Map<Seq<char>, Pick>| is_resolution(c, root, q, s) && extends(s, g),
{
    if exists|s: Map<Seq<char>, Pick>| is_resolution(c, root, q, s) && extends(s, g) {
        let s = choose|s: Map<Seq<char>, Pick>| is_resolution(c, root, q, s) && extends(s, g);
        lemma_reqs_met(c, root, q, rv, g, s);
        let j = choose|j: int| 0 <= j < rv.len() && (#[trigger] rv[j]).0 == cv[t].0 && !semver_matches(rv[j].1, cv[t].1);
        assert(dep_met(c, s, rv[j]));
        assert(g.dom().contains(cv[t].0));
        assert(s[cv[t].0] == g[cv[t].0]);
    }
}

/// There are no more chosen packages than catalog packages.
proof fn lemma_chosen_bound(c: Catalog, cv: Seq<(Seq<char>, VersionView)>, g: Map<Seq<char>, Pick>)
    requires
        chosen_ok(c, cv, g),
    ensures
        cv.len() <= c.packages@.len(),
{
    let idx = Seq::new(cv.len(), |t: int| g[cv[t].0].0);
    assert forall|a: int, b: int| 0 <= a < idx.len() && 0 <= b < idx.len() && a != b implies idx[a] != idx[b] by {
        if idx[a] == idx[b] {
            assert(pick_ok(c, cv[a].0, g[cv[a].0]));
            assert(pick_ok(c, cv[b].0, g[cv[b].0]));
            if a < b {
                assert(cv[a].0 != cv[b].0);
            } else {
                assert(cv[b].0 != cv[a].0);
            }
        }
    }
    assert(idx.no_duplicates());
    idx.unique_seq_to_set();
    let range = vstd::set_lib::set_int_range(0, c.packages@.len() as int);
    vstd::set_lib::lemma_int_range(0, c.packages@.len() as int);
    assert forall|x: int| idx.to_set().contains(x) implies range.contains(x) by {
        let t = choose|t: int| 0 <= t < idx.len() && idx[t] == x;
        assert(pick_ok(c, cv[t].0, g[cv[t].0]));
    }
    vstd::set_lib::lemma_len_subset(idx.to_set(), range);
}

/// Release `k` of `p` is accepted by every collected requirement on `id`.
pub open spec fn candidate(p: CatalogPackage, rv: Seq<DepView>, id: Seq<char>, k: int) -> bool {
    0 <= k < p.versions@.len() && all_accept(rv, id, p.versions@[k].version@)
}

/// Some entry of `cands` is `k`.
pub open spec fn has_index(cands: Seq<usize>, k: int) -> bool {
    exists|u: int| 0 <= u < cands.len() && cands[u] as int == k
}

/// Exactly the candidates.
pub open spec fn lists_candidates(cands: Seq<usize>, p: CatalogPackage, rv: Seq<DepView>, id: Seq<char>) -> bool {
    &&& forall|u: int| 0 <= u < cands.len() ==> candidate(p, rv, id, #[trigger] cands[u] as int)
    &&& forall|k: int| #[trigger] candidate(p, rv, id, k) ==> has_index(cands, k)
}

/// Where release `k` goes among the releases `s` listed newest first: after
/// every release of `s` that is not older than it.
pub open spec fn insert_pos(p: CatalogPackage, s: Seq<usize>, k: int) -> int
    decreases s.len(),
{
    if s.len() == 0 {
        0
    } else if semver_order(p.versions@[s[0] as int].version@, p.versions@[k].version@) >= 0 {
        1 + insert_pos(p, s.drop_first(), k)
    } else {
        0
    }
}

/// The candidate releases among the first `n` releases of `p`, newest first,
/// releases of equal precedence in catalog order.
pub open spec fn sorted_candidates(p: CatalogPackage, rv: Seq<DepView>, id: Seq<char>, n: int) -> Seq<usize>
    decreases n,
{
    if n <= 0 {
        Seq::empty()
    } else {
        let prev = sorted_candidates(p, rv, id, n - 1);
        if candidate(p, rv, id, n - 1) {
            prev.insert(insert_pos(p, prev, n - 1), (n - 1) as usize)
        } else {
            prev
        }
    }
}

proof fn lemma_insert_pos_bound(p: CatalogPackage, s: Seq<usize>, k: int)
    ensures
        0 <= insert_pos(p, s, k) <= s.len(),
    decreases s.len(),
{
    if s.len() > 0 {
        lemma_insert_pos_bound(p, s.drop_first(), k);
    }
}

/// Releases of `p` that every collected requirement on `id` accepts, newest
/// first; releases of equal precedence keep their catalog order.
#[verifier::rlimit(40)]
#[verifier::spinoff_prover]
fn candidates(p: &CatalogPackage, reqs: &Vec<(String, Requirement)>, id: &str) -> (r: Vec<usize>)
    ensures
        lists_candidates(r@, *p, reqs_view(reqs@), id@),
        forall|u: int, w: int| 0 <= u && w == u + 1 && w < r@.len()
            ==> semver_order(p.versions@[#[trigger] r@[u] as int].version@, p.versions@[#[trigger] r@[w] as int].version@) >= 0,
        r@ == sorted_candidates(*p, reqs_view(reqs@), id@, p.versions@.len() as int),
        forall|u: int| 0 <= u < r@.len() ==> pinned_by(reqs_view(reqs@), id@, p.versions@[#[trigger] r@[u] as int].version@),
{
    let ghost rv = reqs_view(reqs@);
    let mut out: Vec<usize> = Vec::new();
    let mut k: usize = 0;
    while k < p.versions.len()
        invariant
            rv == reqs_view(reqs@),
            k <= p.versions@.len(),
            forall|u: int| 0 <= u < out@.len() ==> (#[trigger] out@[u]) < k && candidate(*p, rv, id@, out@[u] as int),
            forall|u: int| 0 <= u < out@.len() ==> pinned_by(rv, id@, p.versions@[#[trigger] out@[u] as int].version@),
            forall|k2: int| 0 <= k2 < k && #[trigger] candidate(*p, rv, id@, k2) ==> has_index(out@, k2),
            forall|u: int, w: int| 0 <= u && w == u + 1 && w < out@.len()
                ==> semver_order(p.versions@[#[trigger] out@[u] as int].version@, p.versions@[#[trigger] out@[w] as int].version@) >= 0,
            out@ == sorted_candidates(*p, rv, id@, k as int),
        decreases p.versions@.len() - k,
    {
        if accepted_by_all(reqs, id, &p.versions[k].version) {
            let mut pos: usize = 0;
            proof {
                assert(out@.skip(0) =~= out@);
            }
            while pos < out.len() && p.versions[out[pos]].version.order(&p.versions[k].version) >= 0
                invariant
                    pos <= out@.len(),
                    forall|u: int| 0 <= u < out@.len() ==> (#[trigger] out@[u]) < k,
                    k < p.versions@.len(),
                    pos == 0 || semver_order(p.versions@[out@[pos - 1] as int].version@, p.versions@[k as int].version@) >= 0,
                    insert_pos(*p, out@, k as int) == pos + insert_pos(*p, out@.skip(pos as int), k as int),
                decreases out@.len() - pos,
            {
                proof {
                    assert(out@.skip(pos as int)[0] == out@[pos as int]);
                    assert(out@.skip(pos as int).drop_first() =~= out@.skip(pos + 1));
                }
                pos = pos + 1;
            }
            proof {
                if pos < out@.len() {
                    assert(out@.skip(pos as int)[0] == out@[pos as int]);
                }
                assert(insert_pos(*p, out@, k as int) == pos);
            }
            if pos < out.len() {
                let _ = p.versions[out[pos]].version.order(&p.versions[k].version);
            }
            let ghost before = out@;
            out.insert(pos, k);
            proof {
                assert(candidate(*p, rv, id@, k as int));
                assert(out@ == sorted_candidates(*p, rv, id@, k + 1));
                assert forall|u: int| 0 <= u < out@.len() implies (#[trigger] out@[u]) < k + 1 && candidate(*p, rv, id@, out@[u] as int) by {
                    if u < pos {
                        assert(out@[u] == before[u]);
                    } else if u > pos {
                        assert(out@[u] == before[u - 1]);
                    }
                }
                assert forall|u: int| 0 <= u < out@.len() implies pinned_by(rv, id@, p.versions@[#[trigger] out@[u] as int].version@) by {
                    if u < pos {
                        assert(out@[u] == before[u]);
                    } else if u > pos {
                        assert(out@[u] == before[u - 1]);
                    }
                }
                assert forall|k2: int| 0 <= k2 < k + 1 && #[trigger] candidate(*p, rv, id@, k2) implies has_index(out@, k2) by {
                    if k2 == k {
                        assert(out@[pos as int] == k);
                    } else {
                        assert(has_index(before, k2));
                        let u = choose|u: int| 0 <= u < before.len() && before[u] as int == k2;
                        if u < pos {
                            assert(out@[u] == before[u]);
                        } else {
                            assert(out@[u + 1] == before[u]);
                        }
                    }
                }
                assert forall|a: int, b: int| 0 <= a && b == a + 1 && b < out@.len()
                    implies semver_order(p.versions@[#[trigger] out@[a] as int].version@, p.versions@[#[trigger] out@[b] as int].version@) >= 0 by {
                    if b < pos {
                        assert(out@[a] == before[a] && out@[b] == before[b]);
                    } else if b == pos {
                        assert(out@[a] == before[a]);
                    } else if a == pos {
                        assert(out@[b] == before[pos as int]);
                    } else {
                        assert(out@[a] == before[a - 1] && out@[b] == before[b - 1]);
                    }
                }
            }
        }
        k = k + 1;
    }
    out
}

/// Entry `t` is the first installed entry for `id`.
pub open spec fn first_installed_at(installed: Seq<(String, Version)>, id: Seq<char>, t: int) -> bool {
    &&& 0 <= t < installed.len()
    &&& installed[t].0@ == id
    &&& forall|j: int| 0 <= j < t ==> (#[trigger] installed[j]).0@ != id
}

/// Candidate `u` is the first of `cands` at version `v`.
pub open spec fn first_at_version(cands: Seq<usize>, p: CatalogPackage, v: VersionView, u: int) -> bool {
    &&& 0 <= u < cands.len()
    &&& p.versions@[cands[u] as int].version@ == v
    &&& forall|w: int| 0 <= w < u ==> p.versions@[#[trigger] cands[w] as int].version@ != v
}

/// `after` is `before` with the first candidate at version `v`, if any, moved
/// to the front.
pub open spec fn moved_to_front(before: Seq<usize>, after: Seq<usize>, p: CatalogPackage, v: VersionView) -> bool {
    if exists|u: int| first_at_version(before, p, v, u) {
        forall|u: int| #[trigger] first_at_version(before, p, v, u) ==> after == seq![before[u]] + before.take(u) + before.skip(u + 1)
    } else {
        after == before
    }
}

/// The version installed for `id`, if any.
fn installed_version<'a>(installed: &'a Vec<(String, Version)>, id: &str) -> (r: Option<&'a Version>)
    ensures
        match r {
            Some(v) => exists|t: int| first_installed_at(installed@, id@, t) && installed@[t].1 == *v,
            None => forall|t: int| 0 <= t < installed@.len() ==> (#[trigger] installed@[t]).0@ != id@,
        },
{
    let mut t: usize = 0;
    while t < installed.len()
        invariant
            t <= installed@.len(),
            forall|k: int| 0 <= k < t ==> (#[trigger] installed@[k]).0@ != id@,
        decreases installed@.len() - t,
    {
        if str_equal(installed[t].0.as_str(), id) {
            proof {
                assert(first_installed_at(installed@, id@, t as int));
            }
            return Some(&installed[t].1);
        }
        t = t + 1;
    }
    None
}

/// The version installed for `id`: the first installed entry's.
pub open spec fn installed_version_of(installed: Seq<(String, Version)>, id: Seq<char>) -> Option<VersionView>
    decreases installed.len(),
{
    if installed.len() == 0 {
        None
    } else if installed[0].0@ == id {
        Some(installed[0].1@)
    } else {
        installed_version_of(installed.drop_first(), id)
    }
}

proof fn lemma_installed_version_of(installed: Seq<(String, Version)>, id: Seq<char>)
    ensures
        forall|t: int| #[trigger] first_installed_at(installed, id, t) ==> installed_version_of(installed, id) == Some(installed[t].1@),
        (forall|t: int| 0 <= t < installed.len() ==> (#[trigger] installed[t]).0@ != id) ==> installed_version_of(installed, id) is None,
    decreases installed.len(),
{
    if installed.len() > 0 {
        let rest = installed.drop_first();
        lemma_installed_version_of(rest, id);
        assert forall|t: int| #[trigger] first_installed_at(installed, id, t) implies installed_version_of(installed, id) == Some(
            installed[t].1@,
        ) by {
            if t > 0 {
                assert(installed[0].0@ != id);
                assert(first_installed_at(rest, id, t - 1)) by {
                    assert forall|j: int| 0 <= j < t - 1 implies (#[trigger] rest[j]).0@ != id by {
                        assert(rest[j] == installed[j + 1]);
                    }
                }
            }
        }
        if forall|t: int| 0 <= t < installed.len() ==> (#[trigger] installed[t]).0@ != id {
            assert(installed[0].0@ != id);
            assert forall|t: int| 0 <= t < rest.len() implies (#[trigger] rest[t]).0@ != id by {
                assert(rest[t] == installed[t + 1]);
            }
        }
    }
}

/// Position of the first release of `cands` at version `v` (the length where
/// there is none).
pub open spec fn first_at(cands: Seq<usize>, p: CatalogPackage, v: VersionView) -> int
    decreases cands.len(),
{
    if cands.len() == 0 {
        0
    } else if p.versions@[cands[0] as int].version@ == v {
        0
    } else {
        1 + first_at(cands.drop_first(), p, v)
    }
}

proof fn lemma_first_at(cands: Seq<usize>, p: CatalogPackage, v: VersionView, u: int)
    requires
        0 <= u <= cands.len(),
        forall|w: int| 0 <= w < u ==> p.versions@[#[trigger] cands[w] as int].version@ != v,
        u < cands.len() ==> p.versions@[cands[u] as int].version@ == v,
    ensures
        first_at(cands, p, v) == u,
    decreases u,
{
    if u > 0 {
        let rest = cands.drop_first();
        assert(p.versions@[cands[0] as int].version@ != v);
        assert forall|w: int| 0 <= w < u - 1 implies p.versions@[#[trigger] rest[w] as int].version@ != v by {
            assert(rest[w] == cands[w + 1]);
        }
        if u < cands.len() {
            assert(rest[u - 1] == cands[u]);
        }
        lemma_first_at(rest, p, v, u - 1);
    }
}

/// The list with entry `u` moved to the front (unchanged where `u` is past
/// its end).
pub open spec fn to_front(cands: Seq<usize>, u: int) -> Seq<usize> {
    if 0 <= u < cands.len() {
        seq![cands[u]] + cands.take(u) + cands.skip(u + 1)
    } else {
        cands
    }
}

/// The order candidates are tried in: for a package other than the root that
/// is installed, its first release at the installed version comes first.
pub open spec fn preferred_order(cands: Seq<usize>, p: CatalogPackage, installed: Seq<(String, Version)>, id: Seq<char>, root: Seq<char>) -> Seq<usize> {
    if id == root {
        cands
    } else {
        match installed_version_of(installed, id) {
            None => cands,
            Some(v) => to_front(cands, first_at(cands, p, v)),
        }
    }
}

/// Moves the candidate at the installed version, if there is one, to the front:
/// a dependency stays at its installed version where the requirements allow it.
fn prefer_installed(cands: &mut Vec<usize>, p: &CatalogPackage, installed: &Vec<(String, Version)>, id: &str, root: &str)
    requires
        forall|u: int| 0 <= u < old(cands)@.len() ==> (#[trigger] old(cands)@[u]) < p.versions@.len(),
    ensures
        final(cands)@.len() == old(cands)@.len(),
        forall|u: int| 0 <= u < final(cands)@.len() ==> old(cands)@.contains(#[trigger] final(cands)@[u]),
        forall|u: int| 0 <= u < old(cands)@.len() ==> final(cands)@.contains(#[trigger] old(cands)@[u]),
        id@ == root@ || (forall|t: int| 0 <= t < installed@.len() ==> (#[trigger] installed@[t]).0@ != id@) ==> final(cands)@
            == old(cands)@,
        id@ != root@ ==> forall|t: int| #[trigger] first_installed_at(installed@, id@, t) ==> moved_to_front(
            old(cands)@,
            final(cands)@,
            *p,
            installed@[t].1@,
        ),
        final(cands)@ == preferred_order(old(cands)@, *p, installed@, id@, root@),
{
    if str_equal(id, root) {
        return;
    }
    proof {
        lemma_installed_version_of(installed@, id@);
    }
    let v = match installed_version(installed, id) {
        Some(v) => v,
        None => return,
    };
    proof {
        let t = choose|t: int| first_installed_at(installed@, id@, t) && installed@[t].1 == *v;
        assert(installed_version_of(installed@, id@) == Some(v@));
    }
    let mut u: usize = 0;
    while u < cands.len()
        invariant
            u <= cands@.len(),
            cands@ == old(cands)@,
            forall|w: int| 0 <= w < cands@.len() ==> (#[trigger] cands@[w]) < p.versions@.len(),
            forall|w: int| 0 <= w < u ==> p.versions@[#[trigger] cands@[w] as int].version@ != v@,
            id@ != root@,
            exists|t: int| first_installed_at(installed@, id@, t) && installed@[t].1 == *v,
            installed_version_of(installed@, id@) == Some(v@),
        decreases cands@.len() - u,
    {
        if p.versions[cands[u]].version.same(v) {
            let ghost before = cands@;
            let x = cands.remove(u);
            cands.insert(0, x);
            proof {
                lemma_first_at(before, *p, v@, u as int);
                assert(first_at_version(before, *p, v@, u as int));
                assert(cands@ =~= seq![before[u as int]] + before.take(u as int) + before.skip(u + 1));
                assert forall|w: int| #[trigger] first_at_version(before, *p, v@, w) implies w == u by {
                    if w < u {
                        assert(p.versions@[before[w] as int].version@ != v@);
                    } else if w > u {
                        assert(p.versions@[before[u as int] as int].version@ != v@);
                    }
                }
                assert forall|w: int| 0 <= w < cands@.len() implies before.contains(#[trigger] cands@[w]) by {
                    if w == 0 {
                        assert(before[u as int] == x);
                    } else if w <= u {
                        assert(cands@[w] == before[w - 1]);
                    } else {
                        assert(cands@[w] == before[w]);
                    }
                }
                assert forall|w: int| 0 <= w < before.len() implies cands@.contains(#[trigger] before[w]) by {
                    if w == u {
                        assert(cands@[0] == before[w]);
                    } else if w < u {
                        assert(cands@[w + 1] == before[w]);
                    } else {
                        assert(cands@[w] == before[w]);
                    }
                }
            }
            return;
        }
        u = u + 1;
    }
    proof {
        lemma_first_at(cands@, *p, v@, cands@.len() as int);
        assert forall|w: int| !first_at_version(cands@, *p, v@, w) by {
            if 0 <= w < cands@.len() {
                assert(p.versions@[cands@[w] as int].version@ != v@);
            }
        }
    }
}

/// Requirement texts on `id`, in the order they were collected.
pub open spec fn reqs_on(rv: Seq<DepView>, id: Seq<char>) -> Seq<Seq<char>>
    decreases rv.len(),
{
    if rv.len() == 0 {
        Seq::empty()
    } else if rv.last().0 == id {
        reqs_on(rv.drop_last(), id).push(rv.last().1)
    } else {
        reqs_on(rv.drop_last(), id)
    }
}

/// Texts joined with " AND ".
pub open spec fn and_joined(parts: Seq<Seq<char>>) -> Seq<char>
    decreases parts.len(),
{
    if parts.len() == 0 {
        Seq::empty()
    } else if parts.len() == 1 {
        parts[0]
    } else {
        and_joined(parts.drop_last()) + " AND "@ + parts.last()
    }
}

/// Error for a chosen version that a later requirement refuses.
pub open spec fn violation_message(v: VersionView, id: Seq<char>) -> Seq<char> {
    "chosen version "@ + version_text(v) + " of '"@ + id + "' no longer satisfies dependency constraints"@
}

/// Error for a dependency no enabled repository publishes.
pub open spec fn missing_dependency_message(id: Seq<char>) -> Seq<char> {
    "missing dependency '"@ + id + "' in loaded repositories"@
}

/// Error for a package none of whose releases meets its requirements.
pub open spec fn unsatisfiable_message(id: Seq<char>, rv: Seq<DepView>) -> Seq<char> {
    "no version of '"@ + id + "' satisfies "@ + and_joined(reqs_on(rv, id))
}

fn violation_text(v: &Version, id: &str) -> (r: String)
    ensures
        r@ == violation_message(v@, id@),
{
    let mut out = String::new();
    out.append("chosen version ");
    let vt = v.text();
    out.append(vt.as_str());
    out.append(" of '");
    out.append(id);
    out.append("' no longer satisfies dependency constraints");
    proof {
        assert(out@ =~= violation_message(v@, id@));
    }
    out
}

fn missing_dependency_text(id: &str) -> (r: String)
    ensures
        r@ == missing_dependency_message(id@),
{
    let mut out = String::new();
    out.append("missing dependency '");
    out.append(id);
    out.append("' in loaded repositories");
    proof {
        assert(out@ =~= missing_dependency_message(id@));
    }
    out
}

fn unsatisfiable_text(id: &str, reqs: &Vec<(String, Requirement)>) -> (r: String)
    ensures
        r@ == unsatisfiable_message(id@, reqs_view(reqs@)),
{
    let ghost rv = reqs_view(reqs@);
    let mut joined = String::new();
    let mut any = false;
    let mut j: usize = 0;
    while j < reqs.len()
        invariant
            rv == reqs_view(reqs@),
            j <= reqs@.len(),
            any == (reqs_on(rv.take(j as int), id@).len() > 0),
            joined@ == and_joined(reqs_on(rv.take(j as int), id@)),
        decreases reqs@.len() - j,
    {
        proof {
            assert(rv.take(j + 1).drop_last() =~= rv.take(j as int));
            assert(rv[j as int] == (reqs@[j as int].0@, reqs@[j as int].1@));
        }
        let ghost parts = reqs_on(rv.take(j as int), id@);
        if str_equal(reqs[j].0.as_str(), id) {
            let ghost prev = joined@;
            if any {
                joined.append(" AND ");
            }
            joined.append(reqs[j].1.text());
            any = true;
            proof {
                let parts2 = reqs_on(rv.take(j + 1), id@);
                assert(parts2 == parts.push(rv[j as int].1));
                assert(parts2.drop_last() =~= parts);
                if parts.len() == 0 {
                    assert(joined@ =~= parts2[0]);
                } else {
                    assert(joined@ =~= prev + " AND "@ + parts2.last());
                }
            }
        }
        j = j + 1;
    }
    proof {
        assert(rv.take(reqs@.len() as int) =~= rv);
    }
    let mut out = String::new();
    out.append("no version of '");
    out.append(id);
    out.append("' satisfies ");
    out.append(joined.as_str());
    proof {
        assert(out@ =~= unsatisfiable_message(id@, rv));
    }
    out
}

fn unresolvable_text(id: &str) -> (r: String)
    ensures
        r@ == "could not resolve dependencies for package '"@ + id@ + "'"@,
{
    let mut out = String::new();
    out.append("could not resolve dependencies for package '");
    out.append(id);
    out.append("'");
    out
}

/// Picking a release for a required, not yet chosen package keeps the search
/// state well formed.
proof fn lemma_extend(
    c: Catalog,
    root: Seq<char>,
    q: Seq<char>,
    rv: Seq<DepView>,
    cv: Seq<(Seq<char>, VersionView)>,
    g: Map<Seq<char>, Pick>,
    p: Seq<char>,
    pick: Pick,
    j: int,
)
    requires
        chosen_ok(c, cv, g),
        reqs_ok(c, root, q, rv, g),
        !has_id(cv, p),
        pick_ok(c, p, pick),
        0 <= j < rv.len(),
        rv[j].0 == p,
    ensures
        !g.dom().contains(p),
        chosen_ok(c, cv.push((p, picked_release(c, pick).version@)), g.insert(p, pick)),
        reqs_ok(c, root, q, rv + release_deps(picked_release(c, pick)), g.insert(p, pick)),
        extends(g.insert(p, pick), g),
{
    let g2 = g.insert(p, pick);
    let cv2 = cv.push((p, picked_release(c, pick).version@));
    let rv2 = rv + release_deps(picked_release(c, pick));
    if g.dom().contains(p) {
        let t = choose|t: int| 0 <= t < cv.len() && #[trigger] cv[t].0 == p;
        assert(has_id(cv, p));
    }
    assert forall|id: Seq<char>| #[trigger] g.dom().contains(id) implies picked_deps(c, g2, id) == picked_deps(c, g, id) by {
        assert(g2[id] == g[id]);
    }
    assert forall|a: int, b: int| 0 <= a < b < cv2.len() implies #[trigger] cv2[a].0 != #[trigger] cv2[b].0 by {
        if b == cv.len() {
            assert(cv2[a] == cv[a]);
            if cv[a].0 == p {
                assert(has_id(cv, p));
            }
        } else {
            assert(cv2[a] == cv[a] && cv2[b] == cv[b]);
        }
    }
    assert forall|t: int| 0 <= t < cv2.len() implies {
        &&& g2.dom().contains(#[trigger] cv2[t].0)
        &&& pick_ok(c, cv2[t].0, g2[cv2[t].0])
        &&& cv2[t].1 == picked_version(c, g2, cv2[t].0)
    } by {
        if t < cv.len() {
            assert(cv2[t] == cv[t]);
            assert(g.dom().contains(cv[t].0));
            assert(g2[cv[t].0] == g[cv[t].0]);
        }
    }
    assert forall|id: Seq<char>| #[trigger] g2.dom().contains(id) implies exists|t: int| 0 <= t < cv2.len() && #[trigger] cv2[t].0 == id by {
        if id == p {
            assert(cv2[cv.len() as int].0 == id);
        } else {
            assert(g.dom().contains(id));
            let t = choose|t: int| 0 <= t < cv.len() && #[trigger] cv[t].0 == id;
            assert(cv2[t] == cv[t]);
        }
    }
    assert forall|k: int| 1 <= k < rv2.len() implies dep_of_pick(c, g2, #[trigger] rv2[k]) by {
        if k < rv.len() {
            assert(rv2[k] == rv[k]);
            assert(dep_of_pick(c, g, rv[k]));
            let (id, m) = choose|id: Seq<char>, m: int|
                g.dom().contains(id) && 0 <= m < picked_deps(c, g, id).len() && #[trigger] picked_deps(c, g, id)[m] == rv[k];
            assert(picked_deps(c, g2, id) == picked_deps(c, g, id));
            assert(rv2[k] == picked_deps(c, g2, id)[m]);
        } else {
            assert(g2[p] == pick);
            assert(rv2[k] == picked_deps(c, g2, p)[k - rv.len()]);
        }
    }
    assert forall|id: Seq<char>, m: int|
        g2.dom().contains(id) && 0 <= m < picked_deps(c, g2, id).len() implies rv2.contains(#[trigger] picked_deps(c, g2, id)[m]) by {
        if id == p {
            assert(rv2[rv.len() + m] == picked_deps(c, g2, id)[m]);
        } else {
            assert(picked_deps(c, g2, id) == picked_deps(c, g, id));
            assert(rv.contains(picked_deps(c, g, id)[m]));
            let k = choose|k: int| 0 <= k < rv.len() && rv[k] == picked_deps(c, g, id)[m];
            assert(rv2[k] == rv[k]);
        }
    }
    assert forall|id: Seq<char>| #[trigger] g2.dom().contains(id) implies exists|k: int| 0 <= k < rv2.len() && #[trigger] rv2[k].0 == id by {
        if id == p {
            assert(rv2[j] == rv[j]);
        } else {
            let k = choose|k: int| 0 <= k < rv.len() && #[trigger] rv[k].0 == id;
            assert(rv2[k] == rv[k]);
        }
    }
    assert(rv2[0] == rv[0]);
    assert(g2[p] == pick);
    assert(rv2.len() >= 1);
}

/// A resolution keeping the picks of `g` picks, for a required package, one of
/// its candidate releases.
proof fn lemma_pick_is_candidate(
    c: Catalog,
    root: Seq<char>,
    q: Seq<char>,
    rv: Seq<DepView>,
    g: Map<Seq<char>, Pick>,
    s: Map<Seq<char>, Pick>,
    j: int,
    pi: int,
)
    requires
        ids_distinct(c.packages@),
        reqs_ok(c, root, q, rv, g),
        is_resolution(c, root, q, s),
        extends(s, g),
        0 <= j < rv.len(),
        0 <= pi < c.packages@.len(),
        c.packages@[pi].id@ == rv[j].0,
    ensures
        s.dom().contains(rv[j].0),
        s[rv[j].0].0 == pi,
        candidate(c.packages@[pi], rv, rv[j].0, s[rv[j].0].1),
{
    let p = rv[j].0;
    lemma_reqs_met(c, root, q, rv, g, s);
    assert(dep_met(c, s, rv[j]));
    assert(pick_ok(c, p, s[p]));
    if s[p].0 != pi {
        if s[p].0 < pi {
            assert(c.packages@[s[p].0].id@ != c.packages@[pi].id@);
        } else {
            assert(c.packages@[pi].id@ != c.packages@[s[p].0].id@);
        }
    }
    assert forall|k: int| 0 <= k < rv.len() && (#[trigger] rv[k]).0 == p implies semver_matches(rv[k].1, c.packages@[pi].versions@[s[p].1].version@) by {
        assert(dep_met(c, s, rv[k]));
    }
}

/// Some chosen package's version is refused by a collected requirement on it.
pub open spec fn violated(c: Catalog, rv: Seq<DepView>, g: Map<Seq<char>, Pick>) -> bool {
    exists|id: Seq<char>| #[trigger] g.dom().contains(id) && !all_accept(rv, id, picked_version(c, g, id))
}

/// Every collected requirement names a chosen package.
pub open spec fn all_chosen(rv: Seq<DepView>, g: Map<Seq<char>, Pick>) -> bool {
    forall|j: int| 0 <= j < rv.len() ==> g.dom().contains(#[trigger] rv[j].0)
}

/// `p` is the least required package, by text order, not yet chosen.
pub open spec fn next_required(rv: Seq<DepView>, g: Map<Seq<char>, Pick>, p: Seq<char>) -> bool {
    &&& exists|j: int| 0 <= j < rv.len() && (#[trigger] rv[j]).0 == p
    &&& !g.dom().contains(p)
    &&& forall|j: int| 0 <= j < rv.len() && !g.dom().contains(#[trigger] rv[j].0) ==> seq_order(p, rv[j].0) <= 0
}

/// The catalog has a package with identifier `p`.
pub open spec fn has_package(c: Catalog, p: Seq<char>) -> bool {
    exists|i: int| 0 <= i < c.packages@.len() && (#[trigger] c.packages@[i]).id@ == p
}

/// Index of the catalog package with identifier `p`.
pub open spec fn package_index(c: Catalog, p: Seq<char>) -> int {
    choose|i: int| 0 <= i < c.packages@.len() && (#[trigger] c.packages@[i]).id@ == p
}

/// The resolution the depth-first search finds, from the collected
/// requirements `rv` and the picks `g`, within `fuel` more picks: none where a
/// pick is refused; the picks where every requirement is met; else, for the
/// least required package not yet picked, its candidate releases in the order
/// tried (the installed one first, then newest first), the first whose search
/// goes through.
#[verifier::opaque]
pub open spec fn search(
    c: Catalog,
    installed: Seq<(String, Version)>,
    root: Seq<char>,
    rv: Seq<DepView>,
    g: Map<Seq<char>, Pick>,
    fuel: nat,
) -> Option<Map<Seq<char>, Pick>>
    decreases fuel, 1int, 0int,
{
    if violated(c, rv, g) {
        None
    } else if all_chosen(rv, g) {
        Some(g)
    } else {
        let p = choose|p: Seq<char>| next_required(rv, g, p);
        if !has_package(c, p) {
            None
        } else {
            let pi = package_index(c, p);
            let pkg = c.packages@[pi];
            let cands = preferred_order(sorted_candidates(pkg, rv, p, pkg.versions@.len() as int), pkg, installed, p, root);
            try_candidates(c, installed, root, rv, g, p, pi, cands, 0, fuel)
        }
    }
}

/// The search through the candidate releases of `p` from position `u` on.
#[verifier::opaque]
pub open spec fn try_candidates(
    c: Catalog,
    installed: Seq<(String, Version)>,
    root: Seq<char>,
    rv: Seq<DepView>,
    g: Map<Seq<char>, Pick>,
    p: Seq<char>,
    pi: int,
    cands: Seq<usize>,
    u: int,
    fuel: nat,
) -> Option<Map<Seq<char>, Pick>>
    decreases fuel, 0int, cands.len() - u,
{
    if u < 0 || u >= cands.len() || fuel == 0 {
        None
    } else {
        let pick = (pi, cands[u] as int);
        match search(c, installed, root, rv + release_deps(picked_release(c, pick)), g.insert(p, pick), (fuel - 1) as nat) {
            Some(s) => Some(s),
            None => try_candidates(c, installed, root, rv, g, p, pi, cands, u + 1, fuel),
        }
    }
}

/// Under `chosen_ok`, a package has a chosen entry exactly when it is picked.
proof fn lemma_has_id_picked(c: Catalog, cv: Seq<(Seq<char>, VersionView)>, g: Map<Seq<char>, Pick>)
    requires
        chosen_ok(c, cv, g),
    ensures
        forall|id: Seq<char>| #[trigger] has_id(cv, id) == g.dom().contains(id),
{
    assert forall|id: Seq<char>| #[trigger] has_id(cv, id) == g.dom().contains(id) by {
        if has_id(cv, id) {
            let t = choose|t: int| 0 <= t < cv.len() && #[trigger] cv[t].0 == id;
        }
        if g.dom().contains(id) {
            let t = choose|t: int| 0 <= t < cv.len() && #[trigger] cv[t].0 == id;
            assert(has_id(cv, id));
        }
    }
}

/// At most one package is the least required one not yet picked, so the
/// search's choice is that package.
proof fn lemma_next_required_choice(rv: Seq<DepView>, g: Map<Seq<char>, Pick>, p: Seq<char>)
    requires
        next_required(rv, g, p),
    ensures
        (choose|p2: Seq<char>| next_required(rv, g, p2)) == p,
{
    let p2 = choose|p2: Seq<char>| next_required(rv, g, p2);
    assert(next_required(rv, g, p2));
    let j = choose|j: int| 0 <= j < rv.len() && (#[trigger] rv[j]).0 == p;
    let j2 = choose|j2: int| 0 <= j2 < rv.len() && (#[trigger] rv[j2]).0 == p2;
    assert(seq_order(p2, rv[j].0) <= 0);
    assert(seq_order(p, rv[j2].0) <= 0);
    crate::text::lemma_seq_order_basics(p, p2);
}

/// With distinct identifiers, the catalog index of `p` is the one found.
proof fn lemma_package_index(c: Catalog, p: Seq<char>, pi: int)
    requires
        ids_distinct(c.packages@),
        0 <= pi < c.packages@.len(),
        c.packages@[pi].id@ == p,
    ensures
        has_package(c, p),
        package_index(c, p) == pi,
{
    assert(has_package(c, p));
    let i = package_index(c, p);
    if i != pi {
        if i < pi {
            assert(c.packages@[i].id@ != c.packages@[pi].id@);
        } else {
            assert(c.packages@[pi].id@ != c.packages@[i].id@);
        }
    }
}

/// Once the root is picked, its version has the numbers and pre-release of
/// every exact requirement `q` names.
pub open spec fn root_pinned(c: Catalog, root: Seq<char>, q: Seq<char>, g: Map<Seq<char>, Pick>) -> bool {
    g.dom().contains(root) ==> forall|w: VersionView|
        #[trigger] exact_requirement_text(w) == q && pre_valid(w.3) ==> same_version_numbers(picked_version(c, g, root), w)
}

/// A pick accepted by every exact requirement on its package keeps the root
/// pinned.
proof fn lemma_root_pinned_extend(
    c: Catalog,
    root: Seq<char>,
    q: Seq<char>,
    rv: Seq<DepView>,
    g: Map<Seq<char>, Pick>,
    p: Seq<char>,
    pick: Pick,
)
    requires
        root_pinned(c, root, q, g),
        rv.len() >= 1,
        rv[0] == (root, q),
        pinned_by(rv, p, picked_release(c, pick).version@),
    ensures
        root_pinned(c, root, q, g.insert(p, pick)),
{
    let g2 = g.insert(p, pick);
    if p == root {
        assert forall|w: VersionView| #[trigger] exact_requirement_text(w) == q && pre_valid(w.3) implies same_version_numbers(
            picked_version(c, g2, root),
            w,
        ) by {
            assert(rv[0].1 == exact_requirement_text(w));
        }
    } else {
        assert(g2[root] == g[root]);
    }
}

/// Depth-first search for a resolution: take the least required package not
/// yet chosen, try its candidate releases (the installed one first, then newest
/// first) and search on with each release's dependencies added.
#[verifier::rlimit(40)]
#[verifier::spinoff_prover]
pub(crate) fn solve_from(
    c: &Catalog,
    installed: &Vec<(String, Version)>,
    root: &str,
    reqs: Vec<(String, Requirement)>,
    chosen: Vec<(String, Version)>,
    Ghost(q): Ghost<Seq<char>>,
    Ghost(g): Ghost<Map<Seq<char>, Pick>>,
) -> (r: Result<(Vec<(String, Version)>, Ghost<Map<Seq<char>, Pick>>), String>)
    requires
        ids_distinct(c.packages@),
        chosen_ok(*c, chosen_view(chosen@), g),
        reqs_ok(*c, root@, q, reqs_view(reqs@), g),
        root_pinned(*c, root@, q, g),
    ensures
        match r {
            Ok((v, s)) => {
                &&& is_resolution(*c, root@, q, s@)
                &&& root_pinned(*c, root@, q, s@)
                &&& extends(s@, g)
                &&& chosen_ok(*c, chosen_view(v@), s@)
                &&& search(*c, installed@, root@, reqs_view(reqs@), g, (c.packages@.len() - chosen@.len()) as nat) == Some(s@)
            },
            Err(_) => {
                &&& !exists|s: Map<Seq<char>, Pick>| is_resolution(*c, root@, q, s) && extends(s, g)
                &&& search(*c, installed@, root@, reqs_view(reqs@), g, (c.packages@.len() - chosen@.len()) as nat) is None
            },
        },
    decreases c.packages@.len() - chosen@.len(),
{
    let ghost rv = reqs_view(reqs@);
    let ghost cv = chosen_view(chosen@);
    let ghost fuel: nat = (c.packages@.len() - chosen@.len()) as nat;
    proof {
        reveal(search);
        reveal(try_candidates);
        lemma_chosen_bound(*c, cv, g);
        lemma_has_id_picked(*c, cv, g);
    }
    match first_violation(&reqs, &chosen) {
        Some(t) => {
            proof {
                lemma_violation(*c, root@, q, rv, cv, g, t as int);
                assert(g.dom().contains(cv[t as int].0));
                assert(violated(*c, rv, g));
            }
            assert(cv[t as int] == (chosen@[t as int].0@, chosen@[t as int].1@));
            return Err(violation_text(&chosen[t].1, chosen[t].0.as_str()));
        },
        None => {},
    }
    proof {
        assert(!violated(*c, rv, g)) by {
            assert forall|id: Seq<char>| #[trigger] g.dom().contains(id) implies all_accept(rv, id, picked_version(*c, g, id)) by {
                let t = choose|t: int| 0 <= t < cv.len() && #[trigger] cv[t].0 == id;
            }
        }
    }
    let j = match first_unresolved(&reqs, &chosen) {
        None => {
            proof {
                lemma_complete(*c, root@, q, rv, cv, g);
                assert(all_chosen(rv, g));
            }
            return Ok((chosen, Ghost(g)));
        },
        Some(j) => j,
    };
    let pid = reqs[j].0.clone();
    let ghost p = pid@;
    assert(rv[j as int].0 == p);
    proof {
        assert(next_required(rv, g, p));
        assert(!all_chosen(rv, g));
        lemma_next_required_choice(rv, g, p);
    }
    let pi = match c.find(pid.as_str()) {
        None => {
            proof {
                if exists|s: Map<Seq<char>, Pick>| is_resolution(*c, root@, q, s) && extends(s, g) {
                    let s = choose|s: Map<Seq<char>, Pick>| is_resolution(*c, root@, q, s) && extends(s, g);
                    lemma_reqs_met(*c, root@, q, rv, g, s);
                    assert(dep_met(*c, s, rv[j as int]));
                    assert(pick_ok(*c, p, s[p]));
                    assert(c.packages@[s[p].0].id@ == p);
                }
            }
            proof {
                assert(!has_package(*c, p));
            }
            return Err(missing_dependency_text(pid.as_str()));
        },
        Some(i) => i,
    };
    let pkg = &c.packages[pi];
    let mut cands = candidates(pkg, &reqs, pid.as_str());
    proof {
        lemma_package_index(*c, p, pi as int);
        assert(search(*c, installed@, root@, rv, g, fuel) == try_candidates(
            *c,
            installed@,
            root@,
            rv,
            g,
            p,
            pi as int,
            preferred_order(cands@, *pkg, installed@, p, root@),
            0,
            fuel,
        ));
    }
    if cands.len() == 0 {
        proof {
            assert(preferred_order(cands@, *pkg, installed@, p, root@) == cands@);
            if exists|s: Map<Seq<char>, Pick>| is_resolution(*c, root@, q, s) && extends(s, g) {
                let s = choose|s: Map<Seq<char>, Pick>| is_resolution(*c, root@, q, s) && extends(s, g);
                lemma_pick_is_candidate(*c, root@, q, rv, g, s, j as int, pi as int);
                assert(has_index(cands@, s[p].1));
            }
        }
        return Err(unsatisfiable_text(pid.as_str(), &reqs));
    }
    let ghost listed = cands@;
    prefer_installed(&mut cands, pkg, installed, pid.as_str(), root);
    proof {
        assert forall|u: int| 0 <= u < cands@.len() implies pinned_by(rv, p, pkg.versions@[#[trigger] cands@[u] as int].version@) by {
            assert(listed.contains(cands@[u]));
            let w = choose|w: int| 0 <= w < listed.len() && listed[w] == cands@[u];
            assert(pinned_by(rv, p, pkg.versions@[listed[w] as int].version@));
        }
    }
    proof {
        assert forall|k: int| #[trigger] candidate(*pkg, rv, p, k) implies has_index(cands@, k) by {
            assert(has_index(listed, k));
            let w = choose|w: int| 0 <= w < listed.len() && listed[w] as int == k;
            assert(cands@.contains(listed[w]));
            let u = choose|u: int| 0 <= u < cands@.len() && cands@[u] == listed[w];
        }
        assert forall|u: int| 0 <= u < cands@.len() implies candidate(*pkg, rv, p, #[trigger] cands@[u] as int) by {
            assert(listed.contains(cands@[u]));
            let w = choose|w: int| 0 <= w < listed.len() && listed[w] == cands@[u];
        }
    }
    let mut last_error: Option<String> = None;
    let mut u: usize = 0;
    while u < cands.len()
        invariant
            fuel == c.packages@.len() - cv.len(),
            search(*c, installed@, root@, rv, g, fuel) == try_candidates(*c, installed@, root@, rv, g, p, pi as int, cands@, u as int, fuel),
            ids_distinct(c.packages@),
            chosen_ok(*c, cv, g),
            reqs_ok(*c, root@, q, rv, g),
            root_pinned(*c, root@, q, g),
            forall|w: int| 0 <= w < cands@.len() ==> pinned_by(rv, p, pkg.versions@[#[trigger] cands@[w] as int].version@),
            rv == reqs_view(reqs@),
            cv == chosen_view(chosen@),
            pi < c.packages@.len(),
            *pkg == c.packages@[pi as int],
            c.packages@[pi as int].id@ == p,
            pid@ == p,
            !has_id(cv, p),
            j < rv.len(),
            rv[j as int].0 == p,
            lists_candidates(cands@, *pkg, rv, p),
            u <= cands@.len(),
            forall|w: int| 0 <= w < u ==> !exists|s: Map<Seq<char>, Pick>|
                is_resolution(*c, root@, q, s) && extends(s, #[trigger] g.insert(p, (pi as int, cands@[w] as int))),
        decreases cands@.len() - u,
    {
        let k = cands[u];
        assert(candidate(*pkg, rv, p, k as int));
        let release = &pkg.versions[k];
        let mut next_reqs = copy_reqs(&reqs);
        let mut d: usize = 0;
        while d < release.dependencies.len()
            invariant
                d <= release.dependencies@.len(),
                reqs_view(next_reqs@) == rv + release_deps(*release).take(d as int),
            decreases release.dependencies@.len() - d,
        {
            let ghost before = next_reqs@;
            next_reqs.push((release.dependencies[d].id.clone(), release.dependencies[d].requirement.copy()));
            proof {
                assert(next_reqs@ == before.push(next_reqs@.last()));
                assert(reqs_view(next_reqs@) =~= reqs_view(before).push(dep_view(release.dependencies@[d as int])));
                assert(release_deps(*release).take(d + 1) =~= release_deps(*release).take(d as int).push(release_deps(*release)[d as int]));
                assert(rv + release_deps(*release).take(d + 1) =~= (rv + release_deps(*release).take(d as int)).push(release_deps(*release)[d as int]));
            }
            d = d + 1;
        }
        proof {
            assert(release_deps(*release).take(release.dependencies@.len() as int) =~= release_deps(*release));
        }
        let mut next_chosen = copy_chosen(&chosen);
        let ghost before_chosen = next_chosen@;
        next_chosen.push((pid.clone(), release.version.copy()));
        let ghost pick: Pick = (pi as int, k as int);
        let ghost g2 = g.insert(p, pick);
        proof {
            assert(next_chosen@ == before_chosen.push(next_chosen@.last()));
            assert(chosen_view(next_chosen@) =~= cv.push((p, release.version@)));
            assert(picked_release(*c, pick) == *release);
            lemma_extend(*c, root@, q, rv, cv, g, p, pick, j as int);
            lemma_chosen_bound(*c, chosen_view(next_chosen@), g2);
            assert(pinned_by(rv, p, pkg.versions@[cands@[u as int] as int].version@));
            lemma_root_pinned_extend(*c, root@, q, rv, g, p, pick);
        }
        let ghost rv2 = reqs_view(next_reqs@);
        let ghost fuel2: nat = (c.packages@.len() - next_chosen@.len()) as nat;
        proof {
            assert(fuel >= 1);
            assert(cands@[u as int] == k);
            assert(rv2 == rv + release_deps(picked_release(*c, pick)));
            assert(fuel2 == (fuel - 1) as nat);
        }
        match solve_from(c, installed, root, next_reqs, next_chosen, Ghost(q), Ghost(g2)) {
            Ok((v, s)) => {
                proof {
                    reveal(try_candidates);
                    reveal(search);
                    assert forall|id: Seq<char>| #[trigger] g.dom().contains(id) implies s@.dom().contains(id) && s@[id] == g[id] by {
                        assert(g2.dom().contains(id));
                        assert(g2[id] == g[id]);
                    }
                }
                return Ok((v, s));
            },
            Err(e) => {
                last_error = Some(e);
            },
        }
        proof {
            reveal(try_candidates);
            reveal(search);
            assert(try_candidates(*c, installed@, root@, rv, g, p, pi as int, cands@, u as int, fuel) == try_candidates(
                *c,
                installed@,
                root@,
                rv,
                g,
                p,
                pi as int,
                cands@,
                u + 1,
                fuel,
            ));
        }
        u = u + 1;
    }
    proof {
        if exists|s: Map<Seq<char>, Pick>| is_resolution(*c, root@, q, s) && extends(s, g) {
            let s = choose|s: Map<Seq<char>, Pick>| is_resolution(*c, root@, q, s) && extends(s, g);
            lemma_pick_is_candidate(*c, root@, q, rv, g, s, j as int, pi as int);
            assert(has_index(cands@, s[p].1));
            let w = choose|w: int| 0 <= w < cands@.len() && cands@[w] as int == s[p].1;
            assert(s[p] == (pi as int, cands@[w] as int));
            assert forall|id: Seq<char>| #[trigger] g.insert(p, (pi as int, cands@[w] as int)).dom().contains(id) implies
                s.dom().contains(id) && s[id] == g.insert(p, (pi as int, cands@[w] as int))[id] by {
                if id != p {
                    assert(g.dom().contains(id));
                }
            }
            assert(extends(s, g.insert(p, (pi as int, cands@[w] as int))));
        }
    }
    match last_error {
        Some(e) => Err(e),
        None => Err(unresolvable_text(pid.as_str())),
    }
}

impl Catalog {
    /// Index of the package with identifier `id`.
    pub fn find(&self, id: &str) -> (r: Option<usize>)
        ensures
            match r {
                Some(i) => i < self.packages@.len() && self.packages@[i as int].id@ == id@,
                None => forall|i: int| 0 <= i < self.packages@.len() ==> (#[trigger] self.packages@[i]).id@ != id@,
            },
    {
        let mut i: usize = 0;
        while i < self.packages.len()
            invariant
                i <= self.packages@.len(),
                forall|k: int| 0 <= k < i ==> (#[trigger] self.packages@[k]).id@ != id@,
            decreases self.packages@.len() - i,
        {
            if str_equal(self.packages[i].id.as_str(), id) {
                return Some(i);
            }
            i = i + 1;
        }
        None
    }
}

/// Copies the collected requirements.
fn copy_reqs(reqs: &Vec<(String, Requirement)>) -> (r: Vec<(String, Requirement)>)
    ensures
        reqs_view(r@) == reqs_view(reqs@),
{
    let mut out: Vec<(String, Requirement)> = Vec::new();
    let mut j: usize = 0;
    while j < reqs.len()
        invariant
            j <= reqs.len(),
            reqs_view(out@) == reqs_view(reqs@).take(j as int),
        decreases reqs.len() - j,
    {
        let ghost before = out@;
        out.push((reqs[j].0.clone(), reqs[j].1.copy()));
        proof {
            assert(out@ == before.push(out@.last()));
            assert(reqs_view(out@) =~= reqs_view(before).push((reqs@[j as int].0@, reqs@[j as int].1@)));
            assert(reqs_view(reqs@).take(j + 1) =~= reqs_view(reqs@).take(j as int).push(reqs_view(reqs@)[j as int]));
        }
        j = j + 1;
    }
    proof {
        assert(reqs_view(reqs@).take(reqs@.len() as int) =~= reqs_view(reqs@));
    }
    out
}

/// Copies the chosen versions.
fn copy_chosen(chosen: &Vec<(String, Version)>) -> (r: Vec<(String, Version)>)
    ensures
        chosen_view(r@) == chosen_view(chosen@),
{
    let mut out: Vec<(String, Version)> = Vec::new();
    let mut j: usize = 0;
    while j < chosen.len()
        invariant
            j <= chosen.len(),
            chosen_view(out@) == chosen_view(chosen@).take(j as int),
        decreases chosen.len() - j,
    {
        let ghost before = out@;
        out.push((chosen[j].0.clone(), chosen[j].1.copy()));
        proof {
            assert(out@ == before.push(out@.last()));
            assert(chosen_view(out@) =~= chosen_view(before).push((chosen@[j as int].0@, chosen@[j as int].1@)));
            assert(chosen_view(chosen@).take(j + 1) =~= chosen_view(chosen@).take(j as int).push(chosen_view(chosen@)[j as int]));
        }
        j = j + 1;
    }
    proof {
        assert(chosen_view(chosen@).take(chosen@.len() as int) =~= chosen_view(chosen@));
    }
    out
}

} // verus!
