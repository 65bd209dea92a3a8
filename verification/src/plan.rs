//! Install plans: the resolution of one root package and the releases to
//! install, each after its dependencies.

use vstd::prelude::*;

use crate::catalog::{ids_distinct, Catalog, CatalogPackage};
use crate::order::{dependencies_first, deps_first, graph_ok, is_walk, no_repeats, occurs_before};
use crate::registry::{PackageDependency, PublishedArtifact, PublishedSource, RegistryVersion};
use crate::resolve::{
    chosen_ok, chosen_view, dep_view, extends, has_id, is_resolution, pick_ok, picked_version, release_deps,
    reqs_ok, reqs_view, root_pinned, search, solve_from, DepView, Pick,
};
use crate::text::str_equal;
use crate::version::{exact_requirement_text, same_version_numbers, version_text, Requirement, Version, VersionView};

verus! {

/// A release chosen for installation.
#[derive(Debug)]
pub struct InstallSelection {
    /// Package identifier.
    pub package_id: String,
    /// Index URL of the repository that publishes the package.
    pub repository_url: String,
    /// The release.
    pub version: RegistryVersion,
}

/// What installing a package takes.
#[derive(Debug)]
pub struct InstallPlan {
    /// Releases to install, each after its dependencies.
    pub selections: Vec<InstallSelection>,
    /// The version chosen for every package of the resolution.
    pub resolved: Vec<(String, Version)>,
}

/// Two releases carry the same data.
pub open spec fn same_release(a: RegistryVersion, b: RegistryVersion) -> bool {
    &&& a.version@ == b.version@
    &&& a.content@ == b.content@
    &&& release_deps(a) == release_deps(b)
    &&& a.artifact.file@ == b.artifact.file@
    &&& a.artifact.url@ == b.artifact.url@
    &&& a.artifact.sha256@ == b.artifact.sha256@
    &&& a.artifact.size == b.artifact.size
    &&& a.source.repository@ == b.source.repository@
    &&& a.source.tag@ == b.source.tag@
    &&& a.source.commit@ == b.source.commit@
}

/// Copies a release.
pub fn copy_release(r: &RegistryVersion) -> (c: RegistryVersion)
    ensures
        same_release(c, *r),
{
    let mut deps: Vec<PackageDependency> = Vec::new();
    let mut d: usize = 0;
    while d < r.dependencies.len()
        invariant
            d <= r.dependencies@.len(),
            deps@.map_values(|x: PackageDependency| dep_view(x)) == release_deps(*r).take(d as int),
        decreases r.dependencies@.len() - d,
    {
        let ghost before = deps@;
        deps.push(PackageDependency { id: r.dependencies[d].id.clone(), requirement: r.dependencies[d].requirement.copy() });
        proof {
            assert(deps@ == before.push(deps@.last()));
            assert(deps@.map_values(|x: PackageDependency| dep_view(x)) =~= before.map_values(|x: PackageDependency| dep_view(x)).push(dep_view(r.dependencies@[d as int])));
            assert(release_deps(*r).take(d + 1) =~= release_deps(*r).take(d as int).push(release_deps(*r)[d as int]));
        }
        d = d + 1;
    }
    proof {
        assert(release_deps(*r).take(r.dependencies@.len() as int) =~= release_deps(*r));
    }
    RegistryVersion {
        version: r.version.copy(),
        content: r.content.clone(),
        dependencies: deps,
        artifact: PublishedArtifact {
            file: r.artifact.file.clone(),
            url: r.artifact.url.clone(),
            sha256: r.artifact.sha256.clone(),
            size: r.artifact.size,
        },
        source: PublishedSource {
            repository: r.source.repository.clone(),
            tag: r.source.tag.clone(),
            commit: r.source.commit.clone(),
        },
    }
}

/// Release `k` is the first release of `p` at version `v`.
pub open spec fn first_release(p: CatalogPackage, v: VersionView, k: int) -> bool {
    &&& 0 <= k < p.versions@.len()
    &&& p.versions@[k].version@ == v
    &&& forall|j: int| 0 <= j < k ==> (#[trigger] p.versions@[j]).version@ != v
}

/// `p` has a release at version `v`.
pub open spec fn has_release(p: CatalogPackage, v: VersionView) -> bool {
    exists|k: int| 0 <= k < p.versions@.len() && (#[trigger] p.versions@[k]).version@ == v
}

/// Index of the first release of `p` at version `v`.
fn find_release(p: &CatalogPackage, v: &Version) -> (r: Option<usize>)
    ensures
        match r {
            Some(k) => first_release(*p, v@, k as int),
            None => !has_release(*p, v@),
        },
{
    let mut k: usize = 0;
    while k < p.versions.len()
        invariant
            k <= p.versions@.len(),
            forall|j: int| 0 <= j < k ==> (#[trigger] p.versions@[j]).version@ != v@,
        decreases p.versions@.len() - k,
    {
        if p.versions[k].version.same(v) {
            return Some(k);
        }
        k = k + 1;
    }
    None
}

/// The first installed entry for `id` is at version `v`.
pub open spec fn installed_at(installed: Seq<(String, Version)>, id: Seq<char>, v: VersionView) -> bool {
    exists|t: int|
        0 <= t < installed.len() && installed[t].0@ == id && installed[t].1@ == v
            && forall|u: int| 0 <= u < t ==> (#[trigger] installed[u]).0@ != id
}

/// Whether the first installed entry for `id` is at version `v`.
fn is_installed_at(installed: &Vec<(String, Version)>, id: &str, v: &Version) -> (r: bool)
    ensures
        r == installed_at(installed@, id@, v@),
{
    let mut t: usize = 0;
    while t < installed.len()
        invariant
            t <= installed@.len(),
            forall|u: int| 0 <= u < t ==> (#[trigger] installed@[u]).0@ != id@,
        decreases installed@.len() - t,
    {
        if str_equal(installed[t].0.as_str(), id) {
            let r = installed[t].1.same(v);
            proof {
                if !r && installed_at(installed@, id@, v@) {
                    let t2 = choose|t2: int|
                        0 <= t2 < installed@.len() && installed@[t2].0@ == id@ && installed@[t2].1@ == v@
                            && forall|u: int| 0 <= u < t2 ==> (#[trigger] installed@[u]).0@ != id@;
                    if t2 > t {
                        assert(installed@[t as int].0@ != id@);
                    }
                }
            }
            return r;
        }
        t = t + 1;
    }
    false
}

/// Index of the chosen entry for `id`.
fn chosen_index(chosen: &Vec<(String, Version)>, id: &str) -> (r: Option<usize>)
    ensures
        match r {
            Some(t) => t < chosen@.len() && chosen@[t as int].0@ == id@,
            None => !has_id(chosen_view(chosen@), id@),
        },
{
    let mut t: usize = 0;
    while t < chosen.len()
        invariant
            t <= chosen@.len(),
            forall|u: int| 0 <= u < t ==> (#[trigger] chosen@[u]).0@ != id@,
        decreases chosen@.len() - t,
    {
        if str_equal(chosen[t].0.as_str(), id) {
            return Some(t);
        }
        t = t + 1;
    }
    proof {
        if has_id(chosen_view(chosen@), id@) {
            let u = choose|u: int| 0 <= u < chosen_view(chosen@).len() && #[trigger] chosen_view(chosen@)[u].0 == id@;
            assert(chosen@[u].0@ == chosen_view(chosen@)[u].0);
        }
    }
    None
}

/// Error for a root package the catalog lacks.
pub open spec fn not_in_catalog_message(id: Seq<char>) -> Seq<char> {
    "package '"@ + id + "' is not in the loaded catalog"@
}

/// Error for a version the root package does not publish.
pub open spec fn missing_version_message(id: Seq<char>, v: VersionView) -> Seq<char> {
    "package '"@ + id + "' does not contain version "@ + version_text(v)
}

/// Error for a dependency cycle.
pub open spec fn cycle_message(id: Seq<char>) -> Seq<char> {
    "package dependency cycle contains '"@ + id + "'"@
}

/// The message names a package on a dependency cycle.
pub open spec fn is_cycle_message(e: Seq<char>) -> bool {
    exists|id: Seq<char>| e == cycle_message(id)
}

fn quoted_message(prefix: &str, id: &str, suffix: &str) -> (r: String)
    ensures
        r@ == prefix@ + id@ + suffix@,
{
    let mut out = String::new();
    out.append(prefix);
    out.append(id);
    out.append(suffix);
    out
}

/// Version requested for the root: the target, or the package's newest release.
pub open spec fn wanted_version(p: CatalogPackage, target: Option<Version>) -> VersionView {
    match target {
        Some(v) => v@,
        None => p.latest@,
    }
}

/// Selection `s` installs the first catalog release of its package at the
/// resolved version, which is not the installed one.
pub open spec fn selection_ok(c: Catalog, resolved: Seq<(Seq<char>, VersionView)>, installed: Seq<(String, Version)>, s: InstallSelection) -> bool {
    &&& exists|t: int| 0 <= t < resolved.len() && #[trigger] resolved[t] == (s.package_id@, s.version.version@)
    &&& !installed_at(installed, s.package_id@, s.version.version@)
    &&& exists|i: int, k: int| 0 <= i < c.packages@.len() && #[trigger] c.packages@[i].id@ == s.package_id@
        && c.packages@[i].repository_url@ == s.repository_url@
        && first_release(c.packages@[i], s.version.version@, k)
        && same_release(s.version, #[trigger] c.packages@[i].versions@[k])
}

/// Some selection before position `a` installs `id`.
pub open spec fn selected_before(sels: Seq<InstallSelection>, a: int, id: Seq<char>) -> bool {
    exists|b: int| 0 <= b < a && (#[trigger] sels[b]).package_id@ == id
}

/// The version resolved for `id`.
pub open spec fn resolved_version(resolved: Seq<(Seq<char>, VersionView)>, id: Seq<char>) -> VersionView {
    resolved[choose|t: int| 0 <= t < resolved.len() && resolved[t].0 == id].1
}

/// A dependency of a selection that the resolution covers is installed before
/// it, or is already installed at the resolved version.
pub open spec fn dep_ready(resolved: Seq<(Seq<char>, VersionView)>, installed: Seq<(String, Version)>, sels: Seq<InstallSelection>, a: int, d: DepView) -> bool {
    has_id(resolved, d.0) ==> selected_before(sels, a, d.0) || installed_at(installed, d.0, resolved_version(resolved, d.0))
}

/// The plan resolves `root` at `want` and installs what the resolution needs that
/// is not installed, each release after its dependencies.
pub open spec fn plan_ok(c: Catalog, installed: Seq<(String, Version)>, root: Seq<char>, want: VersionView, plan: InstallPlan) -> bool {
    let resolved = chosen_view(plan.resolved@);
    let sels = plan.selections@;
    &&& exists|s: Map<Seq<char>, Pick>| is_resolution(c, root, exact_requirement_text(want), s) && chosen_ok(c, resolved, s)
    &&& forall|a: int| 0 <= a < sels.len() ==> selection_ok(c, resolved, installed, #[trigger] sels[a])
    &&& forall|a: int, b: int| 0 <= a < b < sels.len() ==> #[trigger] sels[a].package_id@ != #[trigger] sels[b].package_id@
    &&& forall|a: int, m: int| 0 <= a < sels.len() && 0 <= m < release_deps(sels[a].version).len()
        ==> dep_ready(resolved, installed, sels, a, #[trigger] release_deps(sels[a].version)[m])
    &&& selected_before(sels, sels.len() as int, root) || installed_at(installed, root, resolved_version(resolved, root))
}

/// The version requested for the root: the target, or the package's newest release.
pub open spec fn wanted(p: CatalogPackage, target: Option<&Version>) -> VersionView {
    match target {
        Some(v) => v@,
        None => p.latest@,
    }
}

/// The first catalog release at the version chosen for entry `x` declares a
/// dependency on the package chosen at entry `y`.
pub open spec fn chosen_dep(c: Catalog, cv: Seq<(Seq<char>, VersionView)>, x: int, y: int) -> bool {
    exists|i: int, k: int|
        #![trigger first_release(c.packages@[i], cv[x].1, k)]
        0 <= i < c.packages@.len() && c.packages@[i].id@ == cv[x].0 && first_release(c.packages@[i], cv[x].1, k) && exists|m: int|
            0 <= m < release_deps(c.packages@[i].versions@[k]).len() && #[trigger] release_deps(c.packages@[i].versions@[k])[m].0
                == cv[y].0
}

/// Some dependency in `rd` names `id`.
pub open spec fn names_dep(rd: Seq<DepView>, id: Seq<char>) -> bool {
    exists|m: int| 0 <= m < rd.len() && #[trigger] rd[m].0 == id
}

/// The chosen releases depend on one another in a cycle: a walk of chosen
/// entries, each depending on the next, back to where it started.
pub open spec fn chosen_cycle(c: Catalog, cv: Seq<(Seq<char>, VersionView)>) -> bool {
    exists|p: Seq<usize>|
        #![trigger p.len()]
        p.len() >= 2 && p[0] == p.last() && (forall|j: int| 0 <= j < p.len() ==> (#[trigger] p[j]) < cv.len()) && forall|j: int|
            0 < j < p.len() ==> chosen_dep(c, cv, p[j - 1] as int, #[trigger] p[j] as int)
}

/// The resolution the planner settles on for `root` at version `want`: the
/// first the depth-first search finds, starting from the root's exact
/// requirement. Packages are resolved least identifier first; the releases of
/// a package are tried with the installed one first (for a package other than
/// the root), then newest first, and the search backtracks to the next
/// release where one leads nowhere.
pub open spec fn first_resolution(c: Catalog, installed: Seq<(String, Version)>, root: Seq<char>, want: VersionView) -> Option<Map<Seq<char>, Pick>> {
    search(c, installed, root, seq![(root, exact_requirement_text(want))], Map::empty(), c.packages@.len() as nat)
}

/// The releases of the first resolution depend on one another in a cycle.
pub open spec fn first_resolution_cycles(c: Catalog, installed: Seq<(String, Version)>, root: Seq<char>, want: VersionView) -> bool {
    match first_resolution(c, installed, root, want) {
        Some(s) => exists|cv: Seq<(Seq<char>, VersionView)>| #[trigger] chosen_ok(c, cv, s) && chosen_cycle(c, cv),
        None => false,
    }
}

/// A cycle among the chosen entries of the first resolution is one of its
/// releases' cycles.
proof fn lemma_first_resolution_cycles(
    c: Catalog,
    installed: Seq<(String, Version)>,
    root: Seq<char>,
    want: VersionView,
    s: Map<Seq<char>, Pick>,
    cv: Seq<(Seq<char>, VersionView)>,
)
    requires
        first_resolution(c, installed, root, want) == Some(s),
        chosen_ok(c, cv, s),
        chosen_cycle(c, cv),
    ensures
        first_resolution_cycles(c, installed, root, want),
{
    assert(chosen_ok(c, cv, s) && chosen_cycle(c, cv));
    assert(exists|cv2: Seq<(Seq<char>, VersionView)>| #[trigger] chosen_ok(c, cv2, s) && chosen_cycle(c, cv2));
    let r = first_resolution(c, installed, root, want);
    assert(r is Some);
    assert(r->0 == s);
}

/// What solving for a root package the catalog has gives.
pub open spec fn root_outcome(c: Catalog, installed: Seq<(String, Version)>, root: Seq<char>, p: CatalogPackage, want: VersionView, r: Result<InstallPlan, String>) -> bool {
    &&& !has_release(p, want) ==> (r matches Err(e) && e@ == missing_version_message(root, want))
    &&& has_release(p, want) ==> {
        &&& (first_resolution(c, installed, root, want) is None) == !exists|s: Map<Seq<char>, Pick>|
            is_resolution(c, root, exact_requirement_text(want), s)
        &&& (first_resolution(c, installed, root, want) matches Some(s) ==> is_resolution(c, root, exact_requirement_text(want), s))
        &&& r matches Ok(plan) ==> {
            &&& plan_ok(c, installed, root, want, plan)
            &&& same_version_numbers(resolved_version(chosen_view(plan.resolved@), root), want)
            &&& first_resolution(c, installed, root, want) matches Some(s) && chosen_ok(c, chosen_view(plan.resolved@), s)
        }
        &&& r matches Err(e) ==> (is_cycle_message(e@) && first_resolution_cycles(c, installed, root, want))
            || first_resolution(c, installed, root, want) is None
        &&& first_resolution(c, installed, root, want) is None ==> r is Err
    }
}

/// Some edge of node `t` leads to the chosen entry for `id`.
pub open spec fn edge_to(adj_t: Seq<usize>, cv: Seq<(Seq<char>, VersionView)>, id: Seq<char>) -> bool {
    exists|w: int| 0 <= w < adj_t.len() && adj_t[w] < cv.len() && #[trigger] cv[adj_t[w] as int].0 == id
}

/// Order position `o` is installed already or some selection comes from it.
pub open spec fn covered(pos: Seq<int>, o: int) -> bool {
    exists|b: int| 0 <= b < pos.len() && pos[b] == o
}

/// Plans the install of `root_id` at `target`, or at its newest release: the
/// releases of a resolution of its dependencies, listed dependencies first,
/// without those already installed at the resolved version.
pub fn solve_install_plan(catalog: &Catalog, installed: &Vec<(String, Version)>, root_id: &str, target: Option<&Version>) -> (r: Result<InstallPlan, String>)
    requires
        ids_distinct(catalog.packages@),
    ensures
        (forall|i: int| 0 <= i < catalog.packages@.len() ==> (#[trigger] catalog.packages@[i]).id@ != root_id@)
            ==> (r matches Err(e) && e@ == not_in_catalog_message(root_id@)),
        forall|i: int| 0 <= i < catalog.packages@.len() && (#[trigger] catalog.packages@[i]).id@ == root_id@
            ==> root_outcome(*catalog, installed@, root_id@, catalog.packages@[i], wanted(catalog.packages@[i], target), r),
{
    let c = catalog;
    let pi = match c.find(root_id) {
        None => {
            return Err(quoted_message("package '", root_id, "' is not in the loaded catalog"));
        },
        Some(pi) => pi,
    };
    proof {
        assert forall|i: int| 0 <= i < c.packages@.len() && (#[trigger] c.packages@[i]).id@ == root_id@ implies i == pi by {
            if i < pi {
                assert(c.packages@[i].id@ != c.packages@[pi as int].id@);
            } else if i > pi {
                assert(c.packages@[pi as int].id@ != c.packages@[i].id@);
            }
        }
    }
    let want = match target {
        Some(v) => v.copy(),
        None => c.packages[pi].latest.copy(),
    };
    let ghost w = want@;
    let ghost q = exact_requirement_text(w);
    assert(w == wanted(c.packages@[pi as int], target));
    if find_release(&c.packages[pi], &want).is_none() {
        let mut e = quoted_message("package '", root_id, "' does not contain version ");
        let vt = want.text();
        e.append(vt.as_str());
        return Err(e);
    }
    let mut reqs: Vec<(String, Requirement)> = Vec::new();
    reqs.push((String::from_str(root_id), Requirement::exact(&want)));
    let chosen: Vec<(String, Version)> = Vec::new();
    let ghost g = Map::<Seq<char>, Pick>::empty();
    proof {
        assert(reqs_view(reqs@)[0] == (root_id@, q));
        assert(reqs_view(reqs@).len() == 1);
        assert(chosen_view(chosen@) =~= Seq::empty());
    }
    proof {
        assert(reqs_view(reqs@) =~= seq![(root_id@, q)]);
        assert(chosen@.len() == 0);
        assert(root_pinned(*c, root_id@, q, g));
    }
    let (chosen, Ghost(s)) = match solve_from(c, installed, root_id, reqs, chosen, Ghost(q), Ghost(g)) {
        Ok(found) => found,
        Err(e) => {
            proof {
                assert forall|s2: Map<Seq<char>, Pick>| is_resolution(*c, root_id@, q, s2) implies false by {
                    assert(extends(s2, g));
                }
                assert(first_resolution(*c, installed@, root_id@, w) is None);
            }
            return Err(e);
        },
    };
    proof {
        assert(first_resolution(*c, installed@, root_id@, w) == Some(s));
    }
    let ghost cv = chosen_view(chosen@);
    let n = chosen.len();
    // Every chosen package is in the catalog with a release at its version.
    let mut nodes: Vec<(usize, usize)> = Vec::new();
    let mut adj: Vec<Vec<usize>> = Vec::new();
    let mut t: usize = 0;
    while t < n
        invariant
            ids_distinct(c.packages@),
            cv == chosen_view(chosen@),
            n == chosen@.len(),
            chosen_ok(*c, cv, s),
            t <= n,
            nodes@.len() == t,
            adj@.len() == t,
            forall|x: int| 0 <= x < t ==> {
                let (i, k) = #[trigger] nodes@[x];
                &&& i < c.packages@.len()
                &&& c.packages@[i as int].id@ == cv[x].0
                &&& first_release(c.packages@[i as int], cv[x].1, k as int)
            },
            forall|x: int, w2: int| 0 <= x < t && 0 <= w2 < adj@[x]@.len() ==> (#[trigger] adj@[x]@[w2]) < n,
            forall|x: int, w2: int| 0 <= x < t && 0 <= w2 < adj@[x]@.len() ==> chosen_dep(*c, cv, x, (#[trigger] adj@[x]@[w2]) as int),
            forall|x: int, m: int| 0 <= x < t && 0 <= m < release_deps(c.packages@[nodes@[x].0 as int].versions@[nodes@[x].1 as int]).len()
                && has_id(cv, release_deps(c.packages@[nodes@[x].0 as int].versions@[nodes@[x].1 as int])[m].0)
                ==> edge_to(adj@[x]@, cv, #[trigger] release_deps(c.packages@[nodes@[x].0 as int].versions@[nodes@[x].1 as int])[m].0),
        decreases n - t,
    {
        assert(cv[t as int] == (chosen@[t as int].0@, chosen@[t as int].1@));
        assert(s.dom().contains(cv[t as int].0));
        assert(pick_ok(*c, cv[t as int].0, s[cv[t as int].0]));
        let ti = match c.find(chosen[t].0.as_str()) {
            None => {
                proof {
                    assert(c.packages@[s[cv[t as int].0].0].id@ == cv[t as int].0);
                }
                return Err(quoted_message("missing package '", chosen[t].0.as_str(), "' while ordering install plan"));
            },
            Some(ti) => ti,
        };
        proof {
            let i2 = s[cv[t as int].0].0;
            if i2 < ti {
                assert(c.packages@[i2].id@ != c.packages@[ti as int].id@);
            } else if i2 > ti {
                assert(c.packages@[ti as int].id@ != c.packages@[i2].id@);
            }
            assert(c.packages@[ti as int].versions@[s[cv[t as int].0].1].version@ == cv[t as int].1);
        }
        let tk = match find_release(&c.packages[ti], &chosen[t].1) {
            None => {
                let mut e = String::from_str("missing chosen release ");
                let vt = chosen[t].1.text();
                e.append(vt.as_str());
                let tail = quoted_message(" for '", chosen[t].0.as_str(), "'");
                e.append(tail.as_str());
                return Err(e);
            },
            Some(tk) => tk,
        };
        let release = &c.packages[ti].versions[tk];
        let ghost rd = release_deps(*release);
        let mut edges: Vec<usize> = Vec::new();
        let mut m: usize = 0;
        while m < release.dependencies.len()
            invariant
                cv == chosen_view(chosen@),
                n == chosen@.len(),
                rd == release_deps(*release),
                m <= release.dependencies@.len(),
                forall|w2: int| 0 <= w2 < edges@.len() ==> (#[trigger] edges@[w2]) < n,
                forall|m2: int| 0 <= m2 < m && has_id(cv, rd[m2].0) ==> edge_to(edges@, cv, #[trigger] rd[m2].0),
                forall|w2: int| 0 <= w2 < edges@.len() ==> names_dep(rd, cv[(#[trigger] edges@[w2]) as int].0),
            decreases release.dependencies@.len() - m,
        {
            assert(rd[m as int] == dep_view(release.dependencies@[m as int]));
            match chosen_index(&chosen, release.dependencies[m].id.as_str()) {
                Some(u) => {
                    let ghost before = edges@;
                    edges.push(u);
                    proof {
                        assert(cv[u as int].0 == chosen@[u as int].0@);
                        assert forall|w2: int| 0 <= w2 < edges@.len() implies names_dep(rd, cv[(#[trigger] edges@[w2]) as int].0) by {
                            if w2 < before.len() {
                                assert(edges@[w2] == before[w2]);
                            } else {
                                assert(rd[m as int].0 == cv[edges@[w2] as int].0);
                            }
                        }
                        assert forall|m2: int| 0 <= m2 < m + 1 && has_id(cv, rd[m2].0) implies edge_to(edges@, cv, #[trigger] rd[m2].0) by {
                            if m2 < m {
                                let w3 = choose|w3: int| 0 <= w3 < before.len() && before[w3] < cv.len() && #[trigger] cv[before[w3] as int].0 == rd[m2].0;
                                assert(edges@[w3] == before[w3]);
                            } else {
                                assert(edges@[before.len() as int] == u);
                            }
                        }
                    }
                },
                None => {},
            }
            m = m + 1;
        }
        let ghost before_adj = adj@;
        let ghost before_nodes = nodes@;
        nodes.push((ti, tk));
        adj.push(edges);
        proof {
            assert forall|x: int, w2: int| 0 <= x < t + 1 && 0 <= w2 < adj@[x]@.len() implies (#[trigger] adj@[x]@[w2]) < n by {
                if x < t {
                    assert(adj@[x] == before_adj[x]);
                }
            }
            assert forall|x: int, w2: int| 0 <= x < t + 1 && 0 <= w2 < adj@[x]@.len() implies chosen_dep(
                *c,
                cv,
                x,
                (#[trigger] adj@[x]@[w2]) as int,
            ) by {
                if x < t {
                    assert(adj@[x] == before_adj[x]);
                } else {
                    assert(adj@[x]@ == edges@);
                    let y = edges@[w2];
                    assert(names_dep(rd, cv[y as int].0));
                    let m2 = choose|m2: int| 0 <= m2 < rd.len() && #[trigger] rd[m2].0 == cv[y as int].0;
                    assert(c.packages@[ti as int].id@ == cv[x].0);
                    assert(first_release(c.packages@[ti as int], cv[x].1, tk as int));
                    assert(release_deps(c.packages@[ti as int].versions@[tk as int])[m2].0 == cv[y as int].0);
                }
            }
            assert forall|x: int| 0 <= x < t + 1 implies {
                let (i, k) = #[trigger] nodes@[x];
                &&& i < c.packages@.len()
                &&& c.packages@[i as int].id@ == cv[x].0
                &&& first_release(c.packages@[i as int], cv[x].1, k as int)
            } by {
                if x < t {
                    assert(nodes@[x] == before_nodes[x]);
                }
            }
            assert forall|x: int, m2: int| 0 <= x < t + 1 && 0 <= m2 < release_deps(c.packages@[nodes@[x].0 as int].versions@[nodes@[x].1 as int]).len()
                && has_id(cv, release_deps(c.packages@[nodes@[x].0 as int].versions@[nodes@[x].1 as int])[m2].0)
                implies edge_to(adj@[x]@, cv, #[trigger] release_deps(c.packages@[nodes@[x].0 as int].versions@[nodes@[x].1 as int])[m2].0) by {
                if x < t {
                    assert(nodes@[x] == before_nodes[x]);
                    assert(adj@[x] == before_adj[x]);
                } else {
                    assert(nodes@[x] == (ti, tk));
                    assert(adj@[x]@ == edges@);
                }
            }
        }
        t = t + 1;
    }
    proof {
        assert(crate::resolve::dep_met(*c, s, (root_id@, q)));
        assert(s.dom().contains(root_id@));
        let tr0 = choose|tr0: int| 0 <= tr0 < cv.len() && #[trigger] cv[tr0].0 == root_id@;
        assert(has_id(cv, root_id@));
    }
    let rt = match chosen_index(&chosen, root_id) {
        None => {
            return Err(quoted_message("missing chosen version for '", root_id, "'"));
        },
        Some(rt) => rt,
    };
    let order = match dependencies_first(&adj, rt) {
        Ok(order) => order,
        Err(x) => {
            let e = quoted_message("package dependency cycle contains '", chosen[x].0.as_str(), "'");
            proof {
                assert(e@ == cycle_message(chosen@[x as int].0@));
                let p = choose|p: Seq<usize>| #[trigger] is_walk(adj@, p) && p.len() >= 2 && p[0] == x && p.last() == x;
                assert forall|j: int| 0 < j < p.len() implies chosen_dep(*c, cv, p[j - 1] as int, #[trigger] p[j] as int) by {
                    assert(adj@[p[j - 1] as int]@.contains(p[j]));
                    let w2 = choose|w2: int| 0 <= w2 < adj@[p[j - 1] as int]@.len() && #[trigger] adj@[p[j - 1] as int]@[w2] == p[j];
                    assert(chosen_dep(*c, cv, p[j - 1] as int, adj@[p[j - 1] as int]@[w2] as int));
                }
                assert(chosen_cycle(*c, cv));
                lemma_first_resolution_cycles(*c, installed@, root_id@, w, s, cv);
            }
            return Err(e);
        },
    };
    let mut selections: Vec<InstallSelection> = Vec::new();
    let ghost mut pos: Seq<int> = Seq::empty();
    let mut o: usize = 0;
    while o < order.len()
        invariant
            ids_distinct(c.packages@),
            cv == chosen_view(chosen@),
            n == chosen@.len(),
            chosen_ok(*c, cv, s),
            nodes@.len() == n,
            adj@.len() == n,
            no_repeats(order@),
            forall|a: int| 0 <= a < order@.len() ==> (#[trigger] order@[a]) < n,
            forall|x: int| 0 <= x < n ==> {
                let (i, k) = #[trigger] nodes@[x];
                &&& i < c.packages@.len()
                &&& c.packages@[i as int].id@ == cv[x].0
                &&& first_release(c.packages@[i as int], cv[x].1, k as int)
            },
            o <= order@.len(),
            pos.len() == selections@.len(),
            forall|b: int| 0 <= b < pos.len() ==> 0 <= #[trigger] pos[b] < o,
            forall|b1: int, b2: int| 0 <= b1 < b2 < pos.len() ==> #[trigger] pos[b1] < #[trigger] pos[b2],
            forall|b: int| 0 <= b < pos.len() ==> {
                let x = order@[pos[b]] as int;
                &&& (#[trigger] selections@[b]).package_id@ == cv[x].0
                &&& same_release(selections@[b].version, c.packages@[nodes@[x].0 as int].versions@[nodes@[x].1 as int])
                &&& selection_ok(*c, cv, installed@, selections@[b])
            },
            forall|o2: int| 0 <= o2 < o ==> installed_at(installed@, cv[order@[o2] as int].0, cv[order@[o2] as int].1) || covered(pos, o2),
        decreases order@.len() - o,
    {
        let x = order[o];
        assert(cv[x as int] == (chosen@[x as int].0@, chosen@[x as int].1@));
        if !is_installed_at(installed, chosen[x].0.as_str(), &chosen[x].1) {
            let (ti, tk) = nodes[x];
            let sel = InstallSelection {
                package_id: chosen[x].0.clone(),
                repository_url: c.packages[ti].repository_url.clone(),
                version: copy_release(&c.packages[ti].versions[tk]),
            };
            let ghost before = selections@;
            proof {
                assert(exists|t2: int| 0 <= t2 < cv.len() && #[trigger] cv[t2] == (sel.package_id@, sel.version.version@)) by {
                    assert(cv[x as int] == (sel.package_id@, sel.version.version@));
                }
                assert(c.packages@[ti as int].id@ == sel.package_id@);
                assert(selection_ok(*c, cv, installed@, sel));
            }
            selections.push(sel);
            let ghost old_pos = pos;
            proof {
                pos = pos.push(o as int);
                assert forall|b: int| 0 <= b < pos.len() implies {
                    let x2 = order@[pos[b]] as int;
                    &&& (#[trigger] selections@[b]).package_id@ == cv[x2].0
                    &&& same_release(selections@[b].version, c.packages@[nodes@[x2].0 as int].versions@[nodes@[x2].1 as int])
                    &&& selection_ok(*c, cv, installed@, selections@[b])
                } by {
                    if b < before.len() {
                        assert(selections@[b] == before[b]);
                    }
                }
                assert forall|o2: int| 0 <= o2 < o + 1 implies installed_at(installed@, cv[order@[o2] as int].0, cv[order@[o2] as int].1) || covered(pos, o2) by {
                    if o2 == o {
                        assert(pos[pos.len() - 1] == o2);
                    } else if !installed_at(installed@, cv[order@[o2] as int].0, cv[order@[o2] as int].1) {
                        assert(covered(old_pos, o2));
                        let b = choose|b: int| 0 <= b < old_pos.len() && old_pos[b] == o2;
                        assert(pos[b] == o2);
                    }
                }
            }
        } else {
            proof {
                assert forall|o2: int| 0 <= o2 < o + 1 implies installed_at(installed@, cv[order@[o2] as int].0, cv[order@[o2] as int].1) || covered(pos, o2) by {
                }
            }
        }
        o = o + 1;
    }
    let ghost sels = selections@;
    proof {
        // Distinct packages.
        assert forall|a: int, b: int| 0 <= a < b < sels.len() implies #[trigger] sels[a].package_id@ != #[trigger] sels[b].package_id@ by {
            assert(pos[a] < pos[b]);
            assert(order@[pos[a]] != order@[pos[b]]);
        }
        // Dependencies first.
        assert forall|a: int, m: int| 0 <= a < sels.len() && 0 <= m < release_deps(sels[a].version).len()
            implies dep_ready(cv, installed@, sels, a, #[trigger] release_deps(sels[a].version)[m]) by {
            let d = release_deps(sels[a].version)[m];
            let x = order@[pos[a]] as int;
            if has_id(cv, d.0) {
                assert(release_deps(c.packages@[nodes@[x].0 as int].versions@[nodes@[x].1 as int])[m] == d);
                assert(edge_to(adj@[x]@, cv, d.0));
                let w3 = choose|w3: int| 0 <= w3 < adj@[x]@.len() && adj@[x]@[w3] < cv.len() && #[trigger] cv[adj@[x]@[w3] as int].0 == d.0;
                let u = adj@[x]@[w3];
                assert(occurs_before(order@, pos[a], adj@[order@[pos[a]] as int]@[w3]));
                let ob = choose|ob: int| 0 <= ob < pos[a] && order@[ob] == u;
                let tr = choose|tr: int| 0 <= tr < cv.len() && cv[tr].0 == d.0;
                if tr != u as int {
                    if tr < u {
                        assert(cv[tr].0 != cv[u as int].0);
                    } else {
                        assert(cv[u as int].0 != cv[tr].0);
                    }
                }
                assert(resolved_version(cv, d.0) == cv[u as int].1);
                if !installed_at(installed@, cv[u as int].0, cv[u as int].1) {
                    assert(covered(pos, ob));
                    let b = choose|b: int| 0 <= b < pos.len() && pos[b] == ob;
                    if b >= a {
                        if b > a {
                            assert(pos[a] < pos[b]);
                        }
                    }
                    assert(sels[b].package_id@ == d.0);
                    assert(selected_before(sels, a, d.0));
                }
            }
        }
        // The root.
        assert(order@.contains(rt));
        let orr = choose|orr: int| 0 <= orr < order@.len() && order@[orr] == rt;
        assert(cv[rt as int].0 == root_id@);
        let tr = choose|tr: int| 0 <= tr < cv.len() && cv[tr].0 == root_id@;
        if tr != rt as int {
            if tr < rt {
                assert(cv[tr].0 != cv[rt as int].0);
            } else {
                assert(cv[rt as int].0 != cv[tr].0);
            }
        }
        assert(resolved_version(cv, root_id@) == cv[rt as int].1);
        assert(same_version_numbers(resolved_version(cv, root_id@), w)) by {
            assert(s.dom().contains(root_id@));
            assert(cv[rt as int].1 == picked_version(*c, s, root_id@));
            assert(exact_requirement_text(w) == q);
        }
        if !installed_at(installed@, root_id@, cv[rt as int].1) {
            assert(covered(pos, orr));
            let b = choose|b: int| 0 <= b < pos.len() && pos[b] == orr;
            assert(sels[b].package_id@ == root_id@);
        }
    }
    let plan = InstallPlan { selections, resolved: chosen };
    proof {
        assert(chosen_view(plan.resolved@) == cv);
        assert(plan.selections@ == sels);
        assert(is_resolution(*c, root_id@, q, s) && chosen_ok(*c, cv, s));
        assert(forall|a: int| 0 <= a < sels.len() ==> selection_ok(*c, cv, installed@, #[trigger] sels[a]));
        assert(selected_before(sels, sels.len() as int, root_id@) || installed_at(installed@, root_id@, resolved_version(cv, root_id@)));
        assert(plan_ok(*c, installed@, root_id@, w, plan));
    }
    Ok(plan)
}

} // verus!
