//! Deciding what installing catalog packages takes, given the installed
//! extensions: the resolver's plan, checked against disabled dependencies.

use vstd::prelude::*;

use crate::catalog::{ids_distinct, Catalog, CatalogPackage};
use crate::manager::{
    comma_joined, find_installed, insert_sorted, installed_lookup, installed_versions_for_solver, join_comma,
    names, solver_versions, strictly_ascending, ManagerState,
};
use crate::plan::{
    copy_release, first_release, not_in_catalog_message, root_outcome, same_release, solve_install_plan, wanted,
    InstallPlan, InstallSelection,
};
use crate::resolve::{chosen_view, has_id};
use crate::text::str_equal;
use crate::version::{version_text, Version, VersionView};

verus! {

/// A package of the resolution, other than the root, that is installed and
/// disabled.
pub open spec fn disabled_dependency(st: ManagerState, resolved: Seq<(Seq<char>, VersionView)>, root: Seq<char>, id: Seq<char>) -> bool {
    &&& id != root
    &&& has_id(resolved, id)
    &&& installed_lookup(st.installed@, id) matches Some(p) && !p.enabled
}

/// The packages of a resolution, other than the root, that are installed and
/// disabled.
pub open spec fn disabled_dependencies(st: ManagerState, resolved: Seq<(Seq<char>, VersionView)>, root: Seq<char>) -> Set<Seq<char>> {
    Set::new(|id: Seq<char>| disabled_dependency(st, resolved, root, id))
}

/// Error for an install whose resolution needs disabled packages.
pub open spec fn disabled_dependencies_message(root: Seq<char>, list: Seq<Seq<char>>) -> Seq<char> {
    "cannot install '"@ + root + "'; required dependencies are disabled: "@ + comma_joined(list)
}

proof fn lemma_has_id_take(cv: Seq<(Seq<char>, VersionView)>, t: int, id: Seq<char>)
    requires
        0 <= t < cv.len(),
    ensures
        has_id(cv.take(t + 1), id) == (has_id(cv.take(t), id) || cv[t].0 == id),
{
    let a = cv.take(t);
    let b = cv.take(t + 1);
    if has_id(a, id) {
        let u = choose|u: int| 0 <= u < a.len() && #[trigger] a[u].0 == id;
        assert(b[u] == a[u]);
    }
    if cv[t].0 == id {
        assert(b[t] == cv[t]);
    }
    if has_id(b, id) {
        let u = choose|u: int| 0 <= u < b.len() && #[trigger] b[u].0 == id;
        if u < t {
            assert(a[u] == b[u]);
        }
    }
}

/// The resolution's installed, disabled packages other than the root, in
/// ascending order, each once.
fn disabled_dependency_list(state: &ManagerState, resolved: &Vec<(String, Version)>, root: &str) -> (r: Vec<String>)
    ensures
        strictly_ascending(names(r@)),
        names(r@).to_set() == disabled_dependencies(*state, chosen_view(resolved@), root@),
{
    let ghost cv = chosen_view(resolved@);
    let mut out: Vec<String> = Vec::new();
    let mut t: usize = 0;
    proof {
        assert(names(out@).to_set() =~= Set::new(|id: Seq<char>| disabled_dependency(*state, cv.take(0), root@, id)));
    }
    while t < resolved.len()
        invariant
            t <= resolved@.len(),
            cv == chosen_view(resolved@),
            strictly_ascending(names(out@)),
            names(out@).to_set() == Set::new(|id: Seq<char>| disabled_dependency(*state, cv.take(t as int), root@, id)),
        decreases resolved@.len() - t,
    {
        let id = resolved[t].0.as_str();
        let disabled = if str_equal(id, root) {
            false
        } else {
            match find_installed(&state.installed, id) {
                None => false,
                Some(i) => !state.installed[i].enabled,
            }
        };
        let ghost before = names(out@).to_set();
        if disabled {
            insert_sorted(&mut out, id);
        }
        proof {
            assert(cv[t as int].0 == id@);
            assert forall|x: Seq<char>| #![trigger has_id(cv.take(t + 1), x)] has_id(cv.take(t + 1), x) == (has_id(cv.take(t as int), x) || cv[t as int].0 == x) by {
                lemma_has_id_take(cv, t as int, x);
            }
            assert(names(out@).to_set() =~= Set::new(|x: Seq<char>| disabled_dependency(*state, cv.take(t + 1), root@, x)));
        }
        t = t + 1;
    }
    proof {
        assert(cv.take(resolved@.len() as int) =~= cv);
        assert(names(out@).to_set() =~= disabled_dependencies(*state, cv, root@));
    }
    out
}

/// What planning the install of package `p` (identifier `root`) at `want` gives,
/// the resolver having been handed the installed versions `iv`: the resolver's
/// plan where it needs no disabled package, else its error, or the list of
/// disabled packages its plan needs.
pub open spec fn install_outcome(st: ManagerState, iv: Seq<(String, Version)>, root: Seq<char>, p: CatalogPackage, want: VersionView, r: Result<InstallPlan, String>) -> bool {
    match r {
        Ok(plan) => root_outcome(st.catalog, iv, root, p, want, Ok(plan))
            && disabled_dependencies(st, chosen_view(plan.resolved@), root) == Set::<Seq<char>>::empty(),
        Err(e) => root_outcome(st.catalog, iv, root, p, want, Err(e)) || exists|plan: InstallPlan, ds: Seq<Seq<char>>|
            #![trigger root_outcome(st.catalog, iv, root, p, want, Ok(plan)), disabled_dependencies_message(root, ds)]
            root_outcome(st.catalog, iv, root, p, want, Ok(plan)) && strictly_ascending(ds) && ds.len() > 0
                && ds.to_set() == disabled_dependencies(st, chosen_view(plan.resolved@), root)
                && disabled_dependencies_message(root, ds) == e@,
    }
}

/// Plans the install of a catalog package at `target`, or at its newest
/// release. The resolver keeps installed versions whose build is the published
/// one; a plan that needs an installed but disabled package is refused. An
/// empty plan means the package is already at that version.
pub fn plan_package_install(state: &ManagerState, package_id: &str, target: Option<&Version>) -> (r: Result<InstallPlan, String>)
    requires
        ids_distinct(state.catalog.packages@),
    ensures
        (forall|i: int| 0 <= i < state.catalog.packages@.len() ==> (#[trigger] state.catalog.packages@[i]).id@ != package_id@)
            ==> (r matches Err(e) && e@ == not_in_catalog_message(package_id@)),
        forall|i: int| 0 <= i < state.catalog.packages@.len() && (#[trigger] state.catalog.packages@[i]).id@ == package_id@
            ==> exists|iv: Seq<(String, Version)>| #[trigger] chosen_view(iv) == solver_versions(*state, state.installed@)
                && install_outcome(*state, iv, package_id@, state.catalog.packages@[i], wanted(state.catalog.packages@[i], target), r),
{
    let installed = installed_versions_for_solver(state);
    let result = solve_install_plan(&state.catalog, &installed, package_id, target);
    let plan = match result {
        Err(e) => {
            proof {
                assert(chosen_view(installed@) == solver_versions(*state, state.installed@));
            }
            return Err(e);
        },
        Ok(plan) => plan,
    };
    let disabled = disabled_dependency_list(state, &plan.resolved, package_id);
    proof {
        assert(chosen_view(installed@) == solver_versions(*state, state.installed@));
    }
    if disabled.len() > 0 {
        let mut e = String::from_str("cannot install '");
        e.append(package_id);
        e.append("'; required dependencies are disabled: ");
        let list = join_comma(&disabled);
        e.append(list.as_str());
        proof {
            assert(disabled_dependencies_message(package_id@, names(disabled@)) == e@);
        }
        return Err(e);
    }
    proof {
        assert(names(disabled@).len() == 0);
        assert(names(disabled@).to_set() =~= Set::<Seq<char>>::empty());
    }
    Ok(plan)
}

/// The selection installs the first catalog release of its package at its
/// version, from the repository that publishes the package.
pub open spec fn catalog_release(c: Catalog, s: InstallSelection) -> bool {
    exists|i: int, k: int| 0 <= i < c.packages@.len() && #[trigger] c.packages@[i].id@ == s.package_id@
        && c.packages@[i].repository_url@ == s.repository_url@
        && first_release(c.packages@[i], s.version.version@, k)
        && same_release(s.version, #[trigger] c.packages@[i].versions@[k])
}

/// No two selections install the same package.
pub open spec fn distinct_packages(sels: Seq<InstallSelection>) -> bool {
    forall|a: int, b: int| 0 <= a < b < sels.len() ==> #[trigger] sels[a].package_id@ != #[trigger] sels[b].package_id@
}

/// Error when no catalog package is marked for installation.
pub open spec fn nothing_selected_message() -> Seq<char> {
    "no catalog packages are selected"@
}

/// Error when two marked packages need different versions of one package.
pub open spec fn conflicting_versions_message(id: Seq<char>, first: VersionView, second: VersionView) -> Seq<char> {
    "selected packages require conflicting versions of '"@ + id + "': "@ + version_text(first) + " and "@
        + version_text(second)
}

fn copy_selection(s: &InstallSelection) -> (c: InstallSelection)
    ensures
        c.package_id@ == s.package_id@,
        c.repository_url@ == s.repository_url@,
        same_release(c.version, s.version),
{
    InstallSelection {
        package_id: s.package_id.clone(),
        repository_url: s.repository_url.clone(),
        version: copy_release(&s.version),
    }
}

fn selection_index(sels: &Vec<InstallSelection>, id: &str) -> (r: Option<usize>)
    ensures
        match r {
            Some(p) => p < sels@.len() && sels@[p as int].package_id@ == id@,
            None => forall|a: int| 0 <= a < sels@.len() ==> (#[trigger] sels@[a]).package_id@ != id@,
        },
{
    let mut p: usize = 0;
    while p < sels.len()
        invariant
            p <= sels@.len(),
            forall|a: int| 0 <= a < p ==> (#[trigger] sels@[a]).package_id@ != id@,
        decreases sels@.len() - p,
    {
        if str_equal(sels[p].package_id.as_str(), id) {
            return Some(p);
        }
        p = p + 1;
    }
    None
}

/// Index of the first entry for `id`, or the length where there is none.
pub open spec fn entry_index(cv: Seq<(Seq<char>, VersionView)>, id: Seq<char>) -> int
    decreases cv.len(),
{
    if cv.len() == 0 {
        0
    } else if cv[0].0 == id {
        0
    } else {
        entry_index(cv.drop_first(), id) + 1
    }
}

/// Installed versions with `id` at `v`: the first entry for `id` takes the
/// version, or an entry is added.
pub open spec fn with_version(cv: Seq<(Seq<char>, VersionView)>, id: Seq<char>, v: VersionView) -> Seq<(Seq<char>, VersionView)> {
    let t = entry_index(cv, id);
    if t < cv.len() {
        cv.update(t, (id, v))
    } else {
        cv.push((id, v))
    }
}

proof fn lemma_entry_index(cv: Seq<(Seq<char>, VersionView)>, id: Seq<char>)
    ensures
        0 <= entry_index(cv, id) <= cv.len(),
        entry_index(cv, id) < cv.len() ==> cv[entry_index(cv, id)].0 == id,
        forall|u: int| 0 <= u < entry_index(cv, id) ==> (#[trigger] cv[u]).0 != id,
    decreases cv.len(),
{
    if cv.len() > 0 && cv[0].0 != id {
        lemma_entry_index(cv.drop_first(), id);
        assert forall|u: int| 0 <= u < entry_index(cv, id) implies (#[trigger] cv[u]).0 != id by {
            if u > 0 {
                assert(cv[u] == cv.drop_first()[u - 1]);
            }
        }
    }
}

/// Records `id` at `version` in installed versions handed to the resolver.
fn set_installed_version(v: &mut Vec<(String, Version)>, id: String, version: Version)
    ensures
        chosen_view(final(v)@) == with_version(chosen_view(old(v)@), id@, version@),
{
    let ghost cv = chosen_view(v@);
    proof {
        lemma_entry_index(cv, id@);
    }
    let mut t: usize = 0;
    while t < v.len()
        invariant
            t <= v@.len(),
            v@ == old(v)@,
            cv == chosen_view(v@),
            0 <= entry_index(cv, id@) <= cv.len(),
            entry_index(cv, id@) < cv.len() ==> cv[entry_index(cv, id@)].0 == id@,
            forall|u: int| 0 <= u < entry_index(cv, id@) ==> (#[trigger] cv[u]).0 != id@,
            forall|u: int| 0 <= u < t ==> (#[trigger] v@[u]).0@ != id@,
        decreases v@.len() - t,
    {
        if str_equal(v[t].0.as_str(), id.as_str()) {
            proof {
                assert(cv[t as int].0 == id@);
                if entry_index(cv, id@) < t {
                    assert(v@[entry_index(cv, id@)].0@ == cv[entry_index(cv, id@)].0);
                }
            }
            let ghost before = v@;
            v.set(t, (id, version));
            proof {
                assert(chosen_view(v@) =~= chosen_view(before).update(t as int, (id@, version@)));
            }
            return;
        }
        t = t + 1;
    }
    proof {
        if entry_index(cv, id@) < cv.len() {
            assert(v@[entry_index(cv, id@)].0@ == cv[entry_index(cv, id@)].0);
        }
    }
    let ghost before = v@;
    v.push((id, version));
    proof {
        assert(chosen_view(v@) =~= chosen_view(before).push((id@, version@)));
    }
}

/// Two selections install the same release of the same package from the
/// same repository.
pub open spec fn same_selection(a: InstallSelection, b: InstallSelection) -> bool {
    &&& a.package_id@ == b.package_id@
    &&& a.repository_url@ == b.repository_url@
    &&& same_release(a.version, b.version)
}

/// Selection lists that are the same, entry for entry.
pub open spec fn sels_same(a: Seq<InstallSelection>, b: Seq<InstallSelection>) -> bool {
    a.len() == b.len() && forall|i: int| 0 <= i < a.len() ==> same_selection(#[trigger] a[i], b[i])
}

/// Adds the selections of one more plan, in order: a package already selected
/// is skipped at the same version and refused (`None`) at another.
#[verifier::opaque]
pub open spec fn merge_sels(prev: Seq<InstallSelection>, new: Seq<InstallSelection>) -> Option<Seq<InstallSelection>>
    decreases new.len(),
{
    if new.len() == 0 {
        Some(prev)
    } else {
        match merge_sels(prev, new.drop_last()) {
            None => None,
            Some(acc) => {
                let s = new.last();
                if exists|a: int| 0 <= a < acc.len() && (#[trigger] acc[a]).package_id@ == s.package_id@ {
                    let a = choose|a: int| 0 <= a < acc.len() && (#[trigger] acc[a]).package_id@ == s.package_id@;
                    if acc[a].version.version@ == s.version.version@ {
                        Some(acc)
                    } else {
                        None
                    }
                } else {
                    Some(acc.push(s))
                }
            },
        }
    }
}

proof fn lemma_merge_none(prev: Seq<InstallSelection>, new: Seq<InstallSelection>, m: int)
    requires
        0 <= m <= new.len(),
        merge_sels(prev, new.take(m)) is None,
    ensures
        merge_sels(prev, new) is None,
    decreases new.len() - m,
{
    if m < new.len() {
        assert(new.take(m + 1).drop_last() =~= new.take(m));
        reveal(merge_sels);
        lemma_merge_none(prev, new, m + 1);
    } else {
        assert(new.take(m) =~= new);
    }
}

/// One more selection merged: `p` is where `acc` selects the same package,
/// if it does (`acc` selecting each package once).
proof fn lemma_merge_step(prev: Seq<InstallSelection>, new: Seq<InstallSelection>, m: int, acc: Seq<InstallSelection>, p: Option<int>)
    requires
        0 <= m < new.len(),
        merge_sels(prev, new.take(m)) == Some(acc),
        distinct_packages(acc),
        match p {
            Some(i) => 0 <= i < acc.len() && acc[i].package_id@ == new[m].package_id@,
            None => forall|a: int| 0 <= a < acc.len() ==> (#[trigger] acc[a]).package_id@ != new[m].package_id@,
        },
    ensures
        merge_sels(prev, new.take(m + 1)) == match p {
            Some(i) => if acc[i].version.version@ == new[m].version.version@ {
                Some(acc)
            } else {
                None::<Seq<InstallSelection>>
            },
            None => Some(acc.push(new[m])),
        },
{
    assert(new.take(m + 1).drop_last() =~= new.take(m));
    assert(new.take(m + 1).last() == new[m]);
    reveal(merge_sels);
    if let Some(i) = p {
        let a = choose|a: int| 0 <= a < acc.len() && (#[trigger] acc[a]).package_id@ == new[m].package_id@;
        if a < i {
            assert(acc[a].package_id@ != acc[i].package_id@);
        } else if a > i {
            assert(acc[i].package_id@ != acc[a].package_id@);
        }
    }
}

proof fn lemma_merge_start(prev: Seq<InstallSelection>, new: Seq<InstallSelection>)
    ensures
        merge_sels(prev, new.take(0)) == Some(prev),
{
    assert(new.take(0) =~= Seq::<InstallSelection>::empty());
    reveal(merge_sels);
}

proof fn lemma_chain_push(
    st: ManagerState,
    k: int,
    plans: Seq<InstallPlan>,
    sims: Seq<Seq<(String, Version)>>,
    accs: Seq<Seq<InstallSelection>>,
    plan: InstallPlan,
    sim2: Seq<(String, Version)>,
    acc2: Seq<InstallSelection>,
)
    requires
        planned_chain(st, k, plans, sims, accs),
        k < st.selected_packages@.len(),
        step_ok(st, st.selected_packages@[k]@, sims[k], plan, sim2, accs[k], acc2),
    ensures
        planned_chain(st, k + 1, plans.push(plan), sims.push(sim2), accs.push(acc2)),
{
    let ps = plans.push(plan);
    let ss = sims.push(sim2);
    let aa = accs.push(acc2);
    assert forall|j: int| 0 <= j < k + 1 implies step_ok(st, st.selected_packages@[j]@, ss[j], #[trigger] ps[j], ss[j + 1], aa[j], aa[j + 1]) by {
        if j < k {
            assert(ps[j] == plans[j] && ss[j] == sims[j] && ss[j + 1] == sims[j + 1] && aa[j] == accs[j] && aa[j + 1] == accs[j + 1]);
        }
    }
}

/// The installed versions after a resolution's versions are applied in order.
pub open spec fn versions_applied(cv: Seq<(Seq<char>, VersionView)>, resolved: Seq<(Seq<char>, VersionView)>) -> Seq<(Seq<char>, VersionView)>
    decreases resolved.len(),
{
    if resolved.len() == 0 {
        cv
    } else {
        let prior = versions_applied(cv, resolved.drop_last());
        with_version(prior, resolved.last().0, resolved.last().1)
    }
}

/// Solving for `root` at its newest release, with `installed`, gives `plan`.
#[verifier::opaque]
pub open spec fn root_planned(c: Catalog, installed: Seq<(String, Version)>, root: Seq<char>, plan: InstallPlan) -> bool {
    &&& exists|i: int| 0 <= i < c.packages@.len() && (#[trigger] c.packages@[i]).id@ == root
    &&& forall|i: int|
        0 <= i < c.packages@.len() && (#[trigger] c.packages@[i]).id@ == root ==> root_outcome(
            c,
            installed,
            root,
            c.packages@[i],
            wanted(c.packages@[i], None),
            Ok(plan),
        )
}

/// Solving for `root` at its newest release, with `installed`, fails with `e`.
#[verifier::opaque]
pub open spec fn root_refused(c: Catalog, installed: Seq<(String, Version)>, root: Seq<char>, e: String) -> bool {
    ||| (forall|i: int| 0 <= i < c.packages@.len() ==> (#[trigger] c.packages@[i]).id@ != root) && e@ == not_in_catalog_message(root)
    ||| exists|i: int|
        0 <= i < c.packages@.len() && (#[trigger] c.packages@[i]).id@ == root && root_outcome(
            c,
            installed,
            root,
            c.packages@[i],
            wanted(c.packages@[i], None),
            Err(e),
        )
}

/// One marked package planned: solved with `before`, needing no disabled
/// package, merged from `acc` into `acc2`, and its resolution applied to give
/// `after`.
pub open spec fn step_ok(
    st: ManagerState,
    root: Seq<char>,
    before: Seq<(String, Version)>,
    plan: InstallPlan,
    after: Seq<(String, Version)>,
    acc: Seq<InstallSelection>,
    acc2: Seq<InstallSelection>,
) -> bool {
    &&& root_planned(st.catalog, before, root, plan)
    &&& disabled_dependencies(st, chosen_view(plan.resolved@), root) == Set::<Seq<char>>::empty()
    &&& merge_sels(acc, plan.selections@) == Some(acc2)
    &&& chosen_view(after) == versions_applied(chosen_view(before), chosen_view(plan.resolved@))
}

/// The first `n` marked packages planned one after another, from the
/// installed versions and no selections.
pub open spec fn planned_chain(
    st: ManagerState,
    n: int,
    plans: Seq<InstallPlan>,
    sims: Seq<Seq<(String, Version)>>,
    accs: Seq<Seq<InstallSelection>>,
) -> bool {
    &&& 0 <= n <= st.selected_packages@.len()
    &&& plans.len() == n && sims.len() == n + 1 && accs.len() == n + 1
    &&& chosen_view(sims[0]) == solver_versions(st, st.installed@)
    &&& accs[0] == Seq::<InstallSelection>::empty()
    &&& forall|k: int|
        0 <= k < n ==> step_ok(st, st.selected_packages@[k]@, sims[k], #[trigger] plans[k], sims[k + 1], accs[k], accs[k + 1])
}

/// Planning marked package `root` after `acc` with `before` fails with `e`:
/// it cannot be solved, its plan needs disabled packages (listed ascending), or
/// its plan needs another version of a package already selected.
pub open spec fn step_refused(st: ManagerState, root: Seq<char>, before: Seq<(String, Version)>, acc: Seq<InstallSelection>, e: String) -> bool {
    ||| root_refused(st.catalog, before, root, e)
    ||| exists|plan: InstallPlan, list: Seq<Seq<char>>|
        #[trigger] root_planned(st.catalog, before, root, plan) && strictly_ascending(list) && list.to_set() == disabled_dependencies(
            st,
            chosen_view(plan.resolved@),
            root,
        ) && list.len() > 0 && e@ == #[trigger] disabled_dependencies_message(root, list)
    ||| exists|plan: InstallPlan, id: Seq<char>, first: VersionView, second: VersionView|
        #[trigger] root_planned(st.catalog, before, root, plan) && disabled_dependencies(st, chosen_view(plan.resolved@), root)
            == Set::<Seq<char>>::empty() && merge_sels(acc, plan.selections@) is None && e@ == #[trigger] conflicting_versions_message(
            id,
            first,
            second,
        )
}

/// Plans installing every catalog package marked for installation, one after
/// another: each is resolved with the installed versions and the versions the
/// earlier ones resolved, and its plan may need no disabled package. A package
/// two plans install must be at one version; it is installed once.
#[verifier::rlimit(40)]
#[verifier::spinoff_prover]
pub fn plan_selected_installs(state: &ManagerState) -> (r: Result<Vec<InstallSelection>, String>)
    requires
        ids_distinct(state.catalog.packages@),
    ensures
        state.selected_packages@.len() == 0 ==> (r matches Err(e) && e@ == nothing_selected_message()),
        r matches Ok(sels) ==> exists|plans: Seq<InstallPlan>, sims: Seq<Seq<(String, Version)>>, accs: Seq<Seq<InstallSelection>>|
            #[trigger] planned_chain(*state, state.selected_packages@.len() as int, plans, sims, accs) && sels_same(
                sels@,
                accs.last(),
            ),
        r matches Err(e) ==> state.selected_packages@.len() == 0 || exists|
            k: int,
            plans: Seq<InstallPlan>,
            sims: Seq<Seq<(String, Version)>>,
            accs: Seq<Seq<InstallSelection>>,
        |
            #[trigger] planned_chain(*state, k, plans, sims, accs) && k < state.selected_packages@.len() && step_refused(
                *state,
                state.selected_packages@[k]@,
                sims[k],
                accs[k],
                e,
            ),
        r matches Ok(sels) ==> distinct_packages(sels@),
        r matches Ok(sels) ==> forall|a: int| 0 <= a < sels@.len() ==> catalog_release(state.catalog, #[trigger] sels@[a]),
{
    if state.selected_packages.len() == 0 {
        return Err(String::from_str("no catalog packages are selected"));
    }
    let mut simulated = installed_versions_for_solver(state);
    let mut selections: Vec<InstallSelection> = Vec::new();
    let ghost mut plans: Seq<InstallPlan> = Seq::empty();
    let ghost mut sims: Seq<Seq<(String, Version)>> = seq![simulated@];
    let ghost mut accs: Seq<Seq<InstallSelection>> = seq![Seq::<InstallSelection>::empty()];
    let mut k: usize = 0;
    while k < state.selected_packages.len()
        invariant
            ids_distinct(state.catalog.packages@),
            k <= state.selected_packages@.len(),
            distinct_packages(selections@),
            forall|a: int| 0 <= a < selections@.len() ==> catalog_release(state.catalog, #[trigger] selections@[a]),
            planned_chain(*state, k as int, plans, sims, accs),
            sims[k as int] == simulated@,
            sels_same(selections@, accs[k as int]),
        decreases state.selected_packages@.len() - k,
    {
        let root = state.selected_packages[k].as_str();
        let plan = match solve_install_plan(&state.catalog, &simulated, root, None) {
            Ok(plan) => plan,
            Err(e) => {
                proof {
                    assert(root_refused(state.catalog, sims[k as int], root@, e)) by {
                        reveal(root_refused);
                    }
                    assert(planned_chain(*state, k as int, plans, sims, accs));
                }
                return Err(e);
            },
        };
        proof {
            let c = state.catalog;
            assert(exists|i: int| 0 <= i < c.packages@.len() && (#[trigger] c.packages@[i]).id@ == root@);
            let i = choose|i: int| 0 <= i < c.packages@.len() && (#[trigger] c.packages@[i]).id@ == root@;
            assert(root_outcome(c, simulated@, root@, c.packages@[i], wanted(c.packages@[i], None), Ok(plan)));
            assert(forall|a: int| 0 <= a < plan.selections@.len() ==> catalog_release(c, #[trigger] plan.selections@[a]));
            assert(root_planned(c, simulated@, root@, plan)) by {
                reveal(root_planned);
            }
        }
        let disabled = disabled_dependency_list(state, &plan.resolved, root);
        if disabled.len() > 0 {
            let mut e = String::from_str("cannot install '");
            e.append(root);
            e.append("'; required dependencies are disabled: ");
            let list = join_comma(&disabled);
            e.append(list.as_str());
            proof {
                assert(e@ == disabled_dependencies_message(root@, names(disabled@)));
                assert(names(disabled@).len() > 0);
                assert(step_refused(*state, root@, sims[k as int], accs[k as int], e));
                assert(planned_chain(*state, k as int, plans, sims, accs));
            }
            return Err(e);
        }
        proof {
            assert(names(disabled@).to_set() =~= Set::<Seq<char>>::empty());
            assert(disabled_dependencies(*state, chosen_view(plan.resolved@), root@) == Set::<Seq<char>>::empty());
        }
        let ghost acc0 = accs[k as int];
        let ghost mut acc: Seq<InstallSelection> = acc0;
        proof {
            lemma_merge_start(acc0, plan.selections@);
            assert(distinct_packages(acc0)) by {
                assert forall|a: int, b: int| 0 <= a < b < acc0.len() implies #[trigger] acc0[a].package_id@ != #[trigger] acc0[b].package_id@ by {
                    assert(same_selection(selections@[a], acc0[a]) && same_selection(selections@[b], acc0[b]));
                }
            }
        }
        let mut m: usize = 0;
        while m < plan.selections.len()
            invariant
                k < state.selected_packages@.len(),
                m <= plan.selections@.len(),
                distinct_packages(selections@),
                forall|a: int| 0 <= a < selections@.len() ==> catalog_release(state.catalog, #[trigger] selections@[a]),
                forall|a: int| 0 <= a < plan.selections@.len() ==> catalog_release(state.catalog, #[trigger] plan.selections@[a]),
                merge_sels(acc0, plan.selections@.take(m as int)) == Some(acc),
                sels_same(selections@, acc),
                planned_chain(*state, k as int, plans, sims, accs),
                sims[k as int] == simulated@,
                acc0 == accs[k as int],
                root@ == state.selected_packages@[k as int]@,
                root_planned(state.catalog, simulated@, root@, plan),
                disabled_dependencies(*state, chosen_view(plan.resolved@), root@) == Set::<Seq<char>>::empty(),
            decreases plan.selections@.len() - m,
        {
            let s = &plan.selections[m];
            proof {
                assert(distinct_packages(acc)) by {
                    assert forall|a: int, b: int| 0 <= a < b < acc.len() implies #[trigger] acc[a].package_id@ != #[trigger] acc[b].package_id@ by {
                        assert(same_selection(selections@[a], acc[a]) && same_selection(selections@[b], acc[b]));
                    }
                }
            }
            match selection_index(&selections, s.package_id.as_str()) {
                Some(p) => {
                    proof {
                        assert(same_selection(selections@[p as int], acc[p as int]));
                        lemma_merge_step(acc0, plan.selections@, m as int, acc, Some(p as int));
                    }
                    if !selections[p].version.version.same(&s.version.version) {
                        let mut e = String::from_str("selected packages require conflicting versions of '");
                        e.append(s.package_id.as_str());
                        e.append("': ");
                        let first = selections[p].version.version.text();
                        e.append(first.as_str());
                        e.append(" and ");
                        let second = s.version.version.text();
                        e.append(second.as_str());
                        proof {
                            lemma_merge_none(acc0, plan.selections@, m + 1);
                            assert(e@ == conflicting_versions_message(
                                s.package_id@,
                                selections@[p as int].version.version@,
                                s.version.version@,
                            ));
                            assert(step_refused(*state, root@, sims[k as int], accs[k as int], e));
                            assert(planned_chain(*state, k as int, plans, sims, accs));
                        }
                        return Err(e);
                    }
                },
                None => {
                    let c = copy_selection(s);
                    proof {
                        assert(catalog_release(state.catalog, plan.selections@[m as int]));
                        assert forall|a: int| 0 <= a < acc.len() implies (#[trigger] acc[a]).package_id@ != s.package_id@ by {
                            assert(same_selection(selections@[a], acc[a]));
                        }
                        lemma_merge_step(acc0, plan.selections@, m as int, acc, None);
                    }
                    let ghost before = selections@;
                    selections.push(c);
                    proof {
                        acc = acc.push(*s);
                        assert forall|a: int| 0 <= a < selections@.len() implies catalog_release(
                            state.catalog,
                            #[trigger] selections@[a],
                        ) by {
                            if a < before.len() {
                                assert(selections@[a] == before[a]);
                            } else {
                                let cat = state.catalog;
                                let i = choose|i: int, k: int| 0 <= i < cat.packages@.len() && #[trigger] cat.packages@[i].id@ == s.package_id@
                                    && cat.packages@[i].repository_url@ == s.repository_url@
                                    && first_release(cat.packages@[i], s.version.version@, k)
                                    && same_release(s.version, #[trigger] cat.packages@[i].versions@[k]);
                                assert(same_release(c.version, cat.packages@[i.0].versions@[i.1]));
                            }
                        }
                        assert forall|a: int, b: int| 0 <= a < b < selections@.len() implies #[trigger] selections@[a].package_id@
                            != #[trigger] selections@[b].package_id@ by {
                            if b < before.len() {
                                assert(selections@[a] == before[a] && selections@[b] == before[b]);
                            } else {
                                assert(selections@[a] == before[a]);
                                assert(same_selection(before[a], acc[a]));
                            }
                        }
                        assert forall|i: int| 0 <= i < selections@.len() implies same_selection(#[trigger] selections@[i], acc[i]) by {
                            if i < before.len() {
                                assert(selections@[i] == before[i]);
                            }
                        }
                    }
                },
            }
            m = m + 1;
        }
        proof {
            assert(plan.selections@.take(m as int) =~= plan.selections@);
        }
        let ghost before_sim = simulated@;
        let ghost rv = chosen_view(plan.resolved@);
        proof {
            assert(rv.take(0) =~= Seq::<(Seq<char>, VersionView)>::empty());
        }
        let mut t: usize = 0;
        while t < plan.resolved.len()
            invariant
                t <= plan.resolved@.len(),
                rv == chosen_view(plan.resolved@),
                chosen_view(simulated@) == versions_applied(chosen_view(before_sim), rv.take(t as int)),
                planned_chain(*state, k as int, plans, sims, accs),
                sims[k as int] == before_sim,
                merge_sels(accs[k as int], plan.selections@) == Some(acc),
                sels_same(selections@, acc),
                root@ == state.selected_packages@[k as int]@,
                root_planned(state.catalog, before_sim, root@, plan),
                disabled_dependencies(*state, chosen_view(plan.resolved@), root@) == Set::<Seq<char>>::empty(),
                k < state.selected_packages@.len(),
            decreases plan.resolved@.len() - t,
        {
            proof {
                assert(rv.take(t + 1).drop_last() =~= rv.take(t as int));
                assert(rv.take(t + 1).last() == (plan.resolved@[t as int].0@, plan.resolved@[t as int].1@));
            }
            set_installed_version(&mut simulated, plan.resolved[t].0.clone(), plan.resolved[t].1.copy());
            t = t + 1;
        }
        proof {
            assert(rv.take(t as int) =~= rv);
            assert(step_ok(*state, state.selected_packages@[k as int]@, sims[k as int], plan, simulated@, accs[k as int], acc));
            lemma_chain_push(*state, k as int, plans, sims, accs, plan, simulated@, acc);
            plans = plans.push(plan);
            sims = sims.push(simulated@);
            accs = accs.push(acc);
        }
        k = k + 1;
    }
    proof {
        assert(planned_chain(*state, k as int, plans, sims, accs));
        assert(accs.last() == accs[k as int]);
    }
    Ok(selections)
}

} // verus!
