//! User actions of the package manager: each action either updates the state
//! directly or names the outside work (downloads, persistence, activation
//! changes) the host performs next.

use vstd::prelude::*;

use crate::manager::{
    ascending, blocker_error, blocker_lists, close_view, comma_joined, dependency_info, dependency_issues_for_enable,
    enable_issues, ensure_no_dependency_blockers, installed_lookup, join_comma, keeps, names, no_changes, open_view,
    reset_view, select_installed_package, set_installed_search, set_installed_sort, set_pending_permission,
    strictly_ascending, unknown_metadata_message, ActionTarget, CatalogFilter, CatalogSort, Changes, InstalledSortColumn,
    ManagerState, Screen, installed_lookup as lookup_installed, matches_search, search_query, opposite,
    sort_column_key, filter_value, catalog_sort_value, permission_error, permission_applied, catalog_lookup,
    RepositoryStatus,
};
use crate::registry::{repository_url_error, validate_repository_url, RepositoryPreference, BUILTIN_REPOSITORY};
use crate::text::{byte_len, decimal, str_byte_len, str_equal, trim, trim_string, u64_text};
use crate::version::{semver_parse, Version, VersionView};

verus! {

/// Value carried by a user action.
#[derive(Debug)]
pub enum UiActionPayload {
    Empty,
    Text(String),
    Boolean(bool),
}

/// A user action on a rendered control.
#[derive(Debug)]
pub struct UiActionEvent {
    /// Control the action came from.
    pub node_id: String,
    /// Stable action identifier.
    pub action_id: String,
    /// Value carried by the action.
    pub payload: UiActionPayload,
}

/// Outside work an action asks for.
#[derive(Debug)]
pub enum ManagerEffect {
    /// Nothing more to do.
    Nothing,
    /// Install the pending install.
    ConfirmInstall,
    /// Fetch the enabled repositories' indexes again.
    RefreshRepositories,
    /// Plan and prepare the catalog packages marked for installation.
    InstallSelected,
    /// Save the repository list, then show `status`.
    PersistRepositories { status: String },
    /// Merge the catalog again, save the repository list, then show `status`.
    RebuildCatalogAndPersist { status: String },
    /// Download and prepare the artifact at the direct URL.
    InstallDirectUrl,
    /// Plan and prepare a catalog package at `target`, or at its newest release.
    InstallPackage { package_id: String, target: Option<Version> },
    /// Remove an activation.
    Uninstall { subject: String },
    /// Enable or disable an activation.
    SetEnabled { subject: String, enabled: bool },
}

/// Text carried by a payload.
pub open spec fn payload_text(p: UiActionPayload) -> Option<String> {
    match p {
        UiActionPayload::Text(s) => Some(s),
        _ => None,
    }
}

/// Boolean carried by a payload.
pub open spec fn payload_bool(p: UiActionPayload) -> Option<bool> {
    match p {
        UiActionPayload::Boolean(b) => Some(b),
        _ => None,
    }
}

/// The text of a text action.
pub fn text_payload(payload: UiActionPayload) -> (r: Result<String, String>)
    ensures
        match payload_text(payload) {
            Some(s) => r == Ok::<String, String>(s),
            None => r matches Err(e) && e@ == "text action did not include text"@,
        },
{
    match payload {
        UiActionPayload::Text(value) => Ok(value),
        _ => Err(String::from_str("text action did not include text")),
    }
}

/// The text of a text action, at most `maximum` UTF-8 bytes long.
pub fn bounded_text_payload(payload: UiActionPayload, maximum: usize, label: &str) -> (r: Result<String, String>)
    ensures
        match payload_text(payload) {
            Some(s) => if byte_len(s@) > maximum {
                r matches Err(e) && e@ == label@ + " exceeds "@ + decimal(maximum as nat) + " bytes"@
            } else {
                r == Ok::<String, String>(s)
            },
            None => r matches Err(e) && e@ == "text action did not include text"@,
        },
{
    let value = text_payload(payload)?;
    if str_byte_len(value.as_str()) > maximum {
        let mut e = String::from_str(label);
        e.append(" exceeds ");
        let n = u64_text(maximum as u64);
        e.append(n.as_str());
        e.append(" bytes");
        return Err(e);
    }
    Ok(value)
}

/// The value of a boolean action.
pub fn boolean_payload(payload: UiActionPayload) -> (r: Result<bool, String>)
    ensures
        match payload_bool(payload) {
            Some(b) => r == Ok::<bool, String>(b),
            None => r matches Err(e) && e@ == "boolean action did not include a boolean"@,
        },
{
    match payload {
        UiActionPayload::Boolean(value) => Ok(value),
        _ => Err(String::from_str("boolean action did not include a boolean")),
    }
}

/// What the control `node` acts on, the first entry if several.
pub open spec fn target_lookup(targets: Seq<(String, ActionTarget)>, node: Seq<char>) -> Option<ActionTarget>
    decreases targets.len(),
{
    if targets.len() == 0 {
        None
    } else if targets[0].0@ == node {
        Some(targets[0].1)
    } else {
        target_lookup(targets.drop_first(), node)
    }
}

fn find_target(targets: &Vec<(String, ActionTarget)>, node: &str) -> (r: Option<usize>)
    ensures
        match r {
            Some(i) => i < targets@.len() && target_lookup(targets@, node@) == Some(targets@[i as int].1),
            None => target_lookup(targets@, node@) is None,
        },
{
    let mut i: usize = 0;
    proof {
        assert(targets@.skip(0) =~= targets@);
    }
    while i < targets.len()
        invariant
            i <= targets@.len(),
            target_lookup(targets@, node@) == target_lookup(targets@.skip(i as int), node@),
        decreases targets@.len() - i,
    {
        assert(targets@.skip(i as int)[0] == targets@[i as int]);
        if str_equal(targets[i].0.as_str(), node) {
            return Some(i);
        }
        assert(targets@.skip(i as int).drop_first() =~= targets@.skip(i + 1));
        i = i + 1;
    }
    None
}

/// The package a control acts on.
pub fn target_package(state: &ManagerState, node: &str) -> (r: Result<String, String>)
    ensures
        match target_lookup(state.action_targets@, node@) {
            Some(ActionTarget::Package(id)) => r matches Ok(v) && v@ == id@,
            _ => r matches Err(e) && e@ == "package action target is stale"@,
        },
{
    match find_target(&state.action_targets, node) {
        Some(i) => match &state.action_targets[i].1 {
            ActionTarget::Package(id) => Ok(id.clone()),
            _ => Err(String::from_str("package action target is stale")),
        },
        None => Err(String::from_str("package action target is stale")),
    }
}

/// The activation a control acts on.
pub fn target_activation(state: &ManagerState, node: &str) -> (r: Result<String, String>)
    ensures
        match target_lookup(state.action_targets@, node@) {
            Some(ActionTarget::Activation(id)) => r matches Ok(v) && v@ == id@,
            _ => r matches Err(e) && e@ == "activation action target is stale"@,
        },
{
    match find_target(&state.action_targets, node) {
        Some(i) => match &state.action_targets[i].1 {
            ActionTarget::Activation(id) => Ok(id.clone()),
            _ => Err(String::from_str("activation action target is stale")),
        },
        None => Err(String::from_str("activation action target is stale")),
    }
}

/// The repository a control acts on.
pub fn target_repository(state: &ManagerState, node: &str) -> (r: Result<usize, String>)
    ensures
        match target_lookup(state.action_targets@, node@) {
            Some(ActionTarget::Repository(index)) => r == Ok::<usize, String>(index),
            _ => r matches Err(e) && e@ == "repository action target is stale"@,
        },
{
    match find_target(&state.action_targets, node) {
        Some(i) => match &state.action_targets[i].1 {
            ActionTarget::Repository(index) => Ok(*index),
            _ => Err(String::from_str("repository action target is stale")),
        },
        None => Err(String::from_str("repository action target is stale")),
    }
}

/// The pending permission a control acts on.
pub fn target_permission(state: &ManagerState, node: &str) -> (r: Result<(usize, usize), String>)
    ensures
        match target_lookup(state.action_targets@, node@) {
            Some(ActionTarget::Permission { item, permission }) => r == Ok::<(usize, usize), String>((item, permission)),
            _ => r matches Err(e) && e@ == "permission action target is stale"@,
        },
{
    match find_target(&state.action_targets, node) {
        Some(i) => match &state.action_targets[i].1 {
            ActionTarget::Permission { item, permission } => Ok((*item, *permission)),
            _ => Err(String::from_str("permission action target is stale")),
        },
        None => Err(String::from_str("permission action target is stale")),
    }
}

/// What enabling or disabling an installed package is decided to be: `Ok(true)`
/// to apply the change, `Ok(false)` when there is nothing to change, or the
/// error that forbids it.
pub open spec fn enable_outcome(st: ManagerState, subject: Seq<char>, enabled: bool, r: Result<bool, String>) -> bool {
    match installed_lookup(st.installed@, subject) {
        None => r matches Err(e) && e@ == "activation '"@ + subject + "' disappeared"@,
        Some(p) => if p.enabled == enabled {
            r == Ok::<bool, String>(false)
        } else if enabled {
            &&& !dependency_info(st, subject).1 ==> (r matches Err(e) && e@ == unknown_metadata_message(subject))
            &&& dependency_info(st, subject).1 ==> exists|ds: Seq<Seq<char>>|
                strictly_ascending(ds) && ds.to_set() == dependency_info(st, subject).0 && {
                    let issues = enable_issues(st, ds);
                    if issues.len() == 0 {
                        r == Ok::<bool, String>(true)
                    } else {
                        r matches Err(e) && e@ == "cannot enable '"@ + subject + "'; dependencies are unavailable: "@ + comma_joined(issues)
                    }
                }
        } else {
            blocker_outcome(st, subject, "disable"@, r)
        },
    }
}

/// The outcome of checking the packages that block an operation.
pub open spec fn blocker_outcome(st: ManagerState, subject: Seq<char>, operation: Seq<char>, r: Result<bool, String>) -> bool {
    exists|req: Seq<Seq<char>>, unk: Seq<Seq<char>>| {
        &&& ascending(req)
        &&& req.to_multiset() == blocker_lists(st, st.installed@, subject).0.to_multiset()
        &&& ascending(unk)
        &&& unk.to_multiset() == blocker_lists(st, st.installed@, subject).1.to_multiset()
        &&& match blocker_error(subject, operation, req, unk) {
            Some(e) => r matches Err(m) && m@ == e,
            None => r == Ok::<bool, String>(true),
        }
    }
}

/// Decides whether an installed package may be enabled or disabled.
pub fn decide_set_enabled(state: &ManagerState, subject: &str, enabled: bool) -> (r: Result<bool, String>)
    ensures
        enable_outcome(*state, subject@, enabled, r),
{
    let current = match crate::manager::find_installed(&state.installed, subject) {
        None => {
            let mut e = String::from_str("activation '");
            e.append(subject);
            e.append("' disappeared");
            return Err(e);
        },
        Some(i) => state.installed[i].enabled,
    };
    if current == enabled {
        return Ok(false);
    }
    if enabled {
        let issues = dependency_issues_for_enable(state, subject)?;
        if issues.len() > 0 {
            let mut e = String::from_str("cannot enable '");
            e.append(subject);
            e.append("'; dependencies are unavailable: ");
            let list = join_comma(&issues);
            e.append(list.as_str());
            proof {
                assert(names(issues@).len() > 0);
            }
            return Err(e);
        }
        proof {
            assert(names(issues@).len() == 0);
        }
        Ok(true)
    } else {
        match ensure_no_dependency_blockers(state, subject, "disable") {
            Ok(()) => Ok(true),
            Err(e) => Err(e),
        }
    }
}

/// Decides whether an installed package may be uninstalled.
pub fn decide_uninstall(state: &ManagerState, subject: &str) -> (r: Result<bool, String>)
    ensures
        blocker_outcome(*state, subject@, "uninstall"@, r),
{
    match ensure_no_dependency_blockers(state, subject, "uninstall") {
        Ok(()) => Ok(true),
        Err(e) => Err(e),
    }
}

/// Longest accepted search text, in UTF-8 bytes.
pub const MAX_SEARCH_QUERY_BYTES: usize = 512;
/// Longest accepted repository URL input, in UTF-8 bytes.
pub const MAX_REPOSITORY_INPUT_BYTES: usize = 2048;
/// Longest accepted direct artifact URL input, in UTF-8 bytes.
pub const MAX_DIRECT_URL_INPUT_BYTES: usize = 4096;
/// Most repositories that can be configured.
pub const MAX_REPOSITORIES: usize = 16;

/// Message after cancelling a pending install.
pub open spec fn cancelled_message() -> Seq<char> {
    "Installation cancelled. Validated bytes may remain in immutable CAS cache."@
}

/// `b` is `a` after opening screen `v`.
pub open spec fn opened(a: ManagerState, b: ManagerState, v: Screen) -> bool {
    &&& b.view == v
    &&& (a.view == v ==> b.view_history == a.view_history)
    &&& (a.view != v ==> b.view_history@ == a.view_history@.push(a.view))
    &&& keeps(a, b, Changes { views: true, ..no_changes() })
}

/// `b` is `a` after showing screen `v` with no screens to return to.
pub open spec fn reset_to(a: ManagerState, b: ManagerState, v: Screen) -> bool {
    b.view == v && b.view_history@.len() == 0 && keeps(a, b, Changes { views: true, ..no_changes() })
}

/// `b` is `a` after returning to the previous screen.
pub open spec fn closed(a: ManagerState, b: ManagerState) -> bool {
    &&& (a.view_history@.len() == 0 ==> b.view == Screen::Installed && b.view_history@.len() == 0)
    &&& (a.view_history@.len() > 0 ==> b.view == a.view_history@.last() && b.view_history@ == a.view_history@.drop_last())
    &&& keeps(a, b, Changes { views: true, ..no_changes() })
}

/// `b` is `a` after sorting the installed list by `c`.
pub open spec fn sorted_by(a: ManagerState, b: ManagerState, c: InstalledSortColumn) -> bool {
    &&& b.installed_sort == c
    &&& (a.installed_sort == c ==> b.installed_sort_direction == opposite(a.installed_sort_direction))
    &&& (a.installed_sort != c ==> b.installed_sort_direction == crate::manager::SortDirection::Ascending)
    &&& keeps(a, b, Changes { sort: true, ..no_changes() })
}

/// Outcome of an action that takes a text payload and needs it parsed by `ok`.
pub open spec fn unchanged_error(a: ManagerState, b: ManagerState, r: Result<ManagerEffect, String>, e: Seq<char>) -> bool {
    r matches Err(m) && m@ == e && keeps(a, b, no_changes())
}

/// The action succeeded with nothing more to do.
pub open spec fn done(r: Result<ManagerEffect, String>) -> bool {
    r matches Ok(ManagerEffect::Nothing)
}

/// `b` is `a` after adding the typed repository URL, or `r` is the error that
/// prevents it.
pub open spec fn add_repository_outcome(a: ManagerState, b: ManagerState, r: Result<ManagerEffect, String>) -> bool {
    let url = trim(a.repository_input@);
    match repository_url_error(url) {
        Some(e) => unchanged_error(a, b, r, e),
        None => if exists|i: int| 0 <= i < a.repositories@.len() && (#[trigger] a.repositories@[i]).url@ == url {
            unchanged_error(a, b, r, "repository is already registered"@)
        } else if a.repositories@.len() >= MAX_REPOSITORIES {
            unchanged_error(a, b, r, "repository limit of 16 has been reached"@)
        } else {
            &&& b.repositories@.len() == a.repositories@.len() + 1
            &&& b.repositories@.drop_last() == a.repositories@
            &&& b.repositories@.last().url@ == url
            &&& b.repositories@.last().enabled
            &&& b.loaded_repositories == a.loaded_repositories
            &&& b.repository_status == a.repository_status
            &&& b.repository_input@.len() == 0
            &&& keeps(a, b, Changes { repositories: true, repository_input: true, ..no_changes() })
            &&& r matches Ok(ManagerEffect::PersistRepositories { status }) && status@ == "Added repository "@ + url + ". Use Refresh to load it."@
        },
    }
}

/// Adds the typed repository URL, enabled, after the others.
fn add_repository(state: &mut ManagerState) -> (r: Result<ManagerEffect, String>)
    ensures
        add_repository_outcome(*old(state), *final(state), r),
{
    let url = trim_string(state.repository_input.as_str());
    match validate_repository_url(url.as_str()) {
        Err(e) => return Err(e),
        Ok(()) => {},
    }
    let mut i: usize = 0;
    while i < state.repositories.len()
        invariant
            *state == *old(state),
            url@ == trim(old(state).repository_input@),
            repository_url_error(url@) is None,
            i <= state.repositories@.len(),
            forall|k: int| 0 <= k < i ==> (#[trigger] state.repositories@[k]).url@ != url@,
        decreases state.repositories@.len() - i,
    {
        if str_equal(state.repositories[i].url.as_str(), url.as_str()) {
            assert(state.repositories@[i as int].url@ == trim(state.repository_input@));
            return Err(String::from_str("repository is already registered"));
        }
        i = i + 1;
    }
    if state.repositories.len() >= MAX_REPOSITORIES {
        return Err(String::from_str("repository limit of 16 has been reached"));
    }
    let ghost before = state.repositories@;
    state.repositories.push(RepositoryPreference { url: url.clone(), enabled: true });
    state.repository_input = String::new();
    let mut status = String::from_str("Added repository ");
    status.append(url.as_str());
    status.append(". Use Refresh to load it.");
    proof {
        assert(state.repositories@.drop_last() =~= before);
    }
    Ok(ManagerEffect::PersistRepositories { status })
}

/// `b` is `a` after enabling or disabling repository `index`.
pub open spec fn toggle_repository_outcome(a: ManagerState, b: ManagerState, index: usize, r: Result<ManagerEffect, String>) -> bool {
    if index >= a.repositories@.len() {
        unchanged_error(a, b, r, "repository no longer exists"@)
    } else {
        let was = a.repositories@[index as int];
        &&& b.repositories@.len() == a.repositories@.len()
        &&& forall|i: int| 0 <= i < a.repositories@.len() && i != index ==> #[trigger] b.repositories@[i] == a.repositories@[i]
        &&& b.repositories@[index as int].url == was.url
        &&& b.repositories@[index as int].enabled == !was.enabled
        &&& b.loaded_repositories == a.loaded_repositories
        &&& b.repository_status == a.repository_status
        &&& keeps(a, b, Changes { repositories: true, ..no_changes() })
        &&& r matches Ok(ManagerEffect::RebuildCatalogAndPersist { status })
            && status@ == (if !was.enabled { "Enabled"@ } else { "Disabled"@ }) + " repository "@ + was.url@ + "."@
    }
}

fn toggle_repository(state: &mut ManagerState, index: usize) -> (r: Result<ManagerEffect, String>)
    ensures
        toggle_repository_outcome(*old(state), *final(state), index, r),
{
    if index >= state.repositories.len() {
        return Err(String::from_str("repository no longer exists"));
    }
    let mut repos: Vec<RepositoryPreference> = Vec::new();
    std::mem::swap(&mut repos, &mut state.repositories);
    let mut item = repos.remove(index);
    item.enabled = !item.enabled;
    let enabled = item.enabled;
    let url = item.url.clone();
    repos.insert(index, item);
    state.repositories = repos;
    let mut status = String::from_str(if enabled { "Enabled" } else { "Disabled" });
    status.append(" repository ");
    status.append(url.as_str());
    status.append(".");
    Ok(ManagerEffect::RebuildCatalogAndPersist { status })
}

/// Loaded indexes other than the one for `url`.
pub open spec fn loaded_without(v: Seq<(String, crate::registry::RegistryIndex)>, url: Seq<char>) -> Seq<(String, crate::registry::RegistryIndex)>
    decreases v.len(),
{
    if v.len() == 0 {
        Seq::empty()
    } else if v.last().0@ == url {
        loaded_without(v.drop_last(), url)
    } else {
        loaded_without(v.drop_last(), url).push(v.last())
    }
}

/// Refresh outcomes other than the one for `url`.
pub open spec fn status_without(v: Seq<(String, RepositoryStatus)>, url: Seq<char>) -> Seq<(String, RepositoryStatus)>
    decreases v.len(),
{
    if v.len() == 0 {
        Seq::empty()
    } else if v.last().0@ == url {
        status_without(v.drop_last(), url)
    } else {
        status_without(v.drop_last(), url).push(v.last())
    }
}

fn drop_status(all: Vec<(String, RepositoryStatus)>, url: &str) -> (kept: Vec<(String, RepositoryStatus)>)
    ensures
        kept@ == status_without(all@, url@),
{
    let mut kept: Vec<(String, RepositoryStatus)> = Vec::new();
    let mut rest = all;
    let ghost mut done: Seq<(String, RepositoryStatus)> = Seq::empty();
    proof {
        assert(done + rest@ =~= all@);
    }
    while rest.len() > 0
        invariant
            done + rest@ == all@,
            kept@ == status_without(done, url@),
        decreases rest.len(),
    {
        let ghost before = rest@;
        let entry = rest.remove(0);
        proof {
            assert(before =~= seq![entry] + rest@);
            assert(done.push(entry) + rest@ =~= all@);
            assert(done.push(entry).drop_last() =~= done);
        }
        if !str_equal(entry.0.as_str(), url) {
            kept.push(entry);
        }
        proof {
            done = done.push(entry);
        }
    }
    proof {
        assert(done =~= all@);
    }
    kept
}

/// `b` is `a` after removing repository `index`.
pub open spec fn remove_repository_outcome(a: ManagerState, b: ManagerState, index: usize, r: Result<ManagerEffect, String>) -> bool {
    if index >= a.repositories@.len() {
        unchanged_error(a, b, r, "repository no longer exists"@)
    } else if a.repositories@[index as int].url@ == BUILTIN_REPOSITORY@ {
        unchanged_error(a, b, r, "the built-in rtwKit repository can be disabled but not removed"@)
    } else {
        let url = a.repositories@[index as int].url@;
        &&& b.repositories@ == a.repositories@.remove(index as int)
        &&& b.loaded_repositories@ == loaded_without(a.loaded_repositories@, url)
        &&& b.repository_status@ == status_without(a.repository_status@, url)
        &&& keeps(a, b, Changes { repositories: true, ..no_changes() })
        &&& r matches Ok(ManagerEffect::RebuildCatalogAndPersist { status }) && status@ == "Removed repository "@ + url + "."@
    }
}

fn remove_repository(state: &mut ManagerState, index: usize) -> (r: Result<ManagerEffect, String>)
    ensures
        remove_repository_outcome(*old(state), *final(state), index, r),
{
    if index >= state.repositories.len() {
        return Err(String::from_str("repository no longer exists"));
    }
    if str_equal(state.repositories[index].url.as_str(), BUILTIN_REPOSITORY) {
        return Err(String::from_str("the built-in rtwKit repository can be disabled but not removed"));
    }
    let removed = state.repositories.remove(index);
    let mut loaded: Vec<(String, crate::registry::RegistryIndex)> = Vec::new();
    std::mem::swap(&mut loaded, &mut state.loaded_repositories);
    let ghost all = loaded@;
    let mut kept: Vec<(String, crate::registry::RegistryIndex)> = Vec::new();
    let mut taken: Vec<(String, crate::registry::RegistryIndex)> = Vec::new();
    // Walk from the front, moving each entry out.
    let mut rest = loaded;
    let ghost mut done: Seq<(String, crate::registry::RegistryIndex)> = Seq::empty();
    proof {
        assert(done + rest@ =~= all);
    }
    while rest.len() > 0
        invariant
            done + rest@ == all,
            kept@ == loaded_without(done, removed.url@),
        decreases rest.len(),
    {
        let ghost before = rest@;
        let entry = rest.remove(0);
        proof {
            assert(before =~= seq![entry] + rest@);
            assert(done.push(entry) + rest@ =~= all);
            assert(done.push(entry).drop_last() =~= done);
        }
        if str_equal(entry.0.as_str(), removed.url.as_str()) {
            taken.push(entry);
        } else {
            kept.push(entry);
        }
        proof {
            done = done.push(entry);
        }
    }
    proof {
        assert(done =~= all);
    }
    state.loaded_repositories = kept;
    let mut statuses: Vec<(String, RepositoryStatus)> = Vec::new();
    std::mem::swap(&mut statuses, &mut state.repository_status);
    state.repository_status = drop_status(statuses, removed.url.as_str());
    let mut status = String::from_str("Removed repository ");
    status.append(removed.url.as_str());
    status.append(".");
    Ok(ManagerEffect::RebuildCatalogAndPersist { status })
}

/// What a user action does to the state and what outside work it asks for.
pub open spec fn dispatch_outcome(a: ManagerState, b: ManagerState, e: UiActionEvent, r: Result<ManagerEffect, String>) -> bool {
    let id = e.action_id@;
    let target = target_lookup(a.action_targets@, e.node_id@);
    if a.pending_install is Some && id != "install.confirm"@ && id != "install.cancel"@ && id != "install.permission-toggle"@ {
        unchanged_error(a, b, r, "finish or cancel the pending installation first"@)
    } else if id == "install.confirm"@ {
        r matches Ok(ManagerEffect::ConfirmInstall) && keeps(a, b, no_changes())
    } else if id == "install.cancel"@ {
        done(r) && b.pending_install is None && b.status@ == cancelled_message() && keeps(a, b, Changes { pending: true, status: true, ..no_changes() })
    } else if id == "install.permission-toggle"@ {
        match target {
            Some(ActionTarget::Permission { item, permission }) => match payload_bool(e.payload) {
                Some(selected) => match permission_error(a.pending_install, item, permission) {
                    Some(m) => unchanged_error(a, b, r, m),
                    None => done(r) && permission_applied(a.pending_install, b.pending_install, item, permission, selected)
                        && keeps(a, b, Changes { pending: true, ..no_changes() }),
                },
                None => unchanged_error(a, b, r, "boolean action did not include a boolean"@),
            },
            _ => unchanged_error(a, b, r, "permission action target is stale"@),
        }
    } else if id == "view.browse"@ {
        done(r) && opened(a, b, Screen::Browse)
    } else if id == "view.installed"@ {
        done(r) && reset_to(a, b, Screen::Installed)
    } else if id == "view.repositories"@ {
        done(r) && opened(a, b, Screen::Repositories)
    } else if id == "view.direct-url"@ {
        done(r) && opened(a, b, Screen::DirectUrl)
    } else if id == "view.close"@ {
        done(r) && closed(a, b)
    } else if id == "catalog.refresh"@ {
        r matches Ok(ManagerEffect::RefreshRepositories) && keeps(a, b, no_changes())
    } else if id == "search.change"@ {
        match payload_text(e.payload) {
            Some(v) => if byte_len(v@) > MAX_SEARCH_QUERY_BYTES {
                unchanged_error(a, b, r, "catalog search"@ + " exceeds "@ + decimal(MAX_SEARCH_QUERY_BYTES as nat) + " bytes"@)
            } else {
                done(r) && b.search == v && keeps(a, b, Changes { search: true, ..no_changes() })
            },
            None => unchanged_error(a, b, r, "text action did not include text"@),
        }
    } else if id == "installed.search"@ {
        match payload_text(e.payload) {
            Some(v) => if byte_len(v@) > MAX_SEARCH_QUERY_BYTES {
                unchanged_error(a, b, r, "installed search"@ + " exceeds "@ + decimal(MAX_SEARCH_QUERY_BYTES as nat) + " bytes"@)
            } else {
                let hidden = a.selected_package matches Some(s) && match lookup_installed(a.installed@, s@) {
                    None => true,
                    Some(p) => !matches_search(a, p, search_query(v@)),
                };
                &&& done(r)
                &&& b.installed_search == v
                &&& (hidden ==> b.selected_package is None && b.selected_version is None)
                &&& (!hidden ==> b.selected_package == a.selected_package && b.selected_version == a.selected_version)
                &&& keeps(a, b, Changes { installed_search: true, selection: true, ..no_changes() })
            },
            None => unchanged_error(a, b, r, "text action did not include text"@),
        }
    } else if id == "installed.sort"@ {
        match payload_text(e.payload) {
            Some(v) => if exists|c: InstalledSortColumn| sort_column_key(c) == v@ {
                done(r) && exists|c: InstalledSortColumn| sort_column_key(c) == v@ && sorted_by(a, b, c)
            } else {
                unchanged_error(a, b, r, "unknown installed sort column '"@ + v@ + "'"@)
            },
            None => unchanged_error(a, b, r, "text action did not include text"@),
        }
    } else if id == "installed.row-select"@ {
        match payload_text(e.payload) {
            Some(v) => match lookup_installed(a.installed@, v@) {
                None => unchanged_error(a, b, r, "installed extension '"@ + v@ + "' no longer exists"@),
                Some(p) => {
                    &&& done(r)
                    &&& b.selected_package matches Some(s) && s@ == v@
                    &&& match p.version {
                        Some(ver) => b.selected_version matches Some(w) && w@ == ver@,
                        None => b.selected_version is None,
                    }
                    &&& b.view == Screen::Installed
                    &&& b.view_history == a.view_history
                    &&& keeps(a, b, Changes { selection: true, views: true, ..no_changes() })
                },
            },
            None => unchanged_error(a, b, r, "text action did not include text"@),
        }
    } else if id == "catalog.filter"@ {
        match payload_text(e.payload) {
            Some(v) => if exists|f: CatalogFilter| filter_value(f) == v@ {
                done(r) && filter_value(b.catalog_filter) == v@ && keeps(a, b, Changes { catalog_filter: true, ..no_changes() })
            } else {
                unchanged_error(a, b, r, "unknown catalog filter '"@ + v@ + "'"@)
            },
            None => unchanged_error(a, b, r, "text action did not include text"@),
        }
    } else if id == "catalog.sort"@ {
        match payload_text(e.payload) {
            Some(v) => if exists|o: CatalogSort| catalog_sort_value(o) == v@ {
                done(r) && catalog_sort_value(b.catalog_sort) == v@ && keeps(a, b, Changes { catalog_sort: true, ..no_changes() })
            } else {
                unchanged_error(a, b, r, "unknown catalog sort '"@ + v@ + "'"@)
            },
            None => unchanged_error(a, b, r, "text action did not include text"@),
        }
    } else if id == "catalog.repository"@ {
        match payload_text(e.payload) {
            Some(v) => done(r) && (if v@ == "all"@ {
                b.repository_filter is None
            } else {
                b.repository_filter == Some(v)
            }) && keeps(a, b, Changes { repository_filter: true, ..no_changes() }),
            None => unchanged_error(a, b, r, "text action did not include text"@),
        }
    } else if id == "catalog.repository-all"@ {
        done(r) && b.repository_filter is None && keeps(a, b, Changes { repository_filter: true, ..no_changes() })
    } else if id == "catalog.repository-target"@ {
        match target {
            Some(ActionTarget::Repository(index)) => if index < a.repositories@.len() {
                &&& done(r)
                &&& b.repository_filter matches Some(u) && u@ == a.repositories@[index as int].url@
                &&& keeps(a, b, Changes { repository_filter: true, ..no_changes() })
            } else {
                unchanged_error(a, b, r, "repository no longer exists"@)
            },
            _ => unchanged_error(a, b, r, "repository action target is stale"@),
        }
    } else if id == "selection.clear"@ {
        done(r) && b.selected_packages@.len() == 0 && keeps(a, b, Changes { selected_packages: true, ..no_changes() })
    } else if id == "selection.install"@ {
        r matches Ok(ManagerEffect::InstallSelected) && keeps(a, b, no_changes())
    } else if id == "package.details"@ {
        match target {
            Some(ActionTarget::Package(pid)) => {
                &&& done(r)
                &&& b.selected_package matches Some(s) && s@ == pid@
                &&& match catalog_lookup(a.catalog.packages@, pid@) {
                    Some(p) => b.selected_version matches Some(w) && w@ == p.latest@,
                    None => b.selected_version is None,
                }
                &&& b.view == Screen::Browse
                &&& (a.view == Screen::Browse ==> b.view_history == a.view_history)
                &&& (a.view != Screen::Browse ==> b.view_history@ == a.view_history@.push(a.view))
                &&& keeps(a, b, Changes { selection: true, views: true, ..no_changes() })
            },
            _ => unchanged_error(a, b, r, "package action target is stale"@),
        }
    } else if id == "package.selection"@ {
        match target {
            Some(ActionTarget::Package(pid)) => match payload_bool(e.payload) {
                Some(selected) => {
                    &&& done(r)
                    &&& names_of(b.selected_packages@).to_set() == if selected {
                        names_of(a.selected_packages@).to_set().insert(pid@)
                    } else {
                        names_of(a.selected_packages@).to_set().remove(pid@)
                    }
                    &&& keeps(a, b, Changes { selected_packages: true, ..no_changes() })
                },
                None => unchanged_error(a, b, r, "boolean action did not include a boolean"@),
            },
            _ => unchanged_error(a, b, r, "package action target is stale"@),
        }
    } else if id == "package.version"@ {
        match target {
            Some(ActionTarget::Package(pid)) => match payload_text(e.payload) {
                Some(v) => match semver_parse(v@) {
                    None => r is Err && keeps(a, b, no_changes()),
                    Some(ver) => match catalog_lookup(a.catalog.packages@, pid@) {
                        None => unchanged_error(a, b, r, "package '"@ + pid@ + "' disappeared"@),
                        Some(p) => if crate::manager::release_lookup(p.versions@, ver) is None {
                            unchanged_error(a, b, r, "package '"@ + pid@ + "' does not contain version "@ + crate::version::version_text(ver))
                        } else {
                            &&& done(r)
                            &&& b.selected_package matches Some(s) && s@ == pid@
                            &&& b.selected_version matches Some(w) && w@ == ver
                            &&& keeps(a, b, Changes { selection: true, ..no_changes() })
                        },
                    },
                },
                None => unchanged_error(a, b, r, "text action did not include text"@),
            },
            _ => unchanged_error(a, b, r, "package action target is stale"@),
        }
    } else if id == "repository.input"@ {
        match payload_text(e.payload) {
            Some(v) => if byte_len(v@) > MAX_REPOSITORY_INPUT_BYTES {
                unchanged_error(a, b, r, "repository URL"@ + " exceeds "@ + decimal(MAX_REPOSITORY_INPUT_BYTES as nat) + " bytes"@)
            } else {
                done(r) && b.repository_input == v && keeps(a, b, Changes { repository_input: true, ..no_changes() })
            },
            None => unchanged_error(a, b, r, "text action did not include text"@),
        }
    } else if id == "repository.add"@ {
        add_repository_outcome(a, b, r)
    } else if id == "repository.toggle"@ {
        match target {
            Some(ActionTarget::Repository(index)) => toggle_repository_outcome(a, b, index, r),
            _ => unchanged_error(a, b, r, "repository action target is stale"@),
        }
    } else if id == "repository.remove"@ {
        match target {
            Some(ActionTarget::Repository(index)) => remove_repository_outcome(a, b, index, r),
            _ => unchanged_error(a, b, r, "repository action target is stale"@),
        }
    } else if id == "direct.input"@ {
        match payload_text(e.payload) {
            Some(v) => if byte_len(v@) > MAX_DIRECT_URL_INPUT_BYTES {
                unchanged_error(a, b, r, "direct RTW URL"@ + " exceeds "@ + decimal(MAX_DIRECT_URL_INPUT_BYTES as nat) + " bytes"@)
            } else {
                done(r) && b.direct_url == v && keeps(a, b, Changes { direct_url: true, ..no_changes() })
            },
            None => unchanged_error(a, b, r, "text action did not include text"@),
        }
    } else if id == "direct.install"@ {
        r matches Ok(ManagerEffect::InstallDirectUrl) && keeps(a, b, no_changes())
    } else if id == "package.install"@ || id == "package.update"@ {
        match target {
            Some(ActionTarget::Package(pid)) => r matches Ok(ManagerEffect::InstallPackage { package_id, target }) && package_id@ == pid@
                && target is None && keeps(a, b, no_changes()),
            _ => unchanged_error(a, b, r, "package action target is stale"@),
        }
    } else if id == "package.install-version"@ {
        match target {
            Some(ActionTarget::Package(pid)) => r matches Ok(ManagerEffect::InstallPackage { package_id, target: t }) && package_id@ == pid@
                && match a.selected_version {
                    Some(v) => t matches Some(w) && w@ == v@,
                    None => t is None,
                } && keeps(a, b, no_changes()),
            _ => unchanged_error(a, b, r, "package action target is stale"@),
        }
    } else if id == "installed.details"@ {
        match target {
            Some(ActionTarget::Activation(subject)) => {
                &&& done(r)
                &&& b.selected_package matches Some(s) && s@ == subject@
                &&& match lookup_installed(a.installed@, subject@) {
                    Some(p) => match p.version {
                        Some(v) => b.selected_version matches Some(w) && w@ == v@,
                        None => b.selected_version is None,
                    },
                    None => b.selected_version is None,
                }
                &&& b.view == Screen::Installed
                &&& b.view_history == a.view_history
                &&& keeps(a, b, Changes { selection: true, views: true, ..no_changes() })
            },
            _ => unchanged_error(a, b, r, "activation action target is stale"@),
        }
    } else if id == "package.uninstall"@ {
        match target {
            Some(ActionTarget::Activation(subject)) => keeps(a, b, no_changes()) && exists|d: Result<bool, String>|
                blocker_outcome(a, subject@, "uninstall"@, d) && match d {
                    Ok(_) => r matches Ok(ManagerEffect::Uninstall { subject: s }) && s@ == subject@,
                    Err(m) => r matches Err(m2) && m2@ == m@,
                },
            _ => unchanged_error(a, b, r, "activation action target is stale"@),
        }
    } else if id == "package.enabled"@ || id == "package.toggle"@ {
        match target {
            Some(ActionTarget::Activation(subject)) => keeps(a, b, no_changes()) && enable_action(a, id == "package.enabled"@, e.payload, subject@, r),
            _ => unchanged_error(a, b, r, "activation action target is stale"@),
        }
    } else {
        unchanged_error(a, b, r, "unknown UI action '"@ + id + "'"@)
    }
}

/// Outcome of setting (`set`) or toggling an installed package's enabled state.
pub open spec fn enable_action(a: ManagerState, set: bool, payload: UiActionPayload, subject: Seq<char>, r: Result<ManagerEffect, String>) -> bool {
    enable_with(a, set, wanted_enabled(a, set, payload, subject), subject, r)
}

/// The enabled state a set or toggle action asks for.
pub open spec fn wanted_enabled(a: ManagerState, set: bool, payload: UiActionPayload, subject: Seq<char>) -> Option<bool> {
    if set {
        payload_bool(payload)
    } else {
        match lookup_installed(a.installed@, subject) {
            Some(p) => Some(!p.enabled),
            None => None,
        }
    }
}

/// The effect for a decision `d` on enabling `subject`.
pub open spec fn enable_effect(d: Result<bool, String>, subject: Seq<char>, enabled: bool, r: Result<ManagerEffect, String>) -> bool {
    match d {
        Ok(true) => r matches Ok(ManagerEffect::SetEnabled { subject: s, enabled: en }) && s@ == subject && en == enabled,
        Ok(false) => done(r),
        Err(m) => r matches Err(m2) && m2@ == m@,
    }
}

/// Some decision on enabling `subject` holds, and `r` is its effect.
pub open spec fn enable_decided(a: ManagerState, subject: Seq<char>, enabled: bool, r: Result<ManagerEffect, String>) -> bool {
    exists|d: Result<bool, String>| #[trigger] enable_outcome(a, subject, enabled, d) && enable_effect(d, subject, enabled, r)
}

/// Outcome of asking for enabled state `wanted`.
pub open spec fn enable_with(a: ManagerState, set: bool, wanted: Option<bool>, subject: Seq<char>, r: Result<ManagerEffect, String>) -> bool {
    match wanted {
        Some(enabled) => enable_decided(a, subject, enabled, r),
        None => if set {
            r matches Err(m) && m@ == "boolean action did not include a boolean"@
        } else {
            r matches Err(m) && m@ == "activation '"@ + subject + "' disappeared"@
        },
    }
}

/// Text views of a list of strings.
pub open spec fn names_of(v: Seq<String>) -> Seq<Seq<char>> {
    v.map_values(|x: String| x@)
}

fn contains_text(v: &Vec<String>, x: &str) -> (r: bool)
    ensures
        r == names_of(v@).contains(x@),
{
    let mut i: usize = 0;
    while i < v.len()
        invariant
            i <= v@.len(),
            forall|k: int| 0 <= k < i ==> (#[trigger] v@[k])@ != x@,
        decreases v@.len() - i,
    {
        if str_equal(v[i].as_str(), x) {
            assert(names_of(v@)[i as int] == x@);
            return true;
        }
        i = i + 1;
    }
    proof {
        if names_of(v@).contains(x@) {
            let k = choose|k: int| 0 <= k < names_of(v@).len() && names_of(v@)[k] == x@;
            assert(v@[k]@ == x@);
        }
    }
    false
}

/// Adds a text to a list used as a set.
fn set_insert(v: &mut Vec<String>, x: String)
    ensures
        names_of(final(v)@).to_set() == names_of(old(v)@).to_set().insert(x@),
{
    if !contains_text(v, x.as_str()) {
        let ghost before = v@;
        let ghost xv = x@;
        v.push(x);
        proof {
            assert(names_of(v@) =~= names_of(before).push(xv));
            assert forall|y: Seq<char>| names_of(v@).to_set().contains(y) <==> names_of(before).to_set().insert(xv).contains(y) by {
                if names_of(v@).to_set().contains(y) {
                    let k = choose|k: int| 0 <= k < names_of(v@).len() && names_of(v@)[k] == y;
                    if k < before.len() {
                        assert(names_of(before)[k] == y);
                    }
                }
                if names_of(before).to_set().contains(y) {
                    let k = choose|k: int| 0 <= k < names_of(before).len() && names_of(before)[k] == y;
                    assert(names_of(v@)[k] == y);
                }
                if y == xv {
                    assert(names_of(v@)[before.len() as int] == y);
                }
            }
            assert(names_of(v@).to_set() =~= names_of(before).to_set().insert(xv));
        }
    } else {
        proof {
            assert(names_of(v@).to_set().insert(x@) =~= names_of(v@).to_set());
        }
    }
}

/// Removes a text from a list used as a set.
fn set_remove(v: &mut Vec<String>, x: &str)
    ensures
        names_of(final(v)@).to_set() == names_of(old(v)@).to_set().remove(x@),
{
    let ghost all = names_of(v@);
    let mut kept: Vec<String> = Vec::new();
    let mut i: usize = 0;
    while i < v.len()
        invariant
            all == names_of(v@),
            i <= v@.len(),
            forall|y: Seq<char>| names_of(kept@).contains(y) <==> (y != x@ && all.take(i as int).contains(y)),
        decreases v@.len() - i,
    {
        let ghost before = kept@;
        if !str_equal(v[i].as_str(), x) {
            kept.push(v[i].clone());
        }
        proof {
            let t1 = all.take(i + 1);
            let t0 = all.take(i as int);
            assert(t1 =~= t0.push(all[i as int]));
            assert forall|y: Seq<char>| names_of(kept@).contains(y) <==> (y != x@ && all.take(i + 1).contains(y)) by {
                if t1.contains(y) {
                    let k = choose|k: int| 0 <= k < t1.len() && t1[k] == y;
                    if k < i {
                        assert(t0[k] == y);
                    }
                }
                if t0.contains(y) {
                    let k = choose|k: int| 0 <= k < t0.len() && t0[k] == y;
                    assert(t1[k] == y);
                }
                if y == all[i as int] {
                    assert(t1[i as int] == y);
                }
                if names_of(kept@).contains(y) {
                    let k = choose|k: int| 0 <= k < names_of(kept@).len() && names_of(kept@)[k] == y;
                    if k < before.len() {
                        assert(names_of(before)[k] == y);
                    }
                }
                if names_of(before).contains(y) {
                    let k = choose|k: int| 0 <= k < names_of(before).len() && names_of(before)[k] == y;
                    assert(names_of(kept@)[k] == y);
                }
                if y != x@ && y == all[i as int] {
                    assert(names_of(kept@)[before.len() as int] == y);
                }
            }
        }
        i = i + 1;
    }
    proof {
        assert(all.take(v@.len() as int) =~= all);
        assert(names_of(kept@).to_set() =~= all.to_set().remove(x@));
    }
    *v = kept;
}

/// Carries out a user action on the state; the effect names the outside work
/// the host does next.
pub fn dispatch_action(state: &mut ManagerState, event: UiActionEvent) -> (r: Result<ManagerEffect, String>)
    ensures
        dispatch_outcome(*old(state), *final(state), event, r),
{
    let id = event.action_id.as_str();
    let is_confirm = str_equal(id, "install.confirm");
    let is_cancel = str_equal(id, "install.cancel");
    let is_permission = str_equal(id, "install.permission-toggle");
    if state.pending_install.is_some() && !is_confirm && !is_cancel && !is_permission {
        return Err(String::from_str("finish or cancel the pending installation first"));
    }
    if is_confirm {
        return Ok(ManagerEffect::ConfirmInstall);
    }
    if is_cancel {
        state.pending_install = None;
        state.status = String::from_str("Installation cancelled. Validated bytes may remain in immutable CAS cache.");
        return Ok(ManagerEffect::Nothing);
    }
    if is_permission {
        let (item, permission) = target_permission(state, event.node_id.as_str())?;
        let selected = boolean_payload(event.payload)?;
        set_pending_permission(&mut state.pending_install, item, permission, selected)?;
        return Ok(ManagerEffect::Nothing);
    }
    if str_equal(id, "view.browse") {
        open_view(state, Screen::Browse);
        return Ok(ManagerEffect::Nothing);
    }
    if str_equal(id, "view.installed") {
        reset_view(state, Screen::Installed);
        return Ok(ManagerEffect::Nothing);
    }
    if str_equal(id, "view.repositories") {
        open_view(state, Screen::Repositories);
        return Ok(ManagerEffect::Nothing);
    }
    if str_equal(id, "view.direct-url") {
        open_view(state, Screen::DirectUrl);
        return Ok(ManagerEffect::Nothing);
    }
    if str_equal(id, "view.close") {
        close_view(state);
        return Ok(ManagerEffect::Nothing);
    }
    if str_equal(id, "catalog.refresh") {
        return Ok(ManagerEffect::RefreshRepositories);
    }
    if str_equal(id, "search.change") {
        let value = bounded_text_payload(event.payload, MAX_SEARCH_QUERY_BYTES, "catalog search")?;
        state.search = value;
        return Ok(ManagerEffect::Nothing);
    }
    if str_equal(id, "installed.search") {
        let value = bounded_text_payload(event.payload, MAX_SEARCH_QUERY_BYTES, "installed search")?;
        set_installed_search(state, value);
        return Ok(ManagerEffect::Nothing);
    }
    if str_equal(id, "installed.sort") {
        let value = text_payload(event.payload)?;
        let column = InstalledSortColumn::parse(value.as_str())?;
        set_installed_sort(state, column);
        return Ok(ManagerEffect::Nothing);
    }
    if str_equal(id, "installed.row-select") {
        let subject = text_payload(event.payload)?;
        select_installed_package(state, subject.as_str())?;
        return Ok(ManagerEffect::Nothing);
    }
    if str_equal(id, "catalog.filter") {
        let value = text_payload(event.payload)?;
        let filter = CatalogFilter::parse(value.as_str())?;
        state.catalog_filter = filter;
        return Ok(ManagerEffect::Nothing);
    }
    if str_equal(id, "catalog.sort") {
        let value = text_payload(event.payload)?;
        let sort = CatalogSort::parse(value.as_str())?;
        state.catalog_sort = sort;
        return Ok(ManagerEffect::Nothing);
    }
    if str_equal(id, "catalog.repository") {
        let value = text_payload(event.payload)?;
        if str_equal(value.as_str(), "all") {
            state.repository_filter = None;
        } else {
            state.repository_filter = Some(value);
        }
        return Ok(ManagerEffect::Nothing);
    }
    if str_equal(id, "catalog.repository-all") {
        state.repository_filter = None;
        return Ok(ManagerEffect::Nothing);
    }
    if str_equal(id, "catalog.repository-target") {
        let index = target_repository(state, event.node_id.as_str())?;
        if index >= state.repositories.len() {
            return Err(String::from_str("repository no longer exists"));
        }
        let url = state.repositories[index].url.clone();
        state.repository_filter = Some(url);
        return Ok(ManagerEffect::Nothing);
    }
    if str_equal(id, "selection.clear") {
        state.selected_packages = Vec::new();
        return Ok(ManagerEffect::Nothing);
    }
    if str_equal(id, "selection.install") {
        return Ok(ManagerEffect::InstallSelected);
    }
    if str_equal(id, "package.details") {
        let package_id = target_package(state, event.node_id.as_str())?;
        let version = match crate::manager::find_catalog(&state.catalog.packages, package_id.as_str()) {
            Some(ci) => Some(state.catalog.packages[ci].latest.copy()),
            None => None,
        };
        state.selected_version = version;
        state.selected_package = Some(package_id);
        if state.view != Screen::Browse {
            let current = state.view;
            state.view_history.push(current);
            state.view = Screen::Browse;
        }
        return Ok(ManagerEffect::Nothing);
    }
    if str_equal(id, "package.selection") {
        let package_id = target_package(state, event.node_id.as_str())?;
        let selected = boolean_payload(event.payload)?;
        if selected {
            set_insert(&mut state.selected_packages, package_id);
        } else {
            set_remove(&mut state.selected_packages, package_id.as_str());
        }
        return Ok(ManagerEffect::Nothing);
    }
    if str_equal(id, "package.version") {
        let package_id = target_package(state, event.node_id.as_str())?;
        let value = text_payload(event.payload)?;
        let version = match Version::parse(value.as_str()) {
            Some(v) => v,
            None => {
                let mut e = String::from_str("invalid package version '");
                e.append(value.as_str());
                e.append("': ");
                let detail = crate::version::parse_error_text(value.as_str());
                e.append(detail.as_str());
                return Err(e);
            },
        };
        let ci = match crate::manager::find_catalog(&state.catalog.packages, package_id.as_str()) {
            Some(ci) => ci,
            None => {
                let mut e = String::from_str("package '");
                e.append(package_id.as_str());
                e.append("' disappeared");
                return Err(e);
            },
        };
        if crate::manager::find_release_at(&state.catalog.packages[ci].versions, &version).is_none() {
            let mut e = String::from_str("package '");
            e.append(package_id.as_str());
            e.append("' does not contain version ");
            let vt = version.text();
            e.append(vt.as_str());
            return Err(e);
        }
        state.selected_package = Some(package_id);
        state.selected_version = Some(version);
        return Ok(ManagerEffect::Nothing);
    }
    if str_equal(id, "repository.input") {
        let value = bounded_text_payload(event.payload, MAX_REPOSITORY_INPUT_BYTES, "repository URL")?;
        state.repository_input = value;
        return Ok(ManagerEffect::Nothing);
    }
    if str_equal(id, "repository.add") {
        return add_repository(state);
    }
    if str_equal(id, "repository.toggle") {
        let index = target_repository(state, event.node_id.as_str())?;
        return toggle_repository(state, index);
    }
    if str_equal(id, "repository.remove") {
        let index = target_repository(state, event.node_id.as_str())?;
        return remove_repository(state, index);
    }
    if str_equal(id, "direct.input") {
        let value = bounded_text_payload(event.payload, MAX_DIRECT_URL_INPUT_BYTES, "direct RTW URL")?;
        state.direct_url = value;
        return Ok(ManagerEffect::Nothing);
    }
    if str_equal(id, "direct.install") {
        return Ok(ManagerEffect::InstallDirectUrl);
    }
    if str_equal(id, "package.install") || str_equal(id, "package.update") {
        let package_id = target_package(state, event.node_id.as_str())?;
        return Ok(ManagerEffect::InstallPackage { package_id, target: None });
    }
    if str_equal(id, "package.install-version") {
        let package_id = target_package(state, event.node_id.as_str())?;
        let target = match &state.selected_version {
            Some(v) => Some(v.copy()),
            None => None,
        };
        return Ok(ManagerEffect::InstallPackage { package_id, target });
    }
    if str_equal(id, "installed.details") {
        let subject = target_activation(state, event.node_id.as_str())?;
        let version = match crate::manager::find_installed(&state.installed, subject.as_str()) {
            Some(i) => match &state.installed[i].version {
                Some(v) => Some(v.copy()),
                None => None,
            },
            None => None,
        };
        state.selected_version = version;
        state.selected_package = Some(subject);
        state.view = Screen::Installed;
        return Ok(ManagerEffect::Nothing);
    }
    if str_equal(id, "package.uninstall") {
        let subject = target_activation(state, event.node_id.as_str())?;
        let d = decide_uninstall(state, subject.as_str());
        return match d {
            Ok(_) => Ok(ManagerEffect::Uninstall { subject }),
            Err(m) => Err(m),
        };
    }
    let is_enabled = str_equal(id, "package.enabled");
    if is_enabled || str_equal(id, "package.toggle") {
        let subject = target_activation(state, event.node_id.as_str())?;
        let ghost payload = event.payload;
        let enabled = if is_enabled {
            boolean_payload(event.payload)?
        } else {
            match crate::manager::find_installed(&state.installed, subject.as_str()) {
                Some(i) => !state.installed[i].enabled,
                None => {
                    let mut e = String::from_str("activation '");
                    e.append(subject.as_str());
                    e.append("' disappeared");
                    return Err(e);
                },
            }
        };
        let d = decide_set_enabled(state, subject.as_str(), enabled);
        let ghost dv = d;
        let ghost sv = subject@;
        let out = match d {
            Ok(true) => Ok(ManagerEffect::SetEnabled { subject, enabled }),
            Ok(false) => Ok(ManagerEffect::Nothing),
            Err(m) => Err(m),
        };
        proof {
            if is_enabled {
                assert(payload_bool(payload) == Some(enabled));
            } else {
                assert(lookup_installed(state.installed@, sv) matches Some(p) && !p.enabled == enabled);
            }
            assert(enable_outcome(*state, sv, enabled, dv) && enable_effect(dv, sv, enabled, out));
            assert(enable_decided(*state, sv, enabled, out));
            assert(wanted_enabled(*state, is_enabled, payload, sv) == Some(enabled));
            assert(enable_with(*state, is_enabled, Some(enabled), sv, out));
            assert(enable_action(*state, is_enabled, payload, sv, out));
        }
        return out;
    }
    let mut e = String::from_str("unknown UI action '");
    e.append(id);
    e.append("'");
    Err(e)
}

} // verus!
