//! The package manager's screens, built as portable UI nodes, and the rules
//! that decide which of their controls are enabled.

use vstd::prelude::*;

use crate::catalog::CatalogPackage;
use crate::listing::{filtered_catalog_packages, visible_installed_packages};
use crate::manager::{
    comma_joined, direction_value, sort_column_key, ManagedInstallRecord, RepositoryStatus,
    blocker_lists, dependency_blockers, dependency_info, dependency_issues_for_enable, enable_issue, enable_issues,
    find_catalog, find_installed, installed_lookup, installed_provider, installed_status, join_comma, names,
    repository_label, truncate_display_text, ActionTarget, InstalledComponentPolicy, InstalledPackage,
    InstalledSortColumn, ManagerState, PendingInstall, Screen, SortDirection,
};
use crate::messages::{install_version, installed_release, message, message_text, switch_to, update_to, Message};
use crate::plan::has_release;
use crate::surface::{
    control_of, extends, grows, has_control, has_node, keeps_nodes, lemma_grows_trans, lemma_offers_kept, lemma_shown_kept, offers,
    offers_package, refs_defined, shows_text, ButtonAppearance, GridColumn,
    RenderedSurface, SelectOption, UiBuilder, UiKind,
};
use crate::text::{decimal, str_equal, to_lowercase, trim_string, u64_text};
use crate::version::{semver_order, version_text, Version, VersionView};

verus! {

/// Most catalog cards the browser shows.
pub const MAX_SEARCH_RESULTS: usize = 40;
/// Most rows the installed list shows.
pub const MAX_INSTALLED_RESULTS: usize = 200;
/// Longest catalog card description, in UTF-8 bytes.
pub const MAX_CARD_DESCRIPTION_BYTES: usize = 512;
/// Longest catalog card author list, in UTF-8 bytes.
pub const MAX_CARD_AUTHORS_BYTES: usize = 256;

/// Index of the first entry with key `key`.
fn first_keyed<T>(v: &Vec<(String, T)>, key: &str) -> (r: Option<usize>)
    ensures
        match r {
            Some(i) => i < v@.len() && v@[i as int].0@ == key@ && forall|j: int| 0 <= j < i ==> (#[trigger] v@[j]).0@ != key@,
            None => forall|j: int| 0 <= j < v@.len() ==> (#[trigger] v@[j]).0@ != key@,
        },
{
    let mut i: usize = 0;
    while i < v.len()
        invariant
            i <= v@.len(),
            forall|j: int| 0 <= j < i ==> (#[trigger] v@[j]).0@ != key@,
        decreases v@.len() - i,
    {
        if str_equal(v[i].0.as_str(), key) {
            return Some(i);
        }
        i = i + 1;
    }
    None
}

/// Nothing stands against removing or disabling `subject`: no installed
/// package depends on it and none has unknown dependencies.
pub open spec fn removal_allowed(st: ManagerState, subject: Seq<char>) -> bool {
    blocker_lists(st, st.installed@, subject).0.len() == 0 && blocker_lists(st, st.installed@, subject).1.len() == 0
}

/// `subject` may be enabled: its dependencies are known, and each is installed
/// and enabled.
pub open spec fn enable_allowed(st: ManagerState, subject: Seq<char>) -> bool {
    &&& dependency_info(st, subject).1
    &&& forall|d: Seq<char>| #[trigger] dependency_info(st, subject).0.contains(d) ==> enable_issue(st, d) is None
}

/// The enable/disable control is enabled: disabling needs what removal
/// needs, enabling needs available dependencies.
pub open spec fn toggle_allowed(st: ManagerState, p: InstalledPackage) -> bool {
    if p.enabled {
        removal_allowed(st, p.subject@)
    } else {
        enable_allowed(st, p.subject@)
    }
}

proof fn lemma_enable_issues_empty(st: ManagerState, ds: Seq<Seq<char>>)
    ensures
        (enable_issues(st, ds).len() == 0) == (forall|k: int| 0 <= k < ds.len() ==> enable_issue(st, #[trigger] ds[k]) is None),
    decreases ds.len(),
{
    if ds.len() > 0 {
        let init = ds.drop_last();
        lemma_enable_issues_empty(st, init);
        if forall|k: int| 0 <= k < ds.len() ==> enable_issue(st, #[trigger] ds[k]) is None {
            assert forall|k: int| 0 <= k < init.len() implies enable_issue(st, #[trigger] init[k]) is None by {
                assert(init[k] == ds[k]);
                assert(enable_issue(st, ds[k]) is None);
            }
            assert(enable_issue(st, ds[ds.len() - 1]) is None);
        }
        if enable_issues(st, ds).len() == 0 {
            assert forall|k: int| 0 <= k < ds.len() implies enable_issue(st, #[trigger] ds[k]) is None by {
                if k < init.len() {
                    assert(init[k] == ds[k]);
                    assert(enable_issue(st, init[k]) is None);
                }
            }
        }
    }
}

/// Whether the enable/disable control and the remove control of an installed
/// extension are enabled.
pub fn activation_controls(state: &ManagerState, package: &InstalledPackage) -> (r: (bool, bool))
    ensures
        r.0 == toggle_allowed(*state, *package),
        r.1 == removal_allowed(*state, package.subject@),
{
    let blockers = dependency_blockers(state, package.subject.as_str());
    proof {
        let b = blocker_lists(*state, state.installed@, package.subject@);
        vstd::seq_lib::to_multiset_len(names(blockers.required_by@));
        vstd::seq_lib::to_multiset_len(b.0);
        vstd::seq_lib::to_multiset_len(names(blockers.unknown@));
        vstd::seq_lib::to_multiset_len(b.1);
        assert(names(blockers.required_by@).len() == blockers.required_by@.len());
        assert(names(blockers.unknown@).len() == blockers.unknown@.len());
    }
    let removable = blockers.required_by.len() == 0 && blockers.unknown.len() == 0;
    if package.enabled {
        return (removable, removable);
    }
    let toggle = match dependency_issues_for_enable(state, package.subject.as_str()) {
        Err(_) => false,
        Ok(issues) => {
            proof {
                let info = dependency_info(*state, package.subject@);
                let ds = choose|ds: Seq<Seq<char>>|
                    crate::manager::strictly_ascending(ds) && ds.to_set() == info.0 && names(issues@) == enable_issues(*state, ds);
                lemma_enable_issues_empty(*state, ds);
                assert(names(issues@).len() == issues@.len());
                if issues@.len() == 0 {
                    assert forall|d: Seq<char>| #[trigger] info.0.contains(d) implies enable_issue(*state, d) is None by {
                        assert(ds.to_set().contains(d));
                        let k = choose|k: int| 0 <= k < ds.len() && ds[k] == d;
                        assert(enable_issue(*state, ds[k]) is None);
                    }
                } else {
                    let k = choose|k: int| 0 <= k < ds.len() && !(enable_issue(*state, #[trigger] ds[k]) is None);
                    assert(ds.to_set().contains(ds[k]));
                    assert(info.0.contains(ds[k]));
                }
            }
            issues.len() == 0
        },
    };
    (toggle, removable)
}

/// Version of an installed extension, if it has one.
pub open spec fn installed_version_of(st: ManagerState, id: Seq<char>) -> Option<VersionView> {
    match installed_lookup(st.installed@, id) {
        Some(p) => match p.version {
            Some(v) => Some(v@),
            None => None,
        },
        None => None,
    }
}

/// The release the version picker shows: the selected version where the
/// package publishes it, else the newest.
pub open spec fn picked_release(st: ManagerState, p: CatalogPackage) -> VersionView {
    match st.selected_version {
        Some(v) => if has_release(p, v@) {
            v@
        } else {
            p.latest@
        },
        None => p.latest@,
    }
}

/// The install control is enabled unless the picked release is installed.
pub open spec fn install_version_enabled(st: ManagerState, p: CatalogPackage) -> bool {
    installed_version_of(st, p.id@) != Some(picked_release(st, p))
}

/// The install control's label: updating to, switching to, reinstalling or
/// installing the picked release.
pub open spec fn install_version_label(st: ManagerState, p: CatalogPackage) -> Seq<char> {
    let picked = picked_release(st, p);
    match installed_version_of(st, p.id@) {
        Some(i) => if semver_order(i, picked) < 0 {
            "Update to "@ + version_text(picked)
        } else if semver_order(i, picked) > 0 {
            "Switch to "@ + version_text(picked)
        } else {
            "Installed "@ + version_text(picked)
        },
        None => "Install "@ + version_text(picked),
    }
}

fn picked_release_of(state: &ManagerState, package: &CatalogPackage) -> (r: Version)
    ensures
        r@ == picked_release(*state, *package),
{
    match &state.selected_version {
        Some(v) => {
            let mut k: usize = 0;
            while k < package.versions.len()
                invariant
                    k <= package.versions@.len(),
                    state.selected_version == Some(*v),
                    forall|j: int| 0 <= j < k ==> (#[trigger] package.versions@[j]).version@ != v@,
                decreases package.versions@.len() - k,
            {
                if package.versions[k].version.same(v) {
                    return v.copy();
                }
                k = k + 1;
            }
            package.latest.copy()
        },
        None => package.latest.copy(),
    }
}

/// The version controls of a catalog package: a label, the version picker, and
/// the control that installs the picked release.
pub fn build_package_version_controls(ui: &mut UiBuilder, state: &ManagerState, package: &CatalogPackage) -> (r: Vec<String>)
    requires
        old(ui).ok(),
    ensures
        final(ui).ok(),
        grows(*old(ui), *final(ui)),
        keeps_nodes(old(ui).nodes@, final(ui).nodes@),
        refs_defined(final(ui).nodes@, r@),
        offers(
            *final(ui),
            "package.install-version"@,
            install_version_enabled(*state, *package),
            ActionTarget::Package(package.id),
        ),
{
    let picked = picked_release_of(state, package);
    let mut options: Vec<SelectOption> = Vec::new();
    let mut k: usize = 0;
    while k < package.versions.len()
        invariant
            k <= package.versions@.len(),
        decreases package.versions@.len() - k,
    {
        let value = package.versions[k].version.text();
        let mut label = String::from_str("Version ");
        label.append(value.as_str());
        options.push(SelectOption { value, label });
        k = k + 1;
    }
    let picked_text = picked.text();
    let version = ui.select(picked_text.clone(), options, "package.version", true, Some(ActionTarget::Package(package.id.clone())));
    let installed = match find_installed(&state.installed, package.id.as_str()) {
        Some(i) => match &state.installed[i].version {
            Some(v) => Some(v),
            None => None,
        },
        None => None,
    };
    let (enabled, label) = match installed {
        Some(i) => {
            let o = i.order(&picked);
            if o < 0 {
                (true, update_to(picked_text.as_str()))
            } else if o > 0 {
                (true, switch_to(picked_text.as_str()))
            } else {
                (false, installed_release(picked_text.as_str()))
            }
        },
        None => (true, install_version(picked_text.as_str())),
    };
    let ghost before = *ui;
    let install = ui.button_with_appearance(
        label,
        "package.install-version",
        enabled,
        Some(ActionTarget::Package(package.id.clone())),
        ButtonAppearance::Primary,
    );
    proof {
        let k = ui.nodes@.len() - 1;
        let t = ui.action_targets@.len() - 1;
        assert(ui.nodes@[k].id == install);
        assert(ui.action_targets@[t] == (ui.nodes@[k].id, ActionTarget::Package(package.id)));
        assert(offers(*ui, "package.install-version"@, enabled, ActionTarget::Package(package.id)));
    }
    let ghost after_install = *ui;
    let note = ui.text(String::from_str("Version selected:"));
    proof {
        lemma_offers_kept(after_install, *ui, "package.install-version"@, enabled, ActionTarget::Package(package.id));
    }
    vec![note, version, install]
}

/// The visual of a catalog package: its logo where it is cached and fits the
/// image budget, else a generic icon.
pub fn package_visual(ui: &mut UiBuilder, state: &ManagerState, package: &CatalogPackage, size: u32) -> (r: String)
    requires
        old(ui).ok(),
    ensures
        extends(*old(ui), *final(ui), r@),
{
    match &package.logo {
        Some(asset) => match first_keyed(&state.logo_cache, asset.sha256.as_str()) {
            Some(i) => match &state.logo_cache[i].1 {
                Ok(image) => {
                    let mut alt = package.name.clone();
                    alt.append(" logo");
                    match ui.image(image, alt, Some(size), Some(size)) {
                        Some(node) => {
                            return node;
                        },
                        None => {},
                    }
                },
                Err(_) => {},
            },
            None => {},
        },
        None => {},
    }
    ui.icon("fallback.package", Some(package.name.clone()), Some(size))
}

/// "a · b · c".
fn dotted3(a: &str, b: &str, c: &str) -> (r: String)
    ensures
        r@ == a@ + " · "@ + b@ + " · "@ + c@,
{
    let mut r = String::from_str(a);
    r.append(" · ");
    r.append(b);
    r.append(" · ");
    r.append(c);
    r
}

fn prefixed(prefix: &str, text: &str) -> (r: String)
    ensures
        r@ == prefix@ + text@,
{
    let mut r = String::from_str(prefix);
    r.append(text);
    r
}

/// One catalog card: selection checkbox, visual, and the package's name,
/// newest version, description and metadata.
pub fn build_catalog_card(ui: &mut UiBuilder, state: &ManagerState, package: &CatalogPackage) -> (r: String)
    requires
        old(ui).ok(),
    ensures
        extends(*old(ui), *final(ui), r@),
        offers_package(*final(ui), "package.selection"@, true, package.id@),
        offers_package(*final(ui), "package.details"@, true, package.id@),
{
    let mut selected = false;
    let mut k: usize = 0;
    while k < state.selected_packages.len()
        invariant
            k <= state.selected_packages@.len(),
        decreases state.selected_packages@.len() - k,
    {
        if str_equal(state.selected_packages[k].as_str(), package.id.as_str()) {
            selected = true;
        }
        k = k + 1;
    }
    let checkbox = ui.checkbox(String::new(), selected, "package.selection", true, Some(ActionTarget::Package(package.id.clone())));
    let ghost c1 = *ui;
    proof {
        let k = c1.nodes@.len() - 1;
        let t = c1.action_targets@.len() - 1;
        assert(control_of(c1.nodes@[k].kind) == Some(("package.selection"@, true)));
        assert(c1.action_targets@[t].0 == c1.nodes@[k].id);
        assert(crate::surface::package_target(c1.action_targets@[t].1, package.id@));
        assert(offers_package(c1, "package.selection"@, true, package.id@));
    }
    let visual = package_visual(ui, state, package, 32);
    let ghost c2 = *ui;
    proof {
        lemma_shown_kept(c1, c2);
    }
    let heading = ui.button_with_appearance(
        package.name.clone(),
        "package.details",
        true,
        Some(ActionTarget::Package(package.id.clone())),
        ButtonAppearance::Subtle,
    );
    let ghost c3 = *ui;
    proof {
        lemma_shown_kept(c2, c3);
        let k = c3.nodes@.len() - 1;
        let t = c3.action_targets@.len() - 1;
        assert(control_of(c3.nodes@[k].kind) == Some(("package.details"@, true)));
        assert(c3.action_targets@[t].0 == c3.nodes@[k].id);
        assert(crate::surface::package_target(c3.action_targets@[t].1, package.id@));
        assert(offers_package(c3, "package.details"@, true, package.id@));
    }
    let latest = package.latest.text();
    let version = ui.text(prefixed("Latest ", latest.as_str()));
    let description = ui.text(truncate_display_text(package.description.as_str(), MAX_CARD_DESCRIPTION_BYTES));
    let authors = if package.authors.len() == 0 {
        String::from_str("Unknown author")
    } else {
        let joined = join_comma(&package.authors);
        truncate_display_text(joined.as_str(), MAX_CARD_AUTHORS_BYTES)
    };
    let metadata = ui.text(dotted3(authors.as_str(), package.license.as_str(), package.id.as_str()));
    let ghost c4 = *ui;
    proof {
        lemma_grows_trans(c3, c3, c4);
    }
    let info = ui.column(vec![heading, version, description, metadata]);
    let r = ui.row(vec![checkbox, visual, info]);
    proof {
        lemma_shown_kept(c3, *ui);
    }
    r
}

/// Entry `i` is the first with key `key`.
pub open spec fn first_keyed_at<T>(v: Seq<(String, T)>, key: Seq<char>, i: int) -> bool {
    &&& 0 <= i < v.len()
    &&& v[i].0@ == key
    &&& forall|j: int| 0 <= j < i ==> (#[trigger] v[j]).0@ != key
}

/// What the repository browser says of a refresh status.
pub open spec fn browser_status_text(status: RepositoryStatus) -> Seq<char> {
    if status.loaded {
        decimal(status.package_count as nat) + " packages"@
    } else {
        match status.error {
            Some(e) => "Error: "@ + e@,
            None => "Repository error"@,
        }
    }
}

/// What the repository browser says of a repository's last refresh.
fn browser_status_detail(state: &ManagerState, url: &str) -> (r: String)
    ensures
        (forall|j: int| 0 <= j < state.repository_status@.len() ==> (#[trigger] state.repository_status@[j]).0@ != url@) ==> r@
            == "Not refreshed"@,
        forall|i: int| #[trigger] first_keyed_at(state.repository_status@, url@, i) ==> r@ == browser_status_text(
            state.repository_status@[i].1,
        ),
{
    match first_keyed(&state.repository_status, url) {
        Some(i) => {
            let status = &state.repository_status[i].1;
            if status.loaded {
                let n = u64_text(status.package_count as u64);
                prefixed(n.as_str(), " packages")
            } else {
                match &status.error {
                    Some(e) => prefixed("Error: ", e.as_str()),
                    None => String::from_str("Repository error"),
                }
            }
        },
        None => String::from_str("Not refreshed"),
    }
}

/// The repository browser beside the catalog: all repositories, then each
/// configured one (enabled ones can be chosen), then links to manage them.
#[verifier::spinoff_prover]
pub fn build_repository_browser(ui: &mut UiBuilder, state: &ManagerState) -> (r: String)
    requires
        old(ui).ok(),
    ensures
        extends(*old(ui), *final(ui), r@),
        forall|i: int| 0 <= i < state.repositories@.len() ==> offers(
            *final(ui),
            "catalog.repository-target"@,
            #[trigger] state.repositories@[i].enabled,
            ActionTarget::Repository(i as usize),
        ),
{
    let title = ui.text(String::from_str(message(Message::Repositories)));
    let all_icon = ui.icon("repository.generic", Some(String::from_str("All repositories")), Some(18));
    let all_label = if state.repository_filter.is_none() {
        "All repositories ✓"
    } else {
        "All repositories"
    };
    let all = ui.button_with_appearance(String::from_str(all_label), "catalog.repository-all", true, None, ButtonAppearance::Subtle);
    let all_row = ui.row(vec![all_icon, all]);
    let ghost start = *ui;
    let mut entries: Vec<String> = vec![all_row];
    let mut index: usize = 0;
    while index < state.repositories.len()
        invariant
            index <= state.repositories@.len(),
            ui.ok(),
            grows(start, *ui),
            keeps_nodes(start.nodes@, ui.nodes@),
            refs_defined(ui.nodes@, entries@),
            has_node(ui.nodes@, title@),
            forall|i: int| 0 <= i < index ==> offers(
                *ui,
                "catalog.repository-target"@,
                #[trigger] state.repositories@[i].enabled,
                ActionTarget::Repository(i as usize),
            ),
        decreases state.repositories@.len() - index,
    {
        let ghost entry_start = *ui;
        let repository = &state.repositories[index];
        let metadata = match first_keyed(&state.loaded_repositories, repository.url.as_str()) {
            Some(i) => match &state.loaded_repositories[i].1.repository {
                Some(m) => Some(m),
                None => None,
            },
            None => None,
        };
        let mut icon: Option<String> = None;
        match metadata {
            Some(m) => match &m.icon {
                Some(asset) => match first_keyed(&state.logo_cache, asset.sha256.as_str()) {
                    Some(c) => match &state.logo_cache[c].1 {
                        Ok(image) => {
                            let alt = prefixed(m.name.as_str(), " repository icon");
                            icon = ui.image(image, alt, Some(20), Some(20));
                        },
                        Err(_) => {},
                    },
                    None => {},
                },
                None => {},
            },
            None => {},
        }
        let icon = match icon {
            Some(node) => node,
            None => ui.icon("repository.generic", Some(String::from_str("Repository")), Some(18)),
        };
        let selected = match &state.repository_filter {
            Some(u) => str_equal(u.as_str(), repository.url.as_str()),
            None => false,
        };
        let label = match metadata {
            Some(m) => m.name.clone(),
            None => repository_label(repository.url.as_str()),
        };
        let mut text = String::from_str(if selected { "✓ " } else { "" });
        text.append(label.as_str());
        text.append(if repository.enabled { "" } else { " (disabled)" });
        let ghost before_button = *ui;
        let button = ui.button_with_appearance(
            text,
            "catalog.repository-target",
            repository.enabled,
            Some(ActionTarget::Repository(index)),
            ButtonAppearance::Subtle,
        );
        proof {
            let k = ui.nodes@.len() - 1;
            let t = ui.action_targets@.len() - 1;
            assert(ui.action_targets@[t] == (ui.nodes@[k].id, ActionTarget::Repository(index)));
            assert(offers(*ui, "catalog.repository-target"@, repository.enabled, ActionTarget::Repository(index)));
        }
        let ghost after_button = *ui;
        let detail = ui.text(browser_status_detail(state, repository.url.as_str()));
        let head = ui.row(vec![icon, button]);
        let entry = ui.column(vec![head, detail]);
        entries.push(entry);
        proof {
            assert forall|i: int| 0 <= i <= index implies offers(
                *ui,
                "catalog.repository-target"@,
                #[trigger] state.repositories@[i].enabled,
                ActionTarget::Repository(i as usize),
            ) by {
                if i < index {
                    lemma_offers_kept(entry_start, *ui, "catalog.repository-target"@, state.repositories@[i].enabled, ActionTarget::Repository(i as usize));
                } else {
                    lemma_offers_kept(after_button, *ui, "catalog.repository-target"@, state.repositories@[i].enabled, ActionTarget::Repository(i as usize));
                }
            }
        }
        index = index + 1;
    }
    let ghost before_tail = *ui;
    let list = ui.list(entries);
    let manage = ui.button(String::from_str(message(Message::ManageRepositories)), "view.repositories", true, None);
    let direct = ui.button(String::from_str(message(Message::AddFromUrl)), "view.direct-url", true, None);
    let r = ui.column(vec![title, list, manage, direct]);
    proof {
        assert forall|i: int| 0 <= i < state.repositories@.len() implies offers(
            *ui,
            "catalog.repository-target"@,
            #[trigger] state.repositories@[i].enabled,
            ActionTarget::Repository(i as usize),
        ) by {
            lemma_offers_kept(before_tail, *ui, "catalog.repository-target"@, state.repositories@[i].enabled, ActionTarget::Repository(i as usize));
        }
    }
    r
}

/// The screen for installing an extension from a direct URL.
pub fn build_direct_url(ui: &mut UiBuilder, state: &ManagerState) -> (r: String)
    requires
        old(ui).ok(),
    ensures
        extends(*old(ui), *final(ui), r@),
        has_control(*final(ui), "view.close"@, true),
        has_control(*final(ui), "direct.install"@, true),
{
    let close = ui.button_with_appearance(String::from_str(message(Message::Close)), "view.close", true, None, ButtonAppearance::Subtle);
    let ghost d1 = *ui;
    proof {
        assert(control_of(d1.nodes@[d1.nodes@.len() - 1].kind) == Some(("view.close"@, true)));
    }
    let heading = ui.markdown(prefixed("## ", message(Message::InstallFromUrl)));
    let title_row = ui.row(vec![heading, close]);
    let intro = ui.markdown(String::from_str(
        "Install a Rintawa extension directly from an **HTTPS .rtw URL**. The Core still validates the RTW before it enters CAS.",
    ));
    let input = ui.input(state.direct_url.as_str(), "https://example.org/extension.rtw", "direct.input", None);
    let ghost d2 = *ui;
    proof {
        lemma_shown_kept(d1, d2);
    }
    let install = ui.button(String::from_str(message(Message::DownloadAndInstall)), "direct.install", true, None);
    let ghost d3 = *ui;
    proof {
        lemma_shown_kept(d2, d3);
        assert(control_of(d3.nodes@[d3.nodes@.len() - 1].kind) == Some(("direct.install"@, true)));
    }
    let r = ui.column(vec![title_row, intro, input, install]);
    proof {
        lemma_shown_kept(d3, *ui);
    }
    r
}


/// A Markdown link.
pub open spec fn link_text(label: Seq<char>, url: Seq<char>) -> Seq<char> {
    "["@ + label + "]("@ + url + ")"@
}

/// Links to a homepage and a source, as the details panel writes them.
fn links_text(homepage: &Option<String>, source: &Option<String>, home_label: &str, source_label: &str, separator: &str) -> (r: Option<String>)
    ensures
        match (homepage, source) {
            (Some(h), Some(x)) => r matches Some(t) && t@ == link_text(home_label@, h@) + separator@ + link_text(source_label@, x@),
            (Some(h), None) => r matches Some(t) && t@ == link_text(home_label@, h@),
            (None, Some(x)) => r matches Some(t) && t@ == link_text(source_label@, x@),
            (None, None) => r is None,
        },
{
    match (homepage, source) {
        (Some(h), Some(x)) => {
            let mut t = String::from_str("[");
            t.append(home_label);
            t.append("](");
            t.append(h.as_str());
            t.append(")");
            t.append(separator);
            t.append("[");
            t.append(source_label);
            t.append("](");
            t.append(x.as_str());
            t.append(")");
            Some(t)
        },
        (Some(h), None) => {
            let mut t = String::from_str("[");
            t.append(home_label);
            t.append("](");
            t.append(h.as_str());
            t.append(")");
            Some(t)
        },
        (None, Some(x)) => {
            let mut t = String::from_str("[");
            t.append(source_label);
            t.append("](");
            t.append(x.as_str());
            t.append(")");
            Some(t)
        },
        (None, None) => None,
    }
}

/// The details panel of a catalog package: visual, name, identity,
/// description, metadata, links and README.
pub fn build_package_details(ui: &mut UiBuilder, state: &ManagerState, package: &CatalogPackage) -> (r: String)
    requires
        old(ui).ok(),
    ensures
        extends(*old(ui), *final(ui), r@),
{
    let visual = package_visual(ui, state, package, 48);
    let name = ui.text(package.name.clone());
    let identity = ui.text(package.id.clone());
    let heading_text = ui.column(vec![name, identity]);
    let heading = ui.row(vec![visual, heading_text]);
    let description = ui.text(package.description.clone());
    let authors = if package.authors.len() == 0 {
        String::from_str("Unknown author")
    } else {
        join_comma(&package.authors)
    };
    let metadata = ui.text(dotted3(authors.as_str(), package.license.as_str(), package.repository_url.as_str()));
    let links = match links_text(&package.homepage, &package.source_url, "Homepage", "Source", " · ") {
        Some(t) => Some(ui.markdown(t)),
        None => None,
    };
    let readme_title = ui.text(String::from_str("README"));
    let readme = match &package.readme {
        Some(asset) => match first_keyed(&state.readme_cache, asset.sha256.as_str()) {
            Some(i) => match &state.readme_cache[i].1 {
                Ok(source) => ui.markdown(source.clone()),
                Err(e) => ui.text(prefixed("README unavailable: ", e.as_str())),
            },
            None => ui.text(String::from_str("Loading README…")),
        },
        None => ui.text(String::from_str("This package does not provide a README.")),
    };
    let mut children = vec![heading, description, metadata];
    match links {
        Some(l) => children.push(l),
        None => {},
    }
    children.push(readme_title);
    children.push(readme);
    ui.column(children)
}

fn select_option(value: &str, label: Message) -> (o: SelectOption)
    ensures
        o.value@ == value@,
        o.label@ == message_text(label),
{
    SelectOption { value: String::from_str(value), label: String::from_str(message(label)) }
}

/// The catalog footer offers the sort order and, with packages marked, to
/// install them or clear the marks.
pub open spec fn footer_controls(ui: UiBuilder, st: ManagerState) -> bool {
    &&& has_control(ui, "catalog.sort"@, true)
    &&& st.selected_packages@.len() > 0 ==> has_control(ui, "selection.install"@, true) && has_control(ui, "selection.clear"@, true)
}

/// `v` lists, in the browser's order, the catalog packages matching the
/// filter and search.
pub open spec fn catalog_listing(st: ManagerState, v: Seq<usize>) -> bool {
    &&& v.to_multiset() == crate::listing::shown_catalog_indices(st, st.catalog.packages@.len() as int).to_multiset()
    &&& crate::listing::in_listing_order(st, crate::listing::Listing::Catalog, v)
    &&& forall|k: int| 0 <= k < v.len() ==> (#[trigger] v[k] as int) < st.catalog.packages@.len()
}

/// The catalog list offers refresh, close and the filter, the footer's
/// controls, and for each of the first 40 matching packages a card that marks
/// it and one that shows its details.
pub open spec fn catalog_controls(ui: UiBuilder, st: ManagerState) -> bool {
    &&& has_control(ui, "catalog.refresh"@, true)
    &&& has_control(ui, "view.close"@, true)
    &&& has_control(ui, "catalog.filter"@, true)
    &&& footer_controls(ui, st)
    &&& exists|v: Seq<usize>|
        #[trigger] catalog_listing(st, v) && forall|j: int|
            0 <= j < v.len() && j < MAX_SEARCH_RESULTS ==> offers_package(
                ui,
                "package.selection"@,
                true,
                st.catalog.packages@[#[trigger] v[j] as int].id@,
            ) && offers_package(ui, "package.details"@, true, st.catalog.packages@[v[j] as int].id@)
}

/// The footer of the catalog list: sort order, the selected package's version
/// controls, and the marked packages' count with install and clear controls.
fn build_catalog_footer(ui: &mut UiBuilder, state: &ManagerState, selected: Option<usize>) -> (r: String)
    requires
        old(ui).ok(),
        selected matches Some(i) ==> i < state.catalog.packages@.len(),
    ensures
        extends(*old(ui), *final(ui), r@),
        footer_controls(*final(ui), *state),
{
    let ghost f0 = *ui;
    let sort = ui.select(
        String::from_str(state.catalog_sort.value()),
        vec![
            select_option("name", Message::SortName),
            select_option("version", Message::SortVersion),
            select_option("repository", Message::SortRepository),
        ],
        "catalog.sort",
        true,
        None,
    );
    let ghost f1 = *ui;
    proof {
        assert(control_of(f1.nodes@[f1.nodes@.len() - 1].kind) == Some(("catalog.sort"@, true)));
        assert(has_control(f1, "catalog.sort"@, true));
    }
    let mut footer: Vec<String> = vec![sort];
    match selected {
        Some(i) => {
            let controls = build_package_version_controls(ui, state, &state.catalog.packages[i]);
            let mut c: usize = 0;
            while c < controls.len()
                invariant
                    c <= controls@.len(),
                    refs_defined(ui.nodes@, controls@),
                    refs_defined(ui.nodes@, footer@),
                decreases controls@.len() - c,
            {
                footer.push(controls[c].clone());
                c = c + 1;
            }
        },
        None => {},
    }
    let ghost f2 = *ui;
    proof {
        lemma_shown_kept(f1, f2);
    }
    if state.selected_packages.len() == 0 {
        let t = ui.text(String::from_str(message(Message::NoExtensionsSelected)));
        footer.push(t);
        proof {
            lemma_shown_kept(f2, *ui);
        }
    } else {
        let count = u64_text(state.selected_packages.len() as u64);
        let t = ui.text(prefixed(count.as_str(), " selected"));
        footer.push(t);
        let ghost f3 = *ui;
        proof {
            lemma_shown_kept(f2, f3);
        }
        let install = ui.button_with_appearance(
            String::from_str(message(Message::InstallSelected)),
            "selection.install",
            true,
            None,
            ButtonAppearance::Primary,
        );
        footer.push(install);
        let ghost f4 = *ui;
        proof {
            lemma_shown_kept(f3, f4);
            assert(control_of(f4.nodes@[f4.nodes@.len() - 1].kind) == Some(("selection.install"@, true)));
        }
        let clear = ui.button(String::from_str(message(Message::ClearSelection)), "selection.clear", true, None);
        footer.push(clear);
        proof {
            lemma_shown_kept(f4, *ui);
            assert(control_of(ui.nodes@[ui.nodes@.len() - 1].kind) == Some(("selection.clear"@, true)));
        }
    }
    let ghost f5 = *ui;
    let r = ui.row(footer);
    proof {
        lemma_shown_kept(f5, *ui);
    }
    r
}

/// The catalog list: title, filter and search, a summary, at most 40 cards of
/// the matching packages, and the footer.
fn build_catalog_results(ui: &mut UiBuilder, state: &ManagerState, selected: Option<usize>) -> (r: String)
    requires
        old(ui).ok(),
        selected matches Some(i) ==> i < state.catalog.packages@.len(),
    ensures
        extends(*old(ui), *final(ui), r@),
        catalog_controls(*final(ui), *state),
{
    let title = ui.text(String::from_str(message(Message::DownloadExtensions)));
    let close = ui.button_with_appearance(String::from_str(message(Message::Close)), "view.close", true, None, ButtonAppearance::Subtle);
    let ghost r1 = *ui;
    proof {
        assert(control_of(r1.nodes@[r1.nodes@.len() - 1].kind) == Some(("view.close"@, true)));
    }
    let refresh = ui.button(String::from_str(message(Message::Refresh)), "catalog.refresh", true, None);
    let ghost r2 = *ui;
    proof {
        lemma_shown_kept(r1, r2);
        assert(control_of(r2.nodes@[r2.nodes@.len() - 1].kind) == Some(("catalog.refresh"@, true)));
    }
    let title_row = ui.row(vec![title, refresh, close]);
    let ghost r3 = *ui;
    proof {
        lemma_shown_kept(r2, r3);
    }
    let filter = ui.select(
        String::from_str(state.catalog_filter.value()),
        vec![
            select_option("all", Message::All),
            select_option("available", Message::NotInstalled),
            select_option("installed", Message::Installed),
            select_option("updates", Message::UpdatesAvailable),
        ],
        "catalog.filter",
        true,
        None,
    );
    let ghost r4 = *ui;
    proof {
        lemma_shown_kept(r3, r4);
        assert(control_of(r4.nodes@[r4.nodes@.len() - 1].kind) == Some(("catalog.filter"@, true)));
    }
    let search = ui.input(state.search.as_str(), message(Message::SearchCatalog), "search.change", None);
    let ghost r5 = *ui;
    proof {
        lemma_shown_kept(r4, r5);
    }
    let search_row = ui.row(vec![filter, search]);
    proof {
        lemma_shown_kept(r5, *ui);
    }
    let visible = filtered_catalog_packages(state);
    let ghost start = *ui;
    let mut cards: Vec<String> = Vec::new();
    let mut k: usize = 0;
    while k < visible.len() && k < MAX_SEARCH_RESULTS
        invariant
            ui.ok(),
            grows(start, *ui),
            keeps_nodes(start.nodes@, ui.nodes@),
            refs_defined(ui.nodes@, cards@),
            has_node(ui.nodes@, title_row@),
            has_node(ui.nodes@, search_row@),
            forall|j: int| 0 <= j < visible@.len() ==> (#[trigger] visible@[j] as int) < state.catalog.packages@.len(),
            has_control(*ui, "catalog.refresh"@, true),
            has_control(*ui, "view.close"@, true),
            has_control(*ui, "catalog.filter"@, true),
            k <= visible@.len(),
            forall|j: int|
                0 <= j < k ==> offers_package(*ui, "package.selection"@, true, state.catalog.packages@[#[trigger] visible@[j] as int].id@)
                    && offers_package(*ui, "package.details"@, true, state.catalog.packages@[visible@[j] as int].id@),
        decreases visible@.len() - k,
    {
        let ghost before = *ui;
        let card = build_catalog_card(ui, state, &state.catalog.packages[visible[k]]);
        proof {
            lemma_shown_kept(before, *ui);
        }
        cards.push(card);
        k = k + 1;
    }
    let ghost after_cards = *ui;
    let summary = if state.catalog.packages.len() == 0 {
        ui.markdown(String::from_str("No catalog is loaded yet. Use **Refresh** to fetch enabled repositories."))
    } else {
        let mut t = u64_text(visible.len() as u64);
        t.append(" matching extensions · ");
        let total = u64_text(state.catalog.packages.len() as u64);
        t.append(total.as_str());
        t.append(" total · showing up to 40");
        ui.text(t)
    };
    let ghost s1 = *ui;
    proof {
        lemma_shown_kept(after_cards, s1);
    }
    let catalog_list = ui.list(cards);
    let ghost s2 = *ui;
    proof {
        lemma_shown_kept(s1, s2);
    }
    let footer = build_catalog_footer(ui, state, selected);
    let ghost s3 = *ui;
    proof {
        lemma_shown_kept(s2, s3);
    }
    let r = ui.column(vec![title_row, search_row, summary, catalog_list, footer]);
    proof {
        lemma_shown_kept(s3, *ui);
        assert(catalog_listing(*state, visible@));
    }
    r
}

/// The catalog browser: repositories, the matching packages, and the details
/// of the selected package, side by side.
pub fn build_browse(ui: &mut UiBuilder, state: &ManagerState) -> (r: String)
    requires
        old(ui).ok(),
    ensures
        extends(*old(ui), *final(ui), r@),
        catalog_controls(*final(ui), *state),
        forall|i: int| 0 <= i < state.repositories@.len() ==> offers(
            *final(ui),
            "catalog.repository-target"@,
            #[trigger] state.repositories@[i].enabled,
            ActionTarget::Repository(i as usize),
        ),
{
    let selected = match &state.selected_package {
        Some(id) => find_catalog(&state.catalog.packages, id.as_str()),
        None => None,
    };
    let catalog = build_catalog_results(ui, state, selected);
    let ghost b1 = *ui;
    let catalog = ui.presentation_semantic(catalog, "management.extensions.catalog.results", &["collection", "primary-content"]);
    let ghost b2 = *ui;
    proof {
        lemma_shown_kept(b1, b2);
    }
    let repositories = build_repository_browser(ui, state);
    let ghost b3 = *ui;
    proof {
        lemma_shown_kept(b2, b3);
    }
    let repositories = ui.presentation_semantic(
        repositories,
        "management.extensions.catalog.repositories",
        &["navigation", "source-list"],
    );
    let ghost mut mark = *ui;
    proof {
        lemma_grows_trans(b2, b3, mark);
        lemma_shown_kept(b3, mark);
    }
    let details_content = match selected {
        Some(i) => build_package_details(ui, state, &state.catalog.packages[i]),
        None => {
            let icon = ui.icon("fallback.package", Some(String::from_str("Extension details")), Some(40));
            let hint = ui.text(String::from_str("Select an extension to view details and README."));
            ui.column(vec![icon, hint])
        },
    };
    proof {
        lemma_shown_kept(mark, *ui);
        mark = *ui;
    }
    let details_title = ui.text(String::from_str(message(Message::Details)));
    proof {
        lemma_shown_kept(mark, *ui);
        mark = *ui;
    }
    let details = ui.column(vec![details_title, details_content]);
    proof {
        lemma_shown_kept(mark, *ui);
        mark = *ui;
    }
    let details = ui.presentation_semantic(details, "management.extensions.catalog.details", &["inspector", "selection-context"]);
    proof {
        lemma_shown_kept(mark, *ui);
        mark = *ui;
    }
    let layout = ui.split_with_id("browse.split", "horizontal", vec![repositories, catalog, details], vec![28, 100, 44]);
    proof {
        lemma_shown_kept(mark, *ui);
        mark = *ui;
    }
    let r = ui.presentation_semantic(layout, "management.extensions.catalog.layout", &["resizable", "workspace-layout"]);
    proof {
        lemma_shown_kept(mark, *ui);
        assert(catalog_controls(*ui, *state)) by {
            let v = choose|v: Seq<usize>| #[trigger] catalog_listing(*state, v) && forall|j: int|
                0 <= j < v.len() && j < MAX_SEARCH_RESULTS ==> offers_package(
                    b1,
                    "package.selection"@,
                    true,
                    state.catalog.packages@[#[trigger] v[j] as int].id@,
                ) && offers_package(b1, "package.details"@, true, state.catalog.packages@[v[j] as int].id@);
            assert(catalog_listing(*state, v));
        }
    }
    r
}

/// The permissions a component requested and was not granted, in request
/// order.
pub open spec fn denied_permissions(requested: Seq<String>, granted: Seq<String>) -> Seq<Seq<char>>
    decreases requested.len(),
{
    if requested.len() == 0 {
        Seq::empty()
    } else {
        let prev = denied_permissions(requested.drop_last(), granted);
        let p = requested.last()@;
        if exists|g: int| 0 <= g < granted.len() && (#[trigger] granted[g])@ == p {
            prev
        } else {
            prev.push(p)
        }
    }
}

fn denied_list(component: &InstalledComponentPolicy) -> (r: Vec<String>)
    ensures
        names(r@) == denied_permissions(component.requested@, component.granted@),
{
    let mut out: Vec<String> = Vec::new();
    let mut k: usize = 0;
    while k < component.requested.len()
        invariant
            k <= component.requested@.len(),
            names(out@) == denied_permissions(component.requested@.take(k as int), component.granted@),
        decreases component.requested@.len() - k,
    {
        let p = component.requested[k].as_str();
        let mut granted = false;
        let mut g: usize = 0;
        while g < component.granted.len()
            invariant
                g <= component.granted@.len(),
                granted == exists|h: int| 0 <= h < g && (#[trigger] component.granted@[h])@ == p@,
            decreases component.granted@.len() - g,
        {
            if str_equal(component.granted[g].as_str(), p) {
                granted = true;
            }
            g = g + 1;
        }
        proof {
            let t = component.requested@.take(k + 1);
            assert(t.drop_last() =~= component.requested@.take(k as int));
            assert(t.last() == component.requested@[k as int]);
        }
        if !granted {
            let ghost before = out@;
            out.push(component.requested[k].clone());
            proof {
                assert(names(out@) =~= names(before).push(p@));
            }
        }
        k = k + 1;
    }
    proof {
        assert(component.requested@.take(component.requested@.len() as int) =~= component.requested@);
    }
    out
}

fn none_or_joined(items: &Vec<String>) -> (r: String)
    ensures
        r@ == if items@.len() == 0 {
            "none"@
        } else {
            comma_joined(names(items@))
        },
{
    if items.len() == 0 {
        String::from_str("none")
    } else {
        join_comma(items)
    }
}

/// The runtime permissions of an installed extension: per component, what it
/// requested, was granted and was denied.
pub fn build_installed_permissions(ui: &mut UiBuilder, state: &ManagerState, package: &InstalledPackage) -> (r: String)
    requires
        old(ui).ok(),
    ensures
        extends(*old(ui), *final(ui), r@),
{
    let title = ui.markdown(prefixed("### ", message(Message::RuntimePermissions)));
    match &state.installed_policy_error {
        Some(e) => {
            let error = ui.text(e.clone());
            return ui.column(vec![title, error]);
        },
        None => {},
    }
    let mut found: Option<usize> = None;
    let mut p: usize = 0;
    while p < state.installed_policy.len()
        invariant
            p <= state.installed_policy@.len(),
            found matches Some(i) ==> i < state.installed_policy@.len(),
        decreases state.installed_policy@.len() - p,
    {
        let key = &state.installed_policy[p].0;
        if found.is_none() && str_equal(key.0.as_str(), package.scope_id.as_str())
            && str_equal(key.1.as_str(), package.instance_id.as_str()) {
            found = Some(p);
        }
        p = p + 1;
    }
    let components = match found {
        None => {
            let empty = ui.text(String::from_str("No runtime permission policy is registered for this extension."));
            return ui.column(vec![title, empty]);
        },
        Some(i) => &state.installed_policy[i].1,
    };
    let ghost start = *ui;
    let mut rows: Vec<String> = Vec::new();
    let mut c: usize = 0;
    while c < components.len()
        invariant
            c <= components@.len(),
            ui.ok(),
            grows(start, *ui),
            keeps_nodes(start.nodes@, ui.nodes@),
            refs_defined(ui.nodes@, rows@),
            has_node(ui.nodes@, title@),
        decreases components@.len() - c,
    {
        let component = &components[c];
        if component.requested.len() == 0 {
            let t = ui.text(prefixed(component.component_id.as_str(), " · no runtime permissions requested"));
            rows.push(t);
        } else {
            let denied = denied_list(component);
            let mut requested_text = prefixed(component.component_id.as_str(), " · requested: ");
            let requested_joined = join_comma(&component.requested);
            requested_text.append(requested_joined.as_str());
            let requested = ui.text(requested_text);
            let granted_joined = none_or_joined(&component.granted);
            let granted = ui.text(prefixed("Granted: ", granted_joined.as_str()));
            let denied_joined = none_or_joined(&denied);
            let denied_node = ui.text(prefixed("Denied: ", denied_joined.as_str()));
            let row = ui.column(vec![requested, granted, denied_node]);
            rows.push(row);
        }
        c = c + 1;
    }
    let permissions = ui.list(rows);
    ui.column(vec![title, permissions])
}

/// The summary of the selected installed extension: visual, name, version,
/// provider and identifier, and the catalog description where there is one.
pub fn build_installed_details(ui: &mut UiBuilder, state: &ManagerState, package: &InstalledPackage) -> (r: String)
    requires
        old(ui).ok(),
    ensures
        extends(*old(ui), *final(ui), r@),
{
    let catalog = find_catalog(&state.catalog.packages, package.subject.as_str());
    let visual = match catalog {
        Some(i) => package_visual(ui, state, &state.catalog.packages[i], 32),
        None => ui.icon("fallback.package", Some(package.name.clone()), Some(32)),
    };
    let name = ui.text(package.name.clone());
    let version = match &package.version_text {
        Some(v) => prefixed("Version ", v.as_str()),
        None => String::from_str("Version unknown"),
    };
    let provider = installed_provider(state, package);
    let metadata = ui.text(dotted3(version.as_str(), provider.as_str(), package.subject.as_str()));
    let mut summary = vec![name, metadata];
    match catalog {
        Some(i) => {
            let d = ui.text(state.catalog.packages[i].description.clone());
            summary.push(d);
        },
        None => {},
    }
    let summary = ui.column(summary);
    ui.row(vec![visual, summary])
}

/// What the details list says of a record's dependencies.
pub open spec fn dependencies_text(record: ManagedInstallRecord) -> Seq<char> {
    if record.dependencies_known && record.dependencies@.len() == 0 {
        "Dependencies: none"@
    } else if record.dependencies_known {
        "Dependencies: "@ + comma_joined(names(record.dependencies@))
    } else {
        "Dependencies: exact metadata unavailable"@
    }
}

/// What the details list says of an extension's recorded dependencies.
fn dependencies_summary(state: &ManagerState, subject: &str) -> (r: String)
    ensures
        (forall|j: int| 0 <= j < state.managed_installs@.len() ==> (#[trigger] state.managed_installs@[j]).0@ != subject@) ==> r@
            == "Dependencies: exact metadata unavailable"@,
        forall|i: int| #[trigger] first_keyed_at(state.managed_installs@, subject@, i) ==> r@ == dependencies_text(
            state.managed_installs@[i].1,
        ),
{
    match first_keyed(&state.managed_installs, subject) {
        Some(i) => {
            let record = &state.managed_installs[i].1;
            if record.dependencies_known && record.dependencies.len() == 0 {
                String::from_str("Dependencies: none")
            } else if record.dependencies_known {
                let joined = join_comma(&record.dependencies);
                prefixed("Dependencies: ", joined.as_str())
            } else {
                String::from_str("Dependencies: exact metadata unavailable")
            }
        },
        None => String::from_str("Dependencies: exact metadata unavailable"),
    }
}

/// The commands of the selected installed extension: enable or disable (as
/// `toggle_allowed` allows), change version and update where the catalog has
/// it, remove (as `removal_allowed` allows), and its details.
fn build_selected_commands(ui: &mut UiBuilder, state: &ManagerState, package: &InstalledPackage) -> (r: Vec<String>)
    requires
        old(ui).ok(),
    ensures
        final(ui).ok(),
        grows(*old(ui), *final(ui)),
        keeps_nodes(old(ui).nodes@, final(ui).nodes@),
        refs_defined(final(ui).nodes@, r@),
        offers(*final(ui), "package.toggle"@, toggle_allowed(*state, *package), ActionTarget::Activation(package.subject)),
        offers(*final(ui), "package.uninstall"@, removal_allowed(*state, package.subject@), ActionTarget::Activation(package.subject)),
{
    let mut actions: Vec<String> = Vec::new();
    let heading = ui.text(String::from_str(message(Message::SelectedExtension)));
    actions.push(heading);
    let (toggle_enabled, removable) = activation_controls(state, package);
    let toggle_label = if package.enabled {
        message(Message::Disable)
    } else {
        message(Message::Enable)
    };
    let toggle = ui.button(
        String::from_str(toggle_label),
        "package.toggle",
        toggle_enabled,
        Some(ActionTarget::Activation(package.subject.clone())),
    );
    proof {
        let k = ui.nodes@.len() - 1;
        let t = ui.action_targets@.len() - 1;
        assert(ui.action_targets@[t] == (ui.nodes@[k].id, ActionTarget::Activation(package.subject)));
        assert(offers(*ui, "package.toggle"@, toggle_enabled, ActionTarget::Activation(package.subject)));
    }
    let ghost after_toggle = *ui;
    actions.push(toggle);
    match find_catalog(&state.catalog.packages, package.subject.as_str()) {
        Some(i) => {
            let change = ui.button(
                String::from_str(message(Message::ChangeVersion)),
                "package.details",
                true,
                Some(ActionTarget::Package(package.subject.clone())),
            );
            actions.push(change);
            let newer = match &package.version {
                Some(v) => v.older_than(&state.catalog.packages[i].latest),
                None => false,
            };
            if newer {
                let latest = state.catalog.packages[i].latest.text();
                let update = ui.button(
                    update_to(latest.as_str()),
                    "package.update",
                    true,
                    Some(ActionTarget::Package(package.subject.clone())),
                );
                actions.push(update);
            }
        },
        None => {},
    }
    let ghost before_remove = *ui;
    let remove = ui.button_with_appearance(
        String::from_str(message(Message::Remove)),
        "package.uninstall",
        removable,
        Some(ActionTarget::Activation(package.subject.clone())),
        ButtonAppearance::Danger,
    );
    proof {
        let k = ui.nodes@.len() - 1;
        let t = ui.action_targets@.len() - 1;
        assert(ui.action_targets@[t] == (ui.nodes@[k].id, ActionTarget::Activation(package.subject)));
        assert(offers(*ui, "package.uninstall"@, removable, ActionTarget::Activation(package.subject)));
        lemma_offers_kept(after_toggle, *ui, "package.toggle"@, toggle_enabled, ActionTarget::Activation(package.subject));
    }
    let ghost after_remove = *ui;
    actions.push(remove);
    let details = ui.text(String::from_str(message(Message::Details)));
    actions.push(details);
    let artifact = ui.text(prefixed("Artifact ", package.digest.as_str()));
    actions.push(artifact);
    let mut instance = prefixed("Instance ", package.instance_id.as_str());
    instance.append(" · scope ");
    instance.append(package.scope_id.as_str());
    let instance = ui.text(instance);
    actions.push(instance);
    let dependencies = ui.text(dependencies_summary(state, package.subject.as_str()));
    actions.push(dependencies);
    let permissions = build_installed_permissions(ui, state, package);
    actions.push(permissions);
    match find_catalog(&state.catalog.packages, package.subject.as_str()) {
        Some(i) => {
            let c = &state.catalog.packages[i];
            match links_text(&c.homepage, &c.source_url, "View Homepage", "View Source", "\n\n") {
                Some(t) => {
                    let links = ui.markdown(t);
                    actions.push(links);
                },
                None => {},
            }
        },
        None => {},
    }
    proof {
        lemma_offers_kept(after_remove, *ui, "package.toggle"@, toggle_enabled, ActionTarget::Activation(package.subject));
        lemma_offers_kept(after_remove, *ui, "package.uninstall"@, removable, ActionTarget::Activation(package.subject));
    }
    actions
}

/// The command column of the installed list: general actions, then the
/// commands of the selected extension, if any.
/// The general commands of the installed list: browse, check for updates,
/// add a file (not offered yet), install from a URL, and repositories.
pub open spec fn general_commands(ui: UiBuilder) -> bool {
    &&& has_control(ui, "view.browse"@, true)
    &&& has_control(ui, "catalog.refresh"@, true)
    &&& has_control(ui, "package.add-file"@, false)
    &&& has_control(ui, "view.direct-url"@, true)
    &&& has_control(ui, "view.repositories"@, true)
}

pub fn build_installed_commands(ui: &mut UiBuilder, state: &ManagerState, selected: Option<&InstalledPackage>) -> (r: String)
    requires
        old(ui).ok(),
    ensures
        extends(*old(ui), *final(ui), r@),
        general_commands(*final(ui)),
        selected matches Some(p) ==> offers(*final(ui), "package.toggle"@, toggle_allowed(*state, *p), ActionTarget::Activation(p.subject)),
        selected matches Some(p) ==> offers(*final(ui), "package.uninstall"@, removal_allowed(*state, p.subject@), ActionTarget::Activation(p.subject)),
{
    let general = ui.text(String::from_str(message(Message::GeneralActions)));
    let ghost u0 = *ui;
    let download = ui.button(String::from_str(message(Message::DownloadExtensions)), "view.browse", true, None);
    let ghost u1 = *ui;
    proof {
        assert(control_of(u1.nodes@[u1.nodes@.len() - 1].kind) == Some(("view.browse"@, true)));
    }
    let refresh = ui.button(String::from_str(message(Message::CheckForUpdates)), "catalog.refresh", true, None);
    let ghost u2 = *ui;
    proof {
        lemma_shown_kept(u1, u2);
        assert(control_of(u2.nodes@[u2.nodes@.len() - 1].kind) == Some(("catalog.refresh"@, true)));
    }
    let add_file = ui.button(String::from_str(message(Message::AddFile)), "package.add-file", false, None);
    let ghost u3 = *ui;
    proof {
        lemma_shown_kept(u2, u3);
        assert(control_of(u3.nodes@[u3.nodes@.len() - 1].kind) == Some(("package.add-file"@, false)));
    }
    let direct = ui.button(String::from_str(message(Message::AddFromUrl)), "view.direct-url", true, None);
    let ghost u4 = *ui;
    proof {
        lemma_shown_kept(u3, u4);
        assert(control_of(u4.nodes@[u4.nodes@.len() - 1].kind) == Some(("view.direct-url"@, true)));
    }
    let repositories = ui.button(String::from_str(message(Message::Repositories)), "view.repositories", true, None);
    let ghost u5 = *ui;
    proof {
        lemma_shown_kept(u4, u5);
        assert(control_of(u5.nodes@[u5.nodes@.len() - 1].kind) == Some(("view.repositories"@, true)));
        assert(general_commands(u5));
    }
    let mut actions = vec![general, download, refresh, add_file, direct, repositories];
    match selected {
        Some(package) => {
            let more = build_selected_commands(ui, state, package);
            let ghost after = *ui;
            let mut c: usize = 0;
            while c < more.len()
                invariant
                    c <= more@.len(),
                    refs_defined(ui.nodes@, more@),
                    refs_defined(ui.nodes@, actions@),
                decreases more@.len() - c,
            {
                actions.push(more[c].clone());
                c = c + 1;
            }
            let r = ui.column(actions);
            proof {
                lemma_grows_trans(u5, after, *ui);
                lemma_shown_kept(u5, *ui);
                lemma_offers_kept(after, *ui, "package.toggle"@, toggle_allowed(*state, *package), ActionTarget::Activation(package.subject));
                lemma_offers_kept(after, *ui, "package.uninstall"@, removal_allowed(*state, package.subject@), ActionTarget::Activation(package.subject));
            }
            r
        },
        None => {
            let r = ui.column(actions);
            proof {
                lemma_shown_kept(u5, *ui);
            }
            r
        },
    }
}

/// Grid column `c` sorts by `column` under the header `label`, showing the
/// current direction where the installed list is sorted by it.
pub open spec fn is_sort_column(state: ManagerState, c: GridColumn, column: InstalledSortColumn, label: Message, weight: u32) -> bool {
    &&& c.key matches Some(k) && k@ == sort_column_key(column)
    &&& c.label@ == message_text(label)
    &&& c.weight == weight
    &&& c.sort_action matches Some(a) && a@ == "installed.sort"@
    &&& if state.installed_sort == column {
        c.sort_direction matches Some(d) && d@ == direction_value(state.installed_sort_direction)
    } else {
        c.sort_direction is None
    }
}

fn sort_column(state: &ManagerState, column: InstalledSortColumn, label: Message, weight: u32) -> (c: GridColumn)
    ensures
        is_sort_column(*state, c, column, label, weight),
{
    let direction = if state.installed_sort == column {
        Some(state.installed_sort_direction)
    } else {
        None
    };
    GridColumn::sortable(column.key(), String::from_str(message(label)), weight, direction)
}

/// The installed list's grid columns.
fn installed_grid_columns(state: &ManagerState) -> (r: Vec<GridColumn>)
    ensures
        r@.len() == 6,
        is_sort_column(*state, r@[0], InstalledSortColumn::Enabled, Message::ColumnEnable, 8),
        r@[1].key is None && r@[1].label@ == message_text(Message::ColumnImage) && r@[1].weight == 9 && r@[1].sort_action is None
            && r@[1].sort_direction is None,
        is_sort_column(*state, r@[2], InstalledSortColumn::Name, Message::ColumnName, 32),
        is_sort_column(*state, r@[3], InstalledSortColumn::Version, Message::ColumnVersion, 15),
        is_sort_column(*state, r@[4], InstalledSortColumn::Provider, Message::ColumnProvider, 20),
        is_sort_column(*state, r@[5], InstalledSortColumn::Status, Message::ColumnStatus, 24),
{
    vec![
        sort_column(state, InstalledSortColumn::Enabled, Message::ColumnEnable, 8),
        GridColumn::plain(String::from_str(message(Message::ColumnImage)), 9),
        sort_column(state, InstalledSortColumn::Name, Message::ColumnName, 32),
        sort_column(state, InstalledSortColumn::Version, Message::ColumnVersion, 15),
        sort_column(state, InstalledSortColumn::Provider, Message::ColumnProvider, 20),
        sort_column(state, InstalledSortColumn::Status, Message::ColumnStatus, 24),
    ]
}

/// The grid of installed extensions matching the search, at most 200 rows in
/// list order, each with its enable checkbox, visual, name, version, provider
/// and status.
fn build_installed_grid(ui: &mut UiBuilder, state: &ManagerState, selected: Option<usize>, visible: &Vec<usize>) -> (r: String)
    requires
        old(ui).ok(),
        selected matches Some(i) ==> i < state.installed@.len(),
        forall|j: int| 0 <= j < visible@.len() ==> (#[trigger] visible@[j] as int) < state.installed@.len(),
    ensures
        extends(*old(ui), *final(ui), r@),
        forall|j: int|
            0 <= j < visible@.len() && j < MAX_INSTALLED_RESULTS ==> offers(
                *final(ui),
                "package.enabled"@,
                toggle_allowed(*state, state.installed@[#[trigger] visible@[j] as int]),
                ActionTarget::Activation(state.installed@[visible@[j] as int].subject),
            ),
{
    let ghost start = *ui;
    let mut cells: Vec<String> = Vec::new();
    let mut selected_rows: Vec<u32> = Vec::new();
    let mut row_keys: Vec<String> = Vec::new();
    let mut row: usize = 0;
    while row < visible.len() && row < MAX_INSTALLED_RESULTS
        invariant
            ui.ok(),
            grows(start, *ui),
            keeps_nodes(start.nodes@, ui.nodes@),
            refs_defined(ui.nodes@, cells@),
            row <= MAX_INSTALLED_RESULTS,
            selected matches Some(i) ==> i < state.installed@.len(),
            forall|j: int| 0 <= j < visible@.len() ==> (#[trigger] visible@[j] as int) < state.installed@.len(),
            forall|j: int|
                0 <= j < row ==> offers(
                    *ui,
                    "package.enabled"@,
                    toggle_allowed(*state, state.installed@[#[trigger] visible@[j] as int]),
                    ActionTarget::Activation(state.installed@[visible@[j] as int].subject),
                ),
        decreases visible@.len() - row,
    {
        let package = &state.installed[visible[row]];
        let ghost g0 = *ui;
        let is_selected = match selected {
            Some(i) => str_equal(state.installed[i].subject.as_str(), package.subject.as_str()),
            None => false,
        };
        if is_selected {
            selected_rows.push(row as u32);
        }
        row_keys.push(package.subject.clone());
        let visual = match find_catalog(&state.catalog.packages, package.subject.as_str()) {
            Some(c) => package_visual(ui, state, &state.catalog.packages[c], 32),
            None => ui.icon("fallback.package", Some(package.name.clone()), Some(32)),
        };
        let (toggle_enabled, _) = activation_controls(state, package);
        let ghost g1 = *ui;
        proof {
            lemma_grows_trans(start, g0, g1);
            lemma_shown_kept(g0, g1);
        }
        let enabled = ui.checkbox(
            String::new(),
            package.enabled,
            "package.enabled",
            toggle_enabled,
            Some(ActionTarget::Activation(package.subject.clone())),
        );
        let ghost g2 = *ui;
        proof {
            lemma_shown_kept(g1, g2);
            let k = g2.nodes@.len() - 1;
            let t = g2.action_targets@.len() - 1;
            assert(control_of(g2.nodes@[k].kind) == Some(("package.enabled"@, toggle_enabled)));
            assert(g2.action_targets@[t] == (g2.nodes@[k].id, ActionTarget::Activation(package.subject)));
            assert(offers(g2, "package.enabled"@, toggle_enabled, ActionTarget::Activation(package.subject)));
        }
        let name = ui.text(package.name.clone());
        let ghost g3 = *ui;
        proof {
            lemma_shown_kept(g2, g3);
        }
        let version = ui.text(
            match &package.version_text {
                Some(v) => v.clone(),
                None => String::from_str("Unknown"),
            },
        );
        let ghost g4 = *ui;
        proof {
            lemma_shown_kept(g3, g4);
        }
        let provider = ui.text(installed_provider(state, package));
        let ghost g5 = *ui;
        proof {
            lemma_shown_kept(g4, g5);
        }
        let status = ui.text(String::from_str(message(installed_status(state, package).message())));
        proof {
            lemma_shown_kept(g5, *ui);
        }
        let ghost before_cells = cells@;
        cells.push(enabled);
        cells.push(visual);
        cells.push(name);
        cells.push(version);
        cells.push(provider);
        cells.push(status);
        proof {
            assert forall|j: int| 0 <= j < cells@.len() implies has_node(ui.nodes@, #[trigger] cells@[j]@) by {
                if j < before_cells.len() {
                    assert(cells@[j] == before_cells[j]);
                }
            }
        }
        row = row + 1;
    }
    let ghost before_grid = *ui;
    let r = ui.data_grid_with_id(
        "installed.grid",
        installed_grid_columns(state),
        cells,
        selected_rows,
        row_keys,
        Some("installed.row-select"),
    );
    proof {
        lemma_shown_kept(before_grid, *ui);
    }
    r
}

/// The installed extension shown in detail, if any.
pub open spec fn selected_installed(st: ManagerState) -> Option<InstalledPackage> {
    match st.selected_package {
        Some(s) => installed_lookup(st.installed@, s@),
        None => None,
    }
}

/// The installed list's title: how many extensions are installed, and
/// whether one is selected.
pub open spec fn installed_title(st: ManagerState) -> Seq<char> {
    message_text(Message::Extensions) + " ("@ + decimal(st.installed@.len() as nat) + if selected_installed(st) is Some {
        " installed, 1 selected)"@
    } else {
        " installed)"@
    }
}

/// `v` lists, in the installed list's order, the installed extensions that
/// match the search.
pub open spec fn installed_listing(st: ManagerState, v: Seq<usize>) -> bool {
    let query = crate::text::unicode_lowercase(crate::text::trim(st.installed_search@));
    &&& v.to_multiset() == crate::listing::shown_installed_indices(st, query, st.installed@.len() as int).to_multiset()
    &&& crate::listing::in_listing_order(st, crate::listing::Listing::Installed, v)
    &&& forall|k: int| 0 <= k < v.len() ==> (#[trigger] v[k] as int) < st.installed@.len()
}

/// The installed list shows a row for each of the first 200 matching
/// extensions, with its enable control (enabled as the rules allow), and says
/// how many more there are.
pub open spec fn installed_rows(ui: UiBuilder, st: ManagerState, v: Seq<usize>) -> bool {
    &&& forall|j: int|
        0 <= j < v.len() && j < MAX_INSTALLED_RESULTS ==> offers(
            ui,
            "package.enabled"@,
            toggle_allowed(st, st.installed@[#[trigger] v[j] as int]),
            ActionTarget::Activation(st.installed@[v[j] as int].subject),
        )
    &&& v.len() > MAX_INSTALLED_RESULTS ==> shows_text(
        ui,
        "Showing first 200 of "@ + decimal(v.len() as nat) + " matches. Narrow the search to find more."@,
    )
}

/// The installed list: title, search, the grid of matching extensions and the
/// selected one's details, beside the command column.
pub fn build_installed(ui: &mut UiBuilder, state: &ManagerState) -> (r: String)
    requires
        old(ui).ok(),
    ensures
        extends(*old(ui), *final(ui), r@),
        selected_installed(*state) matches Some(p) ==> offers(*final(ui), "package.toggle"@, toggle_allowed(*state, p), ActionTarget::Activation(p.subject))
            && offers(*final(ui), "package.uninstall"@, removal_allowed(*state, p.subject@), ActionTarget::Activation(p.subject)),
        general_commands(*final(ui)),
        shows_text(*final(ui), installed_title(*state)),
        state.installed@.len() > 0 ==> exists|v: Seq<usize>| #[trigger] installed_listing(*state, v) && installed_rows(*final(ui), *state, v),
{
    let selected = match &state.selected_package {
        Some(subject) => find_installed(&state.installed, subject.as_str()),
        None => None,
    };
    let count = u64_text(state.installed.len() as u64);
    let mut title_text = String::from_str(message(Message::Extensions));
    title_text.append(" (");
    title_text.append(count.as_str());
    title_text.append(if selected.is_some() { " installed, 1 selected)" } else { " installed)" });
    let title = ui.text(title_text);
    let ghost after_title = *ui;
    proof {
        assert(title_text@ == installed_title(*state));
        assert(crate::surface::text_kind(after_title.nodes@[after_title.nodes@.len() - 1].kind, installed_title(*state)));
    }
    let search = ui.input(state.installed_search.as_str(), message(Message::SearchInstalled), "installed.search", None);
    let search = ui.presentation_semantic(search, "management.extensions.installed.search", &["filter", "user-input"]);
    let selected_package = match selected {
        Some(i) => Some(&state.installed[i]),
        None => None,
    };
    if state.installed.len() == 0 {
        let icon = ui.icon("fallback.package", Some(String::from_str(message(Message::Extensions))), Some(40));
        let empty = ui.text(String::from_str("No baseline extensions are installed."));
        let hint = ui.text(String::from_str("Use Download Extensions to browse configured repositories."));
        let body = ui.column(vec![title, icon, empty, hint, search]);
        let body = ui.presentation_semantic(body, "management.extensions.installed.content", &["primary-content"]);
        let ghost before_commands = *ui;
        proof {
            lemma_grows_trans(after_title, before_commands, before_commands);
        }
        let commands = build_installed_commands(ui, state, selected_package);
        let ghost after_commands = *ui;
        let commands = ui.presentation_semantic(commands, "management.extensions.installed.commands", &["command-set"]);
        let layout = ui.split_with_id("installed.split", "horizontal", vec![body, commands], vec![100, 24]);
        let r = ui.presentation_semantic(layout, "management.extensions.installed.layout", &["resizable", "workspace-layout"]);
        proof {
            lemma_grows_trans(after_title, before_commands, after_commands);
            lemma_grows_trans(after_title, after_commands, *ui);
            lemma_shown_kept(after_title, *ui);
            lemma_shown_kept(after_commands, *ui);
            match selected_package {
                Some(p) => {
                    lemma_offers_kept(after_commands, *ui, "package.toggle"@, toggle_allowed(*state, *p), ActionTarget::Activation(p.subject));
                    lemma_offers_kept(after_commands, *ui, "package.uninstall"@, removal_allowed(*state, p.subject@), ActionTarget::Activation(p.subject));
                },
                None => {},
            }
        }
        return r;
    }
    let trimmed = trim_string(state.installed_search.as_str());
    let query = to_lowercase(trimmed.as_str());
    let visible = visible_installed_packages(state, query.as_str());
    let ghost before_grid = *ui;
    let grid = build_installed_grid(ui, state, selected, &visible);
    let ghost after_grid = *ui;
    proof {
        lemma_grows_trans(after_title, before_grid, after_grid);
    }
    let ghost mut mark = *ui;
    let grid = ui.presentation_semantic(grid, "management.extensions.installed.items", &["collection", "primary-content", "resizable"]);
    proof {
        lemma_grows_trans(after_title, mark, *ui);
        lemma_grows_trans(after_grid, mark, *ui);
        mark = *ui;
    }
    let details = match selected_package {
        Some(p) => build_installed_details(ui, state, p),
        None => ui.text(String::from_str("Select an installed extension to view details.")),
    };
    proof {
        lemma_grows_trans(after_title, mark, *ui);
        lemma_grows_trans(after_grid, mark, *ui);
        mark = *ui;
    }
    let details = ui.presentation_semantic(details, "management.extensions.installed.selection-details", &["inspector", "selection-context"]);
    proof {
        lemma_grows_trans(after_title, mark, *ui);
        lemma_grows_trans(after_grid, mark, *ui);
        mark = *ui;
    }
    let mut content = vec![title, search];
    if visible.len() > MAX_INSTALLED_RESULTS {
        let mut t = String::from_str("Showing first 200 of ");
        let n = u64_text(visible.len() as u64);
        t.append(n.as_str());
        t.append(" matches. Narrow the search to find more.");
        let more = ui.text(t);
        proof {
            lemma_grows_trans(after_title, mark, *ui);
            lemma_grows_trans(after_grid, mark, *ui);
            mark = *ui;
            assert(crate::surface::text_kind(ui.nodes@[ui.nodes@.len() - 1].kind, t@));
        }
        content.push(more);
    }
    let ghost after_more = *ui;
    content.push(grid);
    content.push(details);
    let content = ui.column(content);
    proof {
        lemma_grows_trans(after_title, mark, *ui);
        lemma_grows_trans(after_grid, mark, *ui);
        lemma_grows_trans(after_more, mark, *ui);
        mark = *ui;
    }
    let content = ui.presentation_semantic(content, "management.extensions.installed.content", &["primary-content"]);
    proof {
        lemma_grows_trans(after_title, mark, *ui);
        lemma_grows_trans(after_grid, mark, *ui);
        lemma_grows_trans(after_more, mark, *ui);
        mark = *ui;
    }
    let ghost before_commands = *ui;
    let commands = build_installed_commands(ui, state, selected_package);
    let ghost after_commands = *ui;
    let commands = ui.presentation_semantic(commands, "management.extensions.installed.commands", &["command-set", "selection-context"]);
    let layout = ui.split_with_id("installed.split", "horizontal", vec![content, commands], vec![100, 24]);
    let r = ui.presentation_semantic(layout, "management.extensions.installed.layout", &["resizable", "workspace-layout"]);
    proof {
        assert(installed_listing(*state, visible@));
        lemma_grows_trans(after_title, before_commands, after_commands);
        lemma_grows_trans(after_grid, before_commands, after_commands);
        lemma_grows_trans(after_more, before_commands, after_commands);
        lemma_grows_trans(after_commands, after_commands, *ui);
        lemma_grows_trans(after_title, after_commands, *ui);
        lemma_grows_trans(after_grid, after_commands, *ui);
        lemma_grows_trans(after_more, after_commands, *ui);
        lemma_shown_kept(after_title, *ui);
        lemma_shown_kept(after_grid, *ui);
        lemma_shown_kept(after_more, *ui);
        lemma_shown_kept(after_commands, *ui);
        assert(installed_rows(*ui, *state, visible@));
        match selected_package {
            Some(p) => {
                lemma_offers_kept(after_commands, *ui, "package.toggle"@, toggle_allowed(*state, *p), ActionTarget::Activation(p.subject));
                lemma_offers_kept(after_commands, *ui, "package.uninstall"@, removal_allowed(*state, p.subject@), ActionTarget::Activation(p.subject));
            },
            None => {},
        }
    }
    r
}

/// What the repository list says of a refresh status.
pub open spec fn manage_status_text(status: RepositoryStatus) -> Seq<char> {
    if status.loaded {
        "loaded \u{b7} "@ + decimal(status.package_count as nat) + " packages"@
    } else {
        match status.error {
            Some(e) => "error \u{b7} "@ + e@,
            None => "error \u{b7} unknown repository error"@,
        }
    }
}

/// What the repository list says of a repository's last refresh.
fn manage_status_detail(state: &ManagerState, url: &str) -> (r: String)
    ensures
        (forall|j: int| 0 <= j < state.repository_status@.len() ==> (#[trigger] state.repository_status@[j]).0@ != url@) ==> r@
            == "not refreshed this session"@,
        forall|i: int| #[trigger] first_keyed_at(state.repository_status@, url@, i) ==> r@ == manage_status_text(
            state.repository_status@[i].1,
        ),
{
    match first_keyed(&state.repository_status, url) {
        Some(i) => {
            let status = &state.repository_status[i].1;
            if status.loaded {
                let n = u64_text(status.package_count as u64);
                let mut t = prefixed("loaded · ", n.as_str());
                t.append(" packages");
                t
            } else {
                match &status.error {
                    Some(e) => prefixed("error · ", e.as_str()),
                    None => String::from_str("error · unknown repository error"),
                }
            }
        },
        None => String::from_str("not refreshed this session"),
    }
}

/// The repository list: each configured repository with its refresh status,
/// an enable or disable control, and a remove control for all but the
/// built-in one; then the field to add one.
#[verifier::rlimit(40)]
#[verifier::spinoff_prover]
pub fn build_repositories(ui: &mut UiBuilder, state: &ManagerState) -> (r: String)
    requires
        old(ui).ok(),
    ensures
        extends(*old(ui), *final(ui), r@),
        forall|i: int| 0 <= i < state.repositories@.len() ==> #[trigger] offers(
            *final(ui),
            "repository.toggle"@,
            true,
            ActionTarget::Repository(i as usize),
        ),
        forall|i: int| 0 <= i < state.repositories@.len() && (#[trigger] state.repositories@[i]).url@ != crate::registry::BUILTIN_REPOSITORY@
            ==> offers(*final(ui), "repository.remove"@, true, ActionTarget::Repository(i as usize)),
{
    let close = ui.button_with_appearance(String::from_str(message(Message::Close)), "view.close", true, None, ButtonAppearance::Subtle);
    let heading = ui.markdown(prefixed("## ", message(Message::Repositories)));
    let title_row = ui.row(vec![heading, close]);
    let intro = ui.markdown(String::from_str(
        "Repositories provide registry index.json files. Earlier repositories have higher priority when package ids collide.",
    ));
    let input = ui.input(state.repository_input.as_str(), "https://example.org/rintawa/index.json", "repository.input", None);
    let add = ui.button_with_appearance(
        String::from_str(message(Message::AddRepository)),
        "repository.add",
        true,
        None,
        ButtonAppearance::Primary,
    );
    let add_row = ui.row(vec![input, add]);
    let ghost start = *ui;
    let mut rows: Vec<String> = Vec::new();
    let mut index: usize = 0;
    while index < state.repositories.len()
        invariant
            index <= state.repositories@.len(),
            ui.ok(),
            grows(start, *ui),
            keeps_nodes(start.nodes@, ui.nodes@),
            refs_defined(ui.nodes@, rows@),
            has_node(ui.nodes@, title_row@),
            has_node(ui.nodes@, intro@),
            has_node(ui.nodes@, add_row@),
            forall|i: int| 0 <= i < index ==> #[trigger] offers(*ui, "repository.toggle"@, true, ActionTarget::Repository(i as usize)),
            forall|i: int| 0 <= i < index && (#[trigger] state.repositories@[i]).url@ != crate::registry::BUILTIN_REPOSITORY@
                ==> offers(*ui, "repository.remove"@, true, ActionTarget::Repository(i as usize)),
        decreases state.repositories@.len() - index,
    {
        let ghost entry_start = *ui;
        let repository = &state.repositories[index];
        let built_in = str_equal(repository.url.as_str(), crate::registry::BUILTIN_REPOSITORY);
        let mut title_text = repository.url.clone();
        title_text.append(if built_in { " · built-in" } else { "" });
        let title = ui.text(title_text);
        let detail = ui.text(manage_status_detail(state, repository.url.as_str()));
        let label = if repository.enabled {
            message(Message::Disable)
        } else {
            message(Message::Enable)
        };
        let toggle = ui.button(String::from_str(label), "repository.toggle", true, Some(ActionTarget::Repository(index)));
        proof {
            let k = ui.nodes@.len() - 1;
            let t = ui.action_targets@.len() - 1;
            assert(ui.action_targets@[t] == (ui.nodes@[k].id, ActionTarget::Repository(index)));
            assert(offers(*ui, "repository.toggle"@, true, ActionTarget::Repository(index)));
        }
        let ghost after_toggle = *ui;
        let mut actions = vec![toggle];
        if !built_in {
            let remove = ui.button(String::from_str(message(Message::Remove)), "repository.remove", true, Some(ActionTarget::Repository(index)));
            proof {
                let k = ui.nodes@.len() - 1;
                let t = ui.action_targets@.len() - 1;
                assert(ui.action_targets@[t] == (ui.nodes@[k].id, ActionTarget::Repository(index)));
                assert(offers(*ui, "repository.remove"@, true, ActionTarget::Repository(index)));
            }
            actions.push(remove);
        }
        let ghost after_remove = *ui;
        let actions = ui.row(actions);
        let row = ui.column(vec![title, detail, actions]);
        rows.push(row);
        proof {
            assert forall|i: int| 0 <= i <= index implies #[trigger] offers(*ui, "repository.toggle"@, true, ActionTarget::Repository(i as usize)) by {
                if i < index {
                    lemma_offers_kept(entry_start, *ui, "repository.toggle"@, true, ActionTarget::Repository(i as usize));
                } else {
                    lemma_offers_kept(after_toggle, *ui, "repository.toggle"@, true, ActionTarget::Repository(i as usize));
                }
            }
            assert forall|i: int| 0 <= i <= index && (#[trigger] state.repositories@[i]).url@ != crate::registry::BUILTIN_REPOSITORY@
                implies offers(*ui, "repository.remove"@, true, ActionTarget::Repository(i as usize)) by {
                if i < index {
                    lemma_offers_kept(entry_start, *ui, "repository.remove"@, true, ActionTarget::Repository(i as usize));
                } else {
                    lemma_offers_kept(after_remove, *ui, "repository.remove"@, true, ActionTarget::Repository(i as usize));
                }
            }
        }
        index = index + 1;
    }
    let ghost before_tail = *ui;
    let list = ui.list(rows);
    let r = ui.column(vec![title_row, intro, list, add_row]);
    proof {
        assert forall|i: int| 0 <= i < state.repositories@.len() implies #[trigger] offers(*ui, "repository.toggle"@, true, ActionTarget::Repository(i as usize)) by {
            lemma_offers_kept(before_tail, *ui, "repository.toggle"@, true, ActionTarget::Repository(i as usize));
        }
        assert forall|i: int| 0 <= i < state.repositories@.len() && (#[trigger] state.repositories@[i]).url@ != crate::registry::BUILTIN_REPOSITORY@
            implies offers(*ui, "repository.remove"@, true, ActionTarget::Repository(i as usize)) by {
            lemma_offers_kept(before_tail, *ui, "repository.remove"@, true, ActionTarget::Repository(i as usize));
        }
    }
    r
}

/// The review of a pending install: its origin, each package with its
/// identity and a checkbox per requested permission, and the confirm and
/// cancel controls.
#[verifier::spinoff_prover]
pub fn build_pending_install(ui: &mut UiBuilder, pending: &PendingInstall) -> (r: String)
    requires
        old(ui).ok(),
    ensures
        extends(*old(ui), *final(ui), r@),
        forall|i: int, p: int| 0 <= i < pending.items@.len() && 0 <= p < pending.items@[i].permissions@.len() ==> #[trigger] offers(
            *final(ui),
            "install.permission-toggle"@,
            true,
            ActionTarget::Permission { item: i as usize, permission: p as usize },
        ),
        has_control(*final(ui), "install.confirm"@, true),
        has_control(*final(ui), "install.cancel"@, true),
{
    let mut intro_text = String::from_str("**Review installation**\n\nOrigin: ");
    intro_text.append(pending.origin.as_str());
    intro_text.append("\n\nNo baseline activation changes have been made yet.");
    let intro = ui.markdown(intro_text);
    let ghost start = *ui;
    let mut packages: Vec<String> = Vec::new();
    let mut item_index: usize = 0;
    while item_index < pending.items.len()
        invariant
            item_index <= pending.items@.len(),
            ui.ok(),
            grows(start, *ui),
            keeps_nodes(start.nodes@, ui.nodes@),
            refs_defined(ui.nodes@, packages@),
            has_node(ui.nodes@, intro@),
            forall|i: int, p: int| 0 <= i < item_index && 0 <= p < pending.items@[i].permissions@.len() ==> #[trigger] offers(
                *ui,
                "install.permission-toggle"@,
                true,
                ActionTarget::Permission { item: i as usize, permission: p as usize },
            ),
        decreases pending.items@.len() - item_index,
    {
        let ghost iter_start = *ui;
        let item = &pending.items[item_index];
        let mut heading_text = item.name.clone();
        heading_text.append("  ");
        heading_text.append(item.version.as_str());
        let heading = ui.text(heading_text);
        let mut identity_text = item.subject.clone();
        identity_text.append(" · ");
        identity_text.append(item.digest.as_str());
        let identity = ui.text(identity_text);
        let origin = ui.text(prefixed("Origin: ", item.origin.as_str()));
        let ghost item_start = *ui;
        let permissions = if item.permissions.len() == 0 {
            let none = ui.text(String::from_str("No runtime permissions requested."));
            ui.column(vec![none])
        } else {
            let mut rows: Vec<String> = Vec::new();
            let mut permission_index: usize = 0;
            while permission_index < item.permissions.len()
                invariant
                    permission_index <= item.permissions@.len(),
                    item_index < pending.items@.len(),
                    *item == pending.items@[item_index as int],
                    ui.ok(),
                    grows(item_start, *ui),
                    keeps_nodes(item_start.nodes@, ui.nodes@),
                    refs_defined(ui.nodes@, rows@),
                    forall|p: int| 0 <= p < permission_index ==> #[trigger] offers(
                        *ui,
                        "install.permission-toggle"@,
                        true,
                        ActionTarget::Permission { item: item_index, permission: p as usize },
                    ),
                decreases item.permissions@.len() - permission_index,
            {
                let ghost row_start = *ui;
                let permission = &item.permissions[permission_index];
                let mut label = permission.component_id.clone();
                label.append(" · ");
                label.append(permission.permission.as_str());
                let checkbox = ui.checkbox(
                    label,
                    permission.selected,
                    "install.permission-toggle",
                    true,
                    Some(ActionTarget::Permission { item: item_index, permission: permission_index }),
                );
                proof {
                    let k = ui.nodes@.len() - 1;
                    let t = ui.action_targets@.len() - 1;
                    assert(ui.action_targets@[t] == (ui.nodes@[k].id, ActionTarget::Permission { item: item_index, permission: permission_index }));
                    assert(offers(*ui, "install.permission-toggle"@, true, ActionTarget::Permission { item: item_index, permission: permission_index }));
                    assert forall|p: int| 0 <= p <= permission_index implies #[trigger] offers(
                        *ui,
                        "install.permission-toggle"@,
                        true,
                        ActionTarget::Permission { item: item_index, permission: p as usize },
                    ) by {
                        if p < permission_index {
                            lemma_offers_kept(row_start, *ui, "install.permission-toggle"@, true, ActionTarget::Permission { item: item_index, permission: p as usize });
                        }
                    }
                }
                rows.push(checkbox);
                permission_index = permission_index + 1;
            }
            let ghost before_column = *ui;
            let c = ui.column(rows);
            proof {
                assert forall|p: int| 0 <= p < item.permissions@.len() implies #[trigger] offers(
                    *ui,
                    "install.permission-toggle"@,
                    true,
                    ActionTarget::Permission { item: item_index, permission: p as usize },
                ) by {
                    lemma_offers_kept(before_column, *ui, "install.permission-toggle"@, true, ActionTarget::Permission { item: item_index, permission: p as usize });
                }
            }
            c
        };
        let ghost before_entry = *ui;
        let entry = ui.column(vec![heading, identity, origin, permissions]);
        packages.push(entry);
        proof {
            assert forall|i: int, p: int| 0 <= i <= item_index && 0 <= p < pending.items@[i].permissions@.len() implies #[trigger] offers(
                *ui,
                "install.permission-toggle"@,
                true,
                ActionTarget::Permission { item: i as usize, permission: p as usize },
            ) by {
                if i < item_index {
                    lemma_offers_kept(iter_start, *ui, "install.permission-toggle"@, true, ActionTarget::Permission { item: i as usize, permission: p as usize });
                } else {
                    lemma_offers_kept(before_entry, *ui, "install.permission-toggle"@, true, ActionTarget::Permission { item: i as usize, permission: p as usize });
                }
            }
        }
        item_index = item_index + 1;
    }
    let ghost before_tail = *ui;
    let package_list = ui.list(packages);
    let note = ui.markdown(String::from_str(
        "Selected permissions will be explicitly granted to the exact component principals. Unselected requested permissions remain denied.",
    ));
    let confirm = ui.button_with_appearance(
        String::from_str(message(Message::ConfirmInstall)),
        "install.confirm",
        true,
        None,
        ButtonAppearance::Primary,
    );
    let ghost e1 = *ui;
    proof {
        assert(control_of(e1.nodes@[e1.nodes@.len() - 1].kind) == Some(("install.confirm"@, true)));
    }
    let cancel = ui.button(String::from_str(message(Message::Cancel)), "install.cancel", true, None);
    let ghost e2 = *ui;
    proof {
        lemma_shown_kept(e1, e2);
        assert(control_of(e2.nodes@[e2.nodes@.len() - 1].kind) == Some(("install.cancel"@, true)));
    }
    let actions = ui.row(vec![confirm, cancel]);
    let ghost e3 = *ui;
    proof {
        lemma_shown_kept(e2, e3);
    }
    let r = ui.column(vec![intro, package_list, note, actions]);
    proof {
        lemma_shown_kept(e3, *ui);
        assert forall|i: int, p: int| 0 <= i < pending.items@.len() && 0 <= p < pending.items@[i].permissions@.len() implies #[trigger] offers(
            *ui,
            "install.permission-toggle"@,
            true,
            ActionTarget::Permission { item: i as usize, permission: p as usize },
        ) by {
            lemma_offers_kept(before_tail, *ui, "install.permission-toggle"@, true, ActionTarget::Permission { item: i as usize, permission: p as usize });
        }
    }
    r
}

/// `s` is what the builder `ui` finishes as: its nodes under the root node,
/// with its targets.
pub open spec fn finished_from(ui: UiBuilder, s: RenderedSurface) -> bool {
    &&& s.nodes@.len() == ui.nodes@.len() + 1
    &&& s.nodes@.drop_last() == ui.nodes@
    &&& s.action_targets@ == ui.action_targets@
}

/// What the surface shows for the manager state: the status line, and the
/// pending install's review (its permission toggles, confirm and cancel) where
/// there is one, else what the current screen offers.
pub open spec fn surface_shown(ui: UiBuilder, st: ManagerState) -> bool {
    &&& shows_text(ui, st.status@)
    &&& match st.pending_install {
        Some(pending) => {
            &&& has_control(ui, "install.confirm"@, true)
            &&& has_control(ui, "install.cancel"@, true)
            &&& forall|i: int, p: int|
                0 <= i < pending.items@.len() && 0 <= p < pending.items@[i].permissions@.len() ==> #[trigger] offers(
                    ui,
                    "install.permission-toggle"@,
                    true,
                    ActionTarget::Permission { item: i as usize, permission: p as usize },
                )
        },
        None => match st.view {
            Screen::Browse => {
                &&& catalog_controls(ui, st)
                &&& forall|i: int|
                    0 <= i < st.repositories@.len() ==> offers(
                        ui,
                        "catalog.repository-target"@,
                        #[trigger] st.repositories@[i].enabled,
                        ActionTarget::Repository(i as usize),
                    )
            },
            Screen::Installed => {
                &&& general_commands(ui)
                &&& shows_text(ui, installed_title(st))
                &&& st.installed@.len() > 0 ==> exists|v: Seq<usize>| #[trigger] installed_listing(st, v) && installed_rows(ui, st, v)
                &&& selected_installed(st) matches Some(p) ==> offers(
                    ui,
                    "package.toggle"@,
                    toggle_allowed(st, p),
                    ActionTarget::Activation(p.subject),
                ) && offers(ui, "package.uninstall"@, removal_allowed(st, p.subject@), ActionTarget::Activation(p.subject))
            },
            Screen::Repositories => {
                &&& forall|i: int| 0 <= i < st.repositories@.len() ==> #[trigger] offers(ui, "repository.toggle"@, true, ActionTarget::Repository(i as usize))
                &&& forall|i: int|
                    0 <= i < st.repositories@.len() && (#[trigger] st.repositories@[i]).url@ != crate::registry::BUILTIN_REPOSITORY@
                        ==> offers(ui, "repository.remove"@, true, ActionTarget::Repository(i as usize))
            },
            Screen::DirectUrl => has_control(ui, "view.close"@, true) && has_control(ui, "direct.install"@, true),
        },
    }
}

/// The whole surface: the pending install's review where there is one, else
/// the current screen, with the status line.
pub fn build_surface(state: &ManagerState) -> (s: RenderedSurface)
    ensures
        crate::surface::well_formed(s.nodes@),
        crate::surface::targets_defined(s.nodes@, s.action_targets@),
        s.nodes@.len() > 0,
        s.nodes@.last().id@ == "root"@,
        exists|ui: UiBuilder| #[trigger] finished_from(ui, s) && surface_shown(ui, *state),
{
    let mut ui = UiBuilder::new();
    let status = ui.text(state.status.clone());
    let ghost u0 = ui;
    proof {
        assert(crate::surface::text_kind(u0.nodes@[u0.nodes@.len() - 1].kind, state.status@));
    }
    match &state.pending_install {
        Some(pending) => {
            let title = ui.markdown(prefixed("## ", message(Message::InstallationReview)));
            let ghost u1 = ui;
            proof {
                lemma_shown_kept(u0, u1);
            }
            let review = build_pending_install(&mut ui, pending);
            let ghost u2 = ui;
            proof {
                lemma_shown_kept(u1, u2);
            }
            let content = ui.column(vec![title, review, status]);
            let ghost u3 = ui;
            proof {
                lemma_shown_kept(u2, u3);
                assert(surface_shown(u3, *state));
            }
            let s = ui.finish(vec![content]);
            proof {
                assert(finished_from(u3, s));
            }
            return s;
        },
        None => {},
    }
    let workspace = match state.view {
        Screen::Browse => build_browse(&mut ui, state),
        Screen::Installed => build_installed(&mut ui, state),
        Screen::Repositories => build_repositories(&mut ui, state),
        Screen::DirectUrl => build_direct_url(&mut ui, state),
    };
    let ghost u4 = ui;
    proof {
        lemma_shown_kept(u0, u4);
    }
    let content = ui.column(vec![workspace, status]);
    let ghost u5 = ui;
    proof {
        lemma_shown_kept(u4, u5);
        assert(surface_shown(u5, *state)) by {
            if state.view == Screen::Installed && state.installed@.len() > 0 {
                let v = choose|v: Seq<usize>| #[trigger] installed_listing(*state, v) && installed_rows(u4, *state, v);
                assert(installed_listing(*state, v));
            }
            if state.view == Screen::Browse {
                let v = choose|v: Seq<usize>| #[trigger] catalog_listing(*state, v) && forall|j: int|
                    0 <= j < v.len() && j < MAX_SEARCH_RESULTS ==> offers_package(
                        u4,
                        "package.selection"@,
                        true,
                        state.catalog.packages@[#[trigger] v[j] as int].id@,
                    ) && offers_package(u4, "package.details"@, true, state.catalog.packages@[v[j] as int].id@);
                assert(catalog_listing(*state, v));
            }
        }
    }
    let s = ui.finish(vec![content]);
    proof {
        assert(finished_from(u5, s));
    }
    s
}

} // verus!
