//! Package manager state: views, installed extensions, dependency bookkeeping,
//! pending installs, and the rules that decide what the user may do with them.

use vstd::prelude::*;
use vstd::multiset::Multiset;

use crate::catalog::{Catalog, CatalogPackage};
use crate::messages::{message, message_text, Message};
use crate::registry::{RegistryIndex, RegistryVersion, RepositoryPreference, BUILTIN_REPOSITORY};
use crate::text::{eq_ignore_ascii_case, eq_ignore_case, seq_order, str_equal, text_order};
use crate::version::{Version, VersionView};

verus! {

/// A screen of the package manager.
#[derive(Debug, Clone, Copy, PartialEq, Eq, Structural)]
pub enum Screen {
    Installed,
    Browse,
    Repositories,
    DirectUrl,
}

/// Column by which installed extensions are sorted.
#[derive(Debug, Clone, Copy, PartialEq, Eq, Structural)]
pub enum InstalledSortColumn {
    Enabled,
    Name,
    Version,
    Provider,
    Status,
}

/// Sort direction.
#[derive(Debug, Clone, Copy, PartialEq, Eq, Structural)]
pub enum SortDirection {
    Ascending,
    Descending,
}

/// Which catalog packages the browser lists.
#[derive(Debug, Clone, Copy, PartialEq, Eq, Structural)]
pub enum CatalogFilter {
    All,
    Available,
    Installed,
    Updates,
}

/// Order of the catalog browser.
#[derive(Debug, Clone, Copy, PartialEq, Eq, Structural)]
pub enum CatalogSort {
    Name,
    Version,
    Repository,
}

/// Status shown for an installed extension.
#[derive(Debug, Clone, Copy, PartialEq, Eq, Structural)]
pub enum InstalledStatus {
    Enabled,
    Disabled,
    UpdateAvailable,
    PublishedBuildDiffers,
    RequiredDependency,
    DependencyMetadataUnknown,
}

/// Stable key of an installed sort column.
pub open spec fn sort_column_key(c: InstalledSortColumn) -> Seq<char> {
    match c {
        InstalledSortColumn::Enabled => "enabled"@,
        InstalledSortColumn::Name => "name"@,
        InstalledSortColumn::Version => "version"@,
        InstalledSortColumn::Provider => "provider"@,
        InstalledSortColumn::Status => "status"@,
    }
}

impl InstalledSortColumn {
    /// Stable key of the column.
    pub fn key(self) -> (r: &'static str)
        ensures
            r@ == sort_column_key(self),
    {
        match self {
            InstalledSortColumn::Enabled => "enabled",
            InstalledSortColumn::Name => "name",
            InstalledSortColumn::Version => "version",
            InstalledSortColumn::Provider => "provider",
            InstalledSortColumn::Status => "status",
        }
    }

    /// The column with that key.
    pub fn parse(value: &str) -> (r: Result<InstalledSortColumn, String>)
        ensures
            match r {
                Ok(c) => sort_column_key(c) == value@,
                Err(e) => e@ == "unknown installed sort column '"@ + value@ + "'"@
                    && forall|c: InstalledSortColumn| sort_column_key(c) != value@,
            },
    {
        proof {
            reveal_strlit("enabled");
            reveal_strlit("name");
            reveal_strlit("version");
            reveal_strlit("provider");
            reveal_strlit("status");
        }
        if str_equal(value, "enabled") {
            Ok(InstalledSortColumn::Enabled)
        } else if str_equal(value, "name") {
            Ok(InstalledSortColumn::Name)
        } else if str_equal(value, "version") {
            Ok(InstalledSortColumn::Version)
        } else if str_equal(value, "provider") {
            Ok(InstalledSortColumn::Provider)
        } else if str_equal(value, "status") {
            Ok(InstalledSortColumn::Status)
        } else {
            let mut e = String::from_str("unknown installed sort column '");
            e.append(value);
            e.append("'");
            Err(e)
        }
    }
}

/// Stable value of a sort direction.
pub open spec fn direction_value(d: SortDirection) -> Seq<char> {
    match d {
        SortDirection::Ascending => "ascending"@,
        SortDirection::Descending => "descending"@,
    }
}

/// The opposite direction.
pub open spec fn opposite(d: SortDirection) -> SortDirection {
    match d {
        SortDirection::Ascending => SortDirection::Descending,
        SortDirection::Descending => SortDirection::Ascending,
    }
}

impl SortDirection {
    /// Stable value of the direction.
    pub fn value(self) -> (r: &'static str)
        ensures
            r@ == direction_value(self),
    {
        match self {
            SortDirection::Ascending => "ascending",
            SortDirection::Descending => "descending",
        }
    }

    /// The opposite direction.
    pub fn reversed(self) -> (r: SortDirection)
        ensures
            r == opposite(self),
    {
        match self {
            SortDirection::Ascending => SortDirection::Descending,
            SortDirection::Descending => SortDirection::Ascending,
        }
    }
}

/// Stable value of a catalog filter.
pub open spec fn filter_value(f: CatalogFilter) -> Seq<char> {
    match f {
        CatalogFilter::All => "all"@,
        CatalogFilter::Available => "available"@,
        CatalogFilter::Installed => "installed"@,
        CatalogFilter::Updates => "updates"@,
    }
}

impl CatalogFilter {
    /// Stable value of the filter.
    pub fn value(self) -> (r: &'static str)
        ensures
            r@ == filter_value(self),
    {
        match self {
            CatalogFilter::All => "all",
            CatalogFilter::Available => "available",
            CatalogFilter::Installed => "installed",
            CatalogFilter::Updates => "updates",
        }
    }

    /// The filter with that value.
    pub fn parse(value: &str) -> (r: Result<CatalogFilter, String>)
        ensures
            match r {
                Ok(f) => filter_value(f) == value@,
                Err(e) => e@ == "unknown catalog filter '"@ + value@ + "'"@
                    && forall|f: CatalogFilter| filter_value(f) != value@,
            },
    {
        proof {
            reveal_strlit("all");
            reveal_strlit("available");
            reveal_strlit("installed");
            reveal_strlit("updates");
        }
        if str_equal(value, "all") {
            Ok(CatalogFilter::All)
        } else if str_equal(value, "available") {
            Ok(CatalogFilter::Available)
        } else if str_equal(value, "installed") {
            Ok(CatalogFilter::Installed)
        } else if str_equal(value, "updates") {
            Ok(CatalogFilter::Updates)
        } else {
            let mut e = String::from_str("unknown catalog filter '");
            e.append(value);
            e.append("'");
            Err(e)
        }
    }
}

/// Stable value of a catalog order.
pub open spec fn catalog_sort_value(s: CatalogSort) -> Seq<char> {
    match s {
        CatalogSort::Name => "name"@,
        CatalogSort::Version => "version"@,
        CatalogSort::Repository => "repository"@,
    }
}

impl CatalogSort {
    /// Stable value of the order.
    pub fn value(self) -> (r: &'static str)
        ensures
            r@ == catalog_sort_value(self),
    {
        match self {
            CatalogSort::Name => "name",
            CatalogSort::Version => "version",
            CatalogSort::Repository => "repository",
        }
    }

    /// The order with that value.
    pub fn parse(value: &str) -> (r: Result<CatalogSort, String>)
        ensures
            match r {
                Ok(s) => catalog_sort_value(s) == value@,
                Err(e) => e@ == "unknown catalog sort '"@ + value@ + "'"@
                    && forall|s: CatalogSort| catalog_sort_value(s) != value@,
            },
    {
        proof {
            reveal_strlit("name");
            reveal_strlit("version");
            reveal_strlit("repository");
        }
        if str_equal(value, "name") {
            Ok(CatalogSort::Name)
        } else if str_equal(value, "version") {
            Ok(CatalogSort::Version)
        } else if str_equal(value, "repository") {
            Ok(CatalogSort::Repository)
        } else {
            let mut e = String::from_str("unknown catalog sort '");
            e.append(value);
            e.append("'");
            Err(e)
        }
    }
}

/// Message shown for a status.
pub open spec fn status_message(s: InstalledStatus) -> Message {
    match s {
        InstalledStatus::Enabled => Message::StatusEnabled,
        InstalledStatus::Disabled => Message::StatusDisabled,
        InstalledStatus::UpdateAvailable => Message::StatusUpdateAvailable,
        InstalledStatus::PublishedBuildDiffers => Message::StatusPublishedBuildDiffers,
        InstalledStatus::RequiredDependency => Message::StatusRequiredDependency,
        InstalledStatus::DependencyMetadataUnknown => Message::StatusDependencyMetadataUnknown,
    }
}

/// Rank of a status when installed extensions are sorted by status.
pub open spec fn status_rank(s: InstalledStatus) -> int {
    match s {
        InstalledStatus::Enabled => 0,
        InstalledStatus::Disabled => 1,
        InstalledStatus::UpdateAvailable => 2,
        InstalledStatus::PublishedBuildDiffers => 3,
        InstalledStatus::RequiredDependency => 4,
        InstalledStatus::DependencyMetadataUnknown => 5,
    }
}

impl InstalledStatus {
    /// Message shown for the status.
    pub fn message(self) -> (r: Message)
        ensures
            r == status_message(self),
    {
        match self {
            InstalledStatus::Enabled => Message::StatusEnabled,
            InstalledStatus::Disabled => Message::StatusDisabled,
            InstalledStatus::UpdateAvailable => Message::StatusUpdateAvailable,
            InstalledStatus::PublishedBuildDiffers => Message::StatusPublishedBuildDiffers,
            InstalledStatus::RequiredDependency => Message::StatusRequiredDependency,
            InstalledStatus::DependencyMetadataUnknown => Message::StatusDependencyMetadataUnknown,
        }
    }

    /// Rank of the status in status order.
    pub fn rank(self) -> (r: u8)
        ensures
            r == status_rank(self),
    {
        match self {
            InstalledStatus::Enabled => 0,
            InstalledStatus::Disabled => 1,
            InstalledStatus::UpdateAvailable => 2,
            InstalledStatus::PublishedBuildDiffers => 3,
            InstalledStatus::RequiredDependency => 4,
            InstalledStatus::DependencyMetadataUnknown => 5,
        }
    }
}

/// An installed extension, as the host's composition reports it.
#[derive(Debug)]
pub struct InstalledPackage {
    /// Package identifier.
    pub subject: String,
    /// Display name.
    pub name: String,
    /// Version text as installed.
    pub version_text: Option<String>,
    /// Parsed version, where the text is a version.
    pub version: Option<Version>,
    /// Content digest of the installed artifact.
    pub digest: String,
    /// Activation instance.
    pub instance_id: String,
    /// Activation scope.
    pub scope_id: String,
    /// Whether the activation is enabled.
    pub enabled: bool,
}

/// What the package manager recorded about a package it installed.
#[derive(Debug)]
pub struct ManagedInstallRecord {
    /// Installed version text.
    pub version: String,
    /// Identifiers of the packages it depends on.
    pub dependencies: Vec<String>,
    /// Whether `dependencies` is known to be complete.
    pub dependencies_known: bool,
}

/// A runtime permission requested by a component of a pending install.
#[derive(Debug)]
pub struct PreparedPermission {
    /// Requesting component.
    pub component_id: String,
    /// Requested permission.
    pub permission: String,
    /// Whether the user grants it.
    pub selected: bool,
}

/// One artifact of a pending install, imported and inspected.
#[derive(Debug)]
pub struct PreparedInstallItem {
    /// Content digest of the imported artifact.
    pub digest: String,
    /// Package identifier.
    pub subject: String,
    /// Display name.
    pub name: String,
    /// Version text.
    pub version: String,
    /// Where the artifact came from.
    pub origin: String,
    /// Dependencies, where the source declares them.
    pub dependencies: Option<Vec<String>>,
    /// Requested permissions.
    pub permissions: Vec<PreparedPermission>,
}

/// An install awaiting the user's review.
#[derive(Debug)]
pub struct PendingInstall {
    /// What the install was started from.
    pub origin: String,
    /// Artifacts to install.
    pub items: Vec<PreparedInstallItem>,
}

/// What a rendered control acts on.
#[derive(Debug)]
pub enum ActionTarget {
    Package(String),
    Activation(String),
    Repository(usize),
    Permission { item: usize, permission: usize },
}

/// Installed packages that stand in the way of removing or disabling one.
#[derive(Debug)]
pub struct DependencyBlockers {
    /// Installed packages that depend on it.
    pub required_by: Vec<String>,
    /// Installed packages whose dependencies are unknown.
    pub unknown: Vec<String>,
}

/// Outcome of the last refresh of one repository.
#[derive(Debug)]
pub struct RepositoryStatus {
    /// Whether the index loaded.
    pub loaded: bool,
    /// Number of packages it lists.
    pub package_count: usize,
    /// Why it failed to load, where it did.
    pub error: Option<String>,
}

/// Runtime permissions one component of an installed extension requested and
/// was granted.
#[derive(Debug)]
pub struct InstalledComponentPolicy {
    /// Component.
    pub component_id: String,
    /// Requested permissions.
    pub requested: Vec<String>,
    /// Granted permissions.
    pub granted: Vec<String>,
}

/// An image fetched and verified for display.
#[derive(Debug)]
pub struct CachedImage {
    /// Media type.
    pub media_type: String,
    /// Base64 of the image bytes.
    pub data_base64: String,
}

/// The package manager's state.
#[derive(Debug)]
pub struct ManagerState {
    /// Configured repositories, built-in first.
    pub repositories: Vec<RepositoryPreference>,
    /// Registry indexes loaded, by repository URL.
    pub loaded_repositories: Vec<(String, RegistryIndex)>,
    /// Outcome of the last refresh, by repository URL.
    pub repository_status: Vec<(String, RepositoryStatus)>,
    /// Catalog merged from the enabled loaded repositories.
    pub catalog: Catalog,
    /// Installed extensions.
    pub installed: Vec<InstalledPackage>,
    /// Runtime permission policy, by activation scope and instance.
    pub installed_policy: Vec<((String, String), Vec<InstalledComponentPolicy>)>,
    /// Why the runtime permission policy could not be read, where it could not.
    pub installed_policy_error: Option<String>,
    /// Records of managed installs, by package identifier.
    pub managed_installs: Vec<(String, ManagedInstallRecord)>,
    /// Current screen.
    pub view: Screen,
    /// Screens to return to, most recent last.
    pub view_history: Vec<Screen>,
    /// Catalog search text.
    pub search: String,
    /// Installed-list search text.
    pub installed_search: String,
    /// Installed-list sort column.
    pub installed_sort: InstalledSortColumn,
    /// Installed-list sort direction.
    pub installed_sort_direction: SortDirection,
    /// Repository the catalog browser is restricted to.
    pub repository_filter: Option<String>,
    /// Catalog browser filter.
    pub catalog_filter: CatalogFilter,
    /// Catalog browser order.
    pub catalog_sort: CatalogSort,
    /// Package shown in detail.
    pub selected_package: Option<String>,
    /// Version shown in detail.
    pub selected_version: Option<Version>,
    /// Catalog packages marked for installation.
    pub selected_packages: Vec<String>,
    /// Logos and repository icons fetched, by SHA-256 digest.
    pub logo_cache: Vec<(String, Result<CachedImage, String>)>,
    /// READMEs fetched, by SHA-256 digest.
    pub readme_cache: Vec<(String, Result<String, String>)>,
    /// Repository URL being typed.
    pub repository_input: String,
    /// Direct artifact URL being typed.
    pub direct_url: String,
    /// Install awaiting review.
    pub pending_install: Option<PendingInstall>,
    /// Status line.
    pub status: String,
    /// What each rendered control acts on, by node identifier.
    pub action_targets: Vec<(String, ActionTarget)>,
}

impl ManagerState {
    /// The state at start-up: the built-in repository, nothing loaded or
    /// installed, the installed list sorted by name.
    pub fn new() -> (s: ManagerState)
        ensures
            s.repositories@.len() == 1,
            s.repositories@[0].url@ == BUILTIN_REPOSITORY@,
            s.repositories@[0].enabled,
            s.loaded_repositories@.len() == 0,
            s.repository_status@.len() == 0,
            s.installed_policy@.len() == 0,
            s.installed_policy_error is None,
            s.logo_cache@.len() == 0,
            s.readme_cache@.len() == 0,
            s.catalog.packages@.len() == 0,
            s.catalog.warnings@.len() == 0,
            s.installed@.len() == 0,
            s.managed_installs@.len() == 0,
            s.view == Screen::Installed,
            s.view_history@.len() == 0,
            s.search@.len() == 0,
            s.installed_search@.len() == 0,
            s.installed_sort == InstalledSortColumn::Name,
            s.installed_sort_direction == SortDirection::Ascending,
            s.repository_filter is None,
            s.catalog_filter == CatalogFilter::All,
            s.catalog_sort == CatalogSort::Name,
            s.selected_package is None,
            s.selected_version is None,
            s.selected_packages@.len() == 0,
            s.repository_input@.len() == 0,
            s.direct_url@.len() == 0,
            s.pending_install is None,
            s.status@ == "Preparing repository refresh…"@,
            s.action_targets@.len() == 0,
    {
        let mut repositories = Vec::new();
        repositories.push(RepositoryPreference::builtin());
        ManagerState {
            repositories,
            loaded_repositories: Vec::new(),
            repository_status: Vec::new(),
            catalog: Catalog { packages: Vec::new(), warnings: Vec::new() },
            installed: Vec::new(),
            installed_policy: Vec::new(),
            installed_policy_error: None,
            managed_installs: Vec::new(),
            view: Screen::Installed,
            view_history: Vec::new(),
            search: String::new(),
            installed_search: String::new(),
            installed_sort: InstalledSortColumn::Name,
            installed_sort_direction: SortDirection::Ascending,
            repository_filter: None,
            catalog_filter: CatalogFilter::All,
            catalog_sort: CatalogSort::Name,
            selected_package: None,
            selected_version: None,
            selected_packages: Vec::new(),
            logo_cache: Vec::new(),
            readme_cache: Vec::new(),
            repository_input: String::new(),
            direct_url: String::new(),
            pending_install: None,
            status: String::from_str("Preparing repository refresh…"),
            action_targets: Vec::new(),
        }
    }
}


/// Which parts of the state an operation may change.
#[derive(Debug)]
pub struct Changes {
    pub views: bool,
    pub selection: bool,
    pub search: bool,
    pub installed_search: bool,
    pub sort: bool,
    pub catalog_filter: bool,
    pub catalog_sort: bool,
    pub repository_filter: bool,
    pub selected_packages: bool,
    pub repository_input: bool,
    pub direct_url: bool,
    pub pending: bool,
    pub status: bool,
    pub repositories: bool,
}

/// Nothing may change.
pub open spec fn no_changes() -> Changes {
    Changes {
        views: false,
        selection: false,
        search: false,
        installed_search: false,
        sort: false,
        catalog_filter: false,
        catalog_sort: false,
        repository_filter: false,
        selected_packages: false,
        repository_input: false,
        direct_url: false,
        pending: false,
        status: false,
        repositories: false,
    }
}

/// `b` equals `a` in every part `c` does not allow to change; the catalog, the
/// installed extensions, the install records and the action targets never change.
pub open spec fn keeps(a: ManagerState, b: ManagerState, c: Changes) -> bool {
    &&& b.catalog == a.catalog
    &&& b.installed == a.installed
    &&& b.managed_installs == a.managed_installs
    &&& b.action_targets == a.action_targets
    &&& b.installed_policy == a.installed_policy
    &&& b.installed_policy_error == a.installed_policy_error
    &&& b.logo_cache == a.logo_cache
    &&& b.readme_cache == a.readme_cache
    &&& (!c.views ==> b.view == a.view && b.view_history == a.view_history)
    &&& (!c.selection ==> b.selected_package == a.selected_package && b.selected_version == a.selected_version)
    &&& (!c.search ==> b.search == a.search)
    &&& (!c.installed_search ==> b.installed_search == a.installed_search)
    &&& (!c.sort ==> b.installed_sort == a.installed_sort && b.installed_sort_direction == a.installed_sort_direction)
    &&& (!c.catalog_filter ==> b.catalog_filter == a.catalog_filter)
    &&& (!c.catalog_sort ==> b.catalog_sort == a.catalog_sort)
    &&& (!c.repository_filter ==> b.repository_filter == a.repository_filter)
    &&& (!c.selected_packages ==> b.selected_packages == a.selected_packages)
    &&& (!c.repository_input ==> b.repository_input == a.repository_input)
    &&& (!c.direct_url ==> b.direct_url == a.direct_url)
    &&& (!c.pending ==> b.pending_install == a.pending_install)
    &&& (!c.status ==> b.status == a.status)
    &&& (!c.repositories ==> b.repositories == a.repositories && b.loaded_repositories == a.loaded_repositories
        && b.repository_status == a.repository_status)
}

/// Opens a screen, remembering the current one; opening the current screen does
/// nothing.
pub fn open_view(state: &mut ManagerState, view: Screen)
    ensures
        old(state).view == view ==> final(state).view_history == old(state).view_history,
        old(state).view != view ==> final(state).view_history@ == old(state).view_history@.push(old(state).view),
        final(state).view == view,
        (final(state).view, final(state).view_history@) == screens_after_open(old(state).view, old(state).view_history@, view),
        keeps(*old(state), *final(state), Changes { views: true, ..no_changes() }),
{
    if state.view == view {
        return;
    }
    let current = state.view;
    state.view_history.push(current);
    state.view = view;
}

/// Shows a screen and forgets the screens to return to.
pub fn reset_view(state: &mut ManagerState, view: Screen)
    ensures
        final(state).view == view,
        final(state).view_history@.len() == 0,
        keeps(*old(state), *final(state), Changes { views: true, ..no_changes() }),
{
    state.view = view;
    state.view_history.clear();
}

/// Returns to the most recently left screen, or to the installed list.
pub fn close_view(state: &mut ManagerState)
    ensures
        old(state).view_history@.len() == 0 ==> final(state).view == Screen::Installed && final(state).view_history@.len() == 0,
        old(state).view_history@.len() > 0 ==> final(state).view == old(state).view_history@.last()
            && final(state).view_history@ == old(state).view_history@.drop_last(),
        (final(state).view, final(state).view_history@) == screens_after_close(old(state).view, old(state).view_history@),
        keeps(*old(state), *final(state), Changes { views: true, ..no_changes() }),
{
    match state.view_history.pop() {
        Some(v) => {
            state.view = v;
        },
        None => {
            state.view = Screen::Installed;
        },
    }
}

/// Sorting by the current column flips the direction; another column sorts
/// ascending by it.
pub fn set_installed_sort(state: &mut ManagerState, column: InstalledSortColumn)
    ensures
        final(state).installed_sort == column,
        old(state).installed_sort == column ==> final(state).installed_sort_direction == opposite(old(state).installed_sort_direction),
        old(state).installed_sort != column ==> final(state).installed_sort_direction == SortDirection::Ascending,
        (final(state).installed_sort, final(state).installed_sort_direction)
            == sort_after(old(state).installed_sort, old(state).installed_sort_direction, column),
        keeps(*old(state), *final(state), Changes { sort: true, ..no_changes() }),
{
    if state.installed_sort == column {
        state.installed_sort_direction = state.installed_sort_direction.reversed();
    } else {
        state.installed_sort = column;
        state.installed_sort_direction = SortDirection::Ascending;
    }
}

/// The screen and the screens to return to after opening `opened`.
pub open spec fn screens_after_open(view: Screen, history: Seq<Screen>, opened: Screen) -> (Screen, Seq<Screen>) {
    if view == opened {
        (view, history)
    } else {
        (opened, history.push(view))
    }
}

/// The screen and the screens to return to after closing the current screen.
pub open spec fn screens_after_close(view: Screen, history: Seq<Screen>) -> (Screen, Seq<Screen>) {
    if history.len() == 0 {
        (Screen::Installed, history)
    } else {
        (history.last(), history.drop_last())
    }
}

/// The sort column and direction after sorting by `column`.
pub open spec fn sort_after(current: InstalledSortColumn, direction: SortDirection, column: InstalledSortColumn) -> (InstalledSortColumn, SortDirection) {
    if current == column {
        (column, opposite(direction))
    } else {
        (column, SortDirection::Ascending)
    }
}

/// Closing a screen that was just opened returns to the screen it was opened
/// from, with the same screens left to return to.
pub proof fn law_close_returns_to_opener(view: Screen, history: Seq<Screen>, opened: Screen)
    requires
        view != opened,
    ensures
        ({
            let o = screens_after_open(view, history, opened);
            screens_after_close(o.0, o.1) == (view, history)
        }),
{
    assert(history.push(view).drop_last() =~= history);
}

/// Screens close in the reverse order they were opened: after opening two
/// screens, closing twice passes the first and ends where it started.
pub proof fn law_screens_close_in_reverse_order(view: Screen, history: Seq<Screen>, first: Screen, second: Screen)
    requires
        view != first,
        first != second,
    ensures
        ({
            let a = screens_after_open(view, history, first);
            let b = screens_after_open(a.0, a.1, second);
            let c = screens_after_close(b.0, b.1);
            &&& c == a
            &&& screens_after_close(c.0, c.1) == (view, history)
        }),
{
    law_close_returns_to_opener(view, history, first);
    let a = screens_after_open(view, history, first);
    law_close_returns_to_opener(a.0, a.1, second);
}

/// Closing with no screen to return to shows the installed list.
pub proof fn law_close_at_root_shows_installed(view: Screen)
    ensures
        screens_after_close(view, Seq::empty()) == (Screen::Installed, Seq::<Screen>::empty()),
{
}

/// Sorting by the current column twice restores the direction; sorting by
/// another column sorts ascending.
pub proof fn law_sort_toggles(current: InstalledSortColumn, direction: SortDirection, column: InstalledSortColumn)
    ensures
        ({
            let t = sort_after(current, direction, current);
            sort_after(t.0, t.1, current) == (current, direction)
        }),
        current != column ==> sort_after(current, direction, column) == (column, SortDirection::Ascending),
{
}

/// Text views of a list of strings.
pub open spec fn names(v: Seq<String>) -> Seq<Seq<char>> {
    v.map_values(|x: String| x@)
}

/// Texts in strictly increasing order.
pub open spec fn strictly_ascending(v: Seq<Seq<char>>) -> bool {
    forall|a: int, b: int| 0 <= a < b < v.len() ==> seq_order(#[trigger] v[a], #[trigger] v[b]) < 0
}

/// Texts in non-decreasing order.
pub open spec fn ascending(v: Seq<Seq<char>>) -> bool {
    forall|a: int, b: int| 0 <= a < b < v.len() ==> seq_order(#[trigger] v[a], #[trigger] v[b]) <= 0
}

/// The installed entry for `subject`, the first one if several.
pub open spec fn installed_lookup(inst: Seq<InstalledPackage>, subject: Seq<char>) -> Option<InstalledPackage>
    decreases inst.len(),
{
    if inst.len() == 0 {
        None
    } else if inst[0].subject@ == subject {
        Some(inst[0])
    } else {
        installed_lookup(inst.drop_first(), subject)
    }
}

/// The managed install record for `subject`, the first one if several.
pub open spec fn managed_lookup(ms: Seq<(String, ManagedInstallRecord)>, subject: Seq<char>) -> Option<ManagedInstallRecord>
    decreases ms.len(),
{
    if ms.len() == 0 {
        None
    } else if ms[0].0@ == subject {
        Some(ms[0].1)
    } else {
        managed_lookup(ms.drop_first(), subject)
    }
}

/// The catalog package with identifier `id`, the first one if several.
pub open spec fn catalog_lookup(ps: Seq<CatalogPackage>, id: Seq<char>) -> Option<CatalogPackage>
    decreases ps.len(),
{
    if ps.len() == 0 {
        None
    } else if ps[0].id@ == id {
        Some(ps[0])
    } else {
        catalog_lookup(ps.drop_first(), id)
    }
}

/// The first release at version `v`.
pub open spec fn release_lookup(vs: Seq<RegistryVersion>, v: VersionView) -> Option<RegistryVersion>
    decreases vs.len(),
{
    if vs.len() == 0 {
        None
    } else if vs[0].version@ == v {
        Some(vs[0])
    } else {
        release_lookup(vs.drop_first(), v)
    }
}


/// Index of the installed entry for `subject`, the first one if several.
pub fn find_installed(inst: &Vec<InstalledPackage>, subject: &str) -> (r: Option<usize>)
    ensures
        match r {
            Some(i) => i < inst@.len() && installed_lookup(inst@, subject@) == Some(inst@[i as int]),
            None => installed_lookup(inst@, subject@) is None,
        },
{
    let mut i: usize = 0;
    proof {
        assert(inst@.skip(0) =~= inst@);
    }
    while i < inst.len()
        invariant
            i <= inst@.len(),
            installed_lookup(inst@, subject@) == installed_lookup(inst@.skip(i as int), subject@),
        decreases inst@.len() - i,
    {
        assert(inst@.skip(i as int)[0] == inst@[i as int]);
        if str_equal(inst[i].subject.as_str(), subject) {
            return Some(i);
        }
        assert(inst@.skip(i as int).drop_first() =~= inst@.skip(i + 1));
        i = i + 1;
    }
    None
}

fn find_managed(ms: &Vec<(String, ManagedInstallRecord)>, subject: &str) -> (r: Option<usize>)
    ensures
        match r {
            Some(i) => i < ms@.len() && managed_lookup(ms@, subject@) == Some(ms@[i as int].1),
            None => managed_lookup(ms@, subject@) is None,
        },
{
    let mut i: usize = 0;
    proof {
        assert(ms@.skip(0) =~= ms@);
    }
    while i < ms.len()
        invariant
            i <= ms@.len(),
            managed_lookup(ms@, subject@) == managed_lookup(ms@.skip(i as int), subject@),
        decreases ms@.len() - i,
    {
        assert(ms@.skip(i as int)[0] == ms@[i as int]);
        if str_equal(ms[i].0.as_str(), subject) {
            return Some(i);
        }
        assert(ms@.skip(i as int).drop_first() =~= ms@.skip(i + 1));
        i = i + 1;
    }
    None
}



/// Index of the catalog package with identifier `id`, the first one if several.
pub fn find_catalog(ps: &Vec<CatalogPackage>, id: &str) -> (r: Option<usize>)
    ensures
        match r {
            Some(i) => i < ps@.len() && catalog_lookup(ps@, id@) == Some(ps@[i as int]),
            None => catalog_lookup(ps@, id@) is None,
        },
{
    let mut i: usize = 0;
    proof {
        assert(ps@.skip(0) =~= ps@);
    }
    while i < ps.len()
        invariant
            i <= ps@.len(),
            catalog_lookup(ps@, id@) == catalog_lookup(ps@.skip(i as int), id@),
        decreases ps@.len() - i,
    {
        assert(ps@.skip(i as int)[0] == ps@[i as int]);
        if str_equal(ps[i].id.as_str(), id) {
            return Some(i);
        }
        assert(ps@.skip(i as int).drop_first() =~= ps@.skip(i + 1));
        i = i + 1;
    }
    None
}

/// Index of the first release at version `v`.
pub fn find_release_at(vs: &Vec<RegistryVersion>, v: &Version) -> (r: Option<usize>)
    ensures
        match r {
            Some(i) => i < vs@.len() && release_lookup(vs@, v@) == Some(vs@[i as int]),
            None => release_lookup(vs@, v@) is None,
        },
{
    let mut i: usize = 0;
    proof {
        assert(vs@.skip(0) =~= vs@);
    }
    while i < vs.len()
        invariant
            i <= vs@.len(),
            release_lookup(vs@, v@) == release_lookup(vs@.skip(i as int), v@),
        decreases vs@.len() - i,
    {
        assert(vs@.skip(i as int)[0] == vs@[i as int]);
        if vs[i].version.same(v) {
            return Some(i);
        }
        assert(vs@.skip(i as int).drop_first() =~= vs@.skip(i + 1));
        i = i + 1;
    }
    None
}

/// Identifiers a release depends on.
pub open spec fn release_dep_ids(r: RegistryVersion) -> Seq<Seq<char>> {
    crate::resolve::release_deps(r).map_values(|d: crate::resolve::DepView| d.0)
}

/// Dependencies from the managed install record, where it is for the installed version.
pub open spec fn record_part(st: ManagerState, pkg: InstalledPackage) -> (Set<Seq<char>>, bool) {
    match managed_lookup(st.managed_installs@, pkg.subject@) {
        Some(rec) => if pkg.version_text matches Some(t) && t@ == rec.version@ {
            (names(rec.dependencies@).to_set(), rec.dependencies_known)
        } else {
            (Set::empty(), false)
        },
        None => (Set::empty(), false),
    }
}

/// Dependencies from the catalog release at the installed version, where there is one.
pub open spec fn release_part(st: ManagerState, pkg: InstalledPackage) -> (Set<Seq<char>>, bool) {
    match catalog_lookup(st.catalog.packages@, pkg.subject@) {
        Some(p) => match pkg.version {
            Some(v) => match release_lookup(p.versions@, v@) {
                Some(r) => (release_dep_ids(r).to_set(), true),
                None => (Set::empty(), false),
            },
            None => (Set::empty(), false),
        },
        None => (Set::empty(), false),
    }
}

/// What is known of an installed package's dependencies: the identifiers, and
/// whether the list is known to be complete.
pub open spec fn dependency_info(st: ManagerState, subject: Seq<char>) -> (Set<Seq<char>>, bool) {
    match installed_lookup(st.installed@, subject) {
        None => (Set::empty(), false),
        Some(pkg) => {
            let a = record_part(st, pkg);
            let b = release_part(st, pkg);
            (a.0.union(b.0), a.1 || b.1)
        },
    }
}

/// Adds a text to a strictly ascending list unless it is there.
pub(crate) fn insert_sorted(v: &mut Vec<String>, x: &str)
    requires
        strictly_ascending(names(old(v)@)),
    ensures
        strictly_ascending(names(final(v)@)),
        names(final(v)@).to_set() == names(old(v)@).to_set().insert(x@),
{
    let ghost before = names(v@);
    let mut pos: usize = 0;
    while pos < v.len() && text_order(v[pos].as_str(), x) < 0
        invariant
            pos <= v@.len(),
            before == names(v@),
            forall|k: int| 0 <= k < pos ==> seq_order(#[trigger] before[k], x@) < 0,
        decreases v@.len() - pos,
    {
        pos = pos + 1;
    }
    if pos < v.len() && text_order(v[pos].as_str(), x) == 0 {
        proof {
            crate::text::lemma_seq_order_basics(before[pos as int], x@);
            assert(before.to_set().insert(x@) =~= before.to_set()) by {
                assert(before.to_set().contains(before[pos as int]));
            }
        }
        return;
    }
    let ghost old_v = v@;
    v.insert(pos, String::from_str(x));
    proof {
        if pos < old_v.len() {
            crate::text::lemma_seq_order_basics(before[pos as int], x@);
        }
        let after = names(v@);
        assert(after =~= before.insert(pos as int, x@));
        assert forall|a: int, b: int| 0 <= a < b < after.len() implies seq_order(#[trigger] after[a], #[trigger] after[b]) < 0 by {
            if b < pos {
            } else if b == pos {
                assert(after[a] == before[a]);
            } else if a == pos {
                assert(after[b] == before[b - 1]);
                if b - 1 > pos {
                    crate::text::lemma_seq_order_transitive(x@, before[pos as int], before[b - 1]);
                }
            } else if a < pos {
                assert(after[a] == before[a] && after[b] == before[b - 1]);
            } else {
                assert(after[a] == before[a - 1] && after[b] == before[b - 1]);
            }
        }
        assert forall|y: Seq<char>| after.to_set().contains(y) <==> before.to_set().insert(x@).contains(y) by {
            if after.to_set().contains(y) {
                let k = choose|k: int| 0 <= k < after.len() && after[k] == y;
                if k < pos {
                    assert(before[k] == y);
                } else if k > pos {
                    assert(before[k - 1] == y);
                }
            }
            if before.to_set().contains(y) {
                let k = choose|k: int| 0 <= k < before.len() && before[k] == y;
                if k < pos {
                    assert(after[k] == y);
                } else {
                    assert(after[k + 1] == y);
                }
            }
            if y == x@ {
                assert(after[pos as int] == y);
            }
        }
        assert(after.to_set() =~= before.to_set().insert(x@));
    }
}

/// Adds every text of `items` to a strictly ascending list.
fn insert_all_sorted(v: &mut Vec<String>, items: &Vec<String>)
    requires
        strictly_ascending(names(old(v)@)),
    ensures
        strictly_ascending(names(final(v)@)),
        names(final(v)@).to_set() == names(old(v)@).to_set().union(names(items@).to_set()),
{
    let ghost start = names(v@).to_set();
    let mut i: usize = 0;
    while i < items.len()
        invariant
            i <= items@.len(),
            strictly_ascending(names(v@)),
            names(v@).to_set() == start.union(names(items@).take(i as int).to_set()),
        decreases items@.len() - i,
    {
        insert_sorted(v, items[i].as_str());
        proof {
            assert(names(items@).take(i + 1) =~= names(items@).take(i as int).push(items@[i as int]@));
            lemma_push_to_set(names(items@).take(i as int), items@[i as int]@);
            assert(names(v@).to_set() =~= start.union(names(items@).take(i + 1).to_set()));
        }
        i = i + 1;
    }
    proof {
        assert(names(items@).take(items@.len() as int) =~= names(items@));
    }
}

/// The dependencies known for an installed package, listed in text order, and
/// whether the list is known to be complete.
pub fn dependency_info_of(state: &ManagerState, subject: &str) -> (r: (Vec<String>, bool))
    ensures
        strictly_ascending(names(r.0@)),
        names(r.0@).to_set() == dependency_info(*state, subject@).0,
        r.1 == dependency_info(*state, subject@).1,
{
    let mut deps: Vec<String> = Vec::new();
    let mut known = false;
    proof {
        assert(names(deps@).to_set() =~= Set::empty());
    }
    let i = match find_installed(&state.installed, subject) {
        None => {
            return (deps, false);
        },
        Some(i) => i,
    };
    let pkg = &state.installed[i];
    let ghost pk = state.installed@[i as int];
    assert(pk.subject@ == subject@) by {
        lemma_installed_lookup_subject(state.installed@, subject@);
    }
    match find_managed(&state.managed_installs, subject) {
        Some(m) => {
            let rec = &state.managed_installs[m].1;
            let matches = match &pkg.version_text {
                Some(t) => str_equal(t.as_str(), rec.version.as_str()),
                None => false,
            };
            if matches {
                insert_all_sorted(&mut deps, &rec.dependencies);
                known = known || rec.dependencies_known;
            }
        },
        None => {},
    }
    let ghost after_record = names(deps@).to_set();
    assert(after_record == record_part(*state, pk).0);
    assert(known == record_part(*state, pk).1);
    match find_catalog(&state.catalog.packages, subject) {
        Some(ci) => {
            let cp = &state.catalog.packages[ci];
            match &pkg.version {
                Some(v) => {
                    match find_release_at(&cp.versions, v) {
                        Some(k) => {
                            let release = &cp.versions[k];
                            let mut ids: Vec<String> = Vec::new();
                            let mut d: usize = 0;
                            while d < release.dependencies.len()
                                invariant
                                    d <= release.dependencies@.len(),
                                    names(ids@) == release_dep_ids(*release).take(d as int),
                                decreases release.dependencies@.len() - d,
                            {
                                let ghost before = ids@;
                                ids.push(release.dependencies[d].id.clone());
                                proof {
                                    assert(ids@ == before.push(ids@.last()));
                                    assert(names(ids@) =~= names(before).push(release.dependencies@[d as int].id@));
                                    assert(release_dep_ids(*release).take(d + 1) =~= release_dep_ids(*release).take(d as int).push(release_dep_ids(*release)[d as int]));
                                }
                                d = d + 1;
                            }
                            proof {
                                assert(release_dep_ids(*release).take(release.dependencies@.len() as int) =~= release_dep_ids(*release));
                            }
                            insert_all_sorted(&mut deps, &ids);
                            known = true;
                        },
                        None => {},
                    }
                },
                None => {},
            }
        },
        None => {},
    }
    proof {
        assert(names(deps@).to_set() =~= record_part(*state, pk).0.union(release_part(*state, pk).0));
    }
    (deps, known)
}

proof fn lemma_push_contains(s: Seq<Seq<char>>, x: Seq<char>, y: Seq<char>)
    ensures
        s.push(x).contains(y) == (s.contains(y) || x == y),
{
    if s.push(x).contains(y) {
        let k = choose|k: int| 0 <= k < s.push(x).len() && s.push(x)[k] == y;
        if k < s.len() {
            assert(s[k] == y);
        }
    }
    if s.contains(y) {
        let k = choose|k: int| 0 <= k < s.len() && s[k] == y;
        assert(s.push(x)[k] == y);
    }
    if x == y {
        assert(s.push(x)[s.len() as int] == y);
    }
}

proof fn lemma_push_to_set(s: Seq<Seq<char>>, x: Seq<char>)
    ensures
        s.push(x).to_set() == s.to_set().insert(x),
{
    assert forall|y: Seq<char>| s.push(x).to_set().contains(y) <==> s.to_set().insert(x).contains(y) by {
        if s.push(x).to_set().contains(y) {
            let k = choose|k: int| 0 <= k < s.push(x).len() && s.push(x)[k] == y;
            if k < s.len() {
                assert(s[k] == y);
            }
        }
        if s.to_set().contains(y) {
            let k = choose|k: int| 0 <= k < s.len() && s[k] == y;
            assert(s.push(x)[k] == y);
        }
        if y == x {
            assert(s.push(x)[s.len() as int] == y);
        }
    }
    assert(s.push(x).to_set() =~= s.to_set().insert(x));
}

proof fn lemma_installed_lookup_subject(inst: Seq<InstalledPackage>, subject: Seq<char>)
    ensures
        installed_lookup(inst, subject) matches Some(p) ==> p.subject@ == subject,
    decreases inst.len(),
{
    if inst.len() > 0 && inst[0].subject@ != subject {
        lemma_installed_lookup_subject(inst.drop_first(), subject);
    }
}

/// Sorts texts into text order.
pub fn sort_texts(v: Vec<String>) -> (r: Vec<String>)
    ensures
        ascending(names(r@)),
        names(r@).to_multiset() == names(v@).to_multiset(),
{
    broadcast use vstd::seq_lib::group_to_multiset_ensures, vstd::multiset::group_multiset_axioms;

    let mut rest = v;
    let mut sorted: Vec<String> = Vec::new();
    proof {
        assert(names(sorted@) =~= Seq::empty());
    }
    while rest.len() > 0
        invariant
            ascending(names(sorted@)),
            names(sorted@).to_multiset().add(names(rest@).to_multiset()) == names(v@).to_multiset(),
        decreases rest.len(),
    {
        let ghost before = rest@;
        let ghost sorted_before = sorted@;
        let x = rest.remove(0);
        let mut j: usize = 0;
        while j < sorted.len() && text_order(sorted[j].as_str(), x.as_str()) <= 0
            invariant
                j <= sorted@.len(),
                forall|k: int| 0 <= k < j ==> seq_order(#[trigger] names(sorted@)[k], x@) <= 0,
            decreases sorted.len() - j,
        {
            j = j + 1;
        }
        let ghost xv = x@;
        sorted.insert(j, x);
        proof {
            let ns = names(sorted_before);
            let after = names(sorted@);
            assert(after =~= ns.insert(j as int, xv));
            assert(names(before) =~= names(rest@).insert(0, xv));
            vstd::seq_lib::to_multiset_insert(names(rest@), 0, xv);
            vstd::seq_lib::to_multiset_insert(ns, j as int, xv);
            if j < ns.len() {
                crate::text::lemma_seq_order_basics(ns[j as int], xv);
            }
            assert forall|a: int, b: int| 0 <= a < b < after.len() implies seq_order(#[trigger] after[a], #[trigger] after[b]) <= 0 by {
                if b < j {
                } else if b == j {
                    assert(after[a] == ns[a]);
                } else if a == j {
                    assert(after[b] == ns[b - 1]);
                    if b - 1 > j {
                        crate::text::lemma_seq_order_basics(ns[j as int], ns[b - 1]);
                        if seq_order(ns[j as int], ns[b - 1]) < 0 {
                            crate::text::lemma_seq_order_transitive(xv, ns[j as int], ns[b - 1]);
                        }
                    }
                } else if a < j {
                    assert(after[a] == ns[a] && after[b] == ns[b - 1]);
                    crate::text::lemma_seq_order_basics(ns[a], xv);
                    if seq_order(ns[a], xv) < 0 && seq_order(xv, ns[b - 1]) < 0 {
                        crate::text::lemma_seq_order_transitive(ns[a], xv, ns[b - 1]);
                    }
                    crate::text::lemma_seq_order_basics(xv, ns[b - 1]);
                } else {
                    assert(after[a] == ns[a - 1] && after[b] == ns[b - 1]);
                }
            }
            let m = ns.to_multiset();
            let r = names(rest@).to_multiset();
            assert(m.insert(xv).add(r) =~= m.add(r.insert(xv)));
        }
    }
    proof {
        assert(names(rest@).to_multiset() =~= Multiset::empty());
        assert(names(sorted@).to_multiset().add(names(rest@).to_multiset()) =~= names(sorted@).to_multiset());
    }
    sorted
}

/// Installed packages other than `subject`, in list order, that depend on it
/// (first) or whose dependencies are not known to be complete (second).
pub open spec fn blocker_lists(st: ManagerState, inst: Seq<InstalledPackage>, subject: Seq<char>) -> (Seq<Seq<char>>, Seq<Seq<char>>)
    decreases inst.len(),
{
    if inst.len() == 0 {
        (Seq::empty(), Seq::empty())
    } else {
        let prev = blocker_lists(st, inst.drop_last(), subject);
        let d = inst.last().subject@;
        let info = dependency_info(st, d);
        if d == subject {
            prev
        } else if info.0.contains(subject) {
            (prev.0.push(d), prev.1)
        } else if !info.1 {
            (prev.0, prev.1.push(d))
        } else {
            prev
        }
    }
}

/// The installed packages that block removing or disabling `subject`, each list
/// in text order.
pub fn dependency_blockers(state: &ManagerState, subject: &str) -> (r: DependencyBlockers)
    ensures
        ascending(names(r.required_by@)),
        ascending(names(r.unknown@)),
        names(r.required_by@).to_multiset() == blocker_lists(*state, state.installed@, subject@).0.to_multiset(),
        names(r.unknown@).to_multiset() == blocker_lists(*state, state.installed@, subject@).1.to_multiset(),
{
    let mut required_by: Vec<String> = Vec::new();
    let mut unknown: Vec<String> = Vec::new();
    let mut i: usize = 0;
    while i < state.installed.len()
        invariant
            i <= state.installed@.len(),
            (names(required_by@), names(unknown@)) == blocker_lists(*state, state.installed@.take(i as int), subject@),
        decreases state.installed@.len() - i,
    {
        let dependent = &state.installed[i];
        proof {
            assert(state.installed@.take(i + 1).drop_last() =~= state.installed@.take(i as int));
            assert(state.installed@.take(i + 1).last() == state.installed@[i as int]);
        }
        if !str_equal(dependent.subject.as_str(), subject) {
            let (deps, known) = dependency_info_of(state, dependent.subject.as_str());
            let mut listed = false;
            let mut k: usize = 0;
            while k < deps.len()
                invariant
                    k <= deps@.len(),
                    listed == names(deps@).take(k as int).contains(subject@),
                decreases deps@.len() - k,
            {
                proof {
                    assert(names(deps@).take(k + 1) =~= names(deps@).take(k as int).push(deps@[k as int]@));
                    lemma_push_contains(names(deps@).take(k as int), deps@[k as int]@, subject@);
                }
                if str_equal(deps[k].as_str(), subject) {
                    listed = true;
                }
                k = k + 1;
            }
            proof {
                assert(names(deps@).take(deps@.len() as int) =~= names(deps@));
            }
            let ghost before_r = required_by@;
            let ghost before_u = unknown@;
            if listed {
                required_by.push(dependent.subject.clone());
                proof {
                    assert(names(required_by@) =~= names(before_r).push(dependent.subject@));
                }
            } else if !known {
                unknown.push(dependent.subject.clone());
                proof {
                    assert(names(unknown@) =~= names(before_u).push(dependent.subject@));
                }
            }
        }
        i = i + 1;
    }
    proof {
        assert(state.installed@.take(state.installed@.len() as int) =~= state.installed@);
    }
    DependencyBlockers { required_by: sort_texts(required_by), unknown: sort_texts(unknown) }
}

/// Error when a dependency list of a package cannot be trusted.
pub open spec fn unknown_metadata_message(subject: Seq<char>) -> Seq<char> {
    "dependency metadata for exact activation '"@ + subject + "' is unavailable"@
}

/// What stands against enabling a package because of dependency `d`, if anything.
pub open spec fn enable_issue(st: ManagerState, d: Seq<char>) -> Option<Seq<char>> {
    match installed_lookup(st.installed@, d) {
        None => Some(d + " (not installed)"@),
        Some(p) => if !p.enabled {
            Some(d + " (disabled)"@)
        } else {
            None
        },
    }
}

/// The issues for each dependency in `ds`, in order.
pub open spec fn enable_issues(st: ManagerState, ds: Seq<Seq<char>>) -> Seq<Seq<char>>
    decreases ds.len(),
{
    if ds.len() == 0 {
        Seq::empty()
    } else {
        let prev = enable_issues(st, ds.drop_last());
        match enable_issue(st, ds.last()) {
            Some(e) => prev.push(e),
            None => prev,
        }
    }
}

/// The dependencies that are missing or disabled, which stand against enabling
/// `subject`; an error when its dependencies are not known to be complete.
pub fn dependency_issues_for_enable(state: &ManagerState, subject: &str) -> (r: Result<Vec<String>, String>)
    ensures
        !dependency_info(*state, subject@).1 ==> (r matches Err(e) && e@ == unknown_metadata_message(subject@)),
        dependency_info(*state, subject@).1 ==> (r matches Ok(v) && exists|ds: Seq<Seq<char>>|
            strictly_ascending(ds) && ds.to_set() == dependency_info(*state, subject@).0 && names(v@) == enable_issues(*state, ds)),
{
    let (deps, known) = dependency_info_of(state, subject);
    if !known {
        let mut e = String::from_str("dependency metadata for exact activation '");
        e.append(subject);
        e.append("' is unavailable");
        return Err(e);
    }
    let mut issues: Vec<String> = Vec::new();
    let mut k: usize = 0;
    while k < deps.len()
        invariant
            k <= deps@.len(),
            names(issues@) == enable_issues(*state, names(deps@).take(k as int)),
        decreases deps@.len() - k,
    {
        proof {
            assert(names(deps@).take(k + 1).drop_last() =~= names(deps@).take(k as int));
            assert(names(deps@).take(k + 1).last() == deps@[k as int]@);
        }
        let dep = &deps[k];
        let ghost before = issues@;
        match find_installed(&state.installed, dep.as_str()) {
            None => {
                let mut e = dep.clone();
                e.append(" (not installed)");
                issues.push(e);
                proof {
                    assert(names(issues@) =~= names(before).push(dep@ + " (not installed)"@));
                }
            },
            Some(i) => {
                if !state.installed[i].enabled {
                    let mut e = dep.clone();
                    e.append(" (disabled)");
                    issues.push(e);
                    proof {
                        assert(names(issues@) =~= names(before).push(dep@ + " (disabled)"@));
                    }
                }
            },
        }
        k = k + 1;
    }
    proof {
        assert(names(deps@).take(deps@.len() as int) =~= names(deps@));
    }
    Ok(issues)
}

/// Error for an operation that installed packages depend on, or whose
/// dependents are not known; none when nothing blocks it.
pub open spec fn blocker_error(subject: Seq<char>, operation: Seq<char>, required_by: Seq<Seq<char>>, unknown: Seq<Seq<char>>) -> Option<Seq<char>> {
    if required_by.len() > 0 {
        Some("cannot "@ + operation + " '"@ + subject + "'; installed packages depend on it: "@ + comma_joined(required_by))
    } else if unknown.len() > 0 {
        Some("cannot safely "@ + operation + " '"@ + subject + "'; dependency metadata is unavailable for installed packages: "@ + comma_joined(unknown))
    } else {
        None
    }
}

/// Texts joined with ", ".
pub open spec fn comma_joined(parts: Seq<Seq<char>>) -> Seq<char>
    decreases parts.len(),
{
    if parts.len() == 0 {
        Seq::empty()
    } else if parts.len() == 1 {
        parts[0]
    } else {
        comma_joined(parts.drop_last()) + ", "@ + parts.last()
    }
}

/// Joins texts with ", ".
pub fn join_comma(parts: &Vec<String>) -> (r: String)
    ensures
        r@ == comma_joined(names(parts@)),
{
    let mut out = String::new();
    let mut i: usize = 0;
    while i < parts.len()
        invariant
            i <= parts@.len(),
            out@ == comma_joined(names(parts@).take(i as int)),
        decreases parts@.len() - i,
    {
        proof {
            assert(names(parts@).take(i + 1).drop_last() =~= names(parts@).take(i as int));
        }
        if i > 0 {
            out.append(", ");
        }
        out.append(parts[i].as_str());
        proof {
            if i == 0 {
                assert(out@ =~= names(parts@).take(1)[0]);
            }
        }
        i = i + 1;
    }
    proof {
        assert(names(parts@).take(parts@.len() as int) =~= names(parts@));
    }
    out
}

/// Refuses `operation` on `subject` while installed packages depend on it or
/// their dependencies are unknown.
pub fn ensure_no_dependency_blockers(state: &ManagerState, subject: &str, operation: &str) -> (r: Result<(), String>)
    ensures
        exists|b: DependencyBlockers| {
            &&& ascending(names(b.required_by@))
            &&& names(b.required_by@).to_multiset() == blocker_lists(*state, state.installed@, subject@).0.to_multiset()
            &&& ascending(names(b.unknown@))
            &&& names(b.unknown@).to_multiset() == blocker_lists(*state, state.installed@, subject@).1.to_multiset()
            &&& match blocker_error(subject@, operation@, names(b.required_by@), names(b.unknown@)) {
                Some(e) => r matches Err(m) && m@ == e,
                None => r is Ok,
            }
        },
{
    let blockers = dependency_blockers(state, subject);
    if blockers.required_by.len() > 0 {
        let mut e = String::from_str("cannot ");
        e.append(operation);
        e.append(" '");
        e.append(subject);
        e.append("'; installed packages depend on it: ");
        let list = join_comma(&blockers.required_by);
        e.append(list.as_str());
        return Err(e);
    }
    if blockers.unknown.len() > 0 {
        let mut e = String::from_str("cannot safely ");
        e.append(operation);
        e.append(" '");
        e.append(subject);
        e.append("'; dependency metadata is unavailable for installed packages: ");
        let list = join_comma(&blockers.unknown);
        e.append(list.as_str());
        return Err(e);
    }
    Ok(())
}

/// The catalog publishes the installed version with a different artifact digest:
/// the installed build is not the published one.
pub open spec fn build_differs(st: ManagerState, pkg: InstalledPackage) -> bool {
    match catalog_lookup(st.catalog.packages@, pkg.subject@) {
        Some(p) => match pkg.version {
            Some(v) => match release_lookup(p.versions@, v@) {
                Some(r) => !eq_ignore_case(r.artifact.sha256@, pkg.digest@),
                None => false,
            },
            None => false,
        },
        None => false,
    }
}

/// The catalog's newest release is newer than the installed version.
pub open spec fn newer_published(st: ManagerState, pkg: InstalledPackage) -> bool {
    match catalog_lookup(st.catalog.packages@, pkg.subject@) {
        Some(p) => match pkg.version {
            Some(v) => crate::version::semver_order(v@, p.latest@) < 0,
            None => false,
        },
        None => false,
    }
}

/// Whether the installed build differs from the published build of its version.
pub fn installed_build_differs_from_catalog(state: &ManagerState, package: &InstalledPackage) -> (r: bool)
    ensures
        r == build_differs(*state, *package),
{
    match find_catalog(&state.catalog.packages, package.subject.as_str()) {
        Some(ci) => match &package.version {
            Some(v) => match find_release_at(&state.catalog.packages[ci].versions, v) {
                Some(k) => !eq_ignore_ascii_case(
                    state.catalog.packages[ci].versions[k].artifact.sha256.as_str(),
                    package.digest.as_str(),
                ),
                None => false,
            },
            None => false,
        },
        None => false,
    }
}

/// Whether the catalog offers something other than what is installed: a newer
/// release, or the published build of the installed version.
pub fn installed_has_catalog_update(state: &ManagerState, package: &InstalledPackage) -> (r: bool)
    ensures
        r == (newer_published(*state, *package) || build_differs(*state, *package)),
{
    let newer = match find_catalog(&state.catalog.packages, package.subject.as_str()) {
        Some(ci) => match &package.version {
            Some(v) => v.older_than(&state.catalog.packages[ci].latest),
            None => false,
        },
        None => false,
    };
    newer || installed_build_differs_from_catalog(state, package)
}

/// The status of an installed extension: blocked by dependents, then
/// dependents of unknown dependencies, then an update, then a differing build,
/// then enabled or disabled.
pub open spec fn status_of(st: ManagerState, pkg: InstalledPackage) -> InstalledStatus {
    let b = blocker_lists(st, st.installed@, pkg.subject@);
    if b.0.len() > 0 {
        InstalledStatus::RequiredDependency
    } else if b.1.len() > 0 {
        InstalledStatus::DependencyMetadataUnknown
    } else if newer_published(st, pkg) {
        InstalledStatus::UpdateAvailable
    } else if build_differs(st, pkg) {
        InstalledStatus::PublishedBuildDiffers
    } else if pkg.enabled {
        InstalledStatus::Enabled
    } else {
        InstalledStatus::Disabled
    }
}

/// The status shown for an installed extension.
pub fn installed_status(state: &ManagerState, package: &InstalledPackage) -> (r: InstalledStatus)
    ensures
        r == status_of(*state, *package),
{
    let blockers = dependency_blockers(state, package.subject.as_str());
    proof {
        let b = blocker_lists(*state, state.installed@, package.subject@);
        vstd::seq_lib::to_multiset_len(names(blockers.required_by@));
        vstd::seq_lib::to_multiset_len(b.0);
        vstd::seq_lib::to_multiset_len(names(blockers.unknown@));
        vstd::seq_lib::to_multiset_len(b.1);
        assert(names(blockers.required_by@).len() == blockers.required_by@.len());
        assert(names(blockers.unknown@).len() == blockers.unknown@.len());
    }
    if blockers.required_by.len() > 0 {
        return InstalledStatus::RequiredDependency;
    }
    if blockers.unknown.len() > 0 {
        return InstalledStatus::DependencyMetadataUnknown;
    }
    let newer = match find_catalog(&state.catalog.packages, package.subject.as_str()) {
        Some(ci) => match &package.version {
            Some(v) => v.older_than(&state.catalog.packages[ci].latest),
            None => false,
        },
        None => false,
    };
    if newer {
        InstalledStatus::UpdateAvailable
    } else if installed_build_differs_from_catalog(state, package) {
        InstalledStatus::PublishedBuildDiffers
    } else if package.enabled {
        InstalledStatus::Enabled
    } else {
        InstalledStatus::Disabled
    }
}

/// Short label of a repository: the built-in one is "rtwKit".
pub open spec fn repository_label_of(url: Seq<char>) -> Seq<char> {
    if url == BUILTIN_REPOSITORY@ {
        "rtwKit"@
    } else {
        url
    }
}

/// Short label of a repository.
pub fn repository_label(url: &str) -> (r: String)
    ensures
        r@ == repository_label_of(url@),
{
    if str_equal(url, BUILTIN_REPOSITORY) {
        String::from_str("rtwKit")
    } else {
        String::from_str(url)
    }
}

/// Where an installed extension comes from: an unpublished local build, the
/// repository that publishes it, or a local/baseline install.
pub open spec fn provider_of(st: ManagerState, pkg: InstalledPackage) -> Seq<char> {
    if build_differs(st, pkg) {
        message_text(Message::LocalUnpublishedBuild)
    } else {
        match catalog_lookup(st.catalog.packages@, pkg.subject@) {
            Some(p) => repository_label_of(p.repository_url@),
            None => message_text(Message::LocalBaseline),
        }
    }
}

/// The provider shown for an installed extension.
pub fn installed_provider(state: &ManagerState, package: &InstalledPackage) -> (r: String)
    ensures
        r@ == provider_of(*state, *package),
{
    if installed_build_differs_from_catalog(state, package) {
        return String::from_str(message(Message::LocalUnpublishedBuild));
    }
    match find_catalog(&state.catalog.packages, package.subject.as_str()) {
        Some(ci) => repository_label(state.catalog.packages[ci].repository_url.as_str()),
        None => String::from_str(message(Message::LocalBaseline)),
    }
}

/// Installed versions the resolver may keep: those of installed packages with a
/// version whose build is the published one (or is not published at all).
pub open spec fn solver_versions(st: ManagerState, inst: Seq<InstalledPackage>) -> Seq<(Seq<char>, VersionView)>
    decreases inst.len(),
{
    if inst.len() == 0 {
        Seq::empty()
    } else {
        let prev = solver_versions(st, inst.drop_last());
        let p = inst.last();
        match p.version {
            Some(v) => if !build_differs(st, p) {
                prev.push((p.subject@, v@))
            } else {
                prev
            },
            None => prev,
        }
    }
}

/// The installed versions to hand the resolver.
pub fn installed_versions_for_solver(state: &ManagerState) -> (r: Vec<(String, Version)>)
    ensures
        crate::resolve::chosen_view(r@) == solver_versions(*state, state.installed@),
{
    let mut out: Vec<(String, Version)> = Vec::new();
    let mut i: usize = 0;
    while i < state.installed.len()
        invariant
            i <= state.installed@.len(),
            crate::resolve::chosen_view(out@) == solver_versions(*state, state.installed@.take(i as int)),
        decreases state.installed@.len() - i,
    {
        proof {
            assert(state.installed@.take(i + 1).drop_last() =~= state.installed@.take(i as int));
            assert(state.installed@.take(i + 1).last() == state.installed@[i as int]);
        }
        let p = &state.installed[i];
        match &p.version {
            Some(v) => {
                if !installed_build_differs_from_catalog(state, p) {
                    let ghost before = out@;
                    out.push((p.subject.clone(), v.copy()));
                    proof {
                        assert(out@ == before.push(out@.last()));
                        assert(crate::resolve::chosen_view(out@) =~= crate::resolve::chosen_view(before).push((p.subject@, v@)));
                    }
                }
            },
            None => {},
        }
        i = i + 1;
    }
    proof {
        assert(state.installed@.take(state.installed@.len() as int) =~= state.installed@);
    }
    out
}

/// Error when the digest the store computed differs from the published one.
pub open spec fn digest_mismatch_message(subject: Seq<char>) -> Seq<char> {
    subject + " SHA-256 mismatch; repository metadata or downloaded RTW is inconsistent"@
}

/// Checks the digest the artifact store computed for a downloaded artifact against
/// the one the repository published, ignoring ASCII case.
pub fn verify_imported_artifact_digest(subject: &str, expected: &str, actual: &str) -> (r: Result<(), String>)
    ensures
        eq_ignore_case(expected@, actual@) ==> r is Ok,
        !eq_ignore_case(expected@, actual@) ==> (r matches Err(e) && e@ == digest_mismatch_message(subject@)),
{
    if eq_ignore_ascii_case(expected, actual) {
        Ok(())
    } else {
        let mut e = String::from_str(subject);
        e.append(" SHA-256 mismatch; repository metadata or downloaded RTW is inconsistent");
        Err(e)
    }
}

/// Copies a list of texts.
pub fn copy_texts(v: &Vec<String>) -> (r: Vec<String>)
    ensures
        r@ == v@,
{
    let mut out: Vec<String> = Vec::new();
    let mut i: usize = 0;
    while i < v.len()
        invariant
            i <= v@.len(),
            out@ == v@.take(i as int),
        decreases v@.len() - i,
    {
        out.push(v[i].clone());
        proof {
            assert(out@ =~= v@.take(i + 1));
        }
        i = i + 1;
    }
    proof {
        assert(v@.take(v@.len() as int) =~= v@);
    }
    out
}

/// The record kept for an installed item: its version; its dependencies where it
/// declares them, else those recorded before (none known without a record).
pub fn managed_install_record_for(item: &PreparedInstallItem, previous: Option<&ManagedInstallRecord>) -> (r: ManagedInstallRecord)
    ensures
        r.version == item.version,
        match item.dependencies {
            Some(ds) => r.dependencies@ == ds@ && r.dependencies_known,
            None => match previous {
                Some(p) => r.dependencies@ == p.dependencies@ && r.dependencies_known == p.dependencies_known,
                None => r.dependencies@.len() == 0 && !r.dependencies_known,
            },
        },
{
    let (dependencies, dependencies_known) = match &item.dependencies {
        Some(ds) => (copy_texts(ds), true),
        None => match previous {
            Some(p) => (copy_texts(&p.dependencies), p.dependencies_known),
            None => (Vec::new(), false),
        },
    };
    ManagedInstallRecord { version: item.version.clone(), dependencies, dependencies_known }
}

/// Error when there is no pending install.
pub open spec fn no_pending_message() -> Seq<char> {
    "there is no pending installation"@
}

/// Why a permission of a pending install cannot be set, if it cannot.
pub open spec fn permission_error(p: Option<PendingInstall>, item: usize, permission: usize) -> Option<Seq<char>> {
    match p {
        None => Some(no_pending_message()),
        Some(p) => if item >= p.items@.len() {
            Some("pending package no longer exists"@)
        } else if permission >= p.items@[item as int].permissions@.len() {
            Some("pending permission no longer exists"@)
        } else {
            None
        },
    }
}

/// `q` is `p` with permission `permission` of item `item` set to `selected`.
pub open spec fn permission_applied(p: Option<PendingInstall>, q: Option<PendingInstall>, item: usize, permission: usize, selected: bool) -> bool {
    p matches Some(p) && q matches Some(q) && q.origin == p.origin && q.items@.len() == p.items@.len()
        && (forall|i: int| 0 <= i < p.items@.len() && i != item ==> #[trigger] q.items@[i] == p.items@[i])
        && {
            let a = p.items@[item as int];
            let b = q.items@[item as int];
            &&& b.digest == a.digest && b.subject == a.subject && b.name == a.name && b.version == a.version
            &&& b.origin == a.origin && b.dependencies == a.dependencies
            &&& b.permissions@.len() == a.permissions@.len()
            &&& forall|j: int| 0 <= j < a.permissions@.len() && j != permission ==> #[trigger] b.permissions@[j] == a.permissions@[j]
            &&& b.permissions@[permission as int].component_id == a.permissions@[permission as int].component_id
            &&& b.permissions@[permission as int].permission == a.permissions@[permission as int].permission
            &&& b.permissions@[permission as int].selected == selected
        }
}

/// Grants or withholds one requested permission of a pending install; nothing
/// else of the pending install changes.
pub fn set_pending_permission(pending: &mut Option<PendingInstall>, item_index: usize, permission_index: usize, selected: bool) -> (r: Result<(), String>)
    ensures
        match permission_error(*old(pending), item_index, permission_index) {
            Some(e) => r matches Err(m) && m@ == e && *final(pending) == *old(pending),
            None => r is Ok && permission_applied(*old(pending), *final(pending), item_index, permission_index, selected),
        },
{
    match pending {
        None => Err(String::from_str("there is no pending installation")),
        Some(p) => {
            if item_index >= p.items.len() {
                return Err(String::from_str("pending package no longer exists"));
            }
            if permission_index >= p.items[item_index].permissions.len() {
                return Err(String::from_str("pending permission no longer exists"));
            }
            let mut items: Vec<PreparedInstallItem> = Vec::new();
            std::mem::swap(&mut items, &mut p.items);
            let mut item = items.remove(item_index);
            let mut permissions: Vec<PreparedPermission> = Vec::new();
            std::mem::swap(&mut permissions, &mut item.permissions);
            let mut perm = permissions.remove(permission_index);
            perm.selected = selected;
            permissions.insert(permission_index, perm);
            item.permissions = permissions;
            items.insert(item_index, item);
            p.items = items;
            Ok(())
        },
    }
}

/// UTF-8 length of a character.
pub open spec fn char_width(c: char) -> nat {
    vstd::utf8::encode_scalar(c as u32).len()
}

proof fn lemma_prefix_encode_le(s: Seq<char>, k: int)
    requires
        0 <= k <= s.len(),
    ensures
        vstd::utf8::encode_utf8(s.take(k)).len() <= vstd::utf8::encode_utf8(s).len(),
    decreases s.len() - k,
{
    if k < s.len() {
        assert(s.take(k + 1) =~= s.take(k).push(s[k]));
        lemma_encode_push(s.take(k), s[k]);
        lemma_prefix_encode_le(s, k + 1);
    } else {
        assert(s.take(k) =~= s);
    }
}

proof fn lemma_encode_push(a: Seq<char>, c: char)
    ensures
        vstd::utf8::encode_utf8(a.push(c)).len() == vstd::utf8::encode_utf8(a).len() + char_width(c),
    decreases a.len(),
{
    let ac = a.push(c);
    assert(ac[0] == if a.len() == 0 { c } else { a[0] });
    assert(vstd::utf8::encode_utf8(ac) == vstd::utf8::encode_scalar(ac[0] as u32) + vstd::utf8::encode_utf8(ac.drop_first()));
    if a.len() == 0 {
        assert(ac.drop_first() =~= Seq::<char>::empty());
        assert(vstd::utf8::encode_utf8(ac.drop_first()) == Seq::<u8>::empty());
        assert(vstd::utf8::encode_utf8(a) == Seq::<u8>::empty());
    } else {
        assert(ac.drop_first() =~= a.drop_first().push(c));
        lemma_encode_push(a.drop_first(), c);
        assert(vstd::utf8::encode_utf8(a) == vstd::utf8::encode_scalar(a[0] as u32) + vstd::utf8::encode_utf8(a.drop_first()));
    }
}

fn width_of(c: char) -> (r: usize)
    ensures
        r == char_width(c),
        1 <= r <= 4,
{
    let v = c as u32;
    if v <= 0x7f {
        1
    } else if v <= 0x7ff {
        2
    } else if v <= 0xffff {
        3
    } else {
        4
    }
}

/// Number of leading characters of `s` that fit in `maximum` UTF-8 bytes.
pub open spec fn fitting_prefix(s: Seq<char>, maximum: nat, k: int) -> bool {
    &&& 0 <= k <= s.len()
    &&& vstd::utf8::encode_utf8(s.take(k)).len() <= maximum
    &&& (k < s.len() ==> vstd::utf8::encode_utf8(s.take(k + 1)).len() > maximum)
}

/// Shortens text to at most `maximum` UTF-8 bytes at a character boundary and
/// marks the cut with "…"; text that fits is kept whole.
pub fn truncate_display_text(value: &str, maximum: usize) -> (r: String)
    ensures
        vstd::utf8::encode_utf8(value@).len() <= maximum ==> r@ == value@,
        vstd::utf8::encode_utf8(value@).len() > maximum ==> exists|k: int|
            fitting_prefix(value@, maximum as nat, k) && r@ == value@.take(k).push('…'),
{
    let chars = crate::text::chars_of(value);
    let mut used: usize = 0;
    let mut k: usize = 0;
    proof {
        assert(chars@.take(0) =~= Seq::<char>::empty());
    }
    while k < chars.len() && width_of(chars[k]) <= maximum - used
        invariant
            chars@ == value@,
            k <= chars@.len(),
            used <= maximum,
            used == vstd::utf8::encode_utf8(chars@.take(k as int)).len(),
        decreases chars@.len() - k,
    {
        proof {
            assert(chars@.take(k + 1) =~= chars@.take(k as int).push(chars@[k as int]));
            lemma_encode_push(chars@.take(k as int), chars@[k as int]);
        }
        used = used + width_of(chars[k]);
        k = k + 1;
    }
    if k == chars.len() {
        proof {
            assert(chars@.take(k as int) =~= chars@);
        }
        return String::from_str(value);
    }
    proof {
        assert(chars@.take(k + 1) =~= chars@.take(k as int).push(chars@[k as int]));
        lemma_encode_push(chars@.take(k as int), chars@[k as int]);
        assert(fitting_prefix(value@, maximum as nat, k as int));
        lemma_prefix_encode_le(chars@, k + 1);
    }
    let prefix = crate::text::sub_chars(chars.as_slice(), 0, k);
    let mut out = crate::text::string_from_chars(prefix.as_slice());
    crate::text::push_char(&mut out, '…');
    proof {
        assert(out@ =~= value@.take(k as int).push('…'));
    }
    out
}

/// Shows an installed extension in detail.
pub fn select_installed_package(state: &mut ManagerState, subject: &str) -> (r: Result<(), String>)
    ensures
        installed_lookup(old(state).installed@, subject@) is None ==> (r matches Err(e)
            && e@ == "installed extension '"@ + subject@ + "' no longer exists"@
            && final(state).selected_package == old(state).selected_package
            && final(state).selected_version == old(state).selected_version
            && final(state).view == old(state).view),
        installed_lookup(old(state).installed@, subject@) matches Some(p) ==> {
            &&& r is Ok
            &&& final(state).selected_package matches Some(s) && s@ == subject@
            &&& match p.version {
                Some(v) => final(state).selected_version matches Some(w) && w@ == v@,
                None => final(state).selected_version is None,
            }
            &&& final(state).view == Screen::Installed
        },
        keeps(*old(state), *final(state), Changes { selection: true, views: true, ..no_changes() }),
        final(state).view_history == old(state).view_history,
{
    match find_installed(&state.installed, subject) {
        None => {
            let mut e = String::from_str("installed extension '");
            e.append(subject);
            e.append("' no longer exists");
            Err(e)
        },
        Some(i) => {
            let version = match &state.installed[i].version {
                Some(v) => Some(v.copy()),
                None => None,
            };
            state.selected_package = Some(String::from_str(subject));
            state.selected_version = version;
            state.view = Screen::Installed;
            Ok(())
        },
    }
}

/// The label an installed extension's provider is searched by.
pub open spec fn search_provider_label(st: ManagerState, subject: Seq<char>) -> Seq<char> {
    match catalog_lookup(st.catalog.packages@, subject) {
        Some(p) => repository_label_of(p.repository_url@),
        None => message_text(Message::LocalBaseline),
    }
}

/// An installed extension matches a (lowercased) query: the query is empty or
/// occurs in the lowercased name, identifier, version or provider label.
pub open spec fn matches_search(st: ManagerState, pkg: InstalledPackage, query: Seq<char>) -> bool {
    ||| query.len() == 0
    ||| crate::text::contains_sub(crate::text::unicode_lowercase(pkg.name@), query)
    ||| crate::text::contains_sub(crate::text::unicode_lowercase(pkg.subject@), query)
    ||| (pkg.version_text matches Some(t) && crate::text::contains_sub(crate::text::unicode_lowercase(t@), query))
    ||| crate::text::contains_sub(crate::text::unicode_lowercase(search_provider_label(st, pkg.subject@)), query)
}

fn text_contains(s: &str, query: &str) -> (r: bool)
    ensures
        r == crate::text::contains_sub(s@, query@),
{
    let a = crate::text::chars_of(s);
    let b = crate::text::chars_of(query);
    crate::text::contains_chars(a.as_slice(), b.as_slice())
}

fn lower_contains(s: &str, query: &str) -> (r: bool)
    ensures
        r == crate::text::contains_sub(crate::text::unicode_lowercase(s@), query@),
{
    let l = crate::text::to_lowercase(s);
    text_contains(l.as_str(), query)
}

/// Whether an installed extension matches a lowercased search query.
pub fn installed_package_matches_search(state: &ManagerState, package: &InstalledPackage, query: &str) -> (r: bool)
    ensures
        r == matches_search(*state, *package, query@),
{
    if query.is_empty() {
        return true;
    }
    if lower_contains(package.name.as_str(), query) || lower_contains(package.subject.as_str(), query) {
        return true;
    }
    let version_hit = match &package.version_text {
        Some(t) => lower_contains(t.as_str(), query),
        None => false,
    };
    if version_hit {
        return true;
    }
    let label = match find_catalog(&state.catalog.packages, package.subject.as_str()) {
        Some(ci) => repository_label(state.catalog.packages[ci].repository_url.as_str()),
        None => String::from_str(message(Message::LocalBaseline)),
    };
    lower_contains(label.as_str(), query)
}

/// The query an installed-list search text stands for: trimmed and lowercased.
pub open spec fn search_query(search: Seq<char>) -> Seq<char> {
    crate::text::unicode_lowercase(crate::text::trim(search))
}

/// Sets the installed-list search; a selected extension the search hides is
/// deselected.
pub fn set_installed_search(state: &mut ManagerState, search: String)
    ensures
        final(state).installed_search == search,
        keeps(*old(state), *final(state), Changes { selection: true, installed_search: true, ..no_changes() }),
        ({
            let hidden = old(state).selected_package matches Some(s) && match installed_lookup(old(state).installed@, s@) {
                None => true,
                Some(p) => !matches_search(*old(state), p, search_query(search@)),
            };
            &&& hidden ==> final(state).selected_package is None && final(state).selected_version is None
            &&& !hidden ==> final(state).selected_package == old(state).selected_package
                && final(state).selected_version == old(state).selected_version
        }),
{
    let trimmed = crate::text::trim_string(search.as_str());
    let query = crate::text::to_lowercase(trimmed.as_str());
    let hidden = match &state.selected_package {
        Some(subject) => match find_installed(&state.installed, subject.as_str()) {
            None => true,
            Some(i) => !installed_package_matches_search(state, &state.installed[i], query.as_str()),
        },
        None => false,
    };
    state.installed_search = search;
    if hidden {
        state.selected_package = None;
        state.selected_version = None;
    }
}


/// Index of the first loaded index for `url`, or -1.
pub open spec fn loaded_index(loaded: Seq<(String, RegistryIndex)>, url: Seq<char>) -> int
    decreases loaded.len(),
{
    if loaded.len() == 0 {
        -1
    } else if loaded.last().0@ == url && loaded_index(loaded.drop_last(), url) < 0 {
        loaded.len() - 1
    } else {
        loaded_index(loaded.drop_last(), url)
    }
}

/// The loaded indexes the catalog is merged from, highest priority first: for
/// each enabled repository in order, its loaded index, if there is one.
pub open spec fn catalog_source_indices(prefs: Seq<RepositoryPreference>, loaded: Seq<(String, RegistryIndex)>) -> Seq<usize>
    decreases prefs.len(),
{
    if prefs.len() == 0 {
        Seq::empty()
    } else {
        let prev = catalog_source_indices(prefs.drop_last(), loaded);
        let p = prefs.last();
        if p.enabled && loaded_index(loaded, p.url@) >= 0 {
            prev.push(loaded_index(loaded, p.url@) as usize)
        } else {
            prev
        }
    }
}

proof fn lemma_loaded_index(loaded: Seq<(String, RegistryIndex)>, url: Seq<char>)
    ensures
        -1 <= loaded_index(loaded, url) < loaded.len(),
        loaded_index(loaded, url) >= 0 ==> loaded[loaded_index(loaded, url)].0@ == url,
        forall|j: int| 0 <= j < loaded.len() && (loaded_index(loaded, url) < 0 || j < loaded_index(loaded, url))
            ==> (#[trigger] loaded[j]).0@ != url,
    decreases loaded.len(),
{
    if loaded.len() > 0 {
        let init = loaded.drop_last();
        lemma_loaded_index(init, url);
        let r = loaded_index(loaded, url);
        assert forall|j: int| 0 <= j < loaded.len() && (r < 0 || j < r) implies (#[trigger] loaded[j]).0@ != url by {
            if j < init.len() {
                assert(init[j] == loaded[j]);
            } else {
                assert(loaded[j] == loaded.last());
            }
        }
        if r >= 0 && r < init.len() {
            assert(init[r] == loaded[r]);
        }
    }
}

fn find_loaded(loaded: &Vec<(String, RegistryIndex)>, url: &str) -> (r: Option<usize>)
    ensures
        match r {
            Some(i) => i as int == loaded_index(loaded@, url@),
            None => loaded_index(loaded@, url@) < 0,
        },
{
    proof {
        lemma_loaded_index(loaded@, url@);
    }
    let mut i: usize = 0;
    while i < loaded.len()
        invariant
            i <= loaded@.len(),
            -1 <= loaded_index(loaded@, url@) < loaded@.len(),
            loaded_index(loaded@, url@) >= 0 ==> loaded@[loaded_index(loaded@, url@)].0@ == url@,
            forall|j: int| 0 <= j < loaded@.len() && (loaded_index(loaded@, url@) < 0 || j < loaded_index(loaded@, url@))
                ==> (#[trigger] loaded@[j]).0@ != url@,
            forall|j: int| 0 <= j < i ==> (#[trigger] loaded@[j]).0@ != url@,
        decreases loaded@.len() - i,
    {
        if str_equal(loaded[i].0.as_str(), url) {
            return Some(i);
        }
        i = i + 1;
    }
    None
}

/// The positions in the loaded indexes of those the catalog is merged from,
/// highest priority first.
pub fn catalog_sources(state: &ManagerState) -> (r: Vec<usize>)
    ensures
        r@ == catalog_source_indices(state.repositories@, state.loaded_repositories@),
        forall|k: int| 0 <= k < r@.len() ==> (#[trigger] r@[k] as int) < state.loaded_repositories@.len(),
{
    let mut out: Vec<usize> = Vec::new();
    let mut i: usize = 0;
    while i < state.repositories.len()
        invariant
            i <= state.repositories@.len(),
            out@ == catalog_source_indices(state.repositories@.take(i as int), state.loaded_repositories@),
            forall|k: int| 0 <= k < out@.len() ==> (#[trigger] out@[k] as int) < state.loaded_repositories@.len(),
        decreases state.repositories@.len() - i,
    {
        proof {
            let t = state.repositories@.take(i + 1);
            assert(t.drop_last() =~= state.repositories@.take(i as int));
            assert(t.last() == state.repositories@[i as int]);
            lemma_loaded_index(state.loaded_repositories@, state.repositories@[i as int].url@);
        }
        let repository = &state.repositories[i];
        if repository.enabled {
            match find_loaded(&state.loaded_repositories, repository.url.as_str()) {
                Some(k) => {
                    out.push(k);
                },
                None => {},
            }
        }
        i = i + 1;
    }
    proof {
        assert(state.repositories@.take(state.repositories@.len() as int) =~= state.repositories@);
    }
    out
}

} // verus!
