//! English display text of the package manager and its stable message identities.

use vstd::prelude::*;

verus! {

/// Stable identity of a piece of package manager display text.
#[derive(Debug, Clone, Copy, PartialEq, Eq, Structural)]
pub enum Message {
    Extensions,
    DownloadExtensions,
    CheckForUpdates,
    AddFile,
    AddFromUrl,
    Repositories,
    ManageRepositories,
    Close,
    Refresh,
    GeneralActions,
    SelectedExtension,
    Details,
    Enable,
    Disable,
    Remove,
    ChangeVersion,
    RuntimePermissions,
    SearchInstalled,
    SearchCatalog,
    ColumnEnable,
    ColumnImage,
    ColumnName,
    ColumnVersion,
    ColumnProvider,
    ColumnStatus,
    StatusEnabled,
    StatusDisabled,
    StatusUpdateAvailable,
    StatusPublishedBuildDiffers,
    StatusRequiredDependency,
    StatusDependencyMetadataUnknown,
    LocalBaseline,
    LocalUnpublishedBuild,
    All,
    NotInstalled,
    Installed,
    UpdatesAvailable,
    SortName,
    SortVersion,
    SortRepository,
    NoExtensionsSelected,
    InstallSelected,
    ClearSelection,
    AddRepository,
    InstallFromUrl,
    DownloadAndInstall,
    InstallationReview,
    ConfirmInstall,
    Cancel,
}

/// The English text of each message.
pub open spec fn message_text(id: Message) -> Seq<char> {
    match id {
        Message::Extensions => "Extensions"@,
        Message::DownloadExtensions => "Download Extensions"@,
        Message::CheckForUpdates => "Check for Updates"@,
        Message::AddFile => "Add File"@,
        Message::AddFromUrl => "Add from URL"@,
        Message::Repositories => "Repositories"@,
        Message::ManageRepositories => "Manage repositories"@,
        Message::Close => "Close"@,
        Message::Refresh => "Refresh"@,
        Message::GeneralActions => "General"@,
        Message::SelectedExtension => "Selected extension"@,
        Message::Details => "Details"@,
        Message::Enable => "Enable"@,
        Message::Disable => "Disable"@,
        Message::Remove => "Remove"@,
        Message::ChangeVersion => "Change Version"@,
        Message::RuntimePermissions => "Runtime permissions"@,
        Message::SearchInstalled => "Search installed extensions"@,
        Message::SearchCatalog => "Search extensions by name, id, author, or description"@,
        Message::ColumnEnable => "Enable"@,
        Message::ColumnImage => "Image"@,
        Message::ColumnName => "Name"@,
        Message::ColumnVersion => "Version"@,
        Message::ColumnProvider => "Provider"@,
        Message::ColumnStatus => "Status"@,
        Message::StatusEnabled => "Enabled"@,
        Message::StatusDisabled => "Disabled"@,
        Message::StatusUpdateAvailable => "Update available"@,
        Message::StatusPublishedBuildDiffers => "Published build differs"@,
        Message::StatusRequiredDependency => "Required dependency"@,
        Message::StatusDependencyMetadataUnknown => "Dependency metadata unknown"@,
        Message::LocalBaseline => "Local / baseline"@,
        Message::LocalUnpublishedBuild => "Local / unpublished build"@,
        Message::All => "All"@,
        Message::NotInstalled => "Not installed"@,
        Message::Installed => "Installed"@,
        Message::UpdatesAvailable => "Updates available"@,
        Message::SortName => "Sort: Name"@,
        Message::SortVersion => "Sort: Version"@,
        Message::SortRepository => "Sort: Repository"@,
        Message::NoExtensionsSelected => "No extensions selected"@,
        Message::InstallSelected => "Install selected"@,
        Message::ClearSelection => "Clear selection"@,
        Message::AddRepository => "Add repository"@,
        Message::InstallFromUrl => "Install from URL"@,
        Message::DownloadAndInstall => "Download and install"@,
        Message::InstallationReview => "Installation review"@,
        Message::ConfirmInstall => "Confirm install"@,
        Message::Cancel => "Cancel"@,
    }
}

/// The English text of a message.
pub fn message(id: Message) -> (r: &'static str)
    ensures
        r@ == message_text(id),
{
    match id {
        Message::Extensions => "Extensions",
        Message::DownloadExtensions => "Download Extensions",
        Message::CheckForUpdates => "Check for Updates",
        Message::AddFile => "Add File",
        Message::AddFromUrl => "Add from URL",
        Message::Repositories => "Repositories",
        Message::ManageRepositories => "Manage repositories",
        Message::Close => "Close",
        Message::Refresh => "Refresh",
        Message::GeneralActions => "General",
        Message::SelectedExtension => "Selected extension",
        Message::Details => "Details",
        Message::Enable => "Enable",
        Message::Disable => "Disable",
        Message::Remove => "Remove",
        Message::ChangeVersion => "Change Version",
        Message::RuntimePermissions => "Runtime permissions",
        Message::SearchInstalled => "Search installed extensions",
        Message::SearchCatalog => "Search extensions by name, id, author, or description",
        Message::ColumnEnable => "Enable",
        Message::ColumnImage => "Image",
        Message::ColumnName => "Name",
        Message::ColumnVersion => "Version",
        Message::ColumnProvider => "Provider",
        Message::ColumnStatus => "Status",
        Message::StatusEnabled => "Enabled",
        Message::StatusDisabled => "Disabled",
        Message::StatusUpdateAvailable => "Update available",
        Message::StatusPublishedBuildDiffers => "Published build differs",
        Message::StatusRequiredDependency => "Required dependency",
        Message::StatusDependencyMetadataUnknown => "Dependency metadata unknown",
        Message::LocalBaseline => "Local / baseline",
        Message::LocalUnpublishedBuild => "Local / unpublished build",
        Message::All => "All",
        Message::NotInstalled => "Not installed",
        Message::Installed => "Installed",
        Message::UpdatesAvailable => "Updates available",
        Message::SortName => "Sort: Name",
        Message::SortVersion => "Sort: Version",
        Message::SortRepository => "Sort: Repository",
        Message::NoExtensionsSelected => "No extensions selected",
        Message::InstallSelected => "Install selected",
        Message::ClearSelection => "Clear selection",
        Message::AddRepository => "Add repository",
        Message::InstallFromUrl => "Install from URL",
        Message::DownloadAndInstall => "Download and install",
        Message::InstallationReview => "Installation review",
        Message::ConfirmInstall => "Confirm install",
        Message::Cancel => "Cancel",
    }
}

fn prefixed(prefix: &str, version: &str) -> (r: String)
    ensures
        r@ == prefix@ + version@,
{
    let mut out = String::from_str(prefix);
    out.append(version);
    out
}

/// Label of the action that updates to a newer release: "Update to {version}".
pub fn update_to(version: &str) -> (r: String)
    ensures
        r@ == "Update to "@ + version@,
{
    prefixed("Update to ", version)
}

/// Label of the action that selects an older release: "Switch to {version}".
pub fn switch_to(version: &str) -> (r: String)
    ensures
        r@ == "Switch to "@ + version@,
{
    prefixed("Switch to ", version)
}

/// Label of the action that installs a release: "Install {version}".
pub fn install_version(version: &str) -> (r: String)
    ensures
        r@ == "Install "@ + version@,
{
    prefixed("Install ", version)
}

/// Label shown for the release that is installed: "Installed {version}".
pub fn installed_release(version: &str) -> (r: String)
    ensures
        r@ == "Installed "@ + version@,
{
    prefixed("Installed ", version)
}

/// Label of the action that replaces a local build of the same version with the
/// published one: "Replace with published {version}".
pub fn replace_with_published_build(version: &str) -> (r: String)
    ensures
        r@ == "Replace with published "@ + version@,
{
    prefixed("Replace with published ", version)
}

} // verus!
