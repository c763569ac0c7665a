//! The status icons of the dashboard: where the icon of a branch goes.

use crate::config::{join_path, joined_path};
use vstd::prelude::*;
use vstd::string::StringExecFns;

verus! {

/// How a build ended, for the dashboard.
#[derive(Debug)]
pub enum BuildStatus {
    Success,
    /// The build failed, for this reason.
    Error(String),
}

/// Where the status icon of a branch goes, and which icon it is.
#[derive(Debug)]
pub struct StatusIcon {
    /// The project's folder below the dashboard's.
    pub folder: String,
    /// The icon's file in that folder.
    pub file: String,
    /// Whether the icon is the one for success.
    pub success: bool,
}

/// The name of the icon file of a branch.
pub open spec fn icon_name(branch: Seq<char>) -> Seq<char> {
    branch + ".png"@
}

/// Says where the status icon of a branch of a project goes below the
/// dashboard's folder `dir`, and which icon shows the status.
pub fn status_icon(project: &str, branch: &str, status: &BuildStatus, dir: &str) -> (icon:
    StatusIcon)
    ensures
        icon.folder@ == joined_path(dir@, project@),
        icon.file@ == joined_path(joined_path(dir@, project@), icon_name(branch@)),
        icon.success == (status is Success),
{
    let folder = join_path(dir, project);
    let mut name = String::from_str(branch);
    name.append(".png");
    let file = join_path(folder.as_str(), name.as_str());
    let success = match status {
        BuildStatus::Success => true,
        BuildStatus::Error(_) => false,
    };
    StatusIcon { folder, file, success }
}

} // verus!
