//! The per-user directories of the application, found through the
//! `directories` crate.

use vstd::prelude::*;
use directories::ProjectDirs;

verus! {

/// `ProjectDirs::from(qualifier, organization, application)`, with its
/// `config_dir` and `data_dir` as text (`None` for a path that is not valid
/// Unicode); `None` when no home directory can be found.
///
/// The directories come from the environment (`$HOME`, the XDG variables,
/// the password database) and from the platform's conventions, so nothing is
/// stated of them.
#[verifier::external_body]
pub(crate) fn project_dir_paths(qualifier: &str, organization: &str, application: &str) -> (res:
    Option<(Option<String>, Option<String>)>) {
    ProjectDirs::from(qualifier, organization, application).map(
        |dirs| (
            dirs.config_dir().to_str().map(str::to_owned),
            dirs.data_dir().to_str().map(str::to_owned),
        ),
    )
}

} // verus!
