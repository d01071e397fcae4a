//! The failures that the library reports, and the text shown for each.

use vstd::prelude::*;
use crate::text::{capitalize, capitalized};

verus! {

/// A failure of a configuration or runtime operation.
#[derive(Debug)]
pub enum AppError {
    /// No home directory could be found for the per-user directories.
    NoConfigDirectory,
    /// A per-user directory is not valid Unicode.
    NonUnicodeDirectory,
    /// A profile name is empty once normalized.
    EmptyProfileName,
    /// No profile of that (normalized) name exists.
    ProfileMissing { name: String },
    /// The only profile left cannot be deleted.
    LastProfile,
    /// Another profile already has that (normalized) name.
    ProfileExists { name: String },
    /// The sound chosen for a role (`press` or `release`) is not a file.
    SoundFileMissing { role: String, path: String },
    /// The sound file's name has no extension.
    NoAudioExtension { path: String },
    /// The sound file's extension is neither `wav` nor `ogg`.
    UnsupportedAudioFormat { extension: String },
    /// Deleting a profile left no profile to switch to.
    NoProfilesRemain,
    /// The lock on the shared runtime state was poisoned.
    LockPoisoned,
    /// An operation on the outside world failed: what was being done, and why it failed.
    External { context: String, cause: String },
}

/// The text shown for an error; for a failure of the outside world, what was
/// being done followed by the cause, as `{:#}` shows an error chain.
pub open spec fn error_text(e: AppError) -> Seq<char> {
    match e {
        AppError::NoConfigDirectory => "Unable to locate a user config directory"@,
        AppError::NonUnicodeDirectory => "A user directory path is not valid Unicode"@,
        AppError::EmptyProfileName => "Profile name cannot be empty"@,
        AppError::ProfileMissing { name } => "Profile does not exist: "@ + name@,
        AppError::LastProfile => "Cannot delete the last profile"@,
        AppError::ProfileExists { name } => "Profile already exists: "@ + name@,
        AppError::SoundFileMissing { role, path } => capitalized(role@)
            + " sound file does not exist: "@ + path@,
        AppError::NoAudioExtension { path } => "Audio file has no valid extension: "@ + path@,
        AppError::UnsupportedAudioFormat { extension } => "Unsupported audio format ."@
            + extension@ + "; choose a WAV or OGG file"@,
        AppError::NoProfilesRemain => "No profiles remain after deletion"@,
        AppError::LockPoisoned => "Application state lock was poisoned"@,
        AppError::External { context, cause } => context@ + ": "@ + cause@,
    }
}

/// `prefix` followed by `rest`.
fn text_then(prefix: &str, rest: &str) -> (res: String)
    ensures
        res@ == prefix@ + rest@,
{
    let mut res = prefix.to_owned();
    res.append(rest);
    res
}

impl AppError {
    /// The text shown for this error.
    pub fn message(&self) -> (res: String)
        ensures
            res@ == error_text(*self),
    {
        match self {
            AppError::NoConfigDirectory => "Unable to locate a user config directory".to_owned(),
            AppError::NonUnicodeDirectory => "A user directory path is not valid Unicode".to_owned(),
            AppError::EmptyProfileName => "Profile name cannot be empty".to_owned(),
            AppError::ProfileMissing { name } => text_then(
                "Profile does not exist: ",
                name.as_str(),
            ),
            AppError::LastProfile => "Cannot delete the last profile".to_owned(),
            AppError::ProfileExists { name } => text_then(
                "Profile already exists: ",
                name.as_str(),
            ),
            AppError::SoundFileMissing { role, path } => {
                let mut res = capitalize(role.as_str());
                res.append(" sound file does not exist: ");
                res.append(path.as_str());
                res
            },
            AppError::NoAudioExtension { path } => text_then(
                "Audio file has no valid extension: ",
                path.as_str(),
            ),
            AppError::UnsupportedAudioFormat { extension } => {
                let mut res = text_then("Unsupported audio format .", extension.as_str());
                res.append("; choose a WAV or OGG file");
                res
            },
            AppError::NoProfilesRemain => "No profiles remain after deletion".to_owned(),
            AppError::LockPoisoned => "Application state lock was poisoned".to_owned(),
            AppError::External { context, cause } => {
                let mut res = text_then(context.as_str(), ": ");
                res.append(cause.as_str());
                res
            },
        }
    }
}

/// The text handed back to the user interface for a failed command.
pub fn to_command_error(error: AppError) -> (res: String)
    ensures
        res@ == error_text(error),
{
    error.message()
}

} // verus!
