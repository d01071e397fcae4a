//! Application settings and sound profiles: where they are stored, how
//! profile names map to files, which directory entries are profiles, and the
//! checks made before a profile is saved or deleted.

use vstd::prelude::*;
use crate::error::AppError;
use crate::order::{lemma_no_duplicates_same_multiset, sort_texts, sorted_texts};
use crate::paths::{extension, join, join_path, last_dot_of, path_extension};
use crate::text::{
    ascii_lowercase, chars_of, decimal, decimal_text, normalized_name, normalized_profile_name,
    string_of, to_ascii_lowercase, trim, trim_bounds,
};
use crate::user_dirs::project_dir_paths;

verus! {

/// The qualifier, organization and application name under which the
/// per-user directories are found.
pub fn app_identity() -> (res: (&'static str, &'static str, &'static str))
    ensures
        res.0@ == "dev"@,
        res.1@ == "keyboard-dances"@,
        res.2@ == "keyboard-dances"@,
{
    ("dev", "keyboard-dances", "keyboard-dances")
}

/// The name of the profile that a fresh installation starts with.
pub open spec fn default_profile_name() -> Seq<char> {
    "default"@
}

/// Settings of the whole application.
#[derive(Debug)]
pub struct AppConfig {
    /// Name of the profile whose sounds are played.
    pub active_profile: String,
    /// Whether key events play sounds at all.
    pub enabled: bool,
}

impl Default for AppConfig {
    /// The `default` profile, enabled.
    fn default() -> (res: Self)
        ensures
            res.active_profile@ == default_profile_name(),
            res.enabled,
    {
        AppConfig { active_profile: "default".to_owned(), enabled: true }
    }
}

impl Clone for AppConfig {
    fn clone(&self) -> (res: Self)
        ensures
            res == *self,
    {
        AppConfig { active_profile: self.active_profile.clone(), enabled: self.enabled }
    }
}

/// One sound profile: a name, and the sound files played on key press and release.
#[derive(Debug)]
pub struct ProfileConfig {
    pub name: String,
    pub press_sound: String,
    pub release_sound: String,
}

impl Default for ProfileConfig {
    /// The `default` profile with no sound files.
    fn default() -> (res: Self)
        ensures
            res.name@ == default_profile_name(),
            res.press_sound@ == Seq::<char>::empty(),
            res.release_sound@ == Seq::<char>::empty(),
    {
        ProfileConfig {
            name: "default".to_owned(),
            press_sound: String::new(),
            release_sound: String::new(),
        }
    }
}

impl Clone for ProfileConfig {
    fn clone(&self) -> (res: Self)
        ensures
            res == *self,
    {
        ProfileConfig {
            name: self.name.clone(),
            press_sound: self.press_sound.clone(),
            release_sound: self.release_sound.clone(),
        }
    }
}

/// A profile as listed to the user: its name, its file, and whether it is active.
#[derive(Debug)]
pub struct ProfileSummary {
    pub name: String,
    pub path: String,
    pub active: bool,
}

impl Clone for ProfileSummary {
    fn clone(&self) -> (res: Self)
        ensures
            res == *self,
    {
        ProfileSummary { name: self.name.clone(), path: self.path.clone(), active: self.active }
    }
}

/// Where the settings file lies in a configuration directory.
pub open spec fn app_config_file(config_dir: Seq<char>) -> Seq<char> {
    join(config_dir, "app.toml"@)
}

/// Where the profile files lie in a configuration directory.
pub open spec fn profiles_dir_of(config_dir: Seq<char>) -> Seq<char> {
    join(config_dir, "profiles"@)
}

/// Where the bundled sample sounds lie in a data directory.
pub open spec fn sample_sounds_dir_of(data_dir: Seq<char>) -> Seq<char> {
    join(data_dir, "sounds"@)
}

/// Where the imported sound files lie in a configuration directory.
pub open spec fn sounds_dir_of(config_dir: Seq<char>) -> Seq<char> {
    join(config_dir, "sounds"@)
}

/// The file of the profile called `name`.
pub open spec fn profile_file(config_dir: Seq<char>, name: Seq<char>) -> Seq<char> {
    join(profiles_dir_of(config_dir), normalized_name(name) + ".toml"@)
}

/// The profile that a directory entry called `entry` holds: the part before
/// the last `.`, when what follows it is `toml` and the `.` is not the first
/// character (`Path::extension` and `Path::file_stem` of the entry).
pub open spec fn profile_stem(entry: Seq<char>) -> Option<Seq<char>> {
    let d = crate::paths::last_dot(entry);
    if d > 0 && entry.subrange(d + 1, entry.len() as int) == "toml"@ {
        Some(entry.subrange(0, d))
    } else {
        None
    }
}

/// The profiles that the directory entries hold, in the order of the entries.
pub open spec fn profile_stems(entries: Seq<Seq<char>>) -> Seq<Seq<char>>
    decreases entries.len(),
{
    if entries.len() == 0 {
        Seq::empty()
    } else {
        let rest = profile_stems(entries.drop_last());
        match profile_stem(entries.last()) {
            Some(stem) => rest.push(stem),
            None => rest,
        }
    }
}

/// An entry that holds a profile is that profile's name followed by `.toml`.
pub proof fn lemma_profile_stem_entry(entry: Seq<char>)
    requires
        profile_stem(entry) is Some,
    ensures
        entry == profile_stem(entry)->0 + ".toml"@,
{
    reveal_strlit(".toml");
    reveal_strlit("toml");
    crate::paths::lemma_last_dot(entry);
    let d = crate::paths::last_dot(entry);
    let tail = entry.subrange(d + 1, entry.len() as int);
    assert(tail == "toml"@);
    assert forall|i: int| 0 <= i < entry.len() implies entry[i] == (entry.subrange(0, d)
        + ".toml"@)[i] by {
        if i > d {
            assert(entry[i] == tail[i - d - 1]);
        }
    }
    assert(entry =~= entry.subrange(0, d) + ".toml"@);
}

/// Every name in `profile_stems(entries)` is the profile of some entry.
pub proof fn lemma_profile_stems_origin(entries: Seq<Seq<char>>)
    ensures
        forall|k: int|
            #![trigger profile_stems(entries)[k]]
            0 <= k < profile_stems(entries).len() ==> exists|j: int|
                0 <= j < entries.len() && profile_stem(#[trigger] entries[j]) == Some(
                    profile_stems(entries)[k],
                ),
    decreases entries.len(),
{
    if entries.len() > 0 {
        let rest = entries.drop_last();
        lemma_profile_stems_origin(rest);
        let stems = profile_stems(entries);
        assert forall|k: int| #![trigger stems[k]] 0 <= k < stems.len() implies exists|j: int|
            0 <= j < entries.len() && profile_stem(#[trigger] entries[j]) == Some(stems[k]) by {
            if k < profile_stems(rest).len() {
                let j = choose|j: int|
                    0 <= j < rest.len() && profile_stem(#[trigger] rest[j]) == Some(
                        profile_stems(rest)[k],
                    );
                assert(entries[j] == rest[j]);
            } else {
                assert(profile_stem(entries[entries.len() - 1]) == Some(stems[k]));
            }
        }
    }
}

/// Entries that are all different hold profiles that are all different.
pub proof fn lemma_profile_stems_no_duplicates(entries: Seq<Seq<char>>)
    requires
        entries.no_duplicates(),
    ensures
        profile_stems(entries).no_duplicates(),
    decreases entries.len(),
{
    if entries.len() > 0 {
        let rest = entries.drop_last();
        assert(rest.no_duplicates()) by {
            assert forall|i: int, j: int|
                0 <= i < rest.len() && 0 <= j < rest.len() && i != j implies rest[i]
                != rest[j] by {
                assert(rest[i] == entries[i] && rest[j] == entries[j]);
            }
        }
        lemma_profile_stems_no_duplicates(rest);
        let last = entries.last();
        if let Some(stem) = profile_stem(last) {
            let before = profile_stems(rest);
            lemma_profile_stems_origin(rest);
            assert forall|k: int| #![trigger before[k]] 0 <= k < before.len() implies before[k]
                != stem by {
                let j = choose|j: int|
                    0 <= j < rest.len() && profile_stem(#[trigger] rest[j]) == Some(before[k]);
                if before[k] == stem {
                    lemma_profile_stem_entry(rest[j]);
                    lemma_profile_stem_entry(last);
                    assert(rest[j] == entries[j]);
                    assert(entries[j] == entries[entries.len() - 1]);
                }
            }
            let all = before.push(stem);
            assert forall|i: int, j: int|
                0 <= i < all.len() && 0 <= j < all.len() && i != j implies all[i] != all[j] by {
                if i < before.len() && j < before.len() {
                    assert(all[i] == before[i] && all[j] == before[j]);
                } else if i < before.len() {
                    assert(all[i] == before[i]);
                } else if j < before.len() {
                    assert(all[j] == before[j]);
                }
            }
        }
    }
}

/// The name under which a sound for `role` of profile `profile_name` is
/// stored, given the sound's lower-case extension.
pub open spec fn managed_sound_name(
    profile_name: Seq<char>,
    role: Seq<char>,
    extension: Seq<char>,
) -> Seq<char> {
    profile_name + "-"@ + role + "."@ + extension
}

/// The temporary file into which a sound is copied before it replaces the
/// managed file called `file_name`.
pub open spec fn staged_sound_name(file_name: Seq<char>, process_id: nat, sequence: nat) -> Seq<
    char,
> {
    "."@ + file_name + "."@ + decimal(process_id) + "."@ + decimal(sequence) + ".tmp"@
}

/// Where an imported sound goes.
pub struct SoundTarget {
    /// Name of the managed sound file.
    pub file_name: String,
    /// Full path of the managed sound file.
    pub destination: String,
}

/// The directories and files in which settings and profiles are kept.
#[derive(Debug)]
pub struct ConfigStore {
    config_dir: String,
    data_dir: String,
    profiles_dir: String,
    app_config_path: String,
}

impl ConfigStore {
    #[verifier::type_invariant]
    spec fn layout(self) -> bool {
        &&& self.profiles_dir@ == profiles_dir_of(self.config_dir@)
        &&& self.app_config_path@ == app_config_file(self.config_dir@)
    }

    /// The configuration directory.
    pub closed spec fn config_path(self) -> Seq<char> {
        self.config_dir@
    }

    /// The data directory.
    pub closed spec fn data_path(self) -> Seq<char> {
        self.data_dir@
    }

    /// The store of the current user, under the per-user configuration and
    /// data directories of the application `keyboard-dances` (qualifier
    /// `dev`, organization `keyboard-dances`), whose place the environment
    /// and the platform decide; `from_found_dirs` says what becomes of them.
    pub fn new() -> (res: Result<ConfigStore, AppError>)
        ensures
            res matches Err(e) ==> (e is NoConfigDirectory || e is NonUnicodeDirectory),
    {
        let (qualifier, organization, application) = app_identity();
        ConfigStore::from_found_dirs(project_dir_paths(qualifier, organization, application))
    }

    /// The store for the directories found for the application: `found` is
    /// `None` when no home directory was found, and otherwise holds the
    /// configuration directory, then the data directory, each `None` when
    /// its path is not valid Unicode.
    pub fn from_found_dirs(found: Option<(Option<String>, Option<String>)>) -> (res: Result<
        ConfigStore,
        AppError,
    >)
        ensures
            match found {
                None => res matches Err(e) && e is NoConfigDirectory,
                Some((Some(config_dir), Some(data_dir))) => res matches Ok(store) && store.config_path()
                    == config_dir@ && store.data_path() == data_dir@,
                Some(_) => res matches Err(e) && e is NonUnicodeDirectory,
            },
    {
        match found {
            None => Err(AppError::NoConfigDirectory),
            Some((Some(config_dir), Some(data_dir))) => Ok(
                ConfigStore::from_dirs(config_dir, data_dir),
            ),
            Some(_) => Err(AppError::NonUnicodeDirectory),
        }
    }

    /// The store rooted at the given configuration and data directories.
    pub fn from_dirs(config_dir: String, data_dir: String) -> (res: ConfigStore)
        ensures
            res.config_path() == config_dir@,
            res.data_path() == data_dir@,
    {
        let profiles_dir = join_path(config_dir.as_str(), "profiles");
        let app_config_path = join_path(config_dir.as_str(), "app.toml");
        ConfigStore { config_dir, data_dir, profiles_dir, app_config_path }
    }

    /// The configuration directory.
    pub fn config_dir(&self) -> (res: &str)
        ensures
            res@ == self.config_path(),
    {
        self.config_dir.as_str()
    }

    /// The data directory.
    pub fn data_dir(&self) -> (res: &str)
        ensures
            res@ == self.data_path(),
    {
        self.data_dir.as_str()
    }

    /// The directory of the profile files: `profiles` in the configuration directory.
    pub fn profiles_dir(&self) -> (res: &str)
        ensures
            res@ == profiles_dir_of(self.config_path()),
    {
        proof {
            use_type_invariant(self);
        }
        self.profiles_dir.as_str()
    }

    /// The settings file: `app.toml` in the configuration directory.
    pub fn app_config_path(&self) -> (res: &str)
        ensures
            res@ == app_config_file(self.config_path()),
    {
        proof {
            use_type_invariant(self);
        }
        self.app_config_path.as_str()
    }

    /// The directory of the sound files: `sounds` in the configuration directory.
    pub fn sounds_dir(&self) -> (res: String)
        ensures
            res@ == sounds_dir_of(self.config_path()),
    {
        join_path(self.config_dir.as_str(), "sounds")
    }

    /// The directory of the bundled sample sounds: `sounds` in the data directory.
    pub fn sample_sounds_dir(&self) -> (res: String)
        ensures
            res@ == sample_sounds_dir_of(self.data_path()),
    {
        join_path(self.data_dir.as_str(), "sounds")
    }

    /// The sample sound `file_name`, in the sample sound directory.
    pub fn sample_sound_path(&self, file_name: &str) -> (res: String)
        ensures
            res@ == join(sample_sounds_dir_of(self.data_path()), file_name@),
    {
        join_path(self.sample_sounds_dir().as_str(), file_name)
    }

    /// The file of the profile called `name`: its normalized name with
    /// `.toml` appended, in the profile directory.
    pub fn profile_path(&self, name: &str) -> (res: String)
        ensures
            res@ == profile_file(self.config_path(), name@),
    {
        proof {
            use_type_invariant(self);
        }
        let mut file_name = normalized_profile_name(name);
        file_name.append(".toml");
        join_path(self.profiles_dir.as_str(), file_name.as_str())
    }

    /// The profile of a fresh installation: `default`, with the sample sounds.
    pub fn default_profile(&self) -> (res: ProfileConfig)
        ensures
            res.name@ == default_profile_name(),
            res.press_sound@ == join(sample_sounds_dir_of(self.data_path()), "default-press.wav"@),
            res.release_sound@ == join(
                sample_sounds_dir_of(self.data_path()),
                "default-release.wav"@,
            ),
    {
        ProfileConfig {
            name: "default".to_owned(),
            press_sound: self.sample_sound_path("default-press.wav"),
            release_sound: self.sample_sound_path("default-release.wav"),
        }
    }
}

/// The profile held by the directory entry called `entry`, if any.
fn entry_profile_stem(entry: &str) -> (res: Option<String>)
    ensures
        match res {
            Some(stem) => profile_stem(entry@) == Some(stem@),
            None => profile_stem(entry@) is None,
        },
{
    let chars = chars_of(entry);
    proof {
        crate::paths::lemma_last_dot(chars@);
    }
    match last_dot_of(&chars) {
        None => None,
        Some(d) => {
            if d == 0 {
                return None;
            }
            let ext = string_of(&chars, d + 1, chars.len());
            if ext == "toml".to_owned() {
                Some(string_of(&chars, 0, d))
            } else {
                None
            }
        },
    }
}

impl ConfigStore {
    /// The names of the stored profiles, given the names of the entries of
    /// the profile directory: the stem of each entry whose extension is
    /// `toml`, in ascending order.
    pub fn list_profile_names(&self, entries: &Vec<String>) -> (res: Vec<String>)
        ensures
            sorted_texts(res.deep_view()),
            res.deep_view().to_multiset() == profile_stems(entries.deep_view()).to_multiset(),
            entries.deep_view().no_duplicates() ==> res.deep_view().no_duplicates(),
    {
        let mut names: Vec<String> = Vec::new();
        let mut i: usize = 0;
        while i < entries.len()
            invariant
                i <= entries@.len(),
                names.deep_view() == profile_stems(entries.deep_view().take(i as int)),
            decreases entries@.len() - i,
        {
            let ghost before = names.deep_view();
            assert(entries.deep_view().take(i + 1).drop_last() =~= entries.deep_view().take(
                i as int,
            ));
            match entry_profile_stem(entries[i].as_str()) {
                Some(stem) => {
                    names.push(stem);
                    assert(names.deep_view() =~= before.push(stem@));
                },
                None => {},
            }
            i = i + 1;
        }
        assert(entries.deep_view().take(entries@.len() as int) =~= entries.deep_view());
        let res = sort_texts(names);
        proof {
            if entries.deep_view().no_duplicates() {
                lemma_profile_stems_no_duplicates(entries.deep_view());
                lemma_no_duplicates_same_multiset(
                    profile_stems(entries.deep_view()),
                    res.deep_view(),
                );
            }
        }
        res
    }
}

/// Whether `name` occurs in `names`.
fn contains_name(names: &Vec<String>, name: &String) -> (res: bool)
    ensures
        res == names.deep_view().contains(name@),
{
    let mut i: usize = 0;
    while i < names.len()
        invariant
            i <= names@.len(),
            forall|j: int| 0 <= j < i ==> names.deep_view()[j] != name@,
        decreases names@.len() - i,
    {
        if names[i] == *name {
            assert(names.deep_view()[i as int] == name@);
            return true;
        }
        i = i + 1;
    }
    false
}

impl ConfigStore {
    /// The listing of the stored profiles `names`, in their order: each with
    /// its file, and marked active when it is `active_profile`.
    pub fn list_profiles(&self, names: &Vec<String>, active_profile: &str) -> (res: Vec<
        ProfileSummary,
    >)
        ensures
            res@.len() == names@.len(),
            forall|i: int|
                0 <= i < names@.len() ==> {
                    &&& (#[trigger] res@[i]).name@ == names@[i]@
                    &&& res@[i].path@ == profile_file(self.config_path(), names@[i]@)
                    &&& res@[i].active == (names@[i]@ == active_profile@)
                },
    {
        let mut profiles: Vec<ProfileSummary> = Vec::new();
        let active = active_profile.to_owned();
        let mut i: usize = 0;
        while i < names.len()
            invariant
                i <= names@.len(),
                active@ == active_profile@,
                profiles@.len() == i,
                forall|j: int|
                    0 <= j < i ==> {
                        &&& (#[trigger] profiles@[j]).name@ == names@[j]@
                        &&& profiles@[j].path@ == profile_file(self.config_path(), names@[j]@)
                        &&& profiles@[j].active == (names@[j]@ == active_profile@)
                    },
            decreases names@.len() - i,
        {
            let name = names[i].clone();
            let path = self.profile_path(name.as_str());
            let is_active = name == active;
            profiles.push(ProfileSummary { name, path, active: is_active });
            i = i + 1;
        }
        profiles
    }

    /// The profile read from the file of the profile called `name`: as
    /// parsed, except that a name that is empty once trimmed becomes `name`.
    pub fn load_profile(&self, name: &str, parsed: ProfileConfig) -> (res: ProfileConfig)
        ensures
            res.press_sound == parsed.press_sound,
            res.release_sound == parsed.release_sound,
            res.name@ == (if trim(parsed.name@).len() == 0 {
                name@
            } else {
                parsed.name@
            }),
    {
        let (start, end) = trim_bounds(&chars_of(parsed.name.as_str()));
        if start == end {
            ProfileConfig {
                name: name.to_owned(),
                press_sound: parsed.press_sound,
                release_sound: parsed.release_sound,
            }
        } else {
            parsed
        }
    }

    /// The normalized form of `name`, refused when it is empty.
    pub fn required_profile_name(&self, name: &str) -> (res: Result<String, AppError>)
        ensures
            match res {
                Ok(n) => n@ == normalized_name(name@) && n@.len() > 0,
                Err(e) => normalized_name(name@).len() == 0 && e is EmptyProfileName,
            },
    {
        let normalized = normalized_profile_name(name);
        if normalized.as_str().is_empty() {
            Err(AppError::EmptyProfileName)
        } else {
            Ok(normalized)
        }
    }

    /// The name under which `profile` is saved: its normalized name, which
    /// must not be empty.
    pub fn save_profile_name(&self, profile: &ProfileConfig) -> (res: Result<String, AppError>)
        ensures
            match res {
                Ok(n) => n@ == normalized_name(profile.name@) && n@.len() > 0,
                Err(e) => normalized_name(profile.name@).len() == 0 && e is EmptyProfileName,
            },
    {
        self.required_profile_name(profile.name.as_str())
    }

    /// Whether the profile called `name` may be deleted from the stored
    /// profiles `names`, and under which normalized name. It may when that
    /// name is not empty, is stored, and is not the only profile.
    pub fn delete_profile(&self, name: &str, names: &Vec<String>) -> (res: Result<String, AppError>)
        ensures
            ({
                let n = normalized_name(name@);
                match res {
                    Ok(deleted) => {
                        &&& deleted@ == n
                        &&& n.len() > 0
                        &&& names.deep_view().contains(n)
                        &&& names@.len() > 1
                    },
                    Err(e) => {
                        ||| n.len() == 0 && e is EmptyProfileName
                        ||| n.len() > 0 && !names.deep_view().contains(n) && (e matches AppError::ProfileMissing { name: missing } && missing@ == n)
                        ||| n.len() > 0 && names.deep_view().contains(n) && names@.len() <= 1
                            && e is LastProfile
                    },
                }
            }),
    {
        let target = self.required_profile_name(name)?;
        if !contains_name(names, &target) {
            return Err(AppError::ProfileMissing { name: target });
        }
        if names.len() <= 1 {
            return Err(AppError::LastProfile);
        }
        Ok(target)
    }

    /// Where the sound `source` for `role` (`press` or `release`) of the
    /// profile `profile_name` is imported to, once it is known whether
    /// `source` is a file. The sound must be a file whose extension, in
    /// ASCII lower case, is `wav` or `ogg`; it then goes to
    /// `{profile_name}-{role}.{extension}` in the sound directory.
    pub fn stage_sound(&self, profile_name: &str, role: &str, source: &str, source_is_file: bool) -> (res:
        Result<SoundTarget, AppError>)
        ensures
            match res {
                Ok(target) => {
                    &&& source_is_file
                    &&& extension(source@) is Some
                    &&& {
                        let ext = ascii_lowercase(extension(source@)->0);
                        &&& (ext == "wav"@ || ext == "ogg"@)
                        &&& target.file_name@ == managed_sound_name(profile_name@, role@, ext)
                        &&& target.destination@ == join(
                            sounds_dir_of(self.config_path()),
                            target.file_name@,
                        )
                    }
                },
                Err(e) => {
                    ||| !source_is_file && (e matches AppError::SoundFileMissing { role: r, path: p }
                        && r@ == role@ && p@ == source@)
                    ||| source_is_file && extension(source@) is None && (e matches AppError::NoAudioExtension { path: p } && p@ == source@)
                    ||| source_is_file && extension(source@) is Some && {
                        let ext = ascii_lowercase(extension(source@)->0);
                        &&& ext != "wav"@
                        &&& ext != "ogg"@
                        &&& e matches AppError::UnsupportedAudioFormat { extension: x } && x@ == ext
                    }
                },
            },
    {
        if !source_is_file {
            return Err(AppError::SoundFileMissing { role: role.to_owned(), path: source.to_owned() });
        }
        let raw = match path_extension(source) {
            Some(raw) => raw,
            None => return Err(AppError::NoAudioExtension { path: source.to_owned() }),
        };
        let raw_chars = chars_of(raw.as_str());
        let ext = to_ascii_lowercase(&raw_chars, 0, raw_chars.len());
        assert(raw_chars@.subrange(0, raw_chars@.len() as int) =~= raw_chars@);
        if !(ext == "wav".to_owned() || ext == "ogg".to_owned()) {
            return Err(AppError::UnsupportedAudioFormat { extension: ext });
        }
        let mut file_name = profile_name.to_owned();
        file_name.append("-");
        file_name.append(role);
        file_name.append(".");
        file_name.append(ext.as_str());
        let destination = join_path(self.sounds_dir().as_str(), file_name.as_str());
        Ok(SoundTarget { file_name, destination })
    }

    /// The temporary file into which a sound is copied before it replaces
    /// the managed sound file `file_name`: `.{file_name}.{process_id}.{sequence}.tmp`
    /// in the sound directory.
    pub fn staged_sound_path(&self, file_name: &str, process_id: u32, sequence: u64) -> (res: String)
        ensures
            res@ == join(
                sounds_dir_of(self.config_path()),
                staged_sound_name(file_name@, process_id as nat, sequence as nat),
            ),
    {
        let mut name = ".".to_owned();
        name.append(file_name);
        name.append(".");
        name.append(decimal_text(process_id as u64).as_str());
        name.append(".");
        name.append(decimal_text(sequence).as_str());
        name.append(".tmp");
        join_path(self.sounds_dir().as_str(), name.as_str())
    }
}

/// Joining one directory with two different relative names gives two
/// different paths.
pub proof fn lemma_join_distinct(base: Seq<char>, a: Seq<char>, b: Seq<char>)
    requires
        a != b,
        a.len() > 0 && a[0] != '/',
        b.len() > 0 && b[0] != '/',
    ensures
        join(base, a) != join(base, b),
{
    let prefix = if base.len() == 0 || base.last() == '/' {
        base
    } else {
        base + seq!['/']
    };
    assert(join(base, a) =~= prefix + a);
    assert(join(base, b) =~= prefix + b);
    if join(base, a) == join(base, b) {
        assert((prefix + a).subrange(prefix.len() as int, (prefix + a).len() as int) =~= a);
        assert((prefix + b).subrange(prefix.len() as int, (prefix + b).len() as int) =~= b);
    }
}

/// The file that saving a profile writes is the file that loading it by the
/// name the save returned reads, and the file that any name normalizing to
/// the same stem reads.
pub proof fn lemma_saved_profile_file(config_dir: Seq<char>, name: Seq<char>)
    ensures
        profile_file(config_dir, normalized_name(name)) == profile_file(config_dir, name),
{
    crate::text::lemma_normalized_name_idempotent(name);
}

/// A saved profile is listed again: the file `{stem}.toml` that saving a
/// profile creates is an entry whose profile stem is that normalized name.
pub proof fn lemma_saved_profile_is_listed(name: Seq<char>)
    requires
        normalized_name(name).len() > 0,
    ensures
        profile_stem(normalized_name(name) + ".toml"@) == Some(normalized_name(name)),
{
    let n = normalized_name(name);
    let entry = n + ".toml"@;
    reveal_strlit(".toml");
    reveal_strlit("toml");
    crate::text::lemma_normalized_name_chars(name);
    crate::paths::lemma_last_dot(entry);
    let d = crate::paths::last_dot(entry);
    assert(entry[n.len() as int] == '.');
    assert(d == n.len()) by {
        if d < n.len() {
            assert(entry[n.len() as int] != '.');
        }
        if d > n.len() {
            assert(entry[d] == ".toml"@[d - n.len()]);
        }
    }
    assert(entry.subrange(d + 1, entry.len() as int) =~= "toml"@);
    assert(entry.subrange(0, d) =~= n);
}

/// The files involved in importing a profile's two sounds are all different:
/// the managed press and release files, and the temporary copies of each.
/// So copying one sound never overwrites the other, or a file still to be
/// read, which is what lets a profile swap its press and release sounds.
pub proof fn lemma_import_paths_distinct(
    config_dir: Seq<char>,
    name: Seq<char>,
    press_extension: Seq<char>,
    release_extension: Seq<char>,
    process_id: nat,
    press_sequence: nat,
    release_sequence: nat,
)
    requires
        normalized_name(name).len() > 0,
    ensures
        ({
            let n = normalized_name(name);
            let sounds = sounds_dir_of(config_dir);
            let press = managed_sound_name(n, "press"@, press_extension);
            let release = managed_sound_name(n, "release"@, release_extension);
            let press_staged = staged_sound_name(press, process_id, press_sequence);
            let release_staged = staged_sound_name(release, process_id, release_sequence);
            &&& join(sounds, press) != join(sounds, release)
            &&& join(sounds, press_staged) != join(sounds, press)
            &&& join(sounds, press_staged) != join(sounds, release)
            &&& join(sounds, release_staged) != join(sounds, press)
            &&& join(sounds, release_staged) != join(sounds, release)
            &&& join(sounds, press_staged) != join(sounds, release_staged)
        }),
{
    let n = normalized_name(name);
    let sounds = sounds_dir_of(config_dir);
    reveal_strlit("press");
    reveal_strlit("release");
    reveal_strlit("-");
    reveal_strlit(".");
    crate::text::lemma_normalized_name_chars(name);
    let press = managed_sound_name(n, "press"@, press_extension);
    let release = managed_sound_name(n, "release"@, release_extension);
    let press_staged = staged_sound_name(press, process_id, press_sequence);
    let release_staged = staged_sound_name(release, process_id, release_sequence);
    let k = n.len() as int;
    assert(press[k + 1] == 'p');
    assert(release[k + 1] == 'r');
    assert(press[0] == n[0] && release[0] == n[0]);
    assert(press_staged[0] == '.');
    assert(release_staged[0] == '.');
    assert(press_staged[k + 2] == 'p');
    assert(release_staged[k + 2] == 'r');
    lemma_join_distinct(sounds, press, release);
    lemma_join_distinct(sounds, press_staged, press);
    lemma_join_distinct(sounds, press_staged, release);
    lemma_join_distinct(sounds, release_staged, press);
    lemma_join_distinct(sounds, release_staged, release);
    lemma_join_distinct(sounds, press_staged, release_staged);
}

/// Saving again a profile whose sounds are already its managed files keeps
/// them where they are: the managed file of a role has the lower-case
/// extension it was stored with, so importing it plans the very same file.
pub proof fn lemma_managed_sound_stays(
    config_dir: Seq<char>,
    name: Seq<char>,
    role: Seq<char>,
    ext: Seq<char>,
)
    requires
        normalized_name(name).len() > 0,
        role == "press"@ || role == "release"@,
        ext == "wav"@ || ext == "ogg"@,
    ensures
        ({
            let n = normalized_name(name);
            let sounds = sounds_dir_of(config_dir);
            let source = join(sounds, managed_sound_name(n, role, ext));
            &&& extension(source) == Some(ext)
            &&& ascii_lowercase(ext) == ext
            &&& join(sounds, managed_sound_name(n, role, ascii_lowercase(extension(source)->0)))
                == source
        }),
{
    let n = normalized_name(name);
    let sounds = sounds_dir_of(config_dir);
    let f = managed_sound_name(n, role, ext);
    reveal_strlit("press");
    reveal_strlit("release");
    reveal_strlit("wav");
    reveal_strlit("ogg");
    reveal_strlit("-");
    reveal_strlit(".");
    crate::text::lemma_normalized_name_chars(name);
    let k = n.len() as int;
    let q = k + 1 + role.len();
    assert(f =~= n + "-"@ + role + "."@ + ext);
    assert forall|i: int| 0 <= i < f.len() implies f[i] != '/' by {
        if i < k {
            assert(f[i] == n[i]);
        } else if i == k {
        } else if i < q {
            assert(f[i] == role[i - k - 1]);
        } else if i > q {
            assert(f[i] == ext[i - q - 1]);
        }
    }
    assert(f[k] == '-');
    assert(f != seq!['.']);
    assert(f != seq!['.', '.']) by {
        if f.len() == 2 {
            assert(k + 1 < 2);
        }
    }
    crate::paths::lemma_file_name_of_join(sounds, f);
    crate::paths::lemma_last_dot(f);
    let d = crate::paths::last_dot(f);
    assert(f[q] == '.');
    assert(d == q) by {
        if d < q {
            assert(f[q] != '.');
        }
        if d > q {
            assert(f[d] == ext[d - q - 1]);
        }
    }
    assert(f.subrange(d + 1, f.len() as int) =~= ext);
    assert(ascii_lowercase(ext) =~= ext);
}

} // verus!