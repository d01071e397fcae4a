//! The decisions of the running application: which profile is active,
//! whether sounds play, what the user interface is shown, and which profile
//! comes next, survives a rename or takes over after a deletion.

use vstd::prelude::*;
use crate::config::{
    AppConfig, ConfigStore, ProfileConfig, ProfileSummary, profile_file, profiles_dir_of,
};
use crate::error::AppError;
use crate::input::KeyEvent;
use crate::text::{normalized_name, normalized_profile_name};

verus! {

/// What the user interface is shown of the running application.
#[derive(Debug)]
pub struct RuntimeSnapshot {
    pub enabled: bool,
    pub active_profile: ProfileConfig,
    pub profiles: Vec<ProfileSummary>,
    pub config_dir: String,
    pub data_dir: String,
    pub profiles_dir: String,
    pub last_error: Option<String>,
}

/// The state of the running application, apart from the loaded sounds.
#[derive(Debug)]
pub struct RuntimeState {
    pub app_config: AppConfig,
    pub active_profile: ProfileConfig,
    pub last_error: Option<String>,
}

impl RuntimeState {
    /// Makes `profile` the active profile; `load_error` is what went wrong
    /// loading its sounds, if anything. Whether sounds play is unchanged.
    pub fn switch_profile(&mut self, profile: ProfileConfig, load_error: Option<String>)
        ensures
            final(self).active_profile == profile,
            final(self).app_config.active_profile@ == profile.name@,
            final(self).app_config.enabled == old(self).app_config.enabled,
            final(self).last_error == load_error,
    {
        let name = profile.name.clone();
        self.active_profile = profile;
        self.last_error = load_error;
        self.app_config.active_profile = name;
    }

    /// Turns the playing of sounds on or off; nothing else changes.
    pub fn set_enabled(&mut self, enabled: bool)
        ensures
            final(self).app_config.enabled == enabled,
            final(self).app_config.active_profile == old(self).app_config.active_profile,
            final(self).active_profile == old(self).active_profile,
            final(self).last_error == old(self).last_error,
    {
        self.app_config.enabled = enabled;
    }

    /// Records the latest error; nothing else changes.
    pub fn set_last_error(&mut self, error: String)
        ensures
            final(self).last_error == Some(error),
            final(self).app_config == old(self).app_config,
            final(self).active_profile == old(self).active_profile,
    {
        self.last_error = Some(error);
    }

    /// The sound that a key event plays: none while playing is turned off,
    /// otherwise the press sound for a press and the release sound for a release.
    pub fn sound_for_event(&self, event: KeyEvent) -> (res: Option<KeyEvent>)
        ensures
            res == (if self.app_config.enabled {
                Some(event)
            } else {
                None
            }),
    {
        if self.app_config.enabled {
            Some(event)
        } else {
            None
        }
    }

    /// The name of the active profile, as the settings hold it.
    pub fn active_profile_name(&self) -> (res: String)
        ensures
            res@ == self.app_config.active_profile@,
    {
        self.app_config.active_profile.clone()
    }

    /// What the user interface is shown, given the stored profiles `profile_names`.
    pub fn snapshot(&self, store: &ConfigStore, profile_names: &Vec<String>) -> (res:
        RuntimeSnapshot)
        ensures
            res.enabled == self.app_config.enabled,
            res.active_profile == self.active_profile,
            res.last_error == self.last_error,
            res.config_dir@ == store.config_path(),
            res.data_dir@ == store.data_path(),
            res.profiles_dir@ == profiles_dir_of(store.config_path()),
            res.profiles@.len() == profile_names@.len(),
            forall|i: int|
                0 <= i < profile_names@.len() ==> {
                    &&& (#[trigger] res.profiles@[i]).name@ == profile_names@[i]@
                    &&& res.profiles@[i].path@ == profile_file(
                        store.config_path(),
                        profile_names@[i]@,
                    )
                    &&& res.profiles@[i].active == (profile_names@[i]@
                        == self.app_config.active_profile@)
                },
    {
        RuntimeSnapshot {
            enabled: self.app_config.enabled,
            active_profile: self.active_profile.clone(),
            profiles: store.list_profiles(profile_names, self.app_config.active_profile.as_str()),
            config_dir: store.config_dir().to_owned(),
            data_dir: store.data_dir().to_owned(),
            profiles_dir: store.profiles_dir().to_owned(),
            last_error: match &self.last_error {
                Some(error) => Some(error.clone()),
                None => None,
            },
        }
    }
}

/// The settings at start-up: those read from the settings file, or the
/// defaults (the `default` profile, enabled) when they could not be read.
pub fn loaded_or_default(loaded: Option<AppConfig>) -> (res: AppConfig)
    ensures
        match loaded {
            Some(config) => res == config,
            None => res.active_profile@ == crate::config::default_profile_name() && res.enabled,
        },
{
    match loaded {
        Some(config) => config,
        None => AppConfig::default(),
    }
}

/// The settings after the profile `profile` replaced an active profile that
/// could not be loaded: `profile` is active; playing stays as it was.
pub fn adopt_profile(app_config: AppConfig, profile: &ProfileConfig) -> (res: AppConfig)
    ensures
        res.active_profile@ == profile.name@,
        res.enabled == app_config.enabled,
{
    AppConfig { active_profile: profile.name.clone(), enabled: app_config.enabled }
}

/// The names of a profile listing, in order.
pub open spec fn summary_names(profiles: Seq<ProfileSummary>) -> Seq<Seq<char>> {
    profiles.map_values(|p: ProfileSummary| p.name@)
}

/// The first position of `name` in `names`; `names.len()` when absent.
pub open spec fn first_position(names: Seq<Seq<char>>, name: Seq<char>) -> int
    decreases names.len(),
{
    if names.len() == 0 {
        0
    } else if names[0] == name {
        0
    } else {
        1 + first_position(names.drop_first(), name)
    }
}

/// The profile that follows `current` in the listing `names`: the one after
/// the first occurrence of `current`, or after the first profile when
/// `current` is not listed, wrapping around at the end.
pub open spec fn next_name(names: Seq<Seq<char>>, current: Seq<char>) -> Seq<char> {
    let p = first_position(names, current);
    let start = if p < names.len() {
        p
    } else {
        0
    };
    names[(start + 1) % (names.len() as int)]
}

/// `first_position` is within bounds, points at `name` when present, and no
/// earlier position holds it.
pub proof fn lemma_first_position(names: Seq<Seq<char>>, name: Seq<char>)
    ensures
        0 <= first_position(names, name) <= names.len(),
        first_position(names, name) < names.len() ==> names[first_position(names, name)] == name,
        forall|j: int| 0 <= j < first_position(names, name) ==> names[j] != name,
        first_position(names, name) == names.len() ==> !names.contains(name),
    decreases names.len(),
{
    if names.len() > 0 && names[0] != name {
        let rest = names.drop_first();
        lemma_first_position(rest, name);
        assert forall|j: int| 0 <= j < first_position(names, name) implies names[j] != name by {
            if j > 0 {
                assert(names[j] == rest[j - 1]);
            }
        }
        if first_position(names, name) == names.len() {
            assert forall|j: int| 0 <= j < names.len() implies names[j] != name by {
                if j > 0 {
                    assert(names[j] == rest[j - 1]);
                }
            }
        }
    }
}

/// The profile to switch to after `current`, in the listing `profiles`;
/// `None` when nothing is listed.
pub fn next_profile_name(profiles: &Vec<ProfileSummary>, current: &str) -> (res: Option<String>)
    ensures
        match res {
            None => profiles@.len() == 0,
            Some(next) => profiles@.len() > 0 && next@ == next_name(
                summary_names(profiles@),
                current@,
            ),
        },
{
    if profiles.len() == 0 {
        return None;
    }
    let ghost names = summary_names(profiles@);
    let target = current.to_owned();
    let mut p: usize = 0;
    proof {
        lemma_first_position(names, current@);
    }
    while p < profiles.len() && profiles[p].name != target
        invariant
            p <= profiles@.len(),
            names == summary_names(profiles@),
            target@ == current@,
            forall|j: int| 0 <= j < p ==> names[j] != current@,
            0 <= first_position(names, current@) <= names.len(),
            first_position(names, current@) < names.len() ==> names[first_position(names, current@)] == current@,
            forall|j: int| 0 <= j < first_position(names, current@) ==> names[j] != current@,
        decreases profiles@.len() - p,
    {
        p = p + 1;
    }
    let start = if p < profiles.len() {
        p
    } else {
        0
    };
    proof {
        if p < profiles.len() {
            assert(names[p as int] == current@);
            assert(first_position(names, current@) == p);
        } else {
            assert(first_position(names, current@) >= names.len()) by {
                if first_position(names, current@) < names.len() {
                    assert(names[first_position(names, current@)] == current@);
                }
            }
        }
    }
    let next = (start + 1) % profiles.len();
    Some(profiles[next].name.clone())
}

/// `k` steps of `next_name` from `current`.
pub open spec fn steps_from(names: Seq<Seq<char>>, current: Seq<char>, k: nat) -> Seq<char>
    decreases k,
{
    if k == 0 {
        current
    } else {
        steps_from(names, next_name(names, current), (k - 1) as nat)
    }
}

/// Moving to the next profile steps through a listing of distinct profiles
/// in order: `k` steps from the profile at position `i` reach the one at
/// position `i + k`, counted round the listing; so every profile is reached,
/// and as many steps as there are profiles come back to the start.
pub proof fn lemma_next_profile_cycles(names: Seq<Seq<char>>, i: int, k: nat)
    requires
        names.no_duplicates(),
        0 <= i < names.len(),
    ensures
        steps_from(names, names[i], k) == names[(i + k) % (names.len() as int)],
    decreases k,
{
    let n = names.len() as int;
    lemma_first_position(names, names[i]);
    assert(first_position(names, names[i]) == i) by {
        let p = first_position(names, names[i]);
        if p < i {
            assert(names[p] == names[i]);
        }
    }
    assert(next_name(names, names[i]) == names[(i + 1) % n]);
    if k > 0 {
        let i2 = (i + 1) % n;
        lemma_next_profile_cycles(names, i2, (k - 1) as nat);
        assert((i2 + (k - 1)) % n == (i + k) % n) by {
            vstd::arithmetic::div_mod::lemma_add_mod_noop(i + 1, k - 1, n);
            vstd::arithmetic::div_mod::lemma_mod_twice(i + 1, n);
            vstd::arithmetic::div_mod::lemma_add_mod_noop((i + 1) % n, k - 1, n);
        }
    } else {
        vstd::arithmetic::div_mod::lemma_small_mod(i as nat, n as nat);
    }
}

/// The names involved in renaming the active profile.
#[derive(Debug)]
pub struct ProfileRename {
    /// The normalized name that the profile is saved under.
    pub next: String,
    /// The normalized name of the profile that was active.
    pub previous: String,
}

impl ProfileRename {
    /// Whether the file of the previously active profile goes once the
    /// profile was saved as `saved`: when the two names differ.
    pub fn retires_previous(&self, saved: &str) -> (res: bool)
        ensures
            res == (saved@ != self.previous@),
    {
        let saved = saved.to_owned();
        !(saved == self.previous)
    }
}

/// Whether the active profile `previous_active` may be saved as `profile`,
/// given the stored profiles `existing`: the new name must not be empty, and
/// must not be that of another stored profile.
pub fn check_active_rename(previous_active: &str, existing: &Vec<String>, profile: &ProfileConfig) -> (res:
    Result<ProfileRename, AppError>)
    ensures
        ({
            let next = normalized_name(profile.name@);
            let previous = normalized_name(previous_active@);
            match res {
                Ok(rename) => {
                    &&& rename.next@ == next
                    &&& rename.previous@ == previous
                    &&& next.len() > 0
                    &&& (next == previous || !existing.deep_view().contains(next))
                },
                Err(e) => {
                    ||| next.len() == 0 && e is EmptyProfileName
                    ||| next.len() > 0 && next != previous && existing.deep_view().contains(next)
                        && (e matches AppError::ProfileExists { name } && name@ == next)
                },
            }
        }),
{
    let next = normalized_profile_name(profile.name.as_str());
    let previous = normalized_profile_name(previous_active);
    if next.as_str().is_empty() {
        return Err(AppError::EmptyProfileName);
    }
    if !(next == previous) {
        let mut i: usize = 0;
        while i < existing.len()
            invariant
                i <= existing@.len(),
                next@ != previous@,
                next@.len() > 0,
                next@ == normalized_name(profile.name@),
                previous@ == normalized_name(previous_active@),
                forall|j: int| 0 <= j < i ==> existing.deep_view()[j] != next@,
            decreases existing@.len() - i,
        {
            if existing[i] == next {
                assert(existing.deep_view()[i as int] == next@);
                assert(existing.deep_view().contains(next@));
                return Err(AppError::ProfileExists { name: next });
            }
            i = i + 1;
        }
    }
    Ok(ProfileRename { next, previous })
}

/// Whether deleting the profile `deleted` deleted the active profile
/// `active_profile`: when the active profile's normalized name is `deleted`.
pub fn deletes_active_profile(active_profile: &str, deleted: &str) -> (res: bool)
    ensures
        res == (normalized_name(active_profile@) == deleted@),
{
    let active = normalized_profile_name(active_profile);
    let deleted = deleted.to_owned();
    active == deleted
}

/// The profile to switch to after `deleted` was deleted while
/// `active_profile` was active, given the profiles that remain: the first of
/// them when the active profile was the one deleted (an error when none
/// remains), and no switch otherwise.
pub fn profile_after_delete(active_profile: &str, deleted: &str, remaining: &Vec<String>) -> (res:
    Result<Option<String>, AppError>)
    ensures
        normalized_name(active_profile@) != deleted@ ==> res matches Ok(None),
        normalized_name(active_profile@) == deleted@ ==> match res {
            Ok(Some(next)) => remaining@.len() > 0 && next@ == remaining@[0]@,
            Ok(None) => false,
            Err(e) => remaining@.len() == 0 && e is NoProfilesRemain,
        },
{
    let active = normalized_profile_name(active_profile);
    let deleted = deleted.to_owned();
    if active == deleted {
        if remaining.len() == 0 {
            Err(AppError::NoProfilesRemain)
        } else {
            Ok(Some(remaining[0].clone()))
        }
    } else {
        Ok(None)
    }
}

/// `prefix` followed by `detail`.
fn prefixed(prefix: &str, detail: &str) -> (res: String)
    ensures
        res@ == prefix@ + detail@,
{
    let mut res = prefix.to_owned();
    res.append(detail);
    res
}

/// Why the sounds of `profile` cannot be loaded, once it is known whether
/// its press and release sound files exist: the press sound is checked
/// first; `None` when both exist.
pub fn sound_files_problem(profile: &ProfileConfig, press_exists: bool, release_exists: bool) -> (res:
    Option<String>)
    ensures
        !press_exists ==> (res matches Some(m) && m@ == "Press sound file does not exist: "@
            + profile.press_sound@),
        press_exists && !release_exists ==> (res matches Some(m) && m@
            == "Release sound file does not exist: "@ + profile.release_sound@),
        press_exists && release_exists ==> res is None,
{
    if !press_exists {
        Some(prefixed("Press sound file does not exist: ", profile.press_sound.as_str()))
    } else if !release_exists {
        Some(prefixed("Release sound file does not exist: ", profile.release_sound.as_str()))
    } else {
        None
    }
}

/// The error recorded when decoding the sounds failed for the reason `detail`.
pub fn audio_load_failure(detail: &str) -> (res: String)
    ensures
        res@ == "Failed to load audio: "@ + detail@,
{
    prefixed("Failed to load audio: ", detail)
}

/// The error recorded when the keyboard listener stopped for the reason `detail`.
pub fn listener_failure(detail: &str) -> (res: String)
    ensures
        res@ == "Input listener stopped: "@ + detail@,
{
    prefixed("Input listener stopped: ", detail)
}

/// Why the command-line player cannot start with the given sound files,
/// once it is known whether they exist: the press sound is checked first;
/// `None` when both exist.
pub fn command_line_sound_problem(
    press_sound: &str,
    press_exists: bool,
    release_sound: &str,
    release_exists: bool,
) -> (res: Option<String>)
    ensures
        !press_exists ==> (res matches Some(m) && m@ == "Press sound file not found: "@
            + press_sound@),
        press_exists && !release_exists ==> (res matches Some(m) && m@
            == "Release sound file not found: "@ + release_sound@),
        press_exists && release_exists ==> res is None,
{
    if !press_exists {
        Some(prefixed("Press sound file not found: ", press_sound))
    } else if !release_exists {
        Some(prefixed("Release sound file not found: ", release_sound))
    } else {
        None
    }
}

/// Moving to the next profile cycles through the stored profiles as they are
/// listed: when the entries of the profile directory are all different (as a
/// directory's are) and `names` is their listing, `k` steps from the profile
/// at position `i` reach the one at position `i + k`, counted round the
/// listing, and as many steps as there are profiles come back to the start.
pub proof fn lemma_listed_profiles_cycle(
    entries: Seq<Seq<char>>,
    names: Seq<Seq<char>>,
    i: int,
    k: nat,
)
    requires
        entries.no_duplicates(),
        names.to_multiset() == crate::config::profile_stems(entries).to_multiset(),
        0 <= i < names.len(),
    ensures
        steps_from(names, names[i], k) == names[(i + k) % (names.len() as int)],
        steps_from(names, names[i], names.len()) == names[i],
{
    crate::config::lemma_profile_stems_no_duplicates(entries);
    crate::order::lemma_no_duplicates_same_multiset(
        crate::config::profile_stems(entries),
        names,
    );
    lemma_next_profile_cycles(names, i, k);
    lemma_next_profile_cycles(names, i, names.len());
    assert((i + names.len()) % (names.len() as int) == i) by {
        vstd::arithmetic::div_mod::lemma_mod_add_multiples_vanish(i, names.len() as int);
        vstd::arithmetic::div_mod::lemma_small_mod(i as nat, names.len());
    }
}

} // verus!