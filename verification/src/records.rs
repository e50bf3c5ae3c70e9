//! The records the application stores: saved profiles, the application
//! configuration and the last profile used, with the rules for accepting a
//! profile name and a remote backup target.
use vstd::prelude::*;
use crate::text::{contains, has_substring, law_trim_idempotent, starts_with, string_views, trim, trimmed};
use crate::paths::joined;

verus! {

broadcast use vstd::string::group_string_axioms;

/// A saved profile: its name, the desktop environment it belongs to, when it
/// was created (`YYYY-MM-DD HH:MM:SS`), the packages installed at the time,
/// the file name of its thumbnail (empty when it has none) and the remote
/// target it was saved with.
#[derive(Clone, Debug)]
pub struct Profile {
    pub name: String,
    pub de: String,
    pub created: String,
    pub packages: Vec<String>,
    pub thumbnail: String,
    pub remote_path: String,
}

/// The abstract content of a [`Profile`].
pub struct ProfileView {
    pub name: Seq<char>,
    pub de: Seq<char>,
    pub created: Seq<char>,
    pub packages: Seq<Seq<char>>,
    pub thumbnail: Seq<char>,
    pub remote_path: Seq<char>,
}

impl View for Profile {
    type V = ProfileView;

    open spec fn view(&self) -> ProfileView {
        ProfileView {
            name: self.name@,
            de: self.de@,
            created: self.created@,
            packages: string_views(self.packages@),
            thumbnail: self.thumbnail@,
            remote_path: self.remote_path@,
        }
    }
}

/// The abstract contents of a sequence of profiles.
pub open spec fn profile_views(v: Seq<Profile>) -> Seq<ProfileView> {
    v.map_values(|p: Profile| p@)
}

/// The profile that was saved or restored last.
#[derive(Clone, Debug)]
pub struct LastProfile {
    pub de: String,
    pub name: String,
}

/// The application configuration: its format version, the remote target used
/// last, the desktop environments found installed, and the profile used last.
#[derive(Clone, Debug)]
pub struct AppConfig {
    pub version: i32,
    pub last_remote_path: String,
    pub installed_des: Vec<String>,
    pub last_profile: Option<LastProfile>,
}

impl Default for AppConfig {
    /// Version 2, no remote target, no installed desktop environments and no
    /// last profile.
    fn default() -> (r: AppConfig)
        ensures
            r.version == 2,
            r.last_remote_path@.len() == 0,
            r.installed_des@.len() == 0,
            r.last_profile is None,
    {
        AppConfig {
            version: 2,
            last_remote_path: String::new(),
            installed_des: Vec::new(),
            last_profile: None,
        }
    }
}

/// Records in `config` that profile `name` of `de` was saved last, with the
/// remote target `remote_path`.
pub fn record_saved_profile(config: &mut AppConfig, de: &str, name: &str, remote_path: &str)
    ensures
        final(config).version == old(config).version,
        final(config).installed_des@ == old(config).installed_des@,
        final(config).last_profile matches Some(lp) && lp.de@ == de@ && lp.name@ == name@,
        final(config).last_remote_path@ == remote_path@,
{
    config.last_profile = Some(LastProfile { de: de.to_owned(), name: name.to_owned() });
    config.last_remote_path = remote_path.to_owned();
}

/// Records in `config` that profile `name` of `de` was restored last.
pub fn record_restored_profile(config: &mut AppConfig, de: &str, name: &str)
    ensures
        final(config).version == old(config).version,
        final(config).installed_des@ == old(config).installed_des@,
        final(config).last_remote_path@ == old(config).last_remote_path@,
        final(config).last_profile matches Some(lp) && lp.de@ == de@ && lp.name@ == name@,
{
    config.last_profile = Some(LastProfile { de: de.to_owned(), name: name.to_owned() });
}

/// Records in `config` the desktop environments found installed.
pub fn record_installed_des(config: &mut AppConfig, installed: Vec<String>)
    ensures
        final(config).version == old(config).version,
        final(config).installed_des@ == installed@,
        final(config).last_remote_path@ == old(config).last_remote_path@,
        final(config).last_profile == old(config).last_profile,
{
    config.installed_des = installed;
}

/// The desktop environment a new profile is saved for: that of the last
/// profile used, when there is one, else the running desktop `current`.
pub fn desktop_for_new_profile(config: &AppConfig, current: String) -> (r: String)
    ensures
        r@ == match config.last_profile {
            Some(lp) => lp.de@,
            None => current@,
        },
{
    match &config.last_profile {
        Some(lp) => lp.de.clone(),
        None => current,
    }
}

/// Whether the installed desktop environments must be detected because the
/// configuration records none.
pub fn needs_detection(config: &AppConfig) -> (r: bool)
    ensures
        r == (config.installed_des@.len() == 0),
{
    config.installed_des.len() == 0
}

/// The installed desktop environments to show: those the configuration
/// records, or, when it records none, those `detect` found.
pub fn installed_des_to_show(config: &AppConfig, detected: Option<Vec<String>>) -> (r: Vec<String>)
    requires
        config.installed_des@.len() == 0 ==> detected is Some,
    ensures
        config.installed_des@.len() == 0 ==> r@ == detected->Some_0@,
        config.installed_des@.len() > 0 ==> r@ == config.installed_des@,
{
    if config.installed_des.len() == 0 {
        match detected {
            Some(d) => d,
            None => Vec::new(),
        }
    } else {
        config.installed_des.clone()
    }
}

/// Why a remote backup target was refused.
#[derive(Clone, Copy, Debug, PartialEq, Eq)]
pub enum RemoteTargetError {
    /// Nothing but white space was given.
    Empty,
    /// The target is neither an http(s) URL, a `file://` URL nor an absolute path.
    Unsupported,
}

impl RemoteTargetError {
    /// The message shown for this error.
    pub fn message(&self) -> (r: &'static str)
        ensures
            r@ == match self {
                RemoteTargetError::Empty => "Remote target cannot be empty"@,
                RemoteTargetError::Unsupported => "Remote target must be an http(s) URL, file:// URL, or absolute path"@,
            },
    {
        match self {
            RemoteTargetError::Empty => "Remote target cannot be empty",
            RemoteTargetError::Unsupported => "Remote target must be an http(s) URL, file:// URL, or absolute path",
        }
    }
}

/// Whether a trimmed remote target has one of the accepted forms.
pub open spec fn supported_remote(t: Seq<char>) -> bool {
    ||| "http://"@.is_prefix_of(t)
    ||| "https://"@.is_prefix_of(t)
    ||| "file://"@.is_prefix_of(t)
    ||| "/"@.is_prefix_of(t)
}

/// The remote target `input` without surrounding white space, provided it is
/// an http(s) URL, a `file://` URL or an absolute path.
pub fn normalize_remote_target(input: &str) -> (r: Result<String, RemoteTargetError>)
    ensures
        trimmed(input@).len() == 0 ==> r == Err::<String, RemoteTargetError>(RemoteTargetError::Empty),
        trimmed(input@).len() > 0 && supported_remote(trimmed(input@)) ==> (r matches Ok(t) && t@ == trimmed(input@)),
        trimmed(input@).len() > 0 && !supported_remote(trimmed(input@)) ==> r == Err::<String, RemoteTargetError>(RemoteTargetError::Unsupported),
{
    let t = trim(input);
    if t.as_str().is_empty() {
        return Err(RemoteTargetError::Empty);
    }
    if starts_with(t.as_str(), "http://") || starts_with(t.as_str(), "https://")
        || starts_with(t.as_str(), "file://") || starts_with(t.as_str(), "/") {
        return Ok(t);
    }
    Err(RemoteTargetError::Unsupported)
}

/// Why a profile name was refused.
#[derive(Clone, Copy, Debug, PartialEq, Eq)]
pub enum ProfileNameError {
    /// Nothing but white space was given.
    Empty,
    /// The name holds `/`, `\` or `..`.
    Invalid,
}

impl ProfileNameError {
    /// The message shown for this error.
    pub fn message(&self) -> (r: &'static str)
        ensures
            r@ == match self {
                ProfileNameError::Empty => "Profile name cannot be empty"@,
                ProfileNameError::Invalid => "Invalid profile name"@,
            },
    {
        match self {
            ProfileNameError::Empty => "Profile name cannot be empty",
            ProfileNameError::Invalid => "Invalid profile name",
        }
    }
}

/// Whether a trimmed profile name could lead out of its profile directory.
pub open spec fn unsafe_profile_name(t: Seq<char>) -> bool {
    ||| has_substring(t, "/"@)
    ||| has_substring(t, "\\"@)
    ||| has_substring(t, ".."@)
}

/// The profile name `name` without surrounding white space, provided it is
/// not empty and holds none of `/`, `\` and `..`.
pub fn validate_profile_name(name: &str) -> (r: Result<String, ProfileNameError>)
    ensures
        trimmed(name@).len() == 0 ==> r == Err::<String, ProfileNameError>(ProfileNameError::Empty),
        trimmed(name@).len() > 0 && unsafe_profile_name(trimmed(name@)) ==> r == Err::<String, ProfileNameError>(ProfileNameError::Invalid),
        trimmed(name@).len() > 0 && !unsafe_profile_name(trimmed(name@)) ==> (r matches Ok(t) && t@ == trimmed(name@)),
{
    let t = trim(name);
    if t.as_str().is_empty() {
        return Err(ProfileNameError::Empty);
    }
    if contains(t.as_str(), "/") || contains(t.as_str(), "\\") || contains(t.as_str(), "..") {
        return Err(ProfileNameError::Invalid);
    }
    Ok(t)
}

/// An accepted remote target is accepted again unchanged: normalizing is
/// idempotent.
pub proof fn law_normalize_remote_target_idempotent(input: Seq<char>)
    requires
        trimmed(input).len() > 0,
        supported_remote(trimmed(input)),
    ensures
        trimmed(trimmed(input)) == trimmed(input),
        supported_remote(trimmed(trimmed(input))),
{
    law_trim_idempotent(input);
}

/// An accepted profile name is accepted again unchanged, and names a single
/// entry directly inside whatever directory it is joined to: it cannot
/// replace the directory (it does not start with `/`) and holds no `/`.
pub proof fn law_accepted_profile_name_stays_inside(name: Seq<char>, dir: Seq<char>)
    requires
        trimmed(name).len() > 0,
        !unsafe_profile_name(trimmed(name)),
    ensures
        trimmed(trimmed(name)) == trimmed(name),
        joined(dir, trimmed(name)) == (if dir.len() == 0 || dir.last() == '/' {
            dir + trimmed(name)
        } else {
            dir + seq!['/'] + trimmed(name)
        }),
        forall|k: int| 0 <= k < trimmed(name).len() ==> #[trigger] trimmed(name)[k] != '/',
{
    law_trim_idempotent(name);
    let t = trimmed(name);
    reveal_strlit("/");
    assert forall|k: int| 0 <= k < t.len() implies #[trigger] t[k] != '/' by {
        if t[k] == '/' {
            assert(t.subrange(k, k + 1) =~= "/"@);
            assert(has_substring(t, "/"@));
        }
    }
}

} // verus!
