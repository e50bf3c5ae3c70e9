//! Saving and restoring profiles: what a profile archives, the record it
//! is saved as, the names of configuration backups, and the errors and
//! messages of these operations.
use vstd::prelude::*;
use crate::desktops::{backup_paths_for, get_de_backup_paths, get_shared_backup_paths, shared_backup_paths};
use crate::records::{Profile, ProfileNameError};
use crate::text::{eq_ignore_ascii_case, same_ignoring_ascii_case, str_views, unicode_lowercase};

verus! {

broadcast use vstd::string::group_string_axioms;

/// The paths (relative to the home directory) a profile of `de` archives:
/// the desktop-specific ones, then the shared ones.
pub fn profile_archive_paths(de: &str) -> (r: Vec<&'static str>)
    ensures
        str_views(r@) == backup_paths_for(unicode_lowercase(de@)) + shared_backup_paths(),
{
    let mut r = get_de_backup_paths(de);
    let mut shared = get_shared_backup_paths();
    let ghost a = r@;
    let ghost b = shared@;
    r.append(&mut shared);
    assert(r@ == a + b);
    assert(str_views(a + b) =~= str_views(a) + str_views(b));
    r
}

/// Whether saving a profile of `de` also saves a dump of the dconf settings
/// (for GNOME, ignoring ASCII case).
pub fn needs_dconf_dump(de: &str) -> (r: bool)
    ensures
        r == same_ignoring_ascii_case(de@, "gnome"@),
{
    eq_ignore_ascii_case(de, "gnome")
}

/// The file name a saved profile records for its thumbnail: `thumbnail.png`
/// when a thumbnail was copied into the profile, else nothing.
pub open spec fn thumbnail_entry(saved: bool) -> Seq<char> {
    if saved {
        "thumbnail.png"@
    } else {
        seq![]
    }
}

/// The record of a newly saved profile.
pub fn new_profile(
    name: &str,
    de: &str,
    created: String,
    packages: Vec<String>,
    thumbnail_saved: bool,
    remote_path: &str,
) -> (r: Profile)
    ensures
        r.name@ == name@,
        r.de@ == de@,
        r.created@ == created@,
        r.packages@ == packages@,
        r.thumbnail@ == thumbnail_entry(thumbnail_saved),
        r.remote_path@ == remote_path@,
{
    Profile {
        name: name.to_owned(),
        de: de.to_owned(),
        created,
        packages,
        thumbnail: if thumbnail_saved { String::from_str("thumbnail.png") } else { String::new() },
        remote_path: remote_path.to_owned(),
    }
}

/// The two clock formats the application uses.
pub open spec fn known_time_format(fmt: Seq<char>) -> bool {
    fmt == "%Y-%m-%d %H:%M:%S"@ || fmt == "%Y%m%d_%H%M%S"@
}

/// Whether `c` is an ASCII decimal digit.
pub open spec fn is_digit(c: char) -> bool {
    '0' <= c && c <= '9'
}

/// Whether `s` holds, at `i` and `i + 1`, two decimal digits whose value is
/// in `lo..=hi`.
pub open spec fn two_digits_in(s: Seq<char>, i: int, lo: int, hi: int) -> bool {
    &&& is_digit(s[i])
    &&& is_digit(s[i + 1])
    &&& lo <= (s[i] as int - '0' as int) * 10 + (s[i + 1] as int - '0' as int) <= hi
}

/// A year as chrono writes `%Y`: at least four characters, all digits but
/// for a leading sign (written for years outside 0..=9999).
pub open spec fn is_year_text(y: Seq<char>) -> bool {
    &&& y.len() >= 4
    &&& (is_digit(y[0]) || y[0] == '+' || y[0] == '-')
    &&& forall|k: int| 1 <= k < y.len() ==> is_digit(#[trigger] y[k])
}

/// A local time written as `%Y-%m-%d %H:%M:%S`: the year, then month
/// (01-12), day (01-31), hour (00-23), minute (00-59) and second (00-60,
/// counting a leap second) as two digits each, separated by `-`, `-`, ` `,
/// `:` and `:`.
pub open spec fn is_date_time_text(s: Seq<char>) -> bool {
    let n = s.len() as int;
    &&& n >= 19
    &&& is_year_text(s.take(n - 15))
    &&& s[n - 15] == '-'
    &&& two_digits_in(s, n - 14, 1, 12)
    &&& s[n - 12] == '-'
    &&& two_digits_in(s, n - 11, 1, 31)
    &&& s[n - 9] == ' '
    &&& two_digits_in(s, n - 8, 0, 23)
    &&& s[n - 6] == ':'
    &&& two_digits_in(s, n - 5, 0, 59)
    &&& s[n - 3] == ':'
    &&& two_digits_in(s, n - 2, 0, 60)
}

/// A local time written as `%Y%m%d_%H%M%S`: the year, then month, day,
/// `_`, hour, minute and second, two digits each, in the same ranges as in
/// [`is_date_time_text`].
pub open spec fn is_compact_stamp(s: Seq<char>) -> bool {
    let n = s.len() as int;
    &&& n >= 15
    &&& is_year_text(s.take(n - 11))
    &&& two_digits_in(s, n - 11, 1, 12)
    &&& two_digits_in(s, n - 9, 1, 31)
    &&& s[n - 7] == '_'
    &&& two_digits_in(s, n - 6, 0, 23)
    &&& two_digits_in(s, n - 4, 0, 59)
    &&& two_digits_in(s, n - 2, 0, 60)
}

/// Calls `chrono::Local::now()` and formats the local time with `fmt`.
/// Which time comes back depends on the clock and the time zone; what holds
/// of every outcome is the shape chrono writes: `%Y` gives at least four
/// characters (zero-padded, with a sign outside 0..=9999), `%m`, `%d`, `%H`,
/// `%M` and `%S` two zero-padded digits each, in the ranges of a valid date
/// and time (a second of 60 for a leap second), and the separators are
/// written as given. `fmt` is restricted to the two formats the application
/// uses, which chrono renders without error.
#[verifier::external_body]
fn local_time_formatted(fmt: &str) -> (r: String)
    requires
        known_time_format(fmt@),
    ensures
        fmt@ == "%Y-%m-%d %H:%M:%S"@ ==> is_date_time_text(r@),
        fmt@ == "%Y%m%d_%H%M%S"@ ==> is_compact_stamp(r@),
{
    chrono::Local::now().format(fmt).to_string()
}

/// The record of a profile saved now: as [`new_profile`], created at the
/// current local time, written `YYYY-MM-DD HH:MM:SS`.
pub fn new_profile_now(
    name: &str,
    de: &str,
    packages: Vec<String>,
    thumbnail_saved: bool,
    remote_path: &str,
) -> (r: Profile)
    ensures
        r.name@ == name@,
        r.de@ == de@,
        is_date_time_text(r.created@),
        r.packages@ == packages@,
        r.thumbnail@ == thumbnail_entry(thumbnail_saved),
        r.remote_path@ == remote_path@,
{
    let created = local_time_formatted("%Y-%m-%d %H:%M:%S");
    new_profile(name, de, created, packages, thumbnail_saved, remote_path)
}

/// The name of the backup of configuration directory `conflict` taken at
/// time `stamp`.
pub fn conflict_backup_name(conflict: &str, stamp: &str) -> (r: String)
    ensures
        r@ == conflict@ + "_"@ + stamp@,
{
    String::from_str(conflict).concat("_").concat(stamp)
}

/// The name of a backup of configuration directory `conflict` taken now
/// (the local time as `YYYYMMDD_HHMMSS`): the directory's name, `_` and the time.
pub fn conflict_backup_name_now(conflict: &str) -> (r: String)
    ensures
        exists|stamp: Seq<char>| is_compact_stamp(stamp) && r@ == conflict@ + "_"@ + stamp,
{
    let stamp = local_time_formatted("%Y%m%d_%H%M%S");
    conflict_backup_name(conflict, stamp.as_str())
}

/// Why saving or restoring a profile failed.
#[derive(Clone, Debug)]
pub enum ProfileError {
    /// The profile name was refused.
    BadName(ProfileNameError),
    /// A profile of that name already exists for that desktop environment
    /// (name, desktop environment).
    AlreadyExists(String, String),
    /// No profile of that name exists for that desktop environment
    /// (name, desktop environment).
    NotFound(String, String),
    /// The profile's directory holds no `profile.json`.
    MetadataMissing,
}

/// The message of a [`ProfileError`].
pub open spec fn profile_error_message(e: ProfileError) -> Seq<char> {
    match e {
        ProfileError::BadName(ProfileNameError::Empty) => "Profile name cannot be empty"@,
        ProfileError::BadName(ProfileNameError::Invalid) => "Invalid profile name"@,
        ProfileError::AlreadyExists(n, d) => "Profile '"@ + n@ + "' already exists for "@ + d@,
        ProfileError::NotFound(n, d) => "Profile '"@ + n@ + "' for "@ + d@ + " not found"@,
        ProfileError::MetadataMissing => "Profile metadata not found"@,
    }
}

impl ProfileError {
    /// The message shown for this error.
    pub fn message(&self) -> (r: String)
        ensures
            r@ == profile_error_message(*self),
    {
        match self {
            ProfileError::BadName(e) => e.message().to_owned(),
            ProfileError::AlreadyExists(n, d) => String::from_str("Profile '").concat(n.as_str()).concat(
                "' already exists for ",
            ).concat(d.as_str()),
            ProfileError::NotFound(n, d) => String::from_str("Profile '").concat(n.as_str()).concat(
                "' for ",
            ).concat(d.as_str()).concat(" not found"),
            ProfileError::MetadataMissing => String::from_str("Profile metadata not found"),
        }
    }
}

} // verus!
