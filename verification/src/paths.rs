//! Where the application keeps its files. Paths are texts with Unix
//! semantics: joining a relative component adds a `/` separator when the base
//! has none, and joining an absolute component replaces the base.
use vstd::prelude::*;
use crate::text::{ascii_folded, to_lowercase, unicode_lowercase};

verus! {

broadcast use vstd::string::group_string_axioms;

/// `comp` adjoined to `base`, as `Path::join` does on Unix.
pub open spec fn joined(base: Seq<char>, comp: Seq<char>) -> Seq<char> {
    if comp.len() > 0 && comp[0] == '/' {
        comp
    } else if base.len() == 0 || base.last() == '/' {
        base + comp
    } else {
        base + seq!['/'] + comp
    }
}

/// `comp` adjoined to `base`: an absolute `comp` replaces `base`; otherwise
/// `comp` is appended, with a `/` in between when `base` is not empty and
/// does not already end with one.
pub fn join_path(base: &str, comp: &str) -> (r: String)
    ensures
        r@ == joined(base@, comp@),
{
    let n = base.unicode_len();
    if comp.unicode_len() > 0 && comp.get_char(0) == '/' {
        return comp.to_owned();
    }
    let mut r = base.to_owned();
    if !(n == 0 || base.get_char(n - 1) == '/') {
        r.append("/");
        proof {
            reveal_strlit("/");
        }
    }
    r.append(comp);
    r
}

/// The home directory to work in, given what the home-directory lookup
/// returned: `/tmp` stands in for a missing home directory.
pub open spec fn home_base(home: Option<Seq<char>>) -> Seq<char> {
    match home {
        Some(h) => h,
        None => "/tmp"@,
    }
}

/// The directory the application works under, given what the home
/// directory lookup returned.
pub open spec fn app_dir(home: Option<Seq<char>>) -> Seq<char> {
    joined(home_base(home), ".config/shapeshifter"@)
}

/// The character view of an optional string.
pub open spec fn opt_view(s: Option<String>) -> Option<Seq<char>> {
    match s {
        Some(x) => Some(x@),
        None => None,
    }
}

/// What a home-directory lookup can return: no directory, or a non-empty path.
pub open spec fn possible_home(h: Option<Seq<char>>) -> bool {
    h matches Some(x) ==> x.len() > 0
}

/// Calls `dirs::home_dir`. The result depends on the environment (`$HOME`,
/// else the password database), so the contract says only what the crate's
/// source shows of every outcome: a returned directory is never empty. The
/// path is converted to text with `to_string_lossy`.
#[verifier::external_body]
fn home_dir() -> (r: Option<String>)
    ensures
        possible_home(opt_view(r)),
{
    match dirs::home_dir() {
        Some(p) => Some(p.to_string_lossy().into_owned()),
        None => None,
    }
}

/// The home directory to work in, given what the home-directory lookup
/// returned: that directory, or `/tmp` when there is none.
pub fn home_or_tmp_from(home: Option<String>) -> (r: String)
    ensures
        r@ == home_base(opt_view(home)),
{
    match home {
        Some(x) => x,
        None => String::from_str("/tmp"),
    }
}

/// The user's home directory, or `/tmp` when it cannot be found.
pub fn home_or_tmp() -> (r: String)
    ensures
        exists|h: Option<Seq<char>>| possible_home(h) && r@ == #[trigger] home_base(h),
{
    let home = home_dir();
    let ghost h = opt_view(home);
    let r = home_or_tmp_from(home);
    assert(possible_home(h) && r@ == home_base(h));
    r
}

/// The application directory under the home directory `home`
/// (`/tmp` when there is none).
pub fn shapeshifter_dir_for(home: Option<String>) -> (r: String)
    ensures
        r@ == app_dir(opt_view(home)),
{
    let base = home_or_tmp_from(home);
    join_path(base.as_str(), ".config/shapeshifter")
}

/// Whether `d` is the application directory for some possible home directory.
pub open spec fn is_app_dir(d: Seq<char>) -> bool {
    exists|h: Option<Seq<char>>| possible_home(h) && d == #[trigger] app_dir(h)
}

/// The application directory: `.config/shapeshifter` under the user's home
/// directory, or under `/tmp` when the home directory cannot be found.
pub fn get_shapeshifter_dir() -> (r: String)
    ensures
        is_app_dir(r@),
{
    let home = home_dir();
    let ghost h = opt_view(home);
    let r = shapeshifter_dir_for(home);
    assert(possible_home(h) && r@ == app_dir(h));
    r
}

/// The path of the application's configuration file.
pub fn get_config_path() -> (r: String)
    ensures
        exists|d: Seq<char>| is_app_dir(d) && r@ == joined(d, "config.json"@),
{
    let d = get_shapeshifter_dir();
    join_path(d.as_str(), "config.json")
}

/// The directory that holds the saved profiles.
pub fn get_profiles_dir() -> (r: String)
    ensures
        is_profiles_dir(r@),
{
    let d = get_shapeshifter_dir();
    join_path(d.as_str(), "profiles")
}

/// Whether `p` is the profiles directory for some possible home directory.
pub open spec fn is_profiles_dir(p: Seq<char>) -> bool {
    exists|d: Seq<char>| is_app_dir(d) && p == #[trigger] joined(d, "profiles"@)
}

/// The per-desktop directory of desktop environment `de` under the profiles
/// directory `profiles_dir`: the environment's lower-cased name.
pub fn profiles_dir_for_de_under(profiles_dir: &str, de: &str) -> (r: String)
    ensures
        r@ == joined(profiles_dir@, unicode_lowercase(de@)),
        vstd::utf8::is_ascii_chars(de@) ==> r@ == joined(profiles_dir@, ascii_folded(de@)),
{
    let lower = to_lowercase(de);
    join_path(profiles_dir, lower.as_str())
}

/// The directory of profile `name` under the profiles directory
/// `profiles_dir`: profiles are stored directly under it, by name (the
/// desktop environment a profile belongs to is recorded in its metadata).
pub fn profile_dir_under(profiles_dir: &str, name: &str) -> (r: String)
    ensures
        r@ == joined(profiles_dir@, name@),
{
    join_path(profiles_dir, name)
}

/// The per-desktop directory of desktop environment `de` under the profiles
/// directory: the environment's lower-cased name.
pub fn get_profiles_dir_for_de(de: &str) -> (r: String)
    ensures
        exists|p: Seq<char>| is_profiles_dir(p) && r@ == joined(p, unicode_lowercase(de@)),
{
    let p = get_profiles_dir();
    let r = profiles_dir_for_de_under(p.as_str(), de);
    assert(is_profiles_dir(p@) && r@ == joined(p@, unicode_lowercase(de@)));
    r
}

/// The directory of profile `name`: `~/.config/shapeshifter/profiles/<name>`.
pub fn get_profile_dir(name: &str) -> (r: String)
    ensures
        exists|p: Seq<char>| is_profiles_dir(p) && r@ == joined(p, name@),
{
    let p = get_profiles_dir();
    let r = profile_dir_under(p.as_str(), name);
    assert(is_profiles_dir(p@) && r@ == joined(p@, name@));
    r
}

} // verus!
