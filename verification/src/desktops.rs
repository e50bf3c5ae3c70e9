//! The desktop environments the application knows, and the per-environment
//! rules: which configuration paths a profile archives, which configuration
//! directories of other environments conflict, which one is restored, and
//! how an installed environment is recognised among the session files.
use vstd::prelude::*;
use crate::text::{
    law_ascii_folding_idempotent,
    ascii_folded, eq_ignore_ascii_case, has_substring, same_ignoring_ascii_case, str_eq, str_views,
    string_views, to_lowercase, unicode_lowercase, contains, starts_with, ends_with,
};

verus! {

broadcast use vstd::string::group_string_axioms;

/// A desktop environment that can be installed: its display name, the
/// meta package that installs it, and the packages tried when the meta
/// package cannot be installed.
pub struct DeDefinition {
    pub name: &'static str,
    pub meta_package: &'static str,
    pub fallback_packages: Vec<&'static str>,
}

/// The abstract content of a [`DeDefinition`].
pub struct DeEntry {
    pub name: Seq<char>,
    pub meta_package: Seq<char>,
    pub fallback_packages: Seq<Seq<char>>,
}

impl View for DeDefinition {
    type V = DeEntry;

    open spec fn view(&self) -> DeEntry {
        DeEntry {
            name: self.name@,
            meta_package: self.meta_package@,
            fallback_packages: str_views(self.fallback_packages@),
        }
    }
}

/// The number of known desktop environments.
pub open spec fn de_count() -> nat {
    13
}

/// The table of known desktop environments, in the order the store lists them.
pub open spec fn de_table() -> Seq<DeEntry> {
    seq![
        DeEntry { name: "Plasma"@, meta_package: "lilith-plasma"@, fallback_packages: seq!["plasma-desktop"@, "sddm"@, "systemsettings"@, "plasma-workspace-wayland"@] },
        DeEntry { name: "XFCE"@, meta_package: "lilith-xfce"@, fallback_packages: seq!["xfce4"@, "xfce4-session"@, "xfwm4"@, "xfce4-panel"@] },
        DeEntry { name: "LXDE"@, meta_package: "lilith-lxde"@, fallback_packages: seq!["lxde-core"@, "lxsession"@, "openbox"@] },
        DeEntry { name: "LXQt"@, meta_package: "lilith-lxqt"@, fallback_packages: seq!["lxqt-core"@, "openbox"@] },
        DeEntry { name: "Budgie"@, meta_package: "lilith-budgie"@, fallback_packages: seq!["budgie-desktop"@, "budgie-indicator-applet"@] },
        DeEntry { name: "Deepin"@, meta_package: "lilith-deepin"@, fallback_packages: seq!["dde-session-ui"@, "dde-desktop"@, "deepin-wm"@] },
        DeEntry { name: "Trinity"@, meta_package: "lilith-trinity"@, fallback_packages: seq!["tde-trinity"@, "tdm"@] },
        DeEntry { name: "Enlightenment"@, meta_package: "lilith-enlightenment"@, fallback_packages: seq!["enlightenment"@, "terminology"@] },
        DeEntry { name: "Pantheon"@, meta_package: "lilith-pantheon"@, fallback_packages: seq!["pantheon-shell"@, "gala"@, "wingpanel"@, "plank"@] },
        DeEntry { name: "GNOME"@, meta_package: "lilith-gnome"@, fallback_packages: seq!["gnome-session"@, "gnome-shell"@, "gnome-control-center"@] },
        DeEntry { name: "MATE"@, meta_package: "lilith-mate"@, fallback_packages: seq!["mate-desktop-environment-core"@] },
        DeEntry { name: "i3"@, meta_package: "lilith-i3"@, fallback_packages: seq!["i3-wm"@, "i3status"@, "i3lock"@, "dmenu"@] },
        DeEntry { name: "Sway"@, meta_package: "lilith-sway"@, fallback_packages: seq!["sway"@, "swaylock"@, "swayidle"@, "swaybg"@, "wmenu"@] },
    ]
}

/// The known desktop environments.
pub fn de_list() -> (r: Vec<DeDefinition>)
    ensures
        r@.len() == de_count(),
        forall|i: int| 0 <= i < r@.len() ==> #[trigger] r@[i]@ == de_table()[i],
{
    let r = vec![
        DeDefinition { name: "Plasma", meta_package: "lilith-plasma", fallback_packages: vec!["plasma-desktop", "sddm", "systemsettings", "plasma-workspace-wayland"] },
        DeDefinition { name: "XFCE", meta_package: "lilith-xfce", fallback_packages: vec!["xfce4", "xfce4-session", "xfwm4", "xfce4-panel"] },
        DeDefinition { name: "LXDE", meta_package: "lilith-lxde", fallback_packages: vec!["lxde-core", "lxsession", "openbox"] },
        DeDefinition { name: "LXQt", meta_package: "lilith-lxqt", fallback_packages: vec!["lxqt-core", "openbox"] },
        DeDefinition { name: "Budgie", meta_package: "lilith-budgie", fallback_packages: vec!["budgie-desktop", "budgie-indicator-applet"] },
        DeDefinition { name: "Deepin", meta_package: "lilith-deepin", fallback_packages: vec!["dde-session-ui", "dde-desktop", "deepin-wm"] },
        DeDefinition { name: "Trinity", meta_package: "lilith-trinity", fallback_packages: vec!["tde-trinity", "tdm"] },
        DeDefinition { name: "Enlightenment", meta_package: "lilith-enlightenment", fallback_packages: vec!["enlightenment", "terminology"] },
        DeDefinition { name: "Pantheon", meta_package: "lilith-pantheon", fallback_packages: vec!["pantheon-shell", "gala", "wingpanel", "plank"] },
        DeDefinition { name: "GNOME", meta_package: "lilith-gnome", fallback_packages: vec!["gnome-session", "gnome-shell", "gnome-control-center"] },
        DeDefinition { name: "MATE", meta_package: "lilith-mate", fallback_packages: vec!["mate-desktop-environment-core"] },
        DeDefinition { name: "i3", meta_package: "lilith-i3", fallback_packages: vec!["i3-wm", "i3status", "i3lock", "dmenu"] },
        DeDefinition { name: "Sway", meta_package: "lilith-sway", fallback_packages: vec!["sway", "swaylock", "swayidle", "swaybg", "wmenu"] },
    ];
    assert forall|i: int| 0 <= i < r@.len() implies #[trigger] r@[i]@ == de_table()[i] by {
        assert(r@[i].fallback_packages@.len() == de_table()[i].fallback_packages.len());
        assert(str_views(r@[i].fallback_packages@) =~= de_table()[i].fallback_packages);
    }
    r
}

/// Whether entry `i` of the table has `name` as its name, ignoring ASCII case.
pub open spec fn de_name_matches(i: int, name: Seq<char>) -> bool {
    same_ignoring_ascii_case(de_table()[i].name, name)
}

/// The position in the table of the first desktop environment named
/// `de_name` (ignoring ASCII case), or `None` when there is none.
pub fn find_de_definition_index(de_name: &str) -> (r: Option<usize>)
    ensures
        match r {
            Some(i) => i < de_count() && de_name_matches(i as int, de_name@) && forall|j: int|
                0 <= j < i ==> !de_name_matches(j, de_name@),
            None => forall|j: int| 0 <= j < de_count() ==> !de_name_matches(j, de_name@),
        },
{
    let list = de_list();
    let mut i: usize = 0;
    while i < list.len()
        invariant
            list@.len() == de_count(),
            forall|k: int| 0 <= k < list@.len() ==> #[trigger] list@[k]@ == de_table()[k],
            0 <= i <= list.len(),
            forall|j: int| 0 <= j < i ==> !de_name_matches(j, de_name@),
        decreases list.len() - i,
    {
        assert(list@[i as int]@ == de_table()[i as int]);
        if eq_ignore_ascii_case(list[i].name, de_name) {
            return Some(i);
        }
        i += 1;
    }
    None
}

/// The configuration paths (relative to the home directory) that a profile of
/// a desktop environment archives, given the environment's lower-case name.
pub open spec fn backup_paths_for(lower: Seq<char>) -> Seq<Seq<char>> {
    if lower == "plasma"@ || lower == "kde"@ {
        seq![".config/plasma*"@, ".config/kde*"@, ".local/share/plasma/"@, ".config/kwinrc"@, ".config/kdeglobals"@, ".config/plasmarc"@]
    } else if lower == "gnome"@ {
        seq![".config/gnome*"@, ".local/share/gnome-shell/"@, ".config/dconf/"@]
    } else if lower == "xfce"@ {
        seq![".config/xfce4/"@]
    } else if lower == "lxde"@ {
        seq![".config/lxsession/"@, ".config/openbox/"@]
    } else if lower == "lxqt"@ {
        seq![".config/lxqt/"@, ".config/openbox/"@]
    } else if lower == "budgie"@ {
        seq![".config/budgie-desktop/"@]
    } else if lower == "deepin"@ {
        seq![".config/deepin/"@]
    } else if lower == "trinity"@ {
        seq![".trinity/"@]
    } else if lower == "enlightenment"@ {
        seq![".e/"@, ".config/terminology/"@]
    } else if lower == "pantheon"@ {
        seq![".config/plank/"@, ".config/wingpanel/"@]
    } else if lower == "mate"@ {
        seq![".config/mate/"@]
    } else if lower == "i3"@ {
        seq![".config/i3/"@, ".config/i3status/"@]
    } else if lower == "sway"@ {
        seq![".config/sway/"@, ".config/swaylock/"@]
    } else {
        seq![]
    }
}

/// The desktop-specific paths a profile archives, given the already
/// lower-cased name of the desktop environment.
pub fn backup_paths_for_lowercase(lower: &str) -> (r: Vec<&'static str>)
    ensures
        str_views(r@) == backup_paths_for(lower@),
{
    let r: Vec<&'static str> = if str_eq(lower, "plasma") || str_eq(lower, "kde") {
        vec![".config/plasma*", ".config/kde*", ".local/share/plasma/", ".config/kwinrc", ".config/kdeglobals", ".config/plasmarc"]
    } else if str_eq(lower, "gnome") {
        vec![".config/gnome*", ".local/share/gnome-shell/", ".config/dconf/"]
    } else if str_eq(lower, "xfce") {
        vec![".config/xfce4/"]
    } else if str_eq(lower, "lxde") {
        vec![".config/lxsession/", ".config/openbox/"]
    } else if str_eq(lower, "lxqt") {
        vec![".config/lxqt/", ".config/openbox/"]
    } else if str_eq(lower, "budgie") {
        vec![".config/budgie-desktop/"]
    } else if str_eq(lower, "deepin") {
        vec![".config/deepin/"]
    } else if str_eq(lower, "trinity") {
        vec![".trinity/"]
    } else if str_eq(lower, "enlightenment") {
        vec![".e/", ".config/terminology/"]
    } else if str_eq(lower, "pantheon") {
        vec![".config/plank/", ".config/wingpanel/"]
    } else if str_eq(lower, "mate") {
        vec![".config/mate/"]
    } else if str_eq(lower, "i3") {
        vec![".config/i3/", ".config/i3status/"]
    } else if str_eq(lower, "sway") {
        vec![".config/sway/", ".config/swaylock/"]
    } else {
        vec![]
    };
    assert(str_views(r@) =~= backup_paths_for(lower@));
    r
}

/// The desktop-specific paths a profile of desktop environment `de` archives
/// (the name is matched after Unicode lower-casing).
pub fn get_de_backup_paths(de: &str) -> (r: Vec<&'static str>)
    ensures
        str_views(r@) == backup_paths_for(unicode_lowercase(de@)),
        vstd::utf8::is_ascii_chars(de@) ==> str_views(r@) == backup_paths_for(ascii_folded(de@)),
{
    let lower = to_lowercase(de);
    backup_paths_for_lowercase(lower.as_str())
}

/// The paths every profile archives, whatever its desktop environment.
pub open spec fn shared_backup_paths() -> Seq<Seq<char>> {
    seq![".themes/"@, ".icons/"@, ".fonts/"@, ".local/share/fonts/"@, ".config/gtk-3.0/"@, ".config/gtk-4.0/"@]
}

/// The paths every profile archives, whatever its desktop environment.
pub fn get_shared_backup_paths() -> (r: Vec<&'static str>)
    ensures
        str_views(r@) == shared_backup_paths(),
{
    let r: Vec<&'static str> = vec![".themes/", ".icons/", ".fonts/", ".local/share/fonts/", ".config/gtk-3.0/", ".config/gtk-4.0/"];
    assert(str_views(r@) =~= shared_backup_paths());
    r
}

/// The configuration directories (under `~/.config`) of other desktop
/// environments that conflict with a desktop environment, given its
/// lower-case name.
pub open spec fn conflicts_for(lower: Seq<char>) -> Seq<Seq<char>> {
    if has_substring(lower, "gnome"@) {
        seq!["kde"@, "plasma"@, "xfce4"@]
    } else if has_substring(lower, "kde"@) || has_substring(lower, "plasma"@) {
        seq!["gnome"@, "xfce4"@]
    } else if has_substring(lower, "xfce"@) {
        seq!["gnome"@, "kde"@, "plasma"@]
    } else if has_substring(lower, "cinnamon"@) {
        seq!["gnome"@, "kde"@, "plasma"@]
    } else if has_substring(lower, "mate"@) {
        seq!["gnome"@, "kde"@, "plasma"@]
    } else if has_substring(lower, "cosmic"@) {
        seq!["gnome"@, "kde"@, "plasma"@, "xfce4"@, "cinnamon"@]
    } else {
        seq![]
    }
}

/// The conflicting configuration directories, given the already lower-cased
/// name of the desktop environment.
pub fn conflicts_for_lowercase(lower: &str) -> (r: Vec<String>)
    ensures
        string_views(r@) == conflicts_for(lower@),
{
    let r: Vec<String> = if contains(lower, "gnome") {
        vec![String::from_str("kde"), String::from_str("plasma"), String::from_str("xfce4")]
    } else if contains(lower, "kde") || contains(lower, "plasma") {
        vec![String::from_str("gnome"), String::from_str("xfce4")]
    } else if contains(lower, "xfce") {
        vec![String::from_str("gnome"), String::from_str("kde"), String::from_str("plasma")]
    } else if contains(lower, "cinnamon") {
        vec![String::from_str("gnome"), String::from_str("kde"), String::from_str("plasma")]
    } else if contains(lower, "mate") {
        vec![String::from_str("gnome"), String::from_str("kde"), String::from_str("plasma")]
    } else if contains(lower, "cosmic") {
        vec![String::from_str("gnome"), String::from_str("kde"), String::from_str("plasma"), String::from_str("xfce4"), String::from_str("cinnamon")]
    } else {
        vec![]
    };
    assert(string_views(r@) =~= conflicts_for(lower@));
    r
}

/// The configuration directories of other desktop environments that are
/// backed up before switching to `de_name` (matched after Unicode lower-casing).
pub fn get_de_config_conflicts(de_name: &str) -> (r: Vec<String>)
    ensures
        string_views(r@) == conflicts_for(unicode_lowercase(de_name@)),
        vstd::utf8::is_ascii_chars(de_name@) ==> string_views(r@) == conflicts_for(ascii_folded(de_name@)),
{
    let lower = to_lowercase(de_name);
    conflicts_for_lowercase(lower.as_str())
}

/// The configuration directory (under `~/.config`) restored from the latest
/// backup when switching to a desktop environment, given its lower-case name.
pub open spec fn restored_config_for(lower: Seq<char>) -> Option<Seq<char>> {
    if has_substring(lower, "gnome"@) {
        Some("gnome"@)
    } else if has_substring(lower, "kde"@) || has_substring(lower, "plasma"@) {
        Some("kde"@)
    } else if has_substring(lower, "xfce"@) {
        Some("xfce4"@)
    } else if has_substring(lower, "cinnamon"@) {
        Some("cinnamon"@)
    } else if has_substring(lower, "mate"@) {
        Some("mate"@)
    } else if has_substring(lower, "cosmic"@) {
        Some("cosmic"@)
    } else {
        None
    }
}

/// The configuration directory to restore, given the already lower-cased
/// name of the desktop environment.
pub fn restored_config_for_lowercase(lower: &str) -> (r: Option<&'static str>)
    ensures
        match r {
            Some(c) => restored_config_for(lower@) == Some(c@),
            None => restored_config_for(lower@) is None,
        },
{
    if contains(lower, "gnome") {
        Some("gnome")
    } else if contains(lower, "kde") || contains(lower, "plasma") {
        Some("kde")
    } else if contains(lower, "xfce") {
        Some("xfce4")
    } else if contains(lower, "cinnamon") {
        Some("cinnamon")
    } else if contains(lower, "mate") {
        Some("mate")
    } else if contains(lower, "cosmic") {
        Some("cosmic")
    } else {
        None
    }
}

/// The configuration directory restored when switching to `de_name`
/// (matched after Unicode lower-casing).
pub fn config_to_restore(de_name: &str) -> (r: Option<&'static str>)
    ensures
        match r {
            Some(c) => restored_config_for(unicode_lowercase(de_name@)) == Some(c@),
            None => restored_config_for(unicode_lowercase(de_name@)) is None,
        },
        vstd::utf8::is_ascii_chars(de_name@) ==> match r {
            Some(c) => restored_config_for(ascii_folded(de_name@)) == Some(c@),
            None => restored_config_for(ascii_folded(de_name@)) is None,
        },
{
    let lower = to_lowercase(de_name);
    restored_config_for_lowercase(lower.as_str())
}

/// Whether a session file named `file` announces the desktop environment
/// whose lower-case name is `lower_de`: its lower-cased name starts with that
/// name and ends with `.desktop`.
pub open spec fn session_file_matches(lower_de: Seq<char>, file: Seq<char>) -> bool {
    &&& lower_de.is_prefix_of(unicode_lowercase(file))
    &&& ".desktop"@.is_suffix_of(unicode_lowercase(file))
}

/// Whether some session file announces the desktop environment `de_name`.
pub open spec fn de_installed_in(de_name: Seq<char>, session_files: Seq<Seq<char>>) -> bool {
    exists|i: int|
        0 <= i < session_files.len() && #[trigger] session_file_matches(
            unicode_lowercase(de_name),
            session_files[i],
        )
}

/// Whether every text of `v` is ASCII.
pub open spec fn all_ascii(v: Seq<Seq<char>>) -> bool {
    forall|i: int| 0 <= i < v.len() ==> vstd::utf8::is_ascii_chars(#[trigger] v[i])
}

/// [`session_file_matches`] for ASCII names, where lower-casing is ASCII
/// lower-casing.
pub open spec fn session_file_matches_ascii(lower_de: Seq<char>, file: Seq<char>) -> bool {
    &&& lower_de.is_prefix_of(ascii_folded(file))
    &&& ".desktop"@.is_suffix_of(ascii_folded(file))
}

/// [`de_installed_in`] for ASCII names.
pub open spec fn de_installed_in_ascii(de_name: Seq<char>, session_files: Seq<Seq<char>>) -> bool {
    exists|i: int|
        0 <= i < session_files.len() && #[trigger] session_file_matches_ascii(
            ascii_folded(de_name),
            session_files[i],
        )
}

/// Whether the desktop environment `de_name` is installed, judged from the
/// names of the session files found in the X11 and Wayland session directories.
pub fn is_de_installed(de_name: &str, session_files: &[String]) -> (r: bool)
    ensures
        r == de_installed_in(de_name@, string_views(session_files@)),
        vstd::utf8::is_ascii_chars(de_name@) && all_ascii(string_views(session_files@)) ==> r
            == de_installed_in_ascii(de_name@, string_views(session_files@)),
{
    let ghost views = string_views(session_files@);
    let ghost ascii = vstd::utf8::is_ascii_chars(de_name@) && all_ascii(views);
    let lower = to_lowercase(de_name);
    let mut i: usize = 0;
    while i < session_files.len()
        invariant
            views == string_views(session_files@),
            ascii == (vstd::utf8::is_ascii_chars(de_name@) && all_ascii(views)),
            lower@ == unicode_lowercase(de_name@),
            ascii ==> lower@ == ascii_folded(de_name@),
            0 <= i <= session_files.len(),
            forall|j: int|
                0 <= j < i ==> !#[trigger] session_file_matches(lower@, session_files@[j]@),
            ascii ==> forall|j: int|
                0 <= j < i ==> !#[trigger] session_file_matches_ascii(lower@, session_files@[j]@),
        decreases session_files.len() - i,
    {
        assert(views[i as int] == session_files@[i as int]@);
        let name_lower = to_lowercase(session_files[i].as_str());
        if starts_with(name_lower.as_str(), lower.as_str()) && ends_with(name_lower.as_str(), ".desktop") {
            assert(session_file_matches(lower@, views[i as int]));
            proof {
                if ascii {
                    assert(vstd::utf8::is_ascii_chars(views[i as int]));
                    assert(session_file_matches_ascii(lower@, views[i as int]));
                }
            }
            return true;
        }
        proof {
            if ascii {
                assert(vstd::utf8::is_ascii_chars(views[i as int]));
            }
        }
        i += 1;
    }
    assert forall|j: int| 0 <= j < views.len() implies !#[trigger] session_file_matches(
        unicode_lowercase(de_name@),
        views[j],
    ) by {
        assert(views[j] == session_files@[j]@);
    }
    proof {
        if ascii {
            assert forall|j: int| 0 <= j < views.len() implies !#[trigger] session_file_matches_ascii(
                ascii_folded(de_name@),
                views[j],
            ) by {
                assert(views[j] == session_files@[j]@);
            }
        }
    }
    false
}

/// The names of the installed desktop environments, in table order.
pub open spec fn installed_des(session_files: Seq<Seq<char>>) -> Seq<Seq<char>> {
    de_table().map_values(|e: DeEntry| e.name).filter(
        |n: Seq<char>| de_installed_in(n, session_files),
    )
}

/// [`installed_des`] for ASCII session-file names.
pub open spec fn installed_des_ascii(session_files: Seq<Seq<char>>) -> Seq<Seq<char>> {
    de_table().map_values(|e: DeEntry| e.name).filter(
        |n: Seq<char>| de_installed_in_ascii(n, session_files),
    )
}

/// The names of the installed desktop environments, in table order, judged
/// from the names of the session files found in the session directories.
pub fn detect_installed_des(session_files: &[String]) -> (r: Vec<String>)
    ensures
        string_views(r@) == installed_des(string_views(session_files@)),
        all_ascii(string_views(session_files@)) ==> string_views(r@) == installed_des_ascii(
            string_views(session_files@),
        ),
{
    proof {
        law_de_names_distinct();
    }
    let list = de_list();
    let ghost names = de_table().map_values(|e: DeEntry| e.name);
    let ghost pred = |n: Seq<char>| de_installed_in(n, string_views(session_files@));
    let ghost pred_ascii = |n: Seq<char>| de_installed_in_ascii(n, string_views(session_files@));
    let ghost ascii = all_ascii(string_views(session_files@));
    let mut installed: Vec<String> = Vec::new();
    let mut i: usize = 0;
    while i < list.len()
        invariant
            list@.len() == de_count(),
            forall|k: int| 0 <= k < list@.len() ==> #[trigger] list@[k]@ == de_table()[k],
            forall|k: int| 0 <= k < de_count() ==> vstd::utf8::is_ascii_chars(#[trigger] de_table()[k].name),
            names == de_table().map_values(|e: DeEntry| e.name),
            pred == (|n: Seq<char>| de_installed_in(n, string_views(session_files@))),
            pred_ascii == (|n: Seq<char>| de_installed_in_ascii(n, string_views(session_files@))),
            ascii == all_ascii(string_views(session_files@)),
            0 <= i <= list.len(),
            string_views(installed@) == names.take(i as int).filter(pred),
            ascii ==> string_views(installed@) == names.take(i as int).filter(pred_ascii),
        decreases list.len() - i,
    {
        assert(list@[i as int]@ == de_table()[i as int]);
        assert(vstd::utf8::is_ascii_chars(de_table()[i as int].name));
        assert(names.take(i + 1).drop_last() =~= names.take(i as int));
        assert(names.take(i + 1).last() == names[i as int]);
        reveal(Seq::filter);
        if is_de_installed(list[i].name, session_files) {
            installed.push(String::from_str(list[i].name));
            assert(string_views(installed@) =~= names.take(i + 1).filter(pred));
            proof {
                if ascii {
                    assert(string_views(installed@) =~= names.take(i + 1).filter(pred_ascii));
                }
            }
        } else {
            assert(string_views(installed@) =~= names.take(i + 1).filter(pred));
            proof {
                if ascii {
                    assert(string_views(installed@) =~= names.take(i + 1).filter(pred_ascii));
                }
            }
        }
        i += 1;
    }
    assert(names.take(i as int) =~= names);
    installed
}

/// Switching to a desktop environment never backs up, as a conflict, the
/// configuration directory that the switch restores.
pub proof fn law_restored_config_not_a_conflict(lower: Seq<char>)
    ensures
        restored_config_for(lower) matches Some(c) ==> !conflicts_for(lower).contains(c),
{
    reveal_strlit("gnome");
    reveal_strlit("kde");
    reveal_strlit("plasma");
    reveal_strlit("xfce4");
    reveal_strlit("cinnamon");
    reveal_strlit("mate");
    reveal_strlit("cosmic");
    if let Some(c) = restored_config_for(lower) {
        let cs = conflicts_for(lower);
        if cs.contains(c) {
            let k = choose|k: int| 0 <= k < cs.len() && cs[k] == c;
            assert(cs[k].len() == c.len());
            assert(cs[k][0] == c[0]);
            assert(false);
        }
    }
}


/// The names in the table are all ASCII, and no two are the same ignoring
/// ASCII case.
pub proof fn law_de_names_distinct()
    ensures
        forall|i: int| 0 <= i < de_count() ==> vstd::utf8::is_ascii_chars(#[trigger] de_table()[i].name),
        forall|a: int, b: int|
            0 <= a < de_count() && 0 <= b < de_count() && a != b ==> !same_ignoring_ascii_case(
                #[trigger] de_table()[a].name,
                #[trigger] de_table()[b].name,
            ),
{
    reveal_strlit("Plasma");
    reveal_strlit("XFCE");
    reveal_strlit("LXDE");
    reveal_strlit("LXQt");
    reveal_strlit("Budgie");
    reveal_strlit("Deepin");
    reveal_strlit("Trinity");
    reveal_strlit("Enlightenment");
    reveal_strlit("Pantheon");
    reveal_strlit("GNOME");
    reveal_strlit("MATE");
    reveal_strlit("i3");
    reveal_strlit("Sway");
    let t = de_table();
    assert forall|i: int| 0 <= i < de_count() implies vstd::utf8::is_ascii_chars(#[trigger] t[i].name) by {}
    assert forall|a: int, b: int|
        0 <= a < de_count() && 0 <= b < de_count() && a != b implies !same_ignoring_ascii_case(
            #[trigger] t[a].name,
            #[trigger] t[b].name,
        ) by {
        let fa = ascii_folded(t[a].name);
        let fb = ascii_folded(t[b].name);
        if fa == fb {
            assert(fa.len() == fb.len());
            assert(fa[0] == fb[0]);
            if fa.len() > 2 {
                assert(fa[2] == fb[2]);
            }
        }
    }
}


/// Looking up the name of any known desktop environment finds that
/// environment's own entry: no other entry matches it.
pub proof fn law_de_lookup_finds_own_entry(i: int)
    requires
        0 <= i < de_count(),
    ensures
        de_name_matches(i, de_table()[i].name),
        forall|j: int| 0 <= j < de_count() && j != i ==> !#[trigger] de_name_matches(j, de_table()[i].name),
{
    law_de_names_distinct();
    assert forall|j: int| 0 <= j < de_count() && j != i implies !#[trigger] de_name_matches(j, de_table()[i].name) by {
        assert(!same_ignoring_ascii_case(de_table()[j].name, de_table()[i].name));
    }
}

/// Every known desktop environment has configuration paths of its own to
/// archive: its (ASCII) name, lower-cased, selects a non-empty list.
pub proof fn law_every_de_has_backup_paths(i: int)
    requires
        0 <= i < de_count(),
    ensures
        vstd::utf8::is_ascii_chars(de_table()[i].name),
        backup_paths_for(ascii_folded(de_table()[i].name)).len() > 0,
{
    law_de_names_distinct();
    reveal_strlit("Plasma");
    reveal_strlit("XFCE");
    reveal_strlit("LXDE");
    reveal_strlit("LXQt");
    reveal_strlit("Budgie");
    reveal_strlit("Deepin");
    reveal_strlit("Trinity");
    reveal_strlit("Enlightenment");
    reveal_strlit("Pantheon");
    reveal_strlit("GNOME");
    reveal_strlit("MATE");
    reveal_strlit("i3");
    reveal_strlit("Sway");
    reveal_strlit("plasma");
    reveal_strlit("kde");
    reveal_strlit("gnome");
    reveal_strlit("xfce");
    reveal_strlit("lxde");
    reveal_strlit("lxqt");
    reveal_strlit("budgie");
    reveal_strlit("deepin");
    reveal_strlit("trinity");
    reveal_strlit("enlightenment");
    reveal_strlit("pantheon");
    reveal_strlit("mate");
    reveal_strlit("i3");
    reveal_strlit("sway");
    let t = de_table();
    if i == 0 {
        assert(ascii_folded(t[0].name) =~= "plasma"@);
    } else if i == 1 {
        assert(ascii_folded(t[1].name) =~= "xfce"@);
    } else if i == 2 {
        assert(ascii_folded(t[2].name) =~= "lxde"@);
    } else if i == 3 {
        assert(ascii_folded(t[3].name) =~= "lxqt"@);
    } else if i == 4 {
        assert(ascii_folded(t[4].name) =~= "budgie"@);
    } else if i == 5 {
        assert(ascii_folded(t[5].name) =~= "deepin"@);
    } else if i == 6 {
        assert(ascii_folded(t[6].name) =~= "trinity"@);
    } else if i == 7 {
        assert(ascii_folded(t[7].name) =~= "enlightenment"@);
    } else if i == 8 {
        assert(ascii_folded(t[8].name) =~= "pantheon"@);
    } else if i == 9 {
        assert(ascii_folded(t[9].name) =~= "gnome"@);
    } else if i == 10 {
        assert(ascii_folded(t[10].name) =~= "mate"@);
    } else if i == 11 {
        assert(ascii_folded(t[11].name) =~= "i3"@);
    } else {
        assert(ascii_folded(t[12].name) =~= "sway"@);
    }
}

/// After the installed desktop environments are detected, the store marks
/// as installed exactly the environments that were detected.
pub proof fn law_store_marks_detected(files: Seq<Seq<char>>, i: int)
    requires
        0 <= i < de_count(),
    ensures
        crate::display::listed_as_installed(installed_des(files), de_table()[i].name)
            == de_installed_in(de_table()[i].name, files),
{
    law_de_names_distinct();
    let names = de_table().map_values(|e: DeEntry| e.name);
    let pred = |n: Seq<char>| de_installed_in(n, files);
    let inst = installed_des(files);
    assert(inst == names.filter(pred));
    assert(names[i] == de_table()[i].name);
    if de_installed_in(de_table()[i].name, files) {
        names.lemma_filter_contains(pred, i);
        let j = choose|j: int| 0 <= j < inst.len() && inst[j] == names[i];
        assert(same_ignoring_ascii_case(inst[j], de_table()[i].name));
    }
    if crate::display::listed_as_installed(inst, de_table()[i].name) {
        let j = choose|j: int| 0 <= j < inst.len() && same_ignoring_ascii_case(#[trigger] inst[j], de_table()[i].name);
        names.lemma_filter_pred(pred, j);
        assert(inst.contains(inst[j]));
        names.lemma_filter_contains_rev(pred, inst[j]);
        let k = choose|k: int| 0 <= k < names.len() && names[k] == inst[j];
        assert(names[k] == de_table()[k].name);
        assert(k == i);
    }
}

proof fn lemma_conflicts_of_gnome()
    ensures
        conflicts_for("gnome"@) == seq!["kde"@, "plasma"@, "xfce4"@],
{
    reveal_strlit("gnome");
    let g = "gnome"@;
    assert(g.subrange(0int, 0int + g.len()) =~= g);
}

proof fn lemma_conflicts_of_kde()
    ensures
        conflicts_for("kde"@) == seq!["gnome"@, "xfce4"@],
{
    reveal_strlit("gnome");
    reveal_strlit("kde");
    let k = "kde"@;
    assert(k.subrange(0int, 0int + k.len()) =~= k);
    assert(!has_substring(k, "gnome"@));
}

proof fn lemma_conflicts_of_cosmic()
    ensures
        conflicts_for("cosmic"@) == seq!["gnome"@, "kde"@, "plasma"@, "xfce4"@, "cinnamon"@],
{
    reveal_strlit("gnome");
    reveal_strlit("kde");
    reveal_strlit("plasma");
    reveal_strlit("xfce");
    reveal_strlit("cinnamon");
    reveal_strlit("mate");
    reveal_strlit("cosmic");
    let o = "cosmic"@;
    assert(o.subrange(0int, 0int + o.len()) =~= o);
    assert forall|i: int| 0 <= i && i + 5 <= 6 implies #[trigger] o.subrange(i, i + 5) != "gnome"@ by {
        assert(o.subrange(i, i + 5)[0] != "gnome"@[0]);
    }
    assert forall|i: int| 0 <= i && i + 3 <= 6 implies #[trigger] o.subrange(i, i + 3) != "kde"@ by {
        assert(o.subrange(i, i + 3)[0] != "kde"@[0] || o.subrange(i, i + 3)[1] != "kde"@[1]);
    }
    assert forall|i: int| 0 <= i && i + 6 <= 6 implies #[trigger] o.subrange(i, i + 6) != "plasma"@ by {
        assert(o.subrange(i, i + 6)[0] != "plasma"@[0]);
    }
    assert forall|i: int| 0 <= i && i + 4 <= 6 implies #[trigger] o.subrange(i, i + 4) != "xfce"@ by {
        assert(o.subrange(i, i + 4)[0] != "xfce"@[0]);
    }
    assert forall|i: int| 0 <= i && i + 4 <= 6 implies #[trigger] o.subrange(i, i + 4) != "mate"@ by {
        assert(o.subrange(i, i + 4)[0] != "mate"@[0] || o.subrange(i, i + 4)[1] != "mate"@[1]);
    }
}

/// Switching back restores what switching away backed up: the configuration
/// restored for a desktop environment is, for GNOME, KDE/Plasma, XFCE and
/// Cinnamon, one that switching to some other desktop environment backs up as
/// a conflict. (The MATE and COSMIC configurations are restored but never
/// backed up, so they are left out.)
pub proof fn law_restored_config_was_backed_up(lower: Seq<char>)
    requires
        restored_config_for(lower) is Some,
        restored_config_for(lower) != Some("mate"@),
        restored_config_for(lower) != Some("cosmic"@),
    ensures
        exists|other: Seq<char>|
            #[trigger] conflicts_for(other).contains(restored_config_for(lower)->Some_0),
{
    let c = restored_config_for(lower)->Some_0;
    lemma_conflicts_of_gnome();
    lemma_conflicts_of_kde();
    lemma_conflicts_of_cosmic();
    if c == "gnome"@ {
        assert(conflicts_for("kde"@)[0] == c);
        assert(conflicts_for("kde"@).contains(c));
    } else if c == "kde"@ {
        assert(conflicts_for("gnome"@)[0] == c);
        assert(conflicts_for("gnome"@).contains(c));
    } else if c == "xfce4"@ {
        assert(conflicts_for("gnome"@)[2] == c);
        assert(conflicts_for("gnome"@).contains(c));
    } else {
        assert(c == "cinnamon"@);
        assert(conflicts_for("cosmic"@)[4] == c);
        assert(conflicts_for("cosmic"@).contains(c));
    }
}

/// For an ASCII desktop name, lower-casing it first changes nothing: the
/// lower-cased name is ASCII and selects the same backup paths, the same
/// conflicting configurations and the same configuration to restore.
pub proof fn law_rules_ignore_prior_lowercasing(de: Seq<char>)
    requires
        vstd::utf8::is_ascii_chars(de),
    ensures
        vstd::utf8::is_ascii_chars(ascii_folded(de)),
        backup_paths_for(ascii_folded(ascii_folded(de))) == backup_paths_for(ascii_folded(de)),
        conflicts_for(ascii_folded(ascii_folded(de))) == conflicts_for(ascii_folded(de)),
        restored_config_for(ascii_folded(ascii_folded(de))) == restored_config_for(ascii_folded(de)),
{
    law_ascii_folding_idempotent(de);
}

/// `KDE` and `Plasma` name the same desktop: they archive the same paths.
pub proof fn law_kde_and_plasma_share_backup_paths()
    ensures
        backup_paths_for("kde"@) == backup_paths_for("plasma"@),
        backup_paths_for("kde"@).len() > 0,
{
}

/// The conflicting configurations of a desktop environment are listed once each.
pub proof fn law_conflicts_distinct(lower: Seq<char>)
    ensures
        conflicts_for(lower).no_duplicates(),
{
    reveal_strlit("gnome");
    reveal_strlit("kde");
    reveal_strlit("plasma");
    reveal_strlit("xfce4");
    reveal_strlit("cinnamon");
    let cs = conflicts_for(lower);
    assert forall|a: int, b: int| 0 <= a < cs.len() && 0 <= b < cs.len() && a != b implies cs[a] != cs[b] by {
        if cs[a] == cs[b] {
            assert(cs[a].len() == cs[b].len());
            assert(cs[a][0] == cs[b][0]);
        }
    }
}

/// The lower-case desktop names that archive paths of their own.
pub open spec fn has_own_backup_paths(lower: Seq<char>) -> bool {
    ||| lower == "plasma"@
    ||| lower == "kde"@
    ||| lower == "gnome"@
    ||| lower == "xfce"@
    ||| lower == "lxde"@
    ||| lower == "lxqt"@
    ||| lower == "budgie"@
    ||| lower == "deepin"@
    ||| lower == "trinity"@
    ||| lower == "enlightenment"@
    ||| lower == "pantheon"@
    ||| lower == "mate"@
    ||| lower == "i3"@
    ||| lower == "sway"@
}

/// A desktop environment archives paths of its own exactly when its
/// lower-case name is one of the known names.
pub proof fn law_backup_paths_only_for_known_names(lower: Seq<char>)
    ensures
        backup_paths_for(lower).len() > 0 <==> has_own_backup_paths(lower),
{
}

/// Whether a lower-case desktop name mentions one of the desktop environments
/// whose configurations conflict with others.
pub open spec fn mentions_conflicting_desktop(lower: Seq<char>) -> bool {
    ||| has_substring(lower, "gnome"@)
    ||| has_substring(lower, "kde"@)
    ||| has_substring(lower, "plasma"@)
    ||| has_substring(lower, "xfce"@)
    ||| has_substring(lower, "cinnamon"@)
    ||| has_substring(lower, "mate"@)
    ||| has_substring(lower, "cosmic"@)
}

/// A desktop environment has no conflicting configurations exactly when its
/// lower-case name mentions none of the desktops that have them.
pub proof fn law_no_conflicts_exactly_when_unmentioned(lower: Seq<char>)
    ensures
        conflicts_for(lower).len() == 0 <==> !mentions_conflicting_desktop(lower),
{
}

/// The paths each known desktop environment archives, by lower-case name:
/// KDE/Plasma its Plasma and KDE settings, GNOME its GNOME settings, shell
/// extensions and the dconf database, and so on for every name of the
/// table. No other name archives anything of its own.
pub proof fn law_backup_paths_of_each_desktop(lower: Seq<char>)
    ensures
        lower == "plasma"@ || lower == "kde"@ ==> backup_paths_for(lower) == seq![
            ".config/plasma*"@,
            ".config/kde*"@,
            ".local/share/plasma/"@,
            ".config/kwinrc"@,
            ".config/kdeglobals"@,
            ".config/plasmarc"@,
        ],
        lower == "gnome"@ ==> backup_paths_for(lower) == seq![
            ".config/gnome*"@,
            ".local/share/gnome-shell/"@,
            ".config/dconf/"@,
        ],
        lower == "xfce"@ ==> backup_paths_for(lower) == seq![".config/xfce4/"@],
        lower == "lxde"@ ==> backup_paths_for(lower) == seq![".config/lxsession/"@, ".config/openbox/"@],
        lower == "lxqt"@ ==> backup_paths_for(lower) == seq![".config/lxqt/"@, ".config/openbox/"@],
        lower == "budgie"@ ==> backup_paths_for(lower) == seq![".config/budgie-desktop/"@],
        lower == "deepin"@ ==> backup_paths_for(lower) == seq![".config/deepin/"@],
        lower == "trinity"@ ==> backup_paths_for(lower) == seq![".trinity/"@],
        lower == "enlightenment"@ ==> backup_paths_for(lower) == seq![".e/"@, ".config/terminology/"@],
        lower == "pantheon"@ ==> backup_paths_for(lower) == seq![".config/plank/"@, ".config/wingpanel/"@],
        lower == "mate"@ ==> backup_paths_for(lower) == seq![".config/mate/"@],
        lower == "i3"@ ==> backup_paths_for(lower) == seq![".config/i3/"@, ".config/i3status/"@],
        lower == "sway"@ ==> backup_paths_for(lower) == seq![".config/sway/"@, ".config/swaylock/"@],
        !has_own_backup_paths(lower) ==> backup_paths_for(lower) == Seq::<Seq<char>>::empty(),
{
    reveal_strlit("plasma");
    reveal_strlit("kde");
    reveal_strlit("gnome");
    reveal_strlit("xfce");
    reveal_strlit("lxde");
    reveal_strlit("lxqt");
    reveal_strlit("budgie");
    reveal_strlit("deepin");
    reveal_strlit("trinity");
    reveal_strlit("enlightenment");
    reveal_strlit("pantheon");
    reveal_strlit("mate");
    reveal_strlit("i3");
    reveal_strlit("sway");
    if lower == "plasma"@ {
        assert(lower.len() == 6 && lower[0] == 'p' && lower[4] == 'm');
    }
    if lower == "kde"@ {
        assert(lower.len() == 3 && lower[0] == 'k' && lower[1] == 'd');
    }
    if lower == "gnome"@ {
        assert(lower.len() == 5 && lower[0] == 'g' && lower[3] == 'm');
    }
    if lower == "xfce"@ {
        assert(lower.len() == 4 && lower[0] == 'x' && lower[2] == 'c');
    }
    if lower == "lxde"@ {
        assert(lower.len() == 4 && lower[0] == 'l' && lower[2] == 'd');
    }
    if lower == "lxqt"@ {
        assert(lower.len() == 4 && lower[0] == 'l' && lower[2] == 'q');
    }
    if lower == "budgie"@ {
        assert(lower.len() == 6 && lower[0] == 'b' && lower[4] == 'i');
    }
    if lower == "deepin"@ {
        assert(lower.len() == 6 && lower[0] == 'd' && lower[4] == 'i');
    }
    if lower == "trinity"@ {
        assert(lower.len() == 7 && lower[0] == 't' && lower[5] == 't');
    }
    if lower == "enlightenment"@ {
        assert(lower.len() == 13 && lower[0] == 'e' && lower[11] == 'n');
    }
    if lower == "pantheon"@ {
        assert(lower.len() == 8 && lower[0] == 'p' && lower[6] == 'o');
    }
    if lower == "mate"@ {
        assert(lower.len() == 4 && lower[0] == 'm' && lower[2] == 't');
    }
    if lower == "i3"@ {
        assert(lower.len() == 2 && lower[0] == 'i' && lower[0] == 'i');
    }
    if lower == "sway"@ {
        assert(lower.len() == 4 && lower[0] == 's' && lower[2] == 'a');
    }
}

/// The conflicting configuration directories backed up when switching to a
/// desktop environment, by the first family its lower-case name mentions
/// (GNOME, then KDE/Plasma, XFCE, Cinnamon, MATE, COSMIC).
pub proof fn law_conflicts_of_each_family(lower: Seq<char>)
    ensures
        has_substring(lower, "gnome"@) ==> conflicts_for(lower) == seq!["kde"@, "plasma"@, "xfce4"@],
        !has_substring(lower, "gnome"@) && (has_substring(lower, "kde"@) || has_substring(lower, "plasma"@))
            ==> conflicts_for(lower) == seq!["gnome"@, "xfce4"@],
        !has_substring(lower, "gnome"@) && !has_substring(lower, "kde"@) && !has_substring(lower, "plasma"@)
            && has_substring(lower, "xfce"@) ==> conflicts_for(lower) == seq!["gnome"@, "kde"@, "plasma"@],
        !has_substring(lower, "gnome"@) && !has_substring(lower, "kde"@) && !has_substring(lower, "plasma"@)
            && !has_substring(lower, "xfce"@) && has_substring(lower, "cinnamon"@)
            ==> conflicts_for(lower) == seq!["gnome"@, "kde"@, "plasma"@],
        !has_substring(lower, "gnome"@) && !has_substring(lower, "kde"@) && !has_substring(lower, "plasma"@)
            && !has_substring(lower, "xfce"@) && !has_substring(lower, "cinnamon"@) && has_substring(lower, "mate"@)
            ==> conflicts_for(lower) == seq!["gnome"@, "kde"@, "plasma"@],
        !has_substring(lower, "gnome"@) && !has_substring(lower, "kde"@) && !has_substring(lower, "plasma"@)
            && !has_substring(lower, "xfce"@) && !has_substring(lower, "cinnamon"@) && !has_substring(lower, "mate"@)
            && has_substring(lower, "cosmic"@)
            ==> conflicts_for(lower) == seq!["gnome"@, "kde"@, "plasma"@, "xfce4"@, "cinnamon"@],
{
}

/// Switching to any desktop environment that has conflicts backs up the
/// GNOME configuration, unless the environment is itself a GNOME one; and the
/// KDE configuration is backed up whenever the environment is neither a KDE
/// nor a Plasma one (nor, mentioning GNOME first, a GNOME one, which backs it
/// up too).
pub proof fn law_gnome_config_backed_up_unless_gnome(lower: Seq<char>)
    ensures
        conflicts_for(lower).contains("gnome"@) <==> (mentions_conflicting_desktop(lower) && !has_substring(
            lower,
            "gnome"@,
        )),
        mentions_conflicting_desktop(lower) && !has_substring(lower, "kde"@) && !has_substring(lower, "plasma"@)
            ==> conflicts_for(lower).contains("kde"@),
{
    reveal_strlit("gnome");
    reveal_strlit("kde");
    reveal_strlit("plasma");
    reveal_strlit("xfce4");
    reveal_strlit("cinnamon");
    let cs = conflicts_for(lower);
    if has_substring(lower, "gnome"@) {
        if cs.contains("gnome"@) {
            let k = choose|k: int| 0 <= k < cs.len() && cs[k] == "gnome"@;
            assert(cs[k].len() == 5);
            assert(cs[k][0] == 'g');
            assert(false);
        }
        assert(cs[0] == "kde"@);
    } else if mentions_conflicting_desktop(lower) {
        assert(cs[0] == "gnome"@);
        if !has_substring(lower, "kde"@) && !has_substring(lower, "plasma"@) {
            assert(cs[1] == "kde"@);
        }
    }
}

/// The configuration restored when switching to a desktop environment is
/// that of a family its lower-case name mentions: `gnome` only for a name
/// mentioning GNOME, `kde` for one mentioning KDE or Plasma, `xfce4` for one
/// mentioning XFCE, and `cinnamon`, `mate`, `cosmic` for names mentioning
/// those. Nothing is restored exactly when no such family is mentioned.
pub proof fn law_restored_config_is_mentioned(lower: Seq<char>)
    ensures
        restored_config_for(lower) is None <==> !mentions_conflicting_desktop(lower),
        restored_config_for(lower) matches Some(c) ==> {
            ||| c == "gnome"@ && has_substring(lower, "gnome"@)
            ||| c == "kde"@ && (has_substring(lower, "kde"@) || has_substring(lower, "plasma"@))
            ||| c == "xfce4"@ && has_substring(lower, "xfce"@)
            ||| c == "cinnamon"@ && has_substring(lower, "cinnamon"@)
            ||| c == "mate"@ && has_substring(lower, "mate"@)
            ||| c == "cosmic"@ && has_substring(lower, "cosmic"@)
        },
        has_substring(lower, "cinnamon"@) && !has_substring(lower, "gnome"@) && !has_substring(lower, "kde"@)
            && !has_substring(lower, "plasma"@) && !has_substring(lower, "xfce"@)
            ==> restored_config_for(lower) == Some("cinnamon"@),
        has_substring(lower, "mate"@) && !has_substring(lower, "gnome"@) && !has_substring(lower, "kde"@)
            && !has_substring(lower, "plasma"@) && !has_substring(lower, "xfce"@) && !has_substring(lower, "cinnamon"@)
            ==> restored_config_for(lower) == Some("mate"@),
{
}

} // verus!
