//! Switching the login session: reading the session files, choosing the
//! session and the profile to restore, and picking the configuration backup
//! to bring back.
use vstd::prelude::*;
use crate::records::{profile_views, LastProfile, Profile, ProfileView};
use crate::profiles::{lists_newest_first, newer_first};
use crate::text::{
    eq_ignore_ascii_case, lemma_text_less_irreflexive, lemma_text_less_total, text_less, first_word, first_word_of, lines_of, same_ignoring_ascii_case,
    starts_with, str_eq, strip_repeated, strip_repeated_prefix, string_views, text_lines,
};

verus! {

broadcast use vstd::string::group_string_axioms;

/// Whether a session-file line gives the session the display name `de`.
pub open spec fn names_session(line: Seq<char>, de: Seq<char>) -> bool {
    "Name="@.is_prefix_of(line) && strip_repeated(line, "Name="@) == de
}

/// Whether a session-file line gives the command that starts the session.
pub open spec fn is_exec_line(line: Seq<char>) -> bool {
    "Exec="@.is_prefix_of(line)
}

/// The command given by the last `Exec=` line among `lines`, if any.
pub open spec fn last_exec(lines: Seq<Seq<char>>) -> Option<Seq<char>>
    decreases lines.len(),
{
    if lines.len() == 0 {
        None
    } else if is_exec_line(lines.last()) {
        Some(strip_repeated(lines.last(), "Exec="@))
    } else {
        last_exec(lines.drop_last())
    }
}

/// The start command of the session file with text `content` when the file
/// gives the session the display name `de`: the value of its last `Exec=`
/// line. `None` when the name does not match or there is no such line.
pub open spec fn session_exec(content: Seq<char>, de: Seq<char>) -> Option<Seq<char>> {
    let ls = text_lines(content);
    if exists|k: int| 0 <= k < ls.len() && #[trigger] names_session(ls[k], de) {
        last_exec(ls)
    } else {
        None
    }
}

/// The start command of the first session file, from `j` on, that gives the
/// session the display name `de` and has an `Exec=` line.
pub open spec fn find_session_exec(contents: Seq<Seq<char>>, de: Seq<char>, j: int) -> Option<Seq<char>>
    decreases contents.len() - j,
{
    if j < 0 || j >= contents.len() {
        None
    } else if session_exec(contents[j], de) is Some {
        session_exec(contents[j], de)
    } else {
        find_session_exec(contents, de, j + 1)
    }
}

/// The start command of one session file, when it names `de`.
pub fn session_exec_of(content: &str, de: &str) -> (r: Option<String>)
    ensures
        match r {
            Some(x) => session_exec(content@, de@) == Some(x@),
            None => session_exec(content@, de@) is None,
        },
{
    let lines = lines_of(content);
    let ghost ls = text_lines(content@);
    let mut name_matches = false;
    let mut exec_line: Option<String> = None;
    let mut k: usize = 0;
    proof {
        reveal_strlit("Name=");
        reveal_strlit("Exec=");
    }
    while k < lines.len()
        invariant
            string_views(lines@) == ls,
            0 <= k <= lines.len(),
            name_matches == exists|q: int| 0 <= q < k && #[trigger] names_session(ls[q], de@),
            match exec_line {
                Some(x) => last_exec(ls.take(k as int)) == Some(x@),
                None => last_exec(ls.take(k as int)) is None,
            },
            "Name="@.len() > 0,
            "Exec="@.len() > 0,
        decreases lines.len() - k,
    {
        let line = lines[k].as_str();
        assert(ls[k as int] == line@);
        assert(ls.take(k + 1).drop_last() =~= ls.take(k as int));
        assert(ls.take(k + 1).last() == ls[k as int]);
        let mut hit = false;
        if starts_with(line, "Name=") {
            let stripped = strip_repeated_prefix(line, "Name=");
            hit = str_eq(stripped.as_str(), de);
        }
        assert(hit == names_session(ls[k as int], de@));
        proof {
            if hit {
                assert(exists|q: int| 0 <= q < k + 1 && #[trigger] names_session(ls[q], de@)) by {
                    assert(names_session(ls[k as int], de@));
                }
            }
        }
        name_matches = name_matches || hit;
        if starts_with(line, "Exec=") {
            exec_line = Some(strip_repeated_prefix(line, "Exec="));
        }
        k += 1;
    }
    assert(ls.take(k as int) =~= ls);
    if name_matches && exec_line.is_some() {
        exec_line
    } else {
        None
    }
}

/// The start command of the session whose display name is
/// `de_display_name`, from the texts of the session files in the order they
/// are found.
pub fn find_exec_name(contents: &[String], de_display_name: &str) -> (r: Option<String>)
    ensures
        match r {
            Some(x) => find_session_exec(string_views(contents@), de_display_name@, 0) == Some(x@),
            None => find_session_exec(string_views(contents@), de_display_name@, 0) is None,
        },
{
    let ghost cs = string_views(contents@);
    let mut j: usize = 0;
    while j < contents.len()
        invariant
            cs == string_views(contents@),
            0 <= j <= contents.len(),
            find_session_exec(cs, de_display_name@, 0) == find_session_exec(cs, de_display_name@, j as int),
        decreases contents.len() - j,
    {
        assert(cs[j as int] == contents@[j as int]@);
        let found = session_exec_of(contents[j].as_str(), de_display_name);
        if found.is_some() {
            return found;
        }
        j += 1;
    }
    None
}

/// The session to make the default: the first word of the start command, or
/// the desktop environment's name when the command has none.
pub open spec fn session_name(exec: Seq<char>, de: Seq<char>) -> Seq<char> {
    match first_word(exec) {
        Some(w) => w,
        None => de,
    }
}

/// The session to make the default, from the session's start command.
pub fn session_name_for(exec: &str, de_name: &str) -> (r: String)
    ensures
        r@ == session_name(exec@, de_name@),
{
    match first_word_of(exec) {
        Some(w) => w,
        None => de_name.to_owned(),
    }
}

/// The text of `~/.dmrc` that makes `session` the default session.
pub fn dmrc_content(session: &str) -> (r: String)
    ensures
        r@ == "[Desktop]\nSession="@ + session@ + "\n"@,
{
    String::from_str("[Desktop]\nSession=").concat(session).concat("\n")
}

/// The `sed` script that sets `session` as the user's X session in the
/// AccountsService record.
pub fn xsession_sed_command(session: &str) -> (r: String)
    ensures
        r@ == "s/^XSession=.*/XSession="@ + session@ + "/"@,
{
    String::from_str("s/^XSession=.*/XSession=").concat(session).concat("/")
}

/// The AccountsService record of user `user`.
pub fn accounts_service_path(user: &str) -> (r: String)
    ensures
        r@ == "/var/lib/AccountsService/users/"@ + user@,
{
    String::from_str("/var/lib/AccountsService/users/").concat(user)
}

/// The position of the first profile, from `j` on, whose desktop environment
/// is `de` (ignoring ASCII case).
pub open spec fn first_profile_of(ps: Seq<ProfileView>, de: Seq<char>, j: int) -> Option<int>
    decreases ps.len() - j,
{
    if j < 0 || j >= ps.len() {
        None
    } else if same_ignoring_ascii_case(ps[j].de, de) {
        Some(j)
    } else {
        first_profile_of(ps, de, j + 1)
    }
}

/// The profile to restore when a session of `current_de` starts, as
/// (desktop environment, name): the last profile used when it belongs to
/// `current_de` (ignoring ASCII case), else the first listed profile of
/// `current_de`, else none.
pub open spec fn restore_target(
    current_de: Seq<char>,
    last_de: Seq<char>,
    last_name: Seq<char>,
    ps: Seq<ProfileView>,
) -> Option<(Seq<char>, Seq<char>)> {
    if same_ignoring_ascii_case(current_de, last_de) {
        Some((last_de, last_name))
    } else {
        match first_profile_of(ps, current_de, 0) {
            Some(i) => Some((ps[i].de, ps[i].name)),
            None => None,
        }
    }
}

/// The profile to restore when a session of `current_de` starts, given the
/// last profile used and the profile list, as (desktop environment, name).
pub fn choose_restore_target(current_de: &str, last: &LastProfile, profiles: &[Profile]) -> (r: Option<(String, String)>)
    ensures
        match r {
            Some((d, n)) => restore_target(current_de@, last.de@, last.name@, profile_views(profiles@))
                == Some((d@, n@)),
            None => restore_target(current_de@, last.de@, last.name@, profile_views(profiles@)) is None,
        },
{
    if eq_ignore_ascii_case(current_de, last.de.as_str()) {
        return Some((last.de.clone(), last.name.clone()));
    }
    let ghost ps = profile_views(profiles@);
    let mut j: usize = 0;
    while j < profiles.len()
        invariant
            ps == profile_views(profiles@),
            !same_ignoring_ascii_case(current_de@, last.de@),
            0 <= j <= profiles.len(),
            first_profile_of(ps, current_de@, 0) == first_profile_of(ps, current_de@, j as int),
        decreases profiles.len() - j,
    {
        assert(ps[j as int] == profiles@[j as int]@);
        if eq_ignore_ascii_case(profiles[j].de.as_str(), current_de) {
            assert(first_profile_of(ps, current_de@, j as int) == Some(j as int));
            let d = profiles[j].de.clone();
            let n = profiles[j].name.clone();
            assert(d@ == ps[j as int].de && n@ == ps[j as int].name);
            return Some((d, n));
        }
        j += 1;
    }
    None
}

/// Whether a backup entry named `name` is a backup of configuration `config`
/// (its name starts with the configuration's name and `_`).
pub open spec fn is_backup_of(name: Seq<char>, config: Seq<char>) -> bool {
    (config + "_"@).is_prefix_of(name)
}

/// The backup of configuration `config` to restore, among entries given as
/// (name, modification time): the position of the most recently modified
/// one, the earliest listed among equally recent ones; `None` when there is
/// no backup of `config`.
pub open spec fn is_latest_backup(entries: Seq<(String, i128)>, config: Seq<char>, r: Option<int>) -> bool {
    match r {
        None => forall|j: int| 0 <= j < entries.len() ==> !is_backup_of(#[trigger] entries[j].0@, config),
        Some(k) => {
            &&& 0 <= k < entries.len()
            &&& is_backup_of(entries[k].0@, config)
            &&& forall|j: int|
                0 <= j < entries.len() && is_backup_of(#[trigger] entries[j].0@, config) ==> entries[j].1 <= entries[k].1
            &&& forall|j: int|
                0 <= j < k && is_backup_of(#[trigger] entries[j].0@, config) ==> entries[j].1 < entries[k].1
        },
    }
}

/// The backup of configuration `config_name` to restore: among the backup
/// entries given as (name, modification time in nanoseconds relative to the
/// Unix epoch), the most recently modified one whose name starts with
/// `config_name` and `_`.
pub fn latest_backup(config_name: &str, entries: &[(String, i128)]) -> (r: Option<usize>)
    ensures
        is_latest_backup(entries@, config_name@, match r {
            Some(k) => Some(k as int),
            None => None,
        }),
{
    let prefix = String::from_str(config_name).concat("_");
    let mut best: Option<usize> = None;
    let mut j: usize = 0;
    while j < entries.len()
        invariant
            prefix@ == config_name@ + "_"@,
            0 <= j <= entries.len(),
            is_latest_backup(entries@.take(j as int), config_name@, match best {
                Some(k) => Some(k as int),
                None => None,
            }),
            best matches Some(k) ==> k < j,
        decreases entries.len() - j,
    {
        let ghost pre = entries@.take(j as int);
        let ghost next = entries@.take(j + 1);
        assert forall|q: int| 0 <= q < j implies #[trigger] next[q] == pre[q] by {}
        assert(next[j as int] == entries@[j as int]);
        if starts_with(entries[j].0.as_str(), prefix.as_str()) {
            match best {
                None => {
                    best = Some(j);
                },
                Some(k) => {
                    if entries[j].1 > entries[k].1 {
                        best = Some(j);
                    }
                },
            }
        }
        j += 1;
    }
    assert(entries@.take(j as int) =~= entries@);
    best
}

/// The desktop environment of the running session: `$XDG_CURRENT_DESKTOP`
/// when set, else `$DESKTOP_SESSION` when set, else `Unknown`.
pub fn current_desktop_from(xdg_current_desktop: Option<String>, desktop_session: Option<String>) -> (r: String)
    ensures
        r@ == match xdg_current_desktop {
            Some(x) => x@,
            None => match desktop_session {
                Some(d) => d@,
                None => "Unknown"@,
            },
        },
{
    match xdg_current_desktop {
        Some(x) => x,
        None => match desktop_session {
            Some(d) => d,
            None => String::from_str("Unknown"),
        },
    }
}

/// The message shown after profile `name` of `de` was restored.
pub fn restored_message(name: &str, de: &str) -> (r: String)
    ensures
        r@ == "Profile '"@ + name@ + "' restored. Log out to switch to "@ + de@ + "."@,
{
    String::from_str("Profile '").concat(name).concat("' restored. Log out to switch to ").concat(de).concat(".")
}

proof fn lemma_first_profile_of(ps: Seq<ProfileView>, de: Seq<char>, j: int)
    requires
        0 <= j,
    ensures
        first_profile_of(ps, de, j) matches Some(i) ==> j <= i < ps.len() && same_ignoring_ascii_case(
            ps[i].de,
            de,
        ) && forall|k: int| j <= k < i ==> !same_ignoring_ascii_case(#[trigger] ps[k].de, de),
        first_profile_of(ps, de, j) is None ==> forall|k: int|
            j <= k < ps.len() ==> !same_ignoring_ascii_case(#[trigger] ps[k].de, de),
    decreases ps.len() - j,
{
    if j < ps.len() && !same_ignoring_ascii_case(ps[j].de, de) {
        lemma_first_profile_of(ps, de, j + 1);
    }
}

/// When a session starts in a desktop environment other than that of the
/// last profile used, and the profile list is newest first, the profile
/// restored is a profile of that environment, and no profile of that
/// environment was created later.
pub proof fn law_restore_picks_newest_profile(
    t: Seq<ProfileView>,
    r: Seq<ProfileView>,
    perm: Seq<int>,
    current_de: Seq<char>,
    last_de: Seq<char>,
    last_name: Seq<char>,
)
    requires
        lists_newest_first(t, r, perm),
        !same_ignoring_ascii_case(current_de, last_de),
        restore_target(current_de, last_de, last_name, r) is Some,
    ensures
        exists|i: int|
            0 <= i < r.len() && same_ignoring_ascii_case(r[i].de, current_de)
                && restore_target(current_de, last_de, last_name, r) == Some((r[i].de, r[i].name))
                && forall|j: int|
                0 <= j < r.len() && same_ignoring_ascii_case(#[trigger] r[j].de, current_de)
                    ==> !text_less(r[i].created, r[j].created),
{
    lemma_first_profile_of(r, current_de, 0);
    let i = first_profile_of(r, current_de, 0)->Some_0;
    assert forall|j: int|
        0 <= j < r.len() && same_ignoring_ascii_case(#[trigger] r[j].de, current_de) implies !text_less(
        r[i].created,
        r[j].created,
    ) by {
        if j == i {
            lemma_text_less_irreflexive(r[i].created);
        } else {
            assert(j > i);
            assert(newer_first(t, perm[i], perm[j]));
            assert(r[i] == t[perm[i]] && r[j] == t[perm[j]]);
            lemma_text_less_total(r[i].created, r[j].created);
            lemma_text_less_irreflexive(r[i].created);
        }
    }
}

/// Whether line `k` of `ls` is an `Exec=` line with no `Exec=` line after it.
pub open spec fn is_last_exec_line(ls: Seq<Seq<char>>, k: int) -> bool {
    &&& 0 <= k < ls.len()
    &&& "Exec="@.is_prefix_of(ls[k])
    &&& forall|q: int| k < q < ls.len() ==> !"Exec="@.is_prefix_of(#[trigger] ls[q])
}

proof fn lemma_last_exec(ls: Seq<Seq<char>>)
    ensures
        last_exec(ls) matches Some(x) ==> exists|k: int|
            #[trigger] is_last_exec_line(ls, k) && x == strip_repeated(ls[k], "Exec="@),
        (exists|k: int| 0 <= k < ls.len() && "Exec="@.is_prefix_of(#[trigger] ls[k])) ==> last_exec(ls) is Some,
    decreases ls.len(),
{
    if ls.len() > 0 {
        let pre = ls.drop_last();
        lemma_last_exec(pre);
        let n = ls.len() - 1;
        if is_exec_line(ls.last()) {
            assert(is_last_exec_line(ls, n));
        } else {
            if let Some(x) = last_exec(pre) {
                let k = choose|k: int| #[trigger] is_last_exec_line(pre, k) && x == strip_repeated(pre[k], "Exec="@);
                assert(pre[k] == ls[k]);
                assert forall|q: int| k < q < ls.len() implies !"Exec="@.is_prefix_of(#[trigger] ls[q]) by {
                    if q < n {
                        assert(pre[q] == ls[q]);
                    }
                }
                assert(is_last_exec_line(ls, k));
            }
            if exists|k: int| 0 <= k < ls.len() && "Exec="@.is_prefix_of(#[trigger] ls[k]) {
                let k = choose|k: int| 0 <= k < ls.len() && "Exec="@.is_prefix_of(#[trigger] ls[k]);
                assert(k != n);
                assert(pre[k] == ls[k]);
            }
        }
    }
}

/// A session file gives the start command of the desktop environment `de`
/// only when one of its lines is a `Name=` line whose value is exactly `de`
/// (a name that merely starts with `de` does not count), and the command is
/// the value of its last `Exec=` line. Conversely, a file with such a name
/// line and some `Exec=` line always gives a command.
pub proof fn law_session_exec_needs_exact_name(content: Seq<char>, de: Seq<char>)
    ensures
        session_exec(content, de) matches Some(x) ==> {
            let ls = text_lines(content);
            &&& exists|k: int|
                0 <= k < ls.len() && "Name="@.is_prefix_of(#[trigger] ls[k]) && strip_repeated(ls[k], "Name="@) == de
            &&& exists|k: int| #[trigger] is_last_exec_line(ls, k) && x == strip_repeated(ls[k], "Exec="@)
        },
        ({
            let ls = text_lines(content);
            &&& exists|k: int|
                0 <= k < ls.len() && "Name="@.is_prefix_of(#[trigger] ls[k]) && strip_repeated(ls[k], "Name="@) == de
            &&& exists|k: int| 0 <= k < ls.len() && "Exec="@.is_prefix_of(#[trigger] ls[k])
        }) ==> session_exec(content, de) is Some,
{
    let ls = text_lines(content);
    lemma_last_exec(ls);
    if session_exec(content, de) is Some {
        let k = choose|k: int| 0 <= k < ls.len() && #[trigger] names_session(ls[k], de);
        assert(names_session(ls[k], de));
    }
    if exists|k: int|
        0 <= k < ls.len() && "Name="@.is_prefix_of(#[trigger] ls[k]) && strip_repeated(ls[k], "Name="@) == de {
        let k = choose|k: int|
            0 <= k < ls.len() && "Name="@.is_prefix_of(#[trigger] ls[k]) && strip_repeated(ls[k], "Name="@) == de;
        assert(names_session(ls[k], de));
    }
}

proof fn lemma_find_session_exec(contents: Seq<Seq<char>>, de: Seq<char>, j: int)
    requires
        0 <= j,
    ensures
        find_session_exec(contents, de, j) matches Some(x) ==> exists|i: int|
            j <= i < contents.len() && #[trigger] session_exec(contents[i], de) == Some(x)
                && forall|q: int| j <= q < i ==> #[trigger] session_exec(contents[q], de) is None,
        (exists|i: int| j <= i < contents.len() && #[trigger] session_exec(contents[i], de) is Some)
            ==> find_session_exec(contents, de, j) is Some,
    decreases contents.len() - j,
{
    if j < contents.len() {
        lemma_find_session_exec(contents, de, j + 1);
        if session_exec(contents[j], de) is None {
            if let Some(x) = find_session_exec(contents, de, j) {
                let i = choose|i: int|
                    j + 1 <= i < contents.len() && #[trigger] session_exec(contents[i], de) == Some(x)
                        && forall|q: int| j + 1 <= q < i ==> #[trigger] session_exec(contents[q], de) is None;
                assert forall|q: int| j <= q < i implies #[trigger] session_exec(contents[q], de) is None by {}
            }
            if exists|i: int| j <= i < contents.len() && #[trigger] session_exec(contents[i], de) is Some {
                let i = choose|i: int| j <= i < contents.len() && #[trigger] session_exec(contents[i], de) is Some;
                assert(i != j);
            }
        }
    }
}

/// The start command found for the desktop environment `de` among the
/// session files is that of the first file giving one, and that file has a
/// `Name=` line whose value is exactly `de`; when no file names `de`
/// exactly, no command is found.
pub proof fn law_found_session_is_named_exactly(contents: Seq<Seq<char>>, de: Seq<char>)
    ensures
        find_session_exec(contents, de, 0) matches Some(x) ==> exists|i: int|
            0 <= i < contents.len() && #[trigger] session_exec(contents[i], de) == Some(x)
                && (forall|q: int| 0 <= q < i ==> #[trigger] session_exec(contents[q], de) is None)
                && exists|k: int|
                0 <= k < text_lines(contents[i]).len() && "Name="@.is_prefix_of(#[trigger] text_lines(contents[i])[k])
                    && strip_repeated(text_lines(contents[i])[k], "Name="@) == de,
        (forall|i: int, k: int|
            0 <= i < contents.len() && 0 <= k < text_lines(contents[i]).len() && "Name="@.is_prefix_of(
                #[trigger] text_lines(contents[i])[k],
            ) ==> strip_repeated(text_lines(contents[i])[k], "Name="@) != de) ==> find_session_exec(contents, de, 0)
            is None,
{
    lemma_find_session_exec(contents, de, 0);
    if let Some(x) = find_session_exec(contents, de, 0) {
        let i = choose|i: int|
            0 <= i < contents.len() && #[trigger] session_exec(contents[i], de) == Some(x)
                && forall|q: int| 0 <= q < i ==> #[trigger] session_exec(contents[q], de) is None;
        law_session_exec_needs_exact_name(contents[i], de);
    }
}

} // verus!
