//! Installing and removing desktop environments with the package manager:
//! reading the list of installed packages, the `apt` command lines, how a
//! run's output becomes a result, and the steps of an install or removal.
use vstd::prelude::*;
use crate::desktops::{DeDefinition};
use crate::display::DeStoreItem;
use crate::text::{first_word, first_word_of, lines_of, starts_with, string_views, str_views, text_lines};

verus! {

broadcast use vstd::string::group_string_axioms;

/// The package names in the output of `dpkg --get-selections`, given as
/// its lines: the first word of each line that has one, except words that
/// start with `#`.
pub open spec fn selected_packages(lines: Seq<Seq<char>>) -> Seq<Seq<char>>
    decreases lines.len(),
{
    if lines.len() == 0 {
        seq![]
    } else {
        let prev = selected_packages(lines.drop_last());
        match first_word(lines.last()) {
            Some(w) => if "#"@.is_prefix_of(w) {
                prev
            } else {
                prev.push(w)
            },
            None => prev,
        }
    }
}

/// The installed packages listed in the output of `dpkg --get-selections`.
pub fn parse_package_selections(output: &str) -> (r: Vec<String>)
    ensures
        string_views(r@) == selected_packages(text_lines(output@)),
{
    let lines = lines_of(output);
    let ghost ls = text_lines(output@);
    let mut r: Vec<String> = Vec::new();
    let mut i: usize = 0;
    while i < lines.len()
        invariant
            string_views(lines@) == ls,
            0 <= i <= lines.len(),
            string_views(r@) == selected_packages(ls.take(i as int)),
        decreases lines.len() - i,
    {
        assert(ls[i as int] == lines@[i as int]@);
        assert(ls.take(i + 1).drop_last() =~= ls.take(i as int));
        assert(ls.take(i + 1).last() == ls[i as int]);
        match first_word_of(lines[i].as_str()) {
            Some(w) => {
                if !starts_with(w.as_str(), "#") {
                    r.push(w);
                    assert(string_views(r@) =~= selected_packages(ls.take(i + 1)));
                }
            },
            None => {},
        }
        i += 1;
    }
    assert(ls.take(i as int) =~= ls);
    r
}

/// The packages of `wanted` that are not among `installed`, in the order of
/// `wanted`: what applying a profile installs.
pub open spec fn missing_from(wanted: Seq<Seq<char>>, installed: Seq<Seq<char>>) -> Seq<Seq<char>> {
    wanted.filter(|p: Seq<char>| !installed.contains(p))
}

/// Whether `installed` holds `p`.
fn listed(installed: &[String], p: &String) -> (r: bool)
    ensures
        r == string_views(installed@).contains(p@),
{
    let ghost views = string_views(installed@);
    let mut j: usize = 0;
    while j < installed.len()
        invariant
            views == string_views(installed@),
            0 <= j <= installed.len(),
            forall|k: int| 0 <= k < j ==> #[trigger] views[k] != p@,
        decreases installed.len() - j,
    {
        assert(views[j as int] == installed@[j as int]@);
        if installed[j] == *p {
            assert(views[j as int] == p@);
            return true;
        }
        j += 1;
    }
    false
}

/// The packages of a profile that are not installed, in the profile's order:
/// the ones applying the profile installs.
pub fn missing_packages(wanted: &[String], installed: &[String]) -> (r: Vec<String>)
    ensures
        string_views(r@) == missing_from(string_views(wanted@), string_views(installed@)),
{
    let ghost ws = string_views(wanted@);
    let ghost pred = |p: Seq<char>| !string_views(installed@).contains(p);
    let mut r: Vec<String> = Vec::new();
    let mut i: usize = 0;
    while i < wanted.len()
        invariant
            ws == string_views(wanted@),
            pred == (|p: Seq<char>| !string_views(installed@).contains(p)),
            0 <= i <= wanted.len(),
            string_views(r@) == ws.take(i as int).filter(pred),
        decreases wanted.len() - i,
    {
        assert(ws[i as int] == wanted@[i as int]@);
        assert(ws.take(i + 1).drop_last() =~= ws.take(i as int));
        assert(ws.take(i + 1).last() == ws[i as int]);
        reveal(Seq::filter);
        if !listed(installed, &wanted[i]) {
            let ghost before = r@;
            let x = wanted[i].clone();
            r.push(x);
            assert(string_views(r@) =~= string_views(before).push(x@));
            assert(string_views(r@) =~= ws.take(i + 1).filter(pred));
        } else {
            assert(string_views(r@) =~= ws.take(i + 1).filter(pred));
        }
        i += 1;
    }
    assert(ws.take(i as int) =~= ws);
    r
}

/// After installing the missing packages of a profile, every package of the
/// profile is installed: each is either already installed or missing.
pub proof fn law_missing_packages_complete(wanted: Seq<Seq<char>>, installed: Seq<Seq<char>>)
    ensures
        forall|k: int|
            0 <= k < wanted.len() ==> installed.contains(#[trigger] wanted[k]) || missing_from(
                wanted,
                installed,
            ).contains(wanted[k]),
        forall|k: int|
            0 <= k < missing_from(wanted, installed).len() ==> !installed.contains(
                #[trigger] missing_from(wanted, installed)[k],
            ),
{
    let pred = |p: Seq<char>| !installed.contains(p);
    assert forall|k: int| 0 <= k < wanted.len() implies installed.contains(#[trigger] wanted[k])
        || missing_from(wanted, installed).contains(wanted[k]) by {
        if !installed.contains(wanted[k]) {
            wanted.lemma_filter_contains(pred, k);
        }
    }
    assert forall|k: int| 0 <= k < missing_from(wanted, installed).len() implies !installed.contains(
        #[trigger] missing_from(wanted, installed)[k],
    ) by {
        wanted.lemma_filter_pred(pred, k);
    }
}

/// What `apt` is asked to do.
#[derive(Clone, Copy, Debug, PartialEq, Eq)]
pub enum AptAction {
    Install,
    Remove,
}

/// The `apt` sub-command of an action.
pub open spec fn apt_verb(action: AptAction) -> Seq<char> {
    match action {
        AptAction::Install => "install"@,
        AptAction::Remove => "remove"@,
    }
}

/// The arguments given to `pkexec` to run `apt` on `packages` without asking
/// for confirmation.
pub fn apt_arguments(action: AptAction, packages: &[String]) -> (r: Vec<String>)
    ensures
        string_views(r@) == seq!["apt"@, apt_verb(action), "-y"@] + string_views(packages@),
{
    let mut r: Vec<String> = Vec::new();
    r.push(String::from_str("apt"));
    match action {
        AptAction::Install => r.push(String::from_str("install")),
        AptAction::Remove => r.push(String::from_str("remove")),
    }
    r.push(String::from_str("-y"));
    let mut i: usize = 0;
    while i < packages.len()
        invariant
            0 <= i <= packages.len(),
            string_views(r@) == seq!["apt"@, apt_verb(action), "-y"@] + string_views(packages@).take(i as int),
        decreases packages.len() - i,
    {
        let ghost before = r@;
        let x = packages[i].clone();
        assert(x@ == string_views(packages@)[i as int]);
        r.push(x);
        assert(string_views(r@) =~= string_views(before).push(x@));
        assert(string_views(packages@).take(i + 1) =~= string_views(packages@).take(i as int).push(x@));
        assert(string_views(r@) =~= seq!["apt"@, apt_verb(action), "-y"@] + string_views(packages@).take(i + 1));
        i += 1;
    }
    assert(string_views(packages@).take(i as int) =~= string_views(packages@));
    r
}

/// The result of an `apt` run that ended with status `success`: its standard
/// output when it succeeded, else its error output and its standard output
/// on two lines.
pub fn apt_outcome(success: bool, stdout: String, stderr: String) -> (r: Result<String, String>)
    ensures
        success ==> (r matches Ok(o) && o@ == stdout@),
        !success ==> (r matches Err(e) && e@ == stderr@ + "\n"@ + stdout@),
{
    if success {
        Ok(stdout)
    } else {
        Err(stderr.concat("\n").concat(stdout.as_str()))
    }
}

/// The result of an `apt` run that could not be started, given the reason.
pub fn apt_launch_failure(reason: &str) -> (r: Result<String, String>)
    ensures
        r matches Err(e) && e@ == "Failed to run pkexec: "@ + reason@,
{
    Err(String::from_str("Failed to run pkexec: ").concat(reason))
}

/// Where an installation stands.
#[derive(Clone, Copy, Debug, PartialEq, Eq)]
pub enum InstallStage {
    /// The meta package is being installed.
    MetaPackage,
    /// The meta package failed; the fallback packages are being installed.
    Fallback,
    /// The installation is over.
    Done,
}

/// The stage an installation reaches after the `apt` run of stage `stage`
/// succeeded (`ok`) or failed.
pub open spec fn install_next(stage: InstallStage, ok: bool) -> InstallStage {
    match stage {
        InstallStage::MetaPackage => if ok {
            InstallStage::Done
        } else {
            InstallStage::Fallback
        },
        _ => InstallStage::Done,
    }
}

/// An installation runs `apt` at most twice: after the first run it is over,
/// or it is over after the second.
pub proof fn law_install_runs_apt_at_most_twice(first_ok: bool, second_ok: bool)
    ensures
        install_next(InstallStage::MetaPackage, first_ok) == InstallStage::Done || install_next(
            install_next(InstallStage::MetaPackage, first_ok),
            second_ok,
        ) == InstallStage::Done,
{
}

/// What the front end is to do next for a running install or removal.
#[derive(Clone, Debug)]
pub enum JobAction {
    /// Run `apt` with this action on these packages and report its result.
    RunApt(AptAction, Vec<String>),
    /// Report the end of the job: whether it succeeded, and the status text.
    Finish(bool, String),
}

/// The meta package and the fallback packages of a desktop environment, as strings.
fn owned_packages(pkgs: &Vec<&'static str>) -> (r: Vec<String>)
    ensures
        string_views(r@) == str_views(pkgs@),
{
    let mut r: Vec<String> = Vec::new();
    let mut i: usize = 0;
    while i < pkgs.len()
        invariant
            0 <= i <= pkgs.len(),
            string_views(r@) == str_views(pkgs@).take(i as int),
        decreases pkgs.len() - i,
    {
        let ghost before = r@;
        let x = pkgs[i].to_owned();
        assert(x@ == str_views(pkgs@)[i as int]);
        r.push(x);
        assert(string_views(r@) =~= string_views(before).push(x@));
        assert(str_views(pkgs@).take(i + 1) =~= str_views(pkgs@).take(i as int).push(x@));
        assert(string_views(r@) =~= str_views(pkgs@).take(i + 1));
        i += 1;
    }
    assert(str_views(pkgs@).take(i as int) =~= str_views(pkgs@));
    r
}

/// The first step of installing `de`: install its meta package.
pub fn install_start(de: &DeDefinition) -> (r: (InstallStage, JobAction))
    ensures
        r.0 == InstallStage::MetaPackage,
        r.1 matches JobAction::RunApt(a, p) && a == AptAction::Install && string_views(p@) == seq![de@.meta_package],
{
    let mut p: Vec<String> = Vec::new();
    p.push(de.meta_package.to_owned());
    assert(string_views(p@) =~= seq![de@.meta_package]);
    (InstallStage::MetaPackage, JobAction::RunApt(AptAction::Install, p))
}

/// The next step of installing `de` once the `apt` run of stage `stage` has
/// given `result`: when the meta package fails, the fallback packages are
/// tried; the job ends when either succeeds or the fallback fails.
pub fn install_step(stage: InstallStage, de: &DeDefinition, result: Result<String, String>) -> (r: (InstallStage, JobAction))
    requires
        stage != InstallStage::Done,
    ensures
        r.0 == install_next(stage, result is Ok),
        (r.1 is RunApt) == (r.0 != InstallStage::Done),
        stage == InstallStage::MetaPackage && result is Ok ==> (r.0 == InstallStage::Done
            && (r.1 matches JobAction::Finish(ok, s) && ok && s@ == "Install complete!"@)),
        stage == InstallStage::MetaPackage && result is Err ==> (r.0 == InstallStage::Fallback
            && (r.1 matches JobAction::RunApt(a, p) && a == AptAction::Install && string_views(p@) == de@.fallback_packages)),
        stage == InstallStage::Fallback && result is Ok ==> (r.0 == InstallStage::Done
            && (r.1 matches JobAction::Finish(ok, s) && ok && s@ == "Installed with alternative packages"@)),
        stage == InstallStage::Fallback && result is Err ==> (r.0 == InstallStage::Done
            && (r.1 matches JobAction::Finish(ok, s) && !ok && s@ == "Installation failed: "@ + result->Err_0@)),
{
    match stage {
        InstallStage::MetaPackage => match result {
            Ok(_) => (InstallStage::Done, JobAction::Finish(true, String::from_str("Install complete!"))),
            Err(_) => {
                let p = owned_packages(&de.fallback_packages);
                (InstallStage::Fallback, JobAction::RunApt(AptAction::Install, p))
            },
        },
        _ => match result {
            Ok(_) => (InstallStage::Done, JobAction::Finish(true, String::from_str("Installed with alternative packages"))),
            Err(e) => (InstallStage::Done, JobAction::Finish(false, String::from_str("Installation failed: ").concat(e.as_str()))),
        },
    }
}

/// The one step of removing `de`: remove its meta package and all its
/// fallback packages in one `apt` run.
pub fn remove_start(de: &DeDefinition) -> (r: JobAction)
    ensures
        r matches JobAction::RunApt(a, p) && a == AptAction::Remove && string_views(p@) == seq![de@.meta_package] + de@.fallback_packages,
{
    let mut p: Vec<String> = Vec::new();
    p.push(de.meta_package.to_owned());
    let mut rest = owned_packages(&de.fallback_packages);
    p.append(&mut rest);
    assert(string_views(p@) =~= seq![de@.meta_package] + de@.fallback_packages);
    JobAction::RunApt(AptAction::Remove, p)
}

/// How a removal ends, given the result of its `apt` run.
pub fn remove_finish(result: Result<String, String>) -> (r: JobAction)
    ensures
        result is Ok ==> (r matches JobAction::Finish(ok, s) && ok && s@ == "Removal complete"@),
        result is Err ==> (r matches JobAction::Finish(ok, s) && !ok && s@ == "Removal failed: "@ + result->Err_0@),
{
    match result {
        Ok(_) => JobAction::Finish(true, String::from_str("Removal complete")),
        Err(e) => JobAction::Finish(false, String::from_str("Removal failed: ").concat(e.as_str())),
    }
}

/// The status line and its kind (`success` or `error`) shown when an install
/// (`removal` false) or removal ends.
pub fn job_status_message(removal: bool, success: bool) -> (r: (&'static str, &'static str))
    ensures
        r.0@ == (if removal {
            if success { "Desktop environment removed"@ } else { "Removal failed."@ }
        } else {
            if success { "Desktop environment installed successfully"@ } else { "Installation failed. See details for more info."@ }
        }),
        r.1@ == (if success { "success"@ } else { "error"@ }),
{
    let kind = if success { "success" } else { "error" };
    let text = if removal {
        if success { "Desktop environment removed" } else { "Removal failed." }
    } else {
        if success { "Desktop environment installed successfully" } else { "Installation failed. See details for more info." }
    };
    (text, kind)
}

/// Marks store entry `index`, when there is one, as busy with status `status`.
pub fn mark_busy(items: &mut Vec<DeStoreItem>, index: usize, status: &str)
    ensures
        final(items)@.len() == old(items)@.len(),
        forall|k: int|
            0 <= k < old(items)@.len() && k != index ==> #[trigger] final(items)@[k] == old(items)@[k],
        index < old(items)@.len() ==> {
            let it = final(items)@[index as int];
            let was = old(items)@[index as int];
            &&& it.is_installing
            &&& it.install_status@ == status@
            &&& it.is_installed == was.is_installed
            &&& it.name == was.name
            &&& it.meta_package == was.meta_package
        },
{
    if index < items.len() {
        let mut it = items.remove(index);
        it.is_installing = true;
        it.install_status = status.to_owned();
        items.insert(index, it);
        assert forall|k: int| 0 <= k < old(items)@.len() && k != index implies #[trigger] items@[k] == old(items)@[k] by {}
    }
}

/// Marks store entry `index`, when there is one, as no longer busy once a
/// job ends with `success` and status `status`: after an install it is
/// installed exactly when the install succeeded; after a removal it is no
/// longer installed when the removal succeeded, and unchanged otherwise.
pub fn mark_finished(items: &mut Vec<DeStoreItem>, index: usize, removal: bool, success: bool, status: &str)
    ensures
        final(items)@.len() == old(items)@.len(),
        forall|k: int|
            0 <= k < old(items)@.len() && k != index ==> #[trigger] final(items)@[k] == old(items)@[k],
        index < old(items)@.len() ==> {
            let it = final(items)@[index as int];
            let was = old(items)@[index as int];
            &&& !it.is_installing
            &&& it.install_status@ == status@
            &&& it.is_installed == (if removal {
                if success { false } else { was.is_installed }
            } else {
                success
            })
            &&& it.name == was.name
            &&& it.meta_package == was.meta_package
        },
{
    if index < items.len() {
        let mut it = items.remove(index);
        it.is_installing = false;
        if removal {
            if success {
                it.is_installed = false;
            }
        } else {
            it.is_installed = success;
        }
        it.install_status = status.to_owned();
        items.insert(index, it);
        assert forall|k: int| 0 <= k < old(items)@.len() && k != index implies #[trigger] items@[k] == old(items)@[k] by {}
    }
}

} // verus!
