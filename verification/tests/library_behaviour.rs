use shapeshifter::desktops::{
    backup_paths_for_lowercase, config_to_restore, conflicts_for_lowercase, de_list, detect_installed_des,
    find_de_definition_index, get_de_backup_paths, get_de_config_conflicts, is_de_installed,
    restored_config_for_lowercase,
};
use shapeshifter::display::{build_de_store_items, build_display_items, find_profile_index, DeStoreItem};
use shapeshifter::packages::{
    apt_arguments, apt_launch_failure, apt_outcome, install_start, install_step, job_status_message,
    mark_busy, mark_finished, missing_packages, parse_package_selections, remove_finish, remove_start, AptAction,
    InstallStage, JobAction,
};
use shapeshifter::paths::{
    home_or_tmp_from, join_path, profile_dir_under, profiles_dir_for_de_under, shapeshifter_dir_for,
};
use shapeshifter::profiles::assemble_profiles;
use shapeshifter::records::{
    desktop_for_new_profile, installed_des_to_show, needs_detection, normalize_remote_target, record_installed_des, record_restored_profile, record_saved_profile,
    validate_profile_name, AppConfig, LastProfile, Profile, ProfileNameError, RemoteTargetError,
};
use shapeshifter::saving::{
    conflict_backup_name, conflict_backup_name_now, needs_dconf_dump, new_profile, new_profile_now,
    profile_archive_paths, ProfileError,
};
use shapeshifter::sessions::{
    accounts_service_path, choose_restore_target, current_desktop_from, dmrc_content, find_exec_name,
    latest_backup, restored_message, session_exec_of, session_name_for, xsession_sed_command,
};
use shapeshifter::text::{
    contains, ends_with, eq_ignore_ascii_case, first_word_of, lines_of, starts_with, strip_repeated_prefix,
    text_lt, trim,
};

fn profile(name: &str, de: &str, created: &str) -> Profile {
    Profile {
        name: name.to_string(),
        de: de.to_string(),
        created: created.to_string(),
        packages: vec![],
        thumbnail: String::new(),
        remote_path: String::new(),
    }
}

#[test]
fn ascii_case_comparison() {
    assert!(eq_ignore_ascii_case("GNOME", "gnome"));
    assert!(eq_ignore_ascii_case("", ""));
    assert!(!eq_ignore_ascii_case("gnome", "gnom"));
    assert!(!eq_ignore_ascii_case("Ä", "ä"));
}

#[test]
fn prefix_suffix_substring() {
    assert!(starts_with("gnome-session.desktop", "gnome"));
    assert!(!starts_with("gno", "gnome"));
    assert!(ends_with("sway.desktop", ".desktop"));
    assert!(!ends_with("sway.desktopx", ".desktop"));
    assert!(contains("ubuntu:GNOME", "GNOME"));
    assert!(contains("abc", ""));
    assert!(!contains("kd", "kde"));
}

#[test]
fn trimming_uses_unicode_white_space() {
    assert_eq!(trim("  a b \t\n"), "a b");
    assert_eq!(trim("\u{3000}x\u{a0}"), "x");
    assert_eq!(trim("   "), "");
    assert_eq!(trim("x"), "x");
}

#[test]
fn lines_follow_str_lines() {
    assert_eq!(lines_of("a\nb\r\nc"), vec!["a", "b", "c"]);
    assert_eq!(lines_of("a\n"), vec!["a"]);
    assert_eq!(lines_of(""), Vec::<String>::new());
    assert_eq!(lines_of("a\r"), vec!["a\r"]);
    assert_eq!(lines_of("\n\nx"), vec!["", "", "x"]);
    let text = "one\ntwo\r\n\nthree\r";
    assert_eq!(lines_of(text), text.lines().collect::<Vec<_>>());
}

#[test]
fn first_word_and_prefix_stripping() {
    assert_eq!(first_word_of("  startplasma-x11 --flag"), Some("startplasma-x11".to_string()));
    assert_eq!(first_word_of(" \t "), None);
    assert_eq!(strip_repeated_prefix("Name=Name=GNOME", "Name="), "GNOME");
    assert_eq!(strip_repeated_prefix("GNOME", "Name="), "GNOME");
}

#[test]
fn text_order_matches_string_order() {
    assert!(text_lt("2026-01-01 12:00:00", "2026-01-02 12:00:00"));
    assert!(!text_lt("b", "a"));
    assert!(text_lt("ab", "abc"));
    assert!(!text_lt("abc", "abc"));
    assert_eq!(text_lt("é", "z"), "é" < "z");
}

#[test]
fn lowercase_is_unicode_aware() {
    assert_eq!(profiles_dir_for_de_under("/p", "GNOME"), "/p/gnome");
    assert_eq!(profiles_dir_for_de_under("/p", "ÀB"), "/p/àb");
    assert_eq!(get_de_config_conflicts("ÜBUNTU:GNOME"), vec!["kde", "plasma", "xfce4"]);
    assert!(get_de_config_conflicts("GNOMÉ").is_empty());
}

#[test]
fn backup_paths_per_desktop() {
    assert_eq!(get_de_backup_paths("KDE").len(), 6);
    assert_eq!(get_de_backup_paths("Plasma")[0], ".config/plasma*");
    assert_eq!(get_de_backup_paths("xfce"), vec![".config/xfce4/"]);
    assert!(get_de_backup_paths("cinnamon").is_empty());
    assert_eq!(backup_paths_for_lowercase("i3"), vec![".config/i3/", ".config/i3status/"]);
    assert!(backup_paths_for_lowercase("I3").is_empty());
}

#[test]
fn archive_paths_are_desktop_then_shared() {
    let paths = profile_archive_paths("Sway");
    assert_eq!(paths.len(), 8);
    assert_eq!(paths[0], ".config/sway/");
    assert_eq!(paths[2], ".themes/");
    assert_eq!(profile_archive_paths("Unknown").len(), 6);
}

#[test]
fn conflicts_and_restored_config() {
    assert_eq!(get_de_config_conflicts("GNOME"), vec!["kde", "plasma", "xfce4"]);
    assert_eq!(get_de_config_conflicts("KDE Plasma"), vec!["gnome", "xfce4"]);
    assert_eq!(get_de_config_conflicts("X-Cinnamon"), vec!["gnome", "kde", "plasma"]);
    assert_eq!(conflicts_for_lowercase("cosmic").len(), 5);
    assert!(get_de_config_conflicts("i3").is_empty());
    assert_eq!(config_to_restore("ubuntu:GNOME"), Some("gnome"));
    assert_eq!(config_to_restore("Plasma"), Some("kde"));
    assert_eq!(config_to_restore("XFCE"), Some("xfce4"));
    assert_eq!(restored_config_for_lowercase("mate"), Some("mate"));
    assert_eq!(config_to_restore("Sway"), None);
}

#[test]
fn detects_installed_desktops_from_session_files() {
    let files = vec![
        "plasmax11.desktop".to_string(),
        "GNOME-classic.desktop".to_string(),
        "sway.desktop.bak".to_string(),
    ];
    assert!(is_de_installed("Plasma", &files));
    assert!(is_de_installed("gnome", &files));
    assert!(!is_de_installed("Sway", &files));
    assert_eq!(detect_installed_des(&files), vec!["Plasma", "GNOME"]);
    assert!(detect_installed_des(&[]).is_empty());
}

#[test]
fn store_marks_detected_desktops() {
    let installed = detect_installed_des(&["xfce.desktop".to_string()]);
    let items = build_de_store_items(&installed);
    for (i, item) in items.iter().enumerate() {
        assert_eq!(item.is_installed, i == 1);
        assert!(!item.is_installing);
        assert!(item.install_status.is_empty());
    }
    assert_eq!(items[1].meta_package, "lilith-xfce");
}

#[test]
fn each_known_desktop_is_found_at_its_index() {
    for (i, d) in de_list().iter().enumerate() {
        assert_eq!(find_de_definition_index(d.name), Some(i));
        assert_eq!(find_de_definition_index(&d.name.to_uppercase()), Some(i));
    }
    assert_eq!(find_de_definition_index("sway"), Some(12));
}

#[test]
fn paths_join_like_unix_paths() {
    assert_eq!(join_path("/home/u", ".config/shapeshifter"), "/home/u/.config/shapeshifter");
    assert_eq!(join_path("/home/u/", "x"), "/home/u/x");
    assert_eq!(join_path("", "x"), "x");
    assert_eq!(join_path("/a", "/etc"), "/etc");
    assert_eq!(join_path("/a", ""), "/a/");
    assert_eq!(shapeshifter_dir_for(Some("/home/alice".to_string())), "/home/alice/.config/shapeshifter");
    assert_eq!(shapeshifter_dir_for(None), "/tmp/.config/shapeshifter");
    assert_eq!(profiles_dir_for_de_under("/p", "XFCE"), "/p/xfce");
    assert_eq!(profile_dir_under("/p", "Dark Mode"), "/p/Dark Mode");
}

#[test]
fn profile_names_are_checked() {
    assert_eq!(validate_profile_name("  Work  "), Ok("Work".to_string()));
    assert_eq!(validate_profile_name(" \t"), Err(ProfileNameError::Empty));
    assert_eq!(validate_profile_name("test/path"), Err(ProfileNameError::Invalid));
    assert_eq!(validate_profile_name("a\\b"), Err(ProfileNameError::Invalid));
    assert_eq!(validate_profile_name("..x"), Err(ProfileNameError::Invalid));
    assert_eq!(validate_profile_name("a.b"), Ok("a.b".to_string()));
    assert_eq!(ProfileNameError::Empty.message(), "Profile name cannot be empty");
    assert_eq!(ProfileNameError::Invalid.message(), "Invalid profile name");
}

#[test]
fn remote_targets_are_checked() {
    assert_eq!(normalize_remote_target("  http://host/x "), Ok("http://host/x".to_string()));
    assert_eq!(normalize_remote_target("   "), Err(RemoteTargetError::Empty));
    assert_eq!(normalize_remote_target("relative/path"), Err(RemoteTargetError::Unsupported));
    assert_eq!(RemoteTargetError::Empty.message(), "Remote target cannot be empty");
    assert_eq!(
        RemoteTargetError::Unsupported.message(),
        "Remote target must be an http(s) URL, file:// URL, or absolute path"
    );
    let once = normalize_remote_target(" /mnt/x ").unwrap();
    assert_eq!(normalize_remote_target(&once), Ok(once.clone()));
}

#[test]
fn config_records_last_profile() {
    let mut config = AppConfig::default();
    record_saved_profile(&mut config, "XFCE", "Work", "/mnt/b");
    let lp = config.last_profile.clone().unwrap();
    assert_eq!((lp.de.as_str(), lp.name.as_str()), ("XFCE", "Work"));
    assert_eq!(config.last_remote_path, "/mnt/b");
    record_restored_profile(&mut config, "GNOME", "Home");
    let lp = config.last_profile.clone().unwrap();
    assert_eq!((lp.de.as_str(), lp.name.as_str()), ("GNOME", "Home"));
    assert_eq!(config.last_remote_path, "/mnt/b");
    record_installed_des(&mut config, vec!["Sway".to_string()]);
    assert_eq!(config.installed_des, vec!["Sway"]);
    assert_eq!(config.version, 2);
}

#[test]
fn profile_records_and_errors() {
    let p = new_profile("Work", "XFCE", "2026-01-01 00:00:00".to_string(), vec!["vim".to_string()], true, "/r");
    assert_eq!(p.thumbnail, "thumbnail.png");
    assert_eq!(p.packages, vec!["vim"]);
    let q = new_profile_now("Home", "GNOME", vec![], false, "");
    assert_eq!(q.thumbnail, "");
    assert_eq!(q.created.len(), 19);
    assert!(needs_dconf_dump("Gnome"));
    assert!(!needs_dconf_dump("GNOME Classic"));
    assert_eq!(
        ProfileError::AlreadyExists("Dup".to_string(), "Plasma".to_string()).message(),
        "Profile 'Dup' already exists for Plasma"
    );
    assert_eq!(
        ProfileError::NotFound("X".to_string(), "XFCE".to_string()).message(),
        "Profile 'X' for XFCE not found"
    );
    assert_eq!(ProfileError::MetadataMissing.message(), "Profile metadata not found");
    assert_eq!(ProfileError::BadName(ProfileNameError::Empty).message(), "Profile name cannot be empty");
    assert_eq!(restored_message("Work", "XFCE"), "Profile 'Work' restored. Log out to switch to XFCE.");
}

#[test]
fn backup_names() {
    assert_eq!(conflict_backup_name("kde", "20260101_120000"), "kde_20260101_120000");
    let now = conflict_backup_name_now("gnome");
    assert!(now.starts_with("gnome_"));
    assert_eq!(now.len(), "gnome_".len() + 15);
}

#[test]
fn profiles_are_listed_newest_first() {
    let found = vec![
        profile("A", "Plasma", "2026-01-01 00:00:00"),
        profile("B", "XFCE", "2026-03-01 00:00:00"),
        profile("C", "Plasma", "2026-02-01 00:00:00"),
        profile("D", "GNOME", "2026-03-01 00:00:00"),
    ];
    let listed = assemble_profiles(found);
    let names: Vec<&str> = listed.iter().map(|p| p.name.as_str()).collect();
    assert_eq!(names, vec!["B", "D", "C", "A"]);
    assert_eq!(listed[0].de, "XFCE");
    assert_eq!(listed[1].de, "GNOME");
    assert!(assemble_profiles(vec![]).is_empty());
}

#[test]
fn display_grid_layout() {
    let mut profiles = Vec::new();
    for i in 0..6 {
        profiles.push(profile(&format!("p{}", i), if i == 2 { "gnome" } else { "GNOME" }, "t"));
    }
    profiles.push(profile("k", "KDE", "t"));
    profiles[1].thumbnail = "thumbnail.png".to_string();
    let items = build_display_items(&profiles);
    // one header per section and one card per profile
    assert_eq!(items.len(), 2 + 7);
    assert_eq!(items[0].header_text, "GNOME");
    assert_eq!((items[0].grid_row, items[0].grid_col, items[0].profile_index), (0, 0, -1));
    let cards: Vec<(i32, i32)> = items[1..7].iter().map(|c| (c.grid_row, c.grid_col)).collect();
    assert_eq!(cards, vec![(1, 0), (1, 1), (1, 2), (1, 3), (2, 0), (2, 1)]);
    assert!(items[2].has_thumbnail);
    assert!(!items[1].has_thumbnail);
    assert_eq!(items[3].profile_de, "gnome");
    assert_eq!(items[7].header_text, "KDE");
    assert_eq!(items[7].grid_row, 3);
    assert_eq!((items[8].grid_row, items[8].profile_index), (4, 6));
}

#[test]
fn profile_index_is_first_match() {
    let profiles = vec![profile("a", "X", "1"), profile("b", "X", "2"), profile("b", "X", "3")];
    assert_eq!(find_profile_index(&profiles, &profiles[2]), 1);
    assert_eq!(find_profile_index(&profiles, &profile("z", "X", "1")), 0);
    let items = build_display_items(&profiles);
    assert_eq!(items[3].profile_index, 1);
}

#[test]
fn session_files_are_read() {
    let gnome = "[Desktop Entry]\nName=GNOME\nExec=env GNOME_SHELL_SESSION_MODE=ubuntu gnome-session\nExec=gnome-session --x\r\n";
    let plasma = "Name=Plasma (X11)\nExec=startplasma-x11\n";
    assert_eq!(session_exec_of(gnome, "GNOME"), Some("gnome-session --x".to_string()));
    assert_eq!(session_exec_of(gnome, "Plasma"), None);
    assert_eq!(session_exec_of("Name=GNOME\n", "GNOME"), None);
    let contents = vec![plasma.to_string(), gnome.to_string()];
    assert_eq!(find_exec_name(&contents, "GNOME"), Some("gnome-session --x".to_string()));
    assert_eq!(find_exec_name(&contents, "Sway"), None);
    assert_eq!(session_name_for("gnome-session --x", "GNOME"), "gnome-session");
    assert_eq!(session_name_for("  ", "GNOME"), "GNOME");
    assert_eq!(dmrc_content("sway"), "[Desktop]\nSession=sway\n");
    assert_eq!(xsession_sed_command("sway"), "s/^XSession=.*/XSession=sway/");
    assert_eq!(accounts_service_path("alice"), "/var/lib/AccountsService/users/alice");
}

#[test]
fn restore_target_choice() {
    let last = LastProfile { de: "Plasma".to_string(), name: "Dark".to_string() };
    let profiles = vec![profile("Newest", "gnome", "3"), profile("Dark", "plasma", "2"), profile("Old", "GNOME", "1")];
    assert_eq!(
        choose_restore_target("PLASMA", &last, &profiles),
        Some(("Plasma".to_string(), "Dark".to_string()))
    );
    assert_eq!(
        choose_restore_target("GNOME", &last, &profiles),
        Some(("gnome".to_string(), "Newest".to_string()))
    );
    assert_eq!(choose_restore_target("Sway", &last, &profiles), None);
    assert_eq!(current_desktop_from(Some("XFCE".to_string()), Some("x".to_string())), "XFCE");
    assert_eq!(current_desktop_from(None, Some("sway".to_string())), "sway");
    assert_eq!(current_desktop_from(None, None), "Unknown");
}

#[test]
fn latest_backup_choice() {
    let entries = vec![
        ("kde_20260101_000000".to_string(), 5i128),
        ("gnome_20260101_000000".to_string(), 9),
        ("kde_20260102_000000".to_string(), 7),
        ("kde_copy".to_string(), 7),
        ("kdex_1".to_string(), 100),
    ];
    assert_eq!(latest_backup("kde", &entries), Some(2));
    assert_eq!(latest_backup("gnome", &entries), Some(1));
    assert_eq!(latest_backup("xfce4", &entries), None);
    assert_eq!(latest_backup("kde", &[("kde_a".to_string(), -3), ("kde_b".to_string(), -5)]), Some(0));
}

#[test]
fn package_selection_parsing() {
    let out = "adduser\t\t\t\t\tinstall\n# comment\ninstall\n\n  apt install\r\n";
    assert_eq!(parse_package_selections(out), vec!["adduser", "install", "apt"]);
    assert!(parse_package_selections("").is_empty());
}

#[test]
fn apt_commands_and_outcomes() {
    let args = apt_arguments(AptAction::Install, &["a".to_string(), "b".to_string()]);
    assert_eq!(args, vec!["apt", "install", "-y", "a", "b"]);
    assert_eq!(apt_arguments(AptAction::Remove, &[]), vec!["apt", "remove", "-y"]);
    assert_eq!(apt_outcome(true, "out".to_string(), "err".to_string()), Ok("out".to_string()));
    assert_eq!(apt_outcome(false, "out".to_string(), "err".to_string()), Err("err\nout".to_string()));
    assert_eq!(apt_launch_failure("no such file"), Err("Failed to run pkexec: no such file".to_string()));
}

#[test]
fn install_job_steps() {
    let list = de_list();
    let sway = &list[12];
    let (stage, action) = install_start(sway);
    assert_eq!(stage, InstallStage::MetaPackage);
    match action {
        JobAction::RunApt(a, p) => {
            assert_eq!(a, AptAction::Install);
            assert_eq!(p, vec!["lilith-sway"]);
        }
        _ => panic!("expected an apt run"),
    }
    let (stage, action) = install_step(InstallStage::MetaPackage, sway, Err("e".to_string()));
    assert_eq!(stage, InstallStage::Fallback);
    match action {
        JobAction::RunApt(_, p) => assert_eq!(p, vec!["sway", "swaylock", "swayidle", "swaybg", "wmenu"]),
        _ => panic!("expected an apt run"),
    }
    let (stage, action) = install_step(InstallStage::Fallback, sway, Err("boom".to_string()));
    assert_eq!(stage, InstallStage::Done);
    match action {
        JobAction::Finish(ok, s) => {
            assert!(!ok);
            assert_eq!(s, "Installation failed: boom");
        }
        _ => panic!("expected the end"),
    }
    match install_step(InstallStage::MetaPackage, sway, Ok(String::new())).1 {
        JobAction::Finish(ok, s) => assert!(ok && s == "Install complete!"),
        _ => panic!("expected the end"),
    }
    match install_step(InstallStage::Fallback, sway, Ok(String::new())).1 {
        JobAction::Finish(ok, s) => assert!(ok && s == "Installed with alternative packages"),
        _ => panic!("expected the end"),
    }
}

#[test]
fn remove_job_steps() {
    let list = de_list();
    match remove_start(&list[3]) {
        JobAction::RunApt(a, p) => {
            assert_eq!(a, AptAction::Remove);
            assert_eq!(p, vec!["lilith-lxqt", "lxqt-core", "openbox"]);
        }
        _ => panic!("expected an apt run"),
    }
    match remove_finish(Err("x".to_string())) {
        JobAction::Finish(ok, s) => assert!(!ok && s == "Removal failed: x"),
        _ => panic!("expected the end"),
    }
    match remove_finish(Ok(String::new())) {
        JobAction::Finish(ok, s) => assert!(ok && s == "Removal complete"),
        _ => panic!("expected the end"),
    }
    assert_eq!(job_status_message(true, false), ("Removal failed.", "error"));
    assert_eq!(job_status_message(false, true), ("Desktop environment installed successfully", "success"));
}

#[test]
fn store_entries_follow_jobs() {
    let mut items: Vec<DeStoreItem> = build_de_store_items(&["GNOME".to_string()]);
    mark_busy(&mut items, 9, "Removing...");
    assert!(items[9].is_installing);
    assert_eq!(items[9].install_status, "Removing...");
    mark_finished(&mut items, 9, true, false, "Removal failed: x");
    assert!(!items[9].is_installing);
    assert!(items[9].is_installed);
    mark_finished(&mut items, 9, true, true, "Removal complete");
    assert!(!items[9].is_installed);
    mark_finished(&mut items, 0, false, true, "Install complete!");
    assert!(items[0].is_installed);
    mark_busy(&mut items, 99, "ignored");
    assert_eq!(items.len(), 13);
}

#[test]
fn switching_restores_nothing_it_backs_up() {
    for de in ["GNOME", "KDE", "Plasma", "XFCE", "X-Cinnamon", "MATE", "COSMIC"] {
        let restored = config_to_restore(de).unwrap();
        assert!(!get_de_config_conflicts(de).iter().any(|c| c == restored));
    }
}

#[test]
fn restored_configs_are_backed_up_elsewhere() {
    assert!(get_de_config_conflicts("KDE").contains(&config_to_restore("GNOME").unwrap().to_string()));
    assert!(get_de_config_conflicts("GNOME").contains(&config_to_restore("Plasma").unwrap().to_string()));
    assert!(get_de_config_conflicts("GNOME").contains(&config_to_restore("XFCE").unwrap().to_string()));
    assert!(get_de_config_conflicts("COSMIC").contains(&config_to_restore("Cinnamon").unwrap().to_string()));
}

#[test]
fn accepted_names_stay_inside_the_profile_directory() {
    let name = validate_profile_name("  My Setup ").unwrap();
    let dir = profile_dir_under("/p", &name);
    assert_eq!(dir, "/p/My Setup");
    assert_eq!(validate_profile_name(&name), Ok(name.clone()));
}

#[test]
fn desktop_rules_ignore_ascii_case() {
    assert_eq!(profiles_dir_for_de_under("/p", "GnOmE"), profiles_dir_for_de_under("/p", "gnome"));
    for de in ["GNOME", "Plasma", "KDE", "XFCE", "X-Cinnamon", "Sway"] {
        let lower = de.to_ascii_lowercase();
        assert_eq!(get_de_backup_paths(de), get_de_backup_paths(&lower));
        assert_eq!(get_de_config_conflicts(de), get_de_config_conflicts(&lower));
        assert_eq!(config_to_restore(de), config_to_restore(&lower));
    }
    assert_eq!(get_de_backup_paths("kde"), get_de_backup_paths("plasma"));
}

#[test]
fn conflicts_are_listed_once() {
    for de in ["GNOME", "KDE", "XFCE", "Cinnamon", "MATE", "COSMIC"] {
        let c = get_de_config_conflicts(de);
        for i in 0..c.len() {
            for j in 0..c.len() {
                assert!(i == j || c[i] != c[j]);
            }
        }
    }
}

#[test]
fn missing_packages_of_a_profile() {
    let wanted = vec!["vim".to_string(), "git".to_string(), "htop".to_string(), "vim".to_string()];
    let installed = vec!["git".to_string(), "bash".to_string()];
    assert_eq!(missing_packages(&wanted, &installed), vec!["vim", "htop", "vim"]);
    assert!(missing_packages(&[], &installed).is_empty());
    assert_eq!(missing_packages(&installed, &[]), installed);
}

fn two_digit_field(s: &str, lo: u32, hi: u32) -> bool {
    s.len() == 2 && s.chars().all(|c| c.is_ascii_digit()) && {
        let v: u32 = s.parse().unwrap();
        lo <= v && v <= hi
    }
}

#[test]
fn timestamps_have_their_shape() {
    let p = new_profile_now("n", "d", vec![], false, "");
    let c = p.created.as_str();
    assert_eq!(c.len(), 19);
    assert!(c[0..4].chars().all(|ch| ch.is_ascii_digit()));
    assert_eq!(&c[4..5], "-");
    assert!(two_digit_field(&c[5..7], 1, 12));
    assert_eq!(&c[7..8], "-");
    assert!(two_digit_field(&c[8..10], 1, 31));
    assert_eq!(&c[10..11], " ");
    assert!(two_digit_field(&c[11..13], 0, 23));
    assert_eq!(&c[13..14], ":");
    assert!(two_digit_field(&c[14..16], 0, 59));
    assert_eq!(&c[16..17], ":");
    assert!(two_digit_field(&c[17..19], 0, 60));

    let b = conflict_backup_name_now("kde");
    assert!(b.starts_with("kde_"));
    let stamp = &b["kde_".len()..];
    assert_eq!(stamp.len(), 15);
    assert!(stamp[0..8].chars().all(|ch| ch.is_ascii_digit()));
    assert_eq!(&stamp[8..9], "_");
    assert!(stamp[9..15].chars().all(|ch| ch.is_ascii_digit()));
    assert!(two_digit_field(&stamp[4..6], 1, 12));
    assert!(two_digit_field(&stamp[9..11], 0, 23));
}

#[test]
fn home_fallback_is_tmp() {
    assert_eq!(home_or_tmp_from(Some("/home/ann".to_string())), "/home/ann");
    assert_eq!(home_or_tmp_from(None), "/tmp");
    assert_eq!(shapeshifter_dir_for(None), "/tmp/.config/shapeshifter");
}

fn config_with(installed: Vec<&str>, last: Option<(&str, &str)>) -> AppConfig {
    let mut c = AppConfig::default();
    c.installed_des = installed.into_iter().map(|s| s.to_string()).collect();
    c.last_profile = last.map(|(de, name)| LastProfile { de: de.to_string(), name: name.to_string() });
    c
}

#[test]
fn new_profiles_belong_to_the_last_desktop() {
    let with_last = config_with(vec![], Some(("KDE", "work")));
    assert_eq!(desktop_for_new_profile(&with_last, "GNOME".to_string()), "KDE");
    let without = config_with(vec![], None);
    assert_eq!(desktop_for_new_profile(&without, "GNOME".to_string()), "GNOME");
}

#[test]
fn stored_desktops_are_shown_before_detection() {
    let empty = config_with(vec![], None);
    assert!(needs_detection(&empty));
    assert_eq!(installed_des_to_show(&empty, Some(vec!["XFCE".to_string()])), vec!["XFCE".to_string()]);
    let stored = config_with(vec!["GNOME", "KDE"], None);
    assert!(!needs_detection(&stored));
    assert_eq!(installed_des_to_show(&stored, None), vec!["GNOME".to_string(), "KDE".to_string()]);
    assert_eq!(
        installed_des_to_show(&stored, Some(vec!["XFCE".to_string()])),
        vec!["GNOME".to_string(), "KDE".to_string()]
    );
}
