use shapeshifter::desktops::{de_list, find_de_definition_index, get_de_backup_paths, get_shared_backup_paths};
use shapeshifter::display::{build_de_store_items, build_display_items};
use shapeshifter::records::{normalize_remote_target, AppConfig, Profile};

#[test]
fn test_de_definitions_complete() {
    let list = de_list();
    assert_eq!(list.len(), 13);
    let names: Vec<&str> = list.iter().map(|d| d.name).collect();
    assert!(names.contains(&"Plasma"));
    assert!(names.contains(&"GNOME"));
    assert!(names.contains(&"XFCE"));
    assert!(names.contains(&"Sway"));
    assert!(names.contains(&"i3"));
}

#[test]
fn test_de_backup_paths_not_empty() {
    for de_def in de_list() {
        let paths = get_de_backup_paths(de_def.name);
        assert!(!paths.is_empty(), "DE '{}' has no backup paths", de_def.name);
    }
}

#[test]
fn test_shared_backup_paths_not_empty() {
    let paths = get_shared_backup_paths();
    assert!(!paths.is_empty());
    assert!(paths.contains(&".themes/"));
    assert!(paths.contains(&".icons/"));
}

#[test]
fn test_app_config_default() {
    let config = AppConfig::default();
    assert_eq!(config.version, 2);
    assert!(config.last_remote_path.is_empty());
    assert!(config.installed_des.is_empty());
    assert!(config.last_profile.is_none());
}

#[test]
fn test_build_de_store_items() {
    let items = build_de_store_items(&["Plasma".to_string(), "XFCE".to_string()]);
    assert_eq!(items.len(), 13);

    let plasma = items.iter().find(|i| i.name == "Plasma").unwrap();
    assert!(plasma.is_installed);

    let gnome = items.iter().find(|i| i.name == "GNOME").unwrap();
    assert!(!gnome.is_installed);
}

#[test]
fn test_build_display_items() {
    let profiles = vec![
        Profile {
            name: "Dark Mode".to_string(),
            de: "Plasma".to_string(),
            created: "2026-01-01 12:00:00".to_string(),
            packages: vec![],
            thumbnail: String::new(),
            remote_path: String::new(),
        },
        Profile {
            name: "Light Mode".to_string(),
            de: "Plasma".to_string(),
            created: "2026-01-02 12:00:00".to_string(),
            packages: vec![],
            thumbnail: String::new(),
            remote_path: String::new(),
        },
        Profile {
            name: "Minimal".to_string(),
            de: "XFCE".to_string(),
            created: "2026-01-03 12:00:00".to_string(),
            packages: vec![],
            thumbnail: String::new(),
            remote_path: String::new(),
        },
    ];

    let items = build_display_items(&profiles);
    // Plasma header + 2 Plasma cards + XFCE header + 1 XFCE card = 5 items
    assert_eq!(items.len(), 5);

    assert_eq!(items[0].item_type, 0); // Header
    assert_eq!(items[0].header_text, "Plasma");
    assert_eq!(items[1].item_type, 1); // Profile card
    assert_eq!(items[1].profile_name, "Dark Mode");
    assert_eq!(items[2].profile_name, "Light Mode");
    assert_eq!(items[3].item_type, 0); // Header
    assert_eq!(items[3].header_text, "XFCE");
}

#[test]
fn test_build_display_items_empty() {
    let items = build_display_items(&[]);
    assert!(items.is_empty());
}

#[test]
fn test_normalize_remote_target() {
    assert!(normalize_remote_target("https://example.com").is_ok());
    assert!(normalize_remote_target("file:///mnt/backup").is_ok());
    assert!(normalize_remote_target("/mnt/backup").is_ok());
    assert!(normalize_remote_target("").is_err());
    assert!(normalize_remote_target("ftp://bad").is_err());
}

#[test]
fn test_find_de_definition_index() {
    assert_eq!(find_de_definition_index("Plasma"), Some(0));
    assert_eq!(find_de_definition_index("plasma"), Some(0));
    assert_eq!(find_de_definition_index("GNOME"), Some(9));
    assert_eq!(find_de_definition_index("Unknown"), None);
}
