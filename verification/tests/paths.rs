use rssstv::paths::{join, parent, trimmed_separators, AppPaths, Folder};

#[test]
fn paths_the_log_is_kept_apart_from_the_roaming_data_directory() {
    let paths = AppPaths::from_roots("config", "data", "pictures", "state");
    assert!(paths.log_file().starts_with("state"));
    assert!(!paths.log_file().starts_with("data"));
}

#[test]
fn every_directory_has_its_place() {
    let paths = AppPaths::from_roots("/c", "/d", "/p", "/s/");
    assert_eq!(paths.config_file(), "/c/config.toml");
    assert_eq!(paths.config_dir(), "/c");
    assert_eq!(paths.templates_dir(), "/d/templates");
    assert_eq!(paths.assets_dir(), "/d/assets");
    assert_eq!(paths.stocks_dir(), "/p/Stocks");
    assert_eq!(paths.sent_dir(), "/p/Sent");
    assert_eq!(paths.received_dir(), "/p/Received");
    assert_eq!(paths.log_file(), "/s/logs/rssstv.log");
    assert_eq!(paths.folder(Folder::Config), "/c");
    assert_eq!(paths.folder(Folder::Received), "/p/Received");
    assert_eq!(paths.directories().len(), 7);
}

#[test]
fn every_folder_has_a_menu_entry_key() {
    let keys: Vec<&str> = Folder::all().iter().map(|folder| folder.label_key()).collect();
    assert_eq!(
        keys,
        vec![
            "menu-open-received",
            "menu-open-sent",
            "menu-open-stocks",
            "menu-open-templates",
            "menu-open-assets",
            "menu-open-config",
        ]
    );
}

#[test]
fn joining_and_parents_follow_path_rules() {
    assert_eq!(join("a", "b"), "a/b");
    assert_eq!(join("a/", "b"), "a/b");
    assert_eq!(join("", "b"), "b");
    assert_eq!(parent("a/b/c"), "a/b");
    assert_eq!(parent("/c"), "/");
    assert_eq!(parent("c"), "");
    assert_eq!(parent("a//c"), "a");
    assert_eq!(trimmed_separators("a//"), "a");
    assert_eq!(trimmed_separators("/"), "/");
}
