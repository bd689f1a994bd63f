use clypse::config::{default_debounce, default_max_history, default_max_image_size, default_true, join, Config, GuiConfig};

#[test]
fn joining_paths() {
    assert_eq!(join("/a", "b"), "/a/b");
    assert_eq!(join("/a/", "b/c"), "/a/b/c");
    assert_eq!(join("", ".config"), ".config");
    assert_eq!(join("/", "x"), "/x");
}

#[test]
fn config_file_location() {
    assert_eq!(Config::config_path(Some("/home/u/.config"), "/home/u"), "/home/u/.config/clypse/config.toml");
    assert_eq!(Config::config_path(None, "/home/u"), "/home/u/.config/clypse/config.toml");
    assert_eq!(Config::config_path(None, ""), ".config/clypse/config.toml");
    assert_eq!(GuiConfig::path(Some("/cfg"), "/home/u"), "/cfg/clypse/config.toml");
}

#[test]
fn data_locations() {
    assert_eq!(Config::data_dir(Some("/home/u/.local/share"), "/x"), "/home/u/.local/share/clypse");
    assert_eq!(Config::data_dir(None, "/home/u"), "/home/u/.local/share/clypse");
    assert_eq!(Config::db_path(None, "/home/u"), "/home/u/.local/share/clypse/history.db");
    assert_eq!(Config::images_dir(Some("/d"), "/home/u"), "/d/clypse/images");
}

#[test]
fn socket_location() {
    assert_eq!(Config::socket_path(Some("/run/user/1000"), "/tmp"), "/run/user/1000/clypse/daemon.sock");
    assert_eq!(Config::socket_path(None, "/tmp"), "/tmp/clypse/daemon.sock");
}

#[test]
fn defaults() {
    let c = Config::default();
    assert_eq!(c.max_history_items, 500);
    assert_eq!(c.max_image_size_bytes, 10 * 1024 * 1024);
    assert_eq!(c.auto_clear_days, None);
    assert!(c.enable_images);
    assert_eq!(c.debounce_ms, 50);
    let g = GuiConfig::default();
    assert_eq!(g.max_history_items, 500);
    assert_eq!(g.max_image_size_bytes, 10485760);
    assert_eq!(g.auto_clear_days, None);
    assert!(g.enable_images);
    assert_eq!(g.debounce_ms, 50);
    assert_eq!(default_max_history(), 500);
    assert_eq!(default_max_image_size(), 10485760);
    assert!(default_true());
    assert_eq!(default_debounce(), 50);
}

#[test]
fn dialog_values() {
    let g = GuiConfig::from_dialog(1000, 5 * 1024 * 1024, 0, false, 100);
    assert_eq!(g.max_history_items, 1000);
    assert_eq!(g.max_image_size_bytes, 5242880);
    assert_eq!(g.auto_clear_days, None);
    assert!(!g.enable_images);
    assert_eq!(g.debounce_ms, 100);
    assert_eq!(GuiConfig::from_dialog(10, 1, 30, true, 0).auto_clear_days, Some(30));
}
