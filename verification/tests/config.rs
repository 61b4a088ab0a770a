use tile_picker::config::{default_dir, image_directory, load_config, Config, ConfigSource};

#[test]
fn config_default_values() {
    let config = Config::default();
    assert_eq!(config.dir, "assets");
    assert!(!config.one_based_index);
    assert_eq!(default_dir(), "assets");
}

#[test]
fn missing_config_falls_back_to_default() {
    let config = load_config(ConfigSource::Unreadable);
    assert_eq!(config.dir, "assets");
    assert!(!config.one_based_index);
}

#[test]
fn malformed_config_falls_back_to_default() {
    let config = load_config(ConfigSource::Malformed);
    assert_eq!(config.dir, "assets");
    assert!(!config.one_based_index);
}

#[test]
fn parsed_config_is_used() {
    let parsed = Config { dir: "sprites".to_string(), one_based_index: true };
    let config = load_config(ConfigSource::Parsed(parsed));
    assert_eq!(config.dir, "sprites");
    assert!(config.one_based_index);
}

#[test]
fn cli_directory_takes_precedence() {
    assert_eq!(image_directory(Some("gfx".to_string()), "assets".to_string()), "gfx");
    assert_eq!(image_directory(None, "sprites".to_string()), "sprites");
}
