//! Tests for the configuration values, defaults and file locations.

use rustfetch::config::{
    config_path_for, get_config_template, get_default_path, load_all_config, Config, DisplayConfig,
};

#[test]
fn default_configuration_switches() {
    let config = Config::default();
    assert!(config.display.os);
    assert!(config.display.kernel);
    assert!(config.display.uptime);
    assert!(config.display.cpu);
    assert!(!config.display.cpu_frequency);
    assert!(config.display.gpu);
    assert!(config.display.ram);
    assert!(config.display.swap);
    assert!(config.display.disk);
    assert!(config.display.battery);
    assert!(!config.display.power_draw);
}

#[test]
fn all_configuration_switches() {
    let config = load_all_config();
    assert!(config.display.cpu_frequency);
    assert!(config.display.power_draw);
    let display = DisplayConfig::set_all();
    assert!(display.cpu_frequency && display.power_draw && display.gpu);
}

#[test]
fn config_template_shape() {
    let template = get_config_template();
    assert!(template.contains("[display]"));
    assert!(template.contains("power_draw = false"));
    assert!(template.starts_with("# Rustfetch config file"));
}

#[test]
fn config_path_under_base_and_fallback() {
    assert_eq!(
        config_path_for(Some(String::from("/home/user/.config"))),
        "/home/user/.config/rustfetch/config.toml"
    );
    assert_eq!(config_path_for(None), "rustfetch.toml");
    let default_path = get_default_path();
    assert!(default_path.ends_with("rustfetch.toml") || default_path.ends_with("rustfetch/config.toml"));
}
