use rustfetch::config::{config_file_path, get_config_path, load_config, Config};

#[test]
fn default_config_values() {
    let c = Config::default();
    assert!(c.logo_path.is_none());
    assert_eq!(c.ascii_distro, "arch");
    assert_eq!(c.display.key_width, 14);
    assert_eq!(c.display.ascii_padding_right, 44);
    assert!(c.display.uppercase_labels);
    assert_eq!(c.display.memory_bar_symbol, "■");
    assert_eq!(c.display.memory_bar_empty_symbol, "·");
    assert_eq!(c.display.colors.primary, "38;5;135");
    assert_eq!(c.display.colors.secondary, "38;5;33");
    assert_eq!(c.display.colors.separator, "38;5;135");
    assert_eq!(c.display.colors.arrow, "38;5;255");
    assert_eq!(c.display.colors.value, "38;5;255");
    let m = &c.modules;
    let all = [
        (&m.os, "OS", "cyan"),
        (&m.uptime, "Uptime", "yellow"),
        (&m.packages, "Packages", "blue"),
        (&m.de_wm, "DE/WM", "magenta"),
        (&m.theme_icons, "Theme", "cyan"),
        (&m.terminal, "Terminal", "green"),
        (&m.cpu, "CPU", "red"),
        (&m.gpu, "GPU", "green"),
        (&m.memory, "Memory", "yellow"),
        (&m.disk, "Disk", "blue"),
        (&m.battery, "Battery", "green"),
        (&m.network, "Network", "magenta"),
        (&m.updates, "Updates", "red"),
    ];
    for (module, label, color) in all {
        assert!(module.enabled);
        assert_eq!(module.label, label);
        assert_eq!(module.icon, "  ");
        assert_eq!(module.color, color);
    }
}

#[test]
fn load_config_falls_back_to_default() {
    let c = load_config(None);
    assert_eq!(c.ascii_distro, "arch");
    let mut custom = Config::default();
    custom.ascii_distro = "gentoo".to_string();
    custom.display.key_width = 20;
    let c = load_config(Some(custom));
    assert_eq!(c.ascii_distro, "gentoo");
    assert_eq!(c.display.key_width, 20);
}

#[test]
fn config_path_under_home() {
    assert_eq!(get_config_path(Some("/home/user")), "/home/user/.config/rustfetch");
    assert_eq!(get_config_path(Some("/root/")), "/root/.config/rustfetch");
    assert_eq!(get_config_path(Some("")), ".config/rustfetch");
    assert_eq!(get_config_path(None), "./.config/rustfetch");
    assert_eq!(config_file_path("/home/user/.config/rustfetch"), "/home/user/.config/rustfetch/config.json");
}

#[test]
fn config_file_inside_config_dir() {
    for home in [Some("/home/user"), Some("/"), None] {
        let dir = get_config_path(home);
        assert!(dir.ends_with("rustfetch"));
        assert_eq!(config_file_path(&dir), format!("{}/config.json", dir));
    }
}
