use rustfetch::config::Config;
use rustfetch::info::{
    assemble_info_line, build_info_lines, choose_logo, format_info_line, key_color_from,
    network_value, os_value, parse_os_release, proc_value, uptime_value, InfoValues, KeyColor,
};

const ARROW: &str = "\x1b[38;5;255m ➔ \x1b[0m\x1b[38;5;255m";

fn values() -> InfoValues {
    let v = |s: &str| s.to_string();
    InfoValues {
        os: v("Arch Linux | 6.9 | systemd"),
        uptime: v("1 hours, 2 mins"),
        packages: v("10 (pacman) | 0 (flatpak)"),
        de_wm: v("KDE (wayland)"),
        theme_icons: v("Theme: a | Icons: b"),
        terminal: v("xterm via zsh"),
        cpu: v("cpu"),
        gpu: v("gpu"),
        memory: v("mem"),
        disk: v("disk"),
        battery: v("bat"),
        network: v("Local IP: 10.0.0.2"),
        updates: v("0 updates available"),
    }
}

#[test]
fn colour_names() {
    assert!(matches!(key_color_from("red"), KeyColor::Red));
    assert!(matches!(key_color_from("cyan"), KeyColor::Cyan));
    assert!(matches!(key_color_from("Red"), KeyColor::White));
    assert!(matches!(key_color_from("purple"), KeyColor::White));
}

#[test]
fn assembled_line_pads_to_key_width() {
    let cfg = Config::default();
    let line = assemble_info_line("KEY", &cfg.modules.uptime, &cfg.display, "5 mins");
    // "UPTIME" is 6 characters: 14 - 8 = 6 spaces.
    assert_eq!(line, format!("KEY{}{}5 mins\x1b[0m", " ".repeat(6), ARROW));
    let mut long = cfg.modules.uptime.clone();
    long.label = "A very long label".to_string();
    let line = assemble_info_line("K", &long, &cfg.display, "v");
    assert_eq!(line, format!("K{}v\x1b[0m", ARROW));
}

#[test]
fn lines_with_and_without_colour() {
    let mut cfg = Config::default();

    colored::control::set_override(false);
    let plain = format_info_line(&cfg.modules.os, &cfg.display, "Arch").unwrap();
    assert_eq!(plain, format!("    OS{}{}Arch\x1b[0m", " ".repeat(10), ARROW));

    colored::control::set_override(true);
    let coloured = format_info_line(&cfg.modules.os, &cfg.display, "Arch").unwrap();
    assert_eq!(coloured, format!("\x1b[1;36m    OS\x1b[0m{}{}Arch\x1b[0m", " ".repeat(10), ARROW));

    let mut custom = cfg.modules.cpu.clone();
    custom.label = "Kernel".to_string();
    custom.icon = "*".to_string();
    custom.color = "unknown".to_string();
    cfg.display.uppercase_labels = false;
    let line = format_info_line(&custom, &cfg.display, "6.9").unwrap();
    assert_eq!(line, format!("\x1b[1;37m* Kernel\x1b[0m{}{}6.9\x1b[0m", " ".repeat(6), ARROW));

    custom.enabled = false;
    assert_eq!(format_info_line(&custom, &cfg.display, "6.9"), None);

    colored::control::set_override(false);
    let mut cfg = Config::default();
    cfg.modules.gpu.enabled = false;
    cfg.modules.battery.enabled = false;
    let lines = build_info_lines(&cfg, "me", "box", &values());
    assert_eq!(lines.len(), 2 + 11);
    assert_eq!(lines[0], "\x1b[38;5;135mme\x1b[0m@\x1b[38;5;135mbox\x1b[0m");
    assert_eq!(lines[1], format!("\x1b[38;5;135m{}\x1b[0m", "─".repeat(6)));
    assert_eq!(lines[2], format!("    OS{}{}Arch Linux | 6.9 | systemd\x1b[0m", " ".repeat(10), ARROW));
    assert_eq!(lines[8], format!("    CPU{}{}cpu\x1b[0m", " ".repeat(9), ARROW));
    assert_eq!(lines[9], format!("    MEMORY{}{}mem\x1b[0m", " ".repeat(6), ARROW));
    assert_eq!(lines[12], format!("    UPDATES{}{}0 updates available\x1b[0m", " ".repeat(5), ARROW));
}

#[test]
fn separator_counts_bytes() {
    let cfg = Config::default();
    let lines = build_info_lines(&cfg, "é", "h", &values());
    // "é" is two bytes long.
    assert_eq!(lines[1], format!("\x1b[38;5;135m{}\x1b[0m", "─".repeat(4)));
}

#[test]
fn os_release_fields() {
    let text = "NAME=\"Arch Linux\"\nPRETTY_NAME=\"Arch Linux\"\nID=arch\nBUILD_ID=rolling\n";
    assert_eq!(parse_os_release(text), ("Arch Linux".to_string(), "arch".to_string()));
    let text = "PRETTY_NAME=\"EndeavourOS\"\nID=\"EndeavourOS\"\n";
    assert_eq!(parse_os_release(text), ("EndeavourOS".to_string(), "endeavouros".to_string()));
    assert_eq!(parse_os_release(""), ("Linux".to_string(), "arch".to_string()));
}

#[test]
fn logo_choice() {
    assert_eq!(choose_logo(Some("gentoo".to_string()), "Arch Linux", "arch".to_string()), "gentoo");
    assert_eq!(choose_logo(None, "EndeavourOS Linux", "arch".to_string()), "endeavouros");
    assert_eq!(choose_logo(None, "NixOS 24.05", "nixos".to_string()), "nixos");
}

#[test]
fn system_values_are_formatted() {
    assert_eq!(os_value("Arch Linux", "6.9.1-arch1"), "Arch Linux | 6.9.1-arch1 | systemd");
    assert_eq!(uptime_value(0, 7), "0 hours, 7 mins");
    assert_eq!(uptime_value(26, 59), "26 hours, 59 mins");
    assert_eq!(network_value("192.168.1.20"), "Local IP: 192.168.1.20");
    assert_eq!(proc_value("myhost\n"), "myhost");
    assert_eq!(proc_value("  6.9.1 \t\n"), "6.9.1");
    assert_eq!(proc_value(""), "");
}
