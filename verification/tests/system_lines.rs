use rustfetch::config::Config;
use rustfetch::features::get_features;
use rustfetch::hardware::{
    battery_summary, cpu_summary, device_name, disk_summary, get_hardware, gpu_summary,
    is_cpu_sensor, is_nvme_device, memory_summary, parse_cpu_model, parse_meminfo, root_device,
    HardwareReadings,
};
use rustfetch::software::{get_software, parse_gtk_settings, SoftwareReadings};

const CPUINFO: &str = "processor\t: 0\nvendor_id\t: AuthenticAMD\nmodel name\t: AMD Ryzen 7 5800X 8-Core Processor\nmodel name\t: second\n";
const MEMINFO: &str = "MemTotal:       16000000 kB\nMemFree:         1000000 kB\nMemAvailable:    8000000 kB\nMemTotal: 1 kB\n";
const MOUNTS: &str = "proc /proc proc rw 0 0\n/dev/nvme0n1p2 / ext4 rw,relatime 0 0\n/dev/sda1 / ext4 rw 0 0\n";

#[test]
fn cpu_lines() {
    assert_eq!(parse_cpu_model(CPUINFO), "AMD Ryzen 7 5800X 8-Core Processor");
    assert_eq!(parse_cpu_model("model name : a:b\n"), "a");
    assert_eq!(parse_cpu_model("model name\n"), "");
    assert_eq!(parse_cpu_model(""), "Unknown CPU");
    assert_eq!(cpu_summary(CPUINFO, Some("45.2°C")), "AMD Ryzen 7 5800X 8-Core Processor (45.2°C)");
    assert_eq!(cpu_summary("", None), "Unknown CPU (N/A)");
    assert!(is_cpu_sensor("k10temp\n"));
    assert!(is_cpu_sensor(" coretemp"));
    assert!(!is_cpu_sensor("nvme"));
}

#[test]
fn gpu_lines() {
    assert_eq!(gpu_summary(true, false, false, Some("8589934592\n")), "NVIDIA GeForce Graphics Proprietary (nvidia) [8192 MiB]");
    assert_eq!(gpu_summary(true, true, false, Some("x")), "NVIDIA GeForce Graphics Proprietary (nvidia)");
    assert_eq!(gpu_summary(false, true, true, Some("1048576")), "NVIDIA GPU Open-Source (nouveau)");
    assert_eq!(gpu_summary(false, false, true, None), "AMD Radeon GPU Open-Source (amdgpu)");
    assert_eq!(gpu_summary(false, false, false, None), "Unknown GPU Unknown Driver");
}

#[test]
fn memory_lines() {
    assert_eq!(parse_meminfo(MEMINFO), (16000000, 8000000));
    assert_eq!(parse_meminfo("MemTotal: x kB\n"), (0, 0));
    assert_eq!(parse_meminfo(""), (0, 0));
    assert_eq!(memory_summary(16000000, 8000000, "■", "·", "7.63", "15.26"), "7.63 GiB / 15.26 GiB (50%) [■■■■■·····]");
    assert_eq!(memory_summary(100, 1, "#", "-", "u", "t"), "u GiB / t GiB (99%) [#########-]");
    assert_eq!(memory_summary(0, 0, "#", "-", "0.00", "0.00"), "0.00 GiB / 0.00 GiB (0%) [----------]");
    assert_eq!(memory_summary(7, 0, "#", "-", "a", "b"), "a GiB / b GiB (100%) [##########]");
}

#[test]
fn disk_lines() {
    assert_eq!(root_device(MOUNTS), Some("/dev/nvme0n1p2".to_string()));
    assert_eq!(root_device("proc /proc proc rw 0 0\n"), None);
    assert!(is_nvme_device("/dev/nvme0n1p2"));
    assert!(!is_nvme_device("/dev/sda1"));
    assert_eq!(device_name("/dev/nvme0n1p2"), "nvme0n1p2");
    assert_eq!(device_name("tmpfs"), "tmpfs");
    assert_eq!(disk_summary(Some("/dev/nvme0n1p2"), Some(" 3\n")), "/dev/nvme0n1p2 (NVMe SSD) [Wear: 3%]");
    assert_eq!(disk_summary(Some("/dev/nvme0n1p2"), None), "/dev/nvme0n1p2 (NVMe SSD) [Good]");
    assert_eq!(disk_summary(Some("/dev/sda1"), Some("3")), "/dev/sda1 (SATA SSD/HDD) [Good]");
    assert_eq!(disk_summary(None, None), "Unknown");
}

#[test]
fn battery_lines() {
    assert_eq!(battery_summary(true, Some("87\n"), Some("Discharging\n"), None), "87% [Discharging] (Health: Good)");
    assert_eq!(battery_summary(true, None, None, Some("Normal\n")), "% [] (Health: Normal)");
    assert_eq!(battery_summary(false, Some("1"), None, None), "Desktop / No Battery");
}

#[test]
fn hardware_lines() {
    let cfg = Config::default();
    let r = HardwareReadings {
        cpuinfo: CPUINFO.to_string(),
        cpu_temp: None,
        nvidia: false,
        nouveau: false,
        amdgpu: true,
        vram_total: None,
        meminfo: MEMINFO.to_string(),
        used_gib: "7.63".to_string(),
        total_gib: "15.26".to_string(),
        mounts: MOUNTS.to_string(),
        disk_wear: Some("12".to_string()),
        battery_present: false,
        battery_capacity: None,
        battery_status: None,
        battery_level: None,
    };
    let h = get_hardware(&cfg, &r);
    assert_eq!(h.cpu, "AMD Ryzen 7 5800X 8-Core Processor (N/A)");
    assert_eq!(h.gpu, "AMD Radeon GPU Open-Source (amdgpu)");
    assert_eq!(h.memory, "7.63 GiB / 15.26 GiB (50%) [■■■■■·····]");
    assert_eq!(h.disk, "/dev/nvme0n1p2 (NVMe SSD) [Wear: 12%]");
    assert_eq!(h.battery, "Desktop / No Battery");
}

#[test]
fn software_lines() {
    let r = SoftwareReadings {
        pacman_entries: Some(1234),
        flatpak_apps: Some(3),
        flatpak_runtimes: None,
        desktop: Some("KDE".to_string()),
        session_type: None,
        gtk_settings: Some("[Settings]\ngtk-theme-name=Breeze \ngtk-icon-theme-name=Papirus\ngtk-theme-name=Adwaita-dark\n".to_string()),
        term: Some("xterm-256color".to_string()),
        shell: Some("/usr/bin/zsh".to_string()),
    };
    let s = get_software(&r);
    assert_eq!(s.packages, "1233 (pacman) | 3 (flatpak)");
    assert_eq!(s.de_wm, "KDE (Unknown)");
    assert_eq!(s.theme_icons, "Theme: Adwaita-dark | Icons: Papirus");
    assert_eq!(s.terminal_shell, "xterm-256color via zsh");

    let none = SoftwareReadings {
        pacman_entries: Some(0),
        flatpak_apps: None,
        flatpak_runtimes: None,
        desktop: None,
        session_type: None,
        gtk_settings: None,
        term: None,
        shell: None,
    };
    let s = get_software(&none);
    assert_eq!(s.packages, "0 (pacman) | 0 (flatpak)");
    assert_eq!(s.de_wm, "Unknown (Unknown)");
    assert_eq!(s.theme_icons, "Theme: Unknown | Icons: Unknown");
    assert_eq!(s.terminal_shell, "Unknown via Unknown");
    assert_eq!(parse_gtk_settings("gtk-theme-name=gtk-theme-name=X"), ("X".to_string(), "Unknown".to_string()));
}

#[test]
fn features_lines() {
    let names: Vec<String> = ["sync-db", "pkg-1.0", "xsyncx"].iter().map(|s| s.to_string()).collect();
    let f = get_features(Some("192.168.1.5".to_string()), Some(&names));
    assert_eq!(f.network, "192.168.1.5");
    assert_eq!(f.updates, "2 updates available");
    let f = get_features(None, None);
    assert_eq!(f.network, "127.0.0.1");
    assert_eq!(f.updates, "0 updates available");
    let empty: Vec<String> = Vec::new();
    assert_eq!(get_features(None, Some(&empty)).updates, "0 updates available");
}
