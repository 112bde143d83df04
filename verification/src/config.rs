//! The configuration of the display: which modules are shown, how, and in which colours.
use vstd::prelude::*;

verus! {

/// How one information line is shown.
#[derive(Debug, Clone)]
pub struct ModuleConfig {
    pub enabled: bool,
    pub label: String,
    pub icon: String,
    pub color: String,
}

/// ANSI SGR parameter lists (such as `38;5;135`) for the parts of the display.
#[derive(Debug, Clone)]
pub struct ColorPalette {
    pub primary: String,
    pub secondary: String,
    pub separator: String,
    pub arrow: String,
    pub value: String,
}

#[derive(Debug, Clone)]
pub struct DisplayConfig {
    pub key_width: usize,
    pub ascii_padding_right: usize,
    pub uppercase_labels: bool,
    pub memory_bar_symbol: String,
    pub memory_bar_empty_symbol: String,
    pub colors: ColorPalette,
}

/// One entry per information line, in display order.
#[derive(Debug, Clone)]
pub struct Modules {
    pub os: ModuleConfig,
    pub uptime: ModuleConfig,
    pub packages: ModuleConfig,
    pub de_wm: ModuleConfig,
    pub theme_icons: ModuleConfig,
    pub terminal: ModuleConfig,
    pub cpu: ModuleConfig,
    pub gpu: ModuleConfig,
    pub memory: ModuleConfig,
    pub disk: ModuleConfig,
    pub battery: ModuleConfig,
    pub network: ModuleConfig,
    pub updates: ModuleConfig,
}

#[derive(Debug, Clone)]
pub struct Config {
    pub logo_path: Option<String>,
    pub ascii_distro: String,
    pub display: DisplayConfig,
    pub modules: Modules,
}

/// The icon every module has by default: two spaces.
pub open spec fn default_icon() -> Seq<char> {
    seq![' ', ' ']
}

/// An enabled module with the given label and colour name and the default icon.
pub open spec fn is_default_module(m: ModuleConfig, label: Seq<char>, color: Seq<char>) -> bool {
    &&& m.enabled
    &&& m.label@ == label
    &&& m.icon@ == default_icon()
    &&& m.color@ == color
}

/// The built-in configuration, used when no configuration file is found or it does not parse.
pub open spec fn is_default_config(c: Config) -> bool {
    &&& c.logo_path is None
    &&& c.ascii_distro@ == "arch"@
    &&& c.display.key_width == 14
    &&& c.display.ascii_padding_right == 44
    &&& c.display.uppercase_labels
    &&& c.display.memory_bar_symbol@ == seq!['\u{25A0}']
    &&& c.display.memory_bar_empty_symbol@ == seq!['\u{B7}']
    &&& c.display.colors.primary@ == "38;5;135"@
    &&& c.display.colors.secondary@ == "38;5;33"@
    &&& c.display.colors.separator@ == "38;5;135"@
    &&& c.display.colors.arrow@ == "38;5;255"@
    &&& c.display.colors.value@ == "38;5;255"@
    &&& is_default_module(c.modules.os, "OS"@, "cyan"@)
    &&& is_default_module(c.modules.uptime, "Uptime"@, "yellow"@)
    &&& is_default_module(c.modules.packages, "Packages"@, "blue"@)
    &&& is_default_module(c.modules.de_wm, "DE/WM"@, "magenta"@)
    &&& is_default_module(c.modules.theme_icons, "Theme"@, "cyan"@)
    &&& is_default_module(c.modules.terminal, "Terminal"@, "green"@)
    &&& is_default_module(c.modules.cpu, "CPU"@, "red"@)
    &&& is_default_module(c.modules.gpu, "GPU"@, "green"@)
    &&& is_default_module(c.modules.memory, "Memory"@, "yellow"@)
    &&& is_default_module(c.modules.disk, "Disk"@, "blue"@)
    &&& is_default_module(c.modules.battery, "Battery"@, "green"@)
    &&& is_default_module(c.modules.network, "Network"@, "magenta"@)
    &&& is_default_module(c.modules.updates, "Updates"@, "red"@)
}

fn default_module(label: &str, color: &str) -> (m: ModuleConfig)
    ensures
        is_default_module(m, label@, color@),
{
    let mut icon = String::new();
    crate::text::push_char(&mut icon, ' ');
    crate::text::push_char(&mut icon, ' ');
    assert(icon@ =~= default_icon());
    ModuleConfig {
        enabled: true,
        label: String::from_str(label),
        icon,
        color: String::from_str(color),
    }
}

impl Default for Config {
    fn default() -> (c: Self)
        ensures
            is_default_config(c),
    {
        let mut bar = String::new();
        crate::text::push_char(&mut bar, '\u{25A0}');
        let mut empty = String::new();
        crate::text::push_char(&mut empty, '\u{B7}');
        proof {
            assert(bar@ =~= seq!['\u{25A0}']);
            assert(empty@ =~= seq!['\u{B7}']);
        }
        Config {
            logo_path: None,
            ascii_distro: String::from_str("arch"),
            display: DisplayConfig {
                key_width: 14,
                ascii_padding_right: 44,
                uppercase_labels: true,
                memory_bar_symbol: bar,
                memory_bar_empty_symbol: empty,
                colors: ColorPalette {
                    primary: String::from_str("38;5;135"),
                    secondary: String::from_str("38;5;33"),
                    separator: String::from_str("38;5;135"),
                    arrow: String::from_str("38;5;255"),
                    value: String::from_str("38;5;255"),
                },
            },
            modules: Modules {
                os: default_module("OS", "cyan"),
                uptime: default_module("Uptime", "yellow"),
                packages: default_module("Packages", "blue"),
                de_wm: default_module("DE/WM", "magenta"),
                theme_icons: default_module("Theme", "cyan"),
                terminal: default_module("Terminal", "green"),
                cpu: default_module("CPU", "red"),
                gpu: default_module("GPU", "green"),
                memory: default_module("Memory", "yellow"),
                disk: default_module("Disk", "blue"),
                battery: default_module("Battery", "green"),
                network: default_module("Network", "magenta"),
                updates: default_module("Updates", "red"),
            },
        }
    }
}

/// The configuration in use: the one read from the configuration file when there is one
/// and it parsed, else the built-in one.
pub fn load_config(parsed: Option<Config>) -> (c: Config)
    ensures
        parsed matches Some(p) ==> c == p,
        parsed is None ==> is_default_config(c),
{
    match parsed {
        Some(p) => p,
        None => Config::default(),
    }
}

/// `PathBuf::push` of a relative component on Unix: a `/` is put between unless the path is
/// empty or already ends in one.
pub open spec fn join_path(base: Seq<char>, comp: Seq<char>) -> Seq<char> {
    if base.len() == 0 || base.last() == '/' {
        base + comp
    } else {
        base + seq!['/'] + comp
    }
}

fn push_component(path: &mut String, comp: &str)
    ensures
        final(path)@ == join_path(old(path)@, comp@),
{
    let v = crate::text::chars_of(path.as_str());
    let n = v.len();
    if n > 0 && v[n - 1] != '/' {
        crate::text::push_char(path, '/');
    }
    path.append(comp);
}

/// The configuration directory: `.config/rustfetch` under the home directory, or under the
/// current directory when the home directory is unknown.
pub fn get_config_path(home: Option<&str>) -> (p: String)
    ensures
        p@ == config_dir_of(
            match home {
                Some(h) => Some(h@),
                None => None,
            },
        ),
{
    let mut path = match home {
        Some(h) => String::from_str(h),
        None => String::from_str("."),
    };
    push_component(&mut path, ".config");
    push_component(&mut path, "rustfetch");
    path
}

/// The configuration file in a configuration directory.
pub fn config_file_path(dir: &str) -> (p: String)
    ensures
        p@ == join_path(dir@, "config.json"@),
{
    let mut path = String::from_str(dir);
    push_component(&mut path, "config.json");
    path
}

/// The configuration directory, for any home directory.
pub open spec fn config_dir_of(home: Option<Seq<char>>) -> Seq<char> {
    join_path(
        join_path(
            match home {
                Some(h) => h,
                None => "."@,
            },
            ".config"@,
        ),
        "rustfetch"@,
    )
}

/// The configuration path always ends in the `rustfetch` directory, and the configuration
/// file is `config.json` directly inside it.
pub proof fn lemma_config_file_in_dir(home: Option<Seq<char>>)
    ensures
        config_dir_of(home).len() >= 9,
        config_dir_of(home).subrange(config_dir_of(home).len() - 9, config_dir_of(home).len() as int)
            == "rustfetch"@,
        join_path(config_dir_of(home), "config.json"@) == config_dir_of(home) + seq!['/']
            + "config.json"@,
{
    reveal_strlit("rustfetch");
    let d = config_dir_of(home);
    let b = join_path(
        match home {
            Some(h) => h,
            None => "."@,
        },
        ".config"@,
    );
    assert(d == join_path(b, "rustfetch"@));
    assert(d.subrange(d.len() - 9, d.len() as int) =~= "rustfetch"@);
    assert(d.last() == 'h');
}

} // verus!
