use rustfetch::config::Config;
use rustfetch::logo::{
    get_embedded_ascii, get_visible_width, parse_builtin_c, parse_ff_color, render_row,
    render_split, LogoArts, LogoTable,
};

fn strings(v: &[&str]) -> Vec<String> {
    v.iter().map(|s| s.to_string()).collect()
}

#[test]
fn named_colors() {
    assert_eq!(parse_ff_color("FF_COLOR_FG_RED"), "\x1b[31m");
    assert_eq!(parse_ff_color("  FF_COLOR_FG_LIGHT_CYAN,  "), "\x1b[96m");
    assert_eq!(parse_ff_color("\"FF_COLOR_FG_DEFAULT\""), "\x1b[39m");
    assert_eq!(parse_ff_color("FF_COLOR_FG_BLACK"), "\x1b[30m");
    assert_eq!(parse_ff_color("FF_COLOR_FG_LIGHT_WHITE"), "\x1b[97m");
}

#[test]
fn coded_colors() {
    assert_eq!(parse_ff_color("FF_COLOR_FG_256(\"208\")"), "\x1b[38;5;208m");
    assert_eq!(parse_ff_color("FF_COLOR_FG_RGB(\"255;0;0\")"), "\x1b[38;2;255;0;0m");
    assert_eq!(parse_ff_color("FF_COLOR_FG_256 \"33\""), "\x1b[38;5;33m");
    assert_eq!(parse_ff_color("  FF_COLOR_FG_RGB \"1;2;3\",  "), "\x1b[38;2;1;2;3m");
    assert_eq!(parse_ff_color("FF_COLOR_FG_256"), "\x1b[37m");
}

#[test]
fn unknown_colors_are_white() {
    assert_eq!(parse_ff_color(""), "\x1b[37m");
    assert_eq!(parse_ff_color(","), "\x1b[37m");
    assert_eq!(parse_ff_color("SOMETHING_ELSE"), "\x1b[37m");
}

const BUILTIN: &str = r#"
    // Arch
    {
        .names = {"Arch", "archlinux", "arch_linux"},
        .lines = FASTFETCH_DATATEXT_LOGO_ARCH,
        .colors = {
            FF_COLOR_FG_CYAN,
            FF_COLOR_FG_BLUE,
        },
        .colorKeys = FF_COLOR_FG_CYAN,
    },
    // NixOS
    {
        .names = {
            "nixos",
            "nix"
        },
        .colors = {FF_COLOR_FG_BLUE, FF_COLOR_FG_CYAN},
    },
    // Gentoo
    {
        .names = {"gentoo"},
        .colors = {
            // first the purple
            FF_COLOR_FG_MAGENTA,
            FF_COLOR_FG_WHITE}
    },
    // no colours at all
    {
        .names = {"plain"},
        .colors = {},
    },
"#;

#[test]
fn builtin_table() {
    let t = parse_builtin_c(BUILTIN);
    let arch = strings(&["\x1b[36m", "\x1b[34m", "\x1b[37m"]);
    assert_eq!(t.get("arch"), Some(arch.clone()));
    assert_eq!(t.get("archlinux"), Some(arch.clone()));
    assert_eq!(t.get("arch_linux"), Some(arch));
    let nix = strings(&["\x1b[34m", "\x1b[36m"]);
    assert_eq!(t.get("nixos"), Some(nix.clone()));
    assert_eq!(t.get("nix"), Some(nix));
    assert_eq!(t.get("gentoo"), Some(strings(&["\x1b[35m", "\x1b[37m"])));
    assert_eq!(t.get("plain"), Some(Vec::new()));
    assert_eq!(t.get("Arch"), None);
    assert_eq!(t.get("ubuntu"), None);
}

#[test]
fn table_later_entry_wins() {
    let mut t = LogoTable::new();
    assert_eq!(t.get("x"), None);
    t.insert(&"x".chars().collect(), &strings(&["a"]));
    t.insert(&"y".chars().collect(), &strings(&["b"]));
    t.insert(&"x".chars().collect(), &strings(&["c", "d"]));
    assert_eq!(t.get("x"), Some(strings(&["c", "d"])));
    assert_eq!(t.get("y"), Some(strings(&["b"])));
}

#[test]
fn visible_width_strips_codes() {
    assert_eq!(get_visible_width("plain"), 5);
    assert_eq!(get_visible_width("$1abc$2"), 3);
    assert_eq!(get_visible_width("${1}x$%y$%{}"), 2);
    assert_eq!(get_visible_width("\x1b[38;5;33mab\x1b[0m"), 2);
    assert_eq!(get_visible_width("\u{2500}\u{2500}"), 2);
    assert_eq!(get_visible_width(""), 0);
}

#[test]
fn row_with_placeholders() {
    let colors = strings(&["\x1b[31m", "\x1b[32m"]);
    let row = render_row(Some("$1abc${2}d$3$%"), 4, &colors, "F", 10, Some("INFO"));
    assert_eq!(row, "\x1b[31mabc\x1b[32md\x1b[37m\x1b[0m\x1b[0m      INFO");
}

#[test]
fn row_without_placeholders_uses_fallback() {
    let colors = strings(&["\x1b[31m"]);
    let row = render_row(Some("abc"), 3, &colors, "\x1b[35m", 5, None);
    assert_eq!(row, "\x1b[35mabc\x1b[0m  ");
    let wide = render_row(Some("abcdef"), 6, &colors, "\x1b[35m", 5, Some("I"));
    assert_eq!(wide, "\x1b[35mabcdef\x1b[0mI");
}

#[test]
fn row_below_logo() {
    let colors = strings(&[]);
    assert_eq!(render_row(None, 0, &colors, "F", 3, Some("info")), "   info");
    assert_eq!(render_row(None, 0, &colors, "F", 2, None), "  ");
}

#[test]
fn placeholder_ten_is_replaced_as_one_then_zero() {
    let colors = strings(&["<1>"]);
    let row = render_row(Some("$10"), 0, &colors, "F", 0, None);
    assert_eq!(row, "<1>0\x1b[0m");
}

fn arts() -> LogoArts {
    LogoArts {
        arch: "A1\n$1A2".to_string(),
        nixos: "N".to_string(),
        gentoo: "G".to_string(),
        manjaro: "M".to_string(),
        endeavouros: "E".to_string(),
    }
}

#[test]
fn embedded_logos_by_name() {
    let a = arts();
    assert_eq!(get_embedded_ascii("ARCH", &a), Some("A1\n$1A2"));
    assert_eq!(get_embedded_ascii("NixOS", &a), Some("N"));
    assert_eq!(get_embedded_ascii("endeavourOS", &a), Some("E"));
    assert_eq!(get_embedded_ascii("ubuntu", &a), None);
}

#[test]
fn split_layout() {
    let cfg = Config::default();
    let info = strings(&["i0", "i1", "i2"]);
    let rows = render_split("Arch", &arts(), BUILTIN, &info, &cfg); 
    assert_eq!(rows.len(), 3);
    assert_eq!(rows[0], format!("\x1b[36mA1\x1b[0m{}i0", " ".repeat(42)));
    assert_eq!(rows[1], format!("\x1b[36mA2\x1b[0m{}i1", " ".repeat(42)));
    assert_eq!(rows[2], format!("{}i2", " ".repeat(44)));
}

#[test]
fn split_unknown_distro_uses_arch_art_and_defaults() {
    let cfg = Config::default();
    let info = strings(&["only"]);
    let rows = render_split("ubuntu", &arts(), "", &info, &cfg); 
    assert_eq!(rows.len(), 2);
    assert_eq!(rows[0], format!("\x1b[36mA1\x1b[0m{}only", " ".repeat(42)));
    assert_eq!(rows[1], format!("\x1b[36mA2\x1b[0m{}", " ".repeat(42)));
}

#[test]
fn split_logo_without_colours_uses_primary() {
    let cfg = Config::default();
    let mut a = arts();
    a.gentoo = "g".to_string();
    let table = "{\n.names = {\"gentoo\"},\n.colors = {},\n}\n";
    let rows = render_split("gentoo", &a, table, &Vec::new(), &cfg); 
    assert_eq!(rows, vec![format!("\x1b[38;5;135mg\x1b[0m{}", " ".repeat(43))]);
}

#[test]
fn reset_markers_all_replaced() {
    let colors = strings(&[]);
    let row = render_row(Some("a$%{}b$$%%"), 0, &colors, "F", 0, None);
    assert_eq!(row, "Fa\x1b[0mb$\x1b[0m%\x1b[0m");
    assert!(!row.contains("$%"));
}

#[test]
fn long_reset_is_one_reset() {
    let mut cfg = Config::default();
    cfg.display.ascii_padding_right = 6;
    let mut a = arts();
    a.arch = "$1ab$%{}c".to_string();
    let table = ".names = {\"arch\"},\n.colors = {FF_COLOR_FG_BLUE},\n";
    let rows = render_split("arch", &a, table, &strings(&["X"]), &cfg);
    assert_eq!(rows, vec!["\x1b[34mab\x1b[0mc\x1b[0m   X".to_string()]);
}

fn without_escapes(s: &str) -> String {
    let mut out = String::new();
    let mut in_escape = false;
    for c in s.chars() {
        if in_escape {
            if c == 'm' {
                in_escape = false;
            }
        } else if c == '\x1b' {
            in_escape = true;
        } else {
            out.push(c);
        }
    }
    out
}

#[test]
fn info_column_does_not_drift() {
    let colors = strings(&["\x1b[34m", "\x1b[1;31m"]);
    let lines = [
        "$1a${2}b$%c",
        "$1ab$%{}c",
        "plain",
        "$2\u{2500}$%$1x",
        "",
        "$%{}$%",
        "$a",
        "ab$",
        "${a}",
        "$1met$$$$$gg.",
        "$$%{}x",
    ];
    for line in lines {
        let w = get_visible_width(line);
        let row = render_row(Some(line), w, &colors, "\x1b[37m", 8, Some("X"));
        let column = if w < 8 { 8 } else { w };
        assert_eq!(without_escapes(&row).chars().position(|c| c == 'X'), Some(column));
    }
    let wide = "$1abcdefghij";
    let w = get_visible_width(wide);
    let row = render_row(Some(wide), w, &colors, "\x1b[37m", 8, Some("X"));
    assert_eq!(without_escapes(&row).chars().position(|c| c == 'X'), Some(10));
}

#[test]
fn escapes_in_art_take_no_cells() {
    let colors = strings(&["\x1b[34m"]);
    let line = "$1a\x1b[1;33mb\x1b[0mc";
    let w = get_visible_width(line);
    assert_eq!(w, 3);
    let row = render_row(Some(line), w, &colors, "\x1b[37m", 6, Some("X"));
    assert_eq!(row, "\x1b[34ma\x1b[1;33mb\x1b[0mc\x1b[0m   X");
    assert_eq!(without_escapes(&row).chars().position(|c| c == 'X'), Some(6));
}

#[test]
fn quoted_macro_name_is_no_code() {
    assert_eq!(parse_ff_color("\"FF_COLOR_FG_256\""), "\x1b[37m");
    assert_eq!(parse_ff_color("\"FF_COLOR_FG_RGB\""), "\x1b[37m");
    assert_eq!(parse_ff_color("FF_COLOR_FG_256 \"\""), "\x1b[37m");
    assert_eq!(parse_ff_color("FF_COLOR_FG_256 \"3x\""), "\x1b[37m");
}

#[test]
fn logo_lookup_ignores_case() {
    let a = arts();
    assert_eq!(get_embedded_ascii("ArCh", &a), get_embedded_ascii("arch", &a));
    assert_eq!(get_embedded_ascii("NIXOS", &a), get_embedded_ascii("nixos", &a));
}
