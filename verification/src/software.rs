//! What the software information lines say: package counts, desktop, theme and terminal.
use vstd::prelude::*;
use crate::hardware::opt_view;
use crate::text::{
    chars_of, decimal, lines, lines_exec, push_chars, push_decimal, replace, replace_exec,
    split_char, split_char_exec, starts_with, starts_with_exec, string_of, trim, trim_ws, views,
    lemma_split_nonempty,
};

verus! {

/// The software information lines.
pub struct SoftwareInfo {
    pub packages: String,
    pub de_wm: String,
    pub theme_icons: String,
    pub terminal_shell: String,
}

/// What the software lines are made from: directory entry counts (where the directory could
/// be listed), environment variables (where set) and the GTK 3 settings file (where read).
pub struct SoftwareReadings {
    pub pacman_entries: Option<usize>,
    pub flatpak_apps: Option<usize>,
    pub flatpak_runtimes: Option<usize>,
    pub desktop: Option<String>,
    pub session_type: Option<String>,
    pub gtk_settings: Option<String>,
    pub term: Option<String>,
    pub shell: Option<String>,
}

/// The number of pacman packages: the entries of its local database less its `ALPM_DB_VERSION`
/// file.
pub open spec fn pacman_count(entries: Option<usize>) -> nat {
    match entries {
        Some(n) => if n > 0 {
            (n - 1) as nat
        } else {
            0
        },
        None => 0,
    }
}

pub open spec fn count_or_zero(n: Option<usize>) -> nat {
    match n {
        Some(k) => k as nat,
        None => 0,
    }
}

pub open spec fn packages_line(pacman: Option<usize>, apps: Option<usize>, runtimes: Option<usize>) -> Seq<char> {
    decimal(pacman_count(pacman)) + " (pacman) | "@ + decimal(count_or_zero(apps) + count_or_zero(runtimes))
        + " (flatpak)"@
}

/// Flatpak apps and runtimes are counted alike: the packages line is the same with the two
/// counts exchanged, the same when both are put into the apps count, and a directory that
/// could not be listed counts as an empty one.
pub proof fn lemma_flatpak_counts_apps_and_runtimes(
    pacman: Option<usize>,
    apps: Option<usize>,
    runtimes: Option<usize>,
)
    ensures
        packages_line(pacman, apps, runtimes) == packages_line(pacman, runtimes, apps),
        count_or_zero(apps) + count_or_zero(runtimes) <= usize::MAX ==> packages_line(
            pacman,
            apps,
            runtimes,
        ) == packages_line(
            pacman,
            Some((count_or_zero(apps) + count_or_zero(runtimes)) as usize),
            Some(0),
        ),
        packages_line(pacman, None, runtimes) == packages_line(pacman, Some(0), runtimes),
{
}

/// The flatpak figure is the number of apps and runtimes together, written in decimal after
/// the pacman figure: one more runtime makes it one more.
pub proof fn lemma_flatpak_figure(pacman: Option<usize>, apps: usize, runtimes: usize)
    requires
        apps + runtimes + 1 <= usize::MAX,
    ensures
        packages_line(pacman, Some(apps), Some(runtimes)) == decimal(pacman_count(pacman))
            + " (pacman) | "@ + decimal((apps + runtimes) as nat) + " (flatpak)"@,
        packages_line(pacman, Some(apps), Some((runtimes + 1) as usize)) == decimal(
            pacman_count(pacman),
        ) + " (pacman) | "@ + decimal((apps + runtimes + 1) as nat) + " (flatpak)"@,
{
}

/// The pacman figure is the number of entries of pacman's local database less its version
/// file, and zero when the database could not be listed or holds nothing.
pub proof fn lemma_pacman_figure(entries: usize, apps: Option<usize>, runtimes: Option<usize>)
    ensures
        entries >= 1 ==> packages_line(Some(entries), apps, runtimes) == decimal(
            (entries - 1) as nat,
        ) + " (pacman) | "@ + decimal(count_or_zero(apps) + count_or_zero(runtimes))
            + " (flatpak)"@,
        packages_line(None, apps, runtimes) == packages_line(Some(0), apps, runtimes),
        packages_line(Some(1), apps, runtimes) == packages_line(Some(0), apps, runtimes),
{
}

/// The value of an environment variable, or `Unknown`.
pub open spec fn or_unknown(v: Option<Seq<char>>) -> Seq<char> {
    match v {
        Some(s) => s,
        None => "Unknown"@,
    }
}

pub open spec fn de_wm_line(desktop: Option<Seq<char>>, session: Option<Seq<char>>) -> Seq<char> {
    or_unknown(desktop) + " ("@ + or_unknown(session) + ")"@
}

/// One line of the GTK 3 settings: the theme and icon theme names, each set by its key.
pub open spec fn gtk_step(st: (Seq<char>, Seq<char>), line: Seq<char>) -> (Seq<char>, Seq<char>) {
    if starts_with(line, "gtk-theme-name="@) {
        (trim(replace(line, "gtk-theme-name="@, seq![])), st.1)
    } else if starts_with(line, "gtk-icon-theme-name="@) {
        (st.0, trim(replace(line, "gtk-icon-theme-name="@, seq![])))
    } else {
        st
    }
}

pub open spec fn gtk_lines(ls: Seq<Seq<char>>) -> (Seq<char>, Seq<char>)
    decreases ls.len(),
{
    if ls.len() == 0 {
        ("Unknown"@, "Unknown"@)
    } else {
        gtk_step(gtk_lines(ls.drop_last()), ls.last())
    }
}

pub open spec fn theme_icons_line(settings: Option<Seq<char>>) -> Seq<char> {
    let (theme, icons) = match settings {
        Some(s) => gtk_lines(lines(s)),
        None => ("Unknown"@, "Unknown"@),
    };
    "Theme: "@ + theme + " | Icons: "@ + icons
}

/// The shell's name: the last component of its path.
pub open spec fn terminal_line(term: Option<Seq<char>>, shell: Option<Seq<char>>) -> Seq<char> {
    or_unknown(term) + " via "@ + split_char(or_unknown(shell), '/').last()
}

fn opt_or_unknown(o: &Option<String>) -> (r: Vec<char>)
    ensures
        r@ == or_unknown(opt_view(*o)),
{
    match o {
        Some(s) => chars_of(s.as_str()),
        None => chars_of("Unknown"),
    }
}

/// The theme and icon theme that the text of the GTK 3 settings file names.
pub fn parse_gtk_settings(content: &str) -> (r: (String, String))
    ensures
        (r.0@, r.1@) == gtk_lines(lines(content@)),
{
    let text = chars_of(content);
    let ls = lines_exec(&text);
    let mut theme = String::from_str("Unknown");
    let mut icons = String::from_str("Unknown");
    let empty: Vec<char> = Vec::new();
    assert(empty@ =~= seq![]);
    let n = ls.len();
    for i in 0..n
        invariant
            n == ls@.len(),
            empty@ == Seq::<char>::empty(),
            (theme@, icons@) == gtk_lines(views(ls@).take(i as int)),
    {
        proof {
            reveal_strlit("gtk-theme-name=");
            reveal_strlit("gtk-icon-theme-name=");
        }
        let line = &ls[i];
        let k1 = chars_of("gtk-theme-name=");
        let k2 = chars_of("gtk-icon-theme-name=");
        if starts_with_exec(line, &k1) {
            theme = string_of(&trim_ws(&replace_exec(line, &k1, &empty)));
        } else if starts_with_exec(line, &k2) {
            icons = string_of(&trim_ws(&replace_exec(line, &k2, &empty)));
        }
        assert(views(ls@).take(i + 1).drop_last() =~= views(ls@).take(i as int));
    }
    assert(views(ls@).take(n as int) =~= views(ls@));
    (theme, icons)
}

/// The software lines.
pub fn get_software(r: &SoftwareReadings) -> (s: SoftwareInfo)
    requires
        count_or_zero(r.flatpak_apps) + count_or_zero(r.flatpak_runtimes) <= usize::MAX,
    ensures
        s.packages@ == packages_line(r.pacman_entries, r.flatpak_apps, r.flatpak_runtimes),
        s.de_wm@ == de_wm_line(opt_view(r.desktop), opt_view(r.session_type)),
        s.theme_icons@ == theme_icons_line(opt_view(r.gtk_settings)),
        s.terminal_shell@ == terminal_line(opt_view(r.term), opt_view(r.shell)),
{
    let pacman: usize = match r.pacman_entries {
        Some(n) => if n > 0 {
            n - 1
        } else {
            0
        },
        None => 0,
    };
    let apps: usize = match r.flatpak_apps {
        Some(n) => n,
        None => 0,
    };
    let runtimes: usize = match r.flatpak_runtimes {
        Some(n) => n,
        None => 0,
    };
    let mut packages = String::new();
    push_decimal(&mut packages, pacman as u64);
    packages.append(" (pacman) | ");
    push_decimal(&mut packages, (apps + runtimes) as u64);
    packages.append(" (flatpak)");

    let mut de_wm = string_of(&opt_or_unknown(&r.desktop));
    de_wm.append(" (");
    push_chars(&mut de_wm, &opt_or_unknown(&r.session_type));
    de_wm.append(")");

    let (theme, icons) = match &r.gtk_settings {
        Some(s) => parse_gtk_settings(s.as_str()),
        None => (String::from_str("Unknown"), String::from_str("Unknown")),
    };
    let mut theme_icons = String::from_str("Theme: ");
    theme_icons.append(theme.as_str());
    theme_icons.append(" | Icons: ");
    theme_icons.append(icons.as_str());

    let mut terminal_shell = string_of(&opt_or_unknown(&r.term));
    terminal_shell.append(" via ");
    let shell = opt_or_unknown(&r.shell);
    let parts = split_char_exec(&shell, '/');
    proof {
        lemma_split_nonempty(shell@, '/');
    }
    push_chars(&mut terminal_shell, &parts[parts.len() - 1]);
    SoftwareInfo { packages, de_wm, theme_icons, terminal_shell }
}

} // verus!
