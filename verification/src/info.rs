//! The information column: the user and host header and one line per enabled module.
use vstd::prelude::*;
use colored::Colorize;
use crate::config::{Config, DisplayConfig, ModuleConfig};
use crate::logo::{reset_code, spaces};
use crate::text::{
    chars_of, contains, contains_exec, lines, lines_exec, lower_text, lowercase_chars, upper_text,
    push_repeat, repeat, replace, replace_exec, same_chars, starts_with, starts_with_exec,
    str_to_lowercase, str_to_uppercase, string_of, trim, trim_ws, uppercase, views, decimal,
    push_decimal,
};
use vstd::utf8::encode_utf8;

verus! {

/// The colours that a module's key can be shown in.
pub enum KeyColor {
    Red,
    Green,
    Yellow,
    Blue,
    Magenta,
    Cyan,
    White,
}

/// The colour named in a module's configuration; any other name is white.
pub open spec fn key_color_of(name: Seq<char>) -> KeyColor {
    if name == "red"@ {
        KeyColor::Red
    } else if name == "green"@ {
        KeyColor::Green
    } else if name == "yellow"@ {
        KeyColor::Yellow
    } else if name == "blue"@ {
        KeyColor::Blue
    } else if name == "magenta"@ {
        KeyColor::Magenta
    } else if name == "cyan"@ {
        KeyColor::Cyan
    } else {
        KeyColor::White
    }
}

/// The SGR parameter of a foreground colour.
pub open spec fn key_color_param(c: KeyColor) -> Seq<char> {
    match c {
        KeyColor::Red => "31"@,
        KeyColor::Green => "32"@,
        KeyColor::Yellow => "33"@,
        KeyColor::Blue => "34"@,
        KeyColor::Magenta => "35"@,
        KeyColor::Cyan => "36"@,
        KeyColor::White => "37"@,
    }
}

/// The escape sequence that turns on bold and the colour.
pub open spec fn key_style(c: KeyColor) -> Seq<char> {
    "\x1b[1;"@ + key_color_param(c) + "m"@
}

/// The text in bold and the colour: the style sequence before it, a reset after it, and the
/// style sequence again after each reset inside the text, so that it lasts to the end.
pub open spec fn bold_colored(text: Seq<char>, c: KeyColor) -> Seq<char> {
    key_style(c) + replace(text, reset_code(), reset_code() + key_style(c)) + reset_code()
}

pub fn key_color_from(name: &str) -> (c: KeyColor)
    ensures
        c == key_color_of(name@),
{
    let v = chars_of(name);
    if same_chars(&v, "red") {
        KeyColor::Red
    } else if same_chars(&v, "green") {
        KeyColor::Green
    } else if same_chars(&v, "yellow") {
        KeyColor::Yellow
    } else if same_chars(&v, "blue") {
        KeyColor::Blue
    } else if same_chars(&v, "magenta") {
        KeyColor::Magenta
    } else if same_chars(&v, "cyan") {
        KeyColor::Cyan
    } else {
        KeyColor::White
    }
}

/// `colored`: `text.bold().<colour>()`, displayed. Whether colour is used depends on the
/// environment (`CLICOLOR`, `NO_COLOR`, `CLICOLOR_FORCE`, whether stdout is a terminal), so
/// the result is stated only for every outcome: the text unchanged, or the text between
/// the bold-and-colour sequence and a reset, with the sequence written again after each
/// reset that the text itself holds.
#[verifier::external_body]
fn style_key(text: &str, color: &KeyColor) -> (r: String)
    ensures
        r@ == text@ || r@ == bold_colored(text@, *color),
{
    match color {
        KeyColor::Red => text.bold().red().to_string(),
        KeyColor::Green => text.bold().green().to_string(),
        KeyColor::Yellow => text.bold().yellow().to_string(),
        KeyColor::Blue => text.bold().blue().to_string(),
        KeyColor::Magenta => text.bold().magenta().to_string(),
        KeyColor::Cyan => text.bold().cyan().to_string(),
        KeyColor::White => text.bold().white().to_string(),
    }
}

/// Whether a label is one of the built-in module labels, which get the built-in icon.
pub open spec fn is_builtin_label(label: Seq<char>) -> bool {
    ||| label == "OS"@
    ||| label == "Uptime"@
    ||| label == "Packages"@
    ||| label == "DE/WM"@
    ||| label == "Theme"@
    ||| label == "Terminal"@
    ||| label == "CPU"@
    ||| label == "GPU"@
    ||| label == "Memory"@
    ||| label == "Disk"@
    ||| label == "Battery"@
    ||| label == "Network"@
    ||| label == "Updates"@
}

/// The icon of a module: three spaces for the built-in labels, else the configured icon.
pub open spec fn module_icon(m: ModuleConfig) -> Seq<char> {
    if is_builtin_label(m.label@) {
        seq![' ', ' ', ' ']
    } else {
        m.icon@
    }
}

/// The label as shown: upper case when the configuration asks for it.
pub open spec fn shown_label(m: ModuleConfig, d: DisplayConfig) -> Seq<char> {
    if d.uppercase_labels {
        upper_text(m.label@)
    } else {
        m.label@
    }
}

/// Icon, a space, and the label.
pub open spec fn module_key(m: ModuleConfig, d: DisplayConfig) -> Seq<char> {
    module_icon(m) + seq![' '] + shown_label(m, d)
}

/// The spaces after the key that align the arrows: the key width less the label and two.
pub open spec fn key_padding(key_width: nat, label: Seq<char>) -> nat {
    if key_width > label.len() + 2 {
        (key_width - label.len() - 2) as nat
    } else {
        0
    }
}

/// The arrow and the value, each in its configured colour.
pub open spec fn value_part(d: DisplayConfig, value: Seq<char>) -> Seq<char> {
    "\x1b["@ + d.colors.arrow@ + "m \u{2794} "@ + reset_code() + "\x1b["@ + d.colors.value@ + "m"@
        + value + reset_code()
}

/// The information line of a module, the key as `colored` displayed it given.
pub open spec fn info_line_with(
    styled_key: Seq<char>,
    m: ModuleConfig,
    d: DisplayConfig,
    value: Seq<char>,
) -> Seq<char> {
    styled_key + spaces(key_padding(d.key_width as nat, shown_label(m, d))) + value_part(d, value)
}

/// What holds of an information line whatever `colored` decided: the key is plain or bold
/// and coloured.
pub open spec fn is_info_line(line: Seq<char>, m: ModuleConfig, d: DisplayConfig, value: Seq<char>) -> bool {
    line == info_line_with(module_key(m, d), m, d, value)
        || line == info_line_with(
        bold_colored(module_key(m, d), key_color_of(m.color@)),
        m,
        d,
        value,
    )
}

fn is_builtin_label_exec(label: &str) -> (b: bool)
    ensures
        b == is_builtin_label(label@),
{
    let v = chars_of(label);
    same_chars(&v, "OS") || same_chars(&v, "Uptime") || same_chars(&v, "Packages") || same_chars(
        &v,
        "DE/WM",
    ) || same_chars(&v, "Theme") || same_chars(&v, "Terminal") || same_chars(&v, "CPU")
        || same_chars(&v, "GPU") || same_chars(&v, "Memory") || same_chars(&v, "Disk")
        || same_chars(&v, "Battery") || same_chars(&v, "Network") || same_chars(&v, "Updates")
}

/// The line of a module from its key as displayed: padding, arrow and value appended.
pub fn assemble_info_line(
    styled_key: &str,
    m: &ModuleConfig,
    d: &DisplayConfig,
    value: &str,
) -> (r: String)
    ensures
        r@ == info_line_with(styled_key@, *m, *d, value@),
{
    let label = if d.uppercase_labels {
        str_to_uppercase(m.label.as_str())
    } else {
        m.label.clone()
    };
    let count = label.as_str().unicode_len();
    let pad: usize = if count >= d.key_width {
        0
    } else if d.key_width - count >= 2 {
        d.key_width - count - 2
    } else {
        0
    };
    let mut out = String::from_str(styled_key);
    let space = chars_of(" ");
    proof {
        reveal_strlit(" ");
    }
    assert(space@ =~= seq![' ']);
    push_repeat(&mut out, &space, pad);
    out.append("\x1b[");
    out.append(d.colors.arrow.as_str());
    out.append("m \u{2794} ");
    out.append("\x1b[0m");
    out.append("\x1b[");
    out.append(d.colors.value.as_str());
    out.append("m");
    out.append(value);
    out.append("\x1b[0m");
    assert(out@ =~= info_line_with(styled_key@, *m, *d, value@));
    out
}

/// The information line of a module, or none when the module is disabled.
pub fn format_info_line(m: &ModuleConfig, d: &DisplayConfig, value: &str) -> (r: Option<String>)
    ensures
        r is Some <==> m.enabled,
        r matches Some(line) ==> is_info_line(line@, *m, *d, value@),
{
    if !m.enabled {
        return None;
    }
    let label = if d.uppercase_labels {
        str_to_uppercase(m.label.as_str())
    } else {
        m.label.clone()
    };
    let mut key = if is_builtin_label_exec(m.label.as_str()) {
        String::from_str("   ")
    } else {
        m.icon.clone()
    };
    proof {
        reveal_strlit("   ");
    }
    key.append(" ");
    key.append(label.as_str());
    proof {
        reveal_strlit(" ");
    }
    assert(key@ =~= module_key(*m, *d));
    let color = key_color_from(m.color.as_str());
    let styled = style_key(key.as_str(), &color);
    Some(assemble_info_line(styled.as_str(), m, d, value))
}

/// `user@host`, both in the primary colour.
pub open spec fn user_host_line(primary: Seq<char>, user: Seq<char>, host: Seq<char>) -> Seq<char> {
    "\x1b["@ + primary + "m"@ + user + reset_code() + "@"@ + "\x1b["@ + primary + "m"@ + host
        + reset_code()
}

/// A rule of `'─'` as long as `user@host` is in bytes, in the separator colour.
pub open spec fn separator_line(sep: Seq<char>, user: Seq<char>, host: Seq<char>) -> Seq<char> {
    "\x1b["@ + sep + "m"@ + repeat(
        seq!['\u{2500}'],
        encode_utf8(user).len() + 1 + encode_utf8(host).len(),
    ) + reset_code()
}

/// The values shown by the modules, in display order.
pub struct InfoValues {
    pub os: String,
    pub uptime: String,
    pub packages: String,
    pub de_wm: String,
    pub theme_icons: String,
    pub terminal: String,
    pub cpu: String,
    pub gpu: String,
    pub memory: String,
    pub disk: String,
    pub battery: String,
    pub network: String,
    pub updates: String,
}

/// A value read from a kernel file: its text without surrounding white space.
pub fn proc_value(raw: &str) -> (r: String)
    ensures
        r@ == trim(raw@),
{
    string_of(&trim_ws(&chars_of(raw)))
}

/// The OS line's value: the system name, the kernel release and the init system.
pub fn os_value(os_name: &str, kernel: &str) -> (r: String)
    ensures
        r@ == os_name@ + " | "@ + kernel@ + " | systemd"@,
{
    let mut r = String::from_str(os_name);
    r.append(" | ");
    r.append(kernel);
    r.append(" | systemd");
    r
}

/// The uptime line's value from whole hours and the minutes past them.
pub fn uptime_value(hours: u64, minutes: u64) -> (r: String)
    ensures
        r@ == decimal(hours as nat) + " hours, "@ + decimal(minutes as nat) + " mins"@,
{
    let mut r = String::new();
    push_decimal(&mut r, hours);
    r.append(" hours, ");
    push_decimal(&mut r, minutes);
    r.append(" mins");
    r
}

/// The network line's value: the local address after its label.
pub fn network_value(ip: &str) -> (r: String)
    ensures
        r@ == "Local IP: "@ + ip@,
{
    let mut r = String::from_str("Local IP: ");
    r.append(ip);
    r
}

/// Each module with its value, in display order.
pub open spec fn module_values(cfg: Config, v: InfoValues) -> Seq<(ModuleConfig, Seq<char>)> {
    seq![
        (cfg.modules.os, v.os@),
        (cfg.modules.uptime, v.uptime@),
        (cfg.modules.packages, v.packages@),
        (cfg.modules.de_wm, v.de_wm@),
        (cfg.modules.theme_icons, v.theme_icons@),
        (cfg.modules.terminal, v.terminal@),
        (cfg.modules.cpu, v.cpu@),
        (cfg.modules.gpu, v.gpu@),
        (cfg.modules.memory, v.memory@),
        (cfg.modules.disk, v.disk@),
        (cfg.modules.battery, v.battery@),
        (cfg.modules.network, v.network@),
        (cfg.modules.updates, v.updates@),
    ]
}

/// The enabled modules among the entries, in order.
pub open spec fn enabled_modules(e: Seq<(ModuleConfig, Seq<char>)>) -> Seq<(ModuleConfig, Seq<char>)>
    decreases e.len(),
{
    if e.len() == 0 {
        seq![]
    } else {
        enabled_modules(e.drop_last()) + if e.last().0.enabled {
            seq![e.last()]
        } else {
            seq![]
        }
    }
}

/// An enabled entry has its place among the enabled entries.
proof fn lemma_enabled_entry_kept(e: Seq<(ModuleConfig, Seq<char>)>, i: int)
    requires
        0 <= i < e.len(),
    ensures
        e[i].0.enabled ==> enabled_modules(e).contains(e[i]),
    decreases e.len(),
{
    let rest = enabled_modules(e.drop_last());
    if i < e.len() - 1 {
        lemma_enabled_entry_kept(e.drop_last(), i);
        if e[i].0.enabled {
            let k = choose|k: int| 0 <= k < rest.len() && rest[k] == e.drop_last()[i];
            assert(enabled_modules(e)[k] == rest[k]);
        }
    } else if e[i].0.enabled {
        assert(enabled_modules(e)[rest.len() as int] == e.last());
    }
}

/// Every module line shows its own module's value: whenever a module is enabled, the
/// information column has an entry that pairs that module with the value of the same name
/// (the uptime module with the uptime, the packages module with the package counts, and so
/// on for all thirteen), and `build_info_lines` draws one line per entry.
pub proof fn lemma_module_lines_show_own_values(cfg: Config, v: InfoValues)
    ensures
        cfg.modules.os.enabled ==> enabled_modules(module_values(cfg, v)).contains(
            (cfg.modules.os, v.os@),
        ),
        cfg.modules.uptime.enabled ==> enabled_modules(module_values(cfg, v)).contains(
            (cfg.modules.uptime, v.uptime@),
        ),
        cfg.modules.packages.enabled ==> enabled_modules(module_values(cfg, v)).contains(
            (cfg.modules.packages, v.packages@),
        ),
        cfg.modules.de_wm.enabled ==> enabled_modules(module_values(cfg, v)).contains(
            (cfg.modules.de_wm, v.de_wm@),
        ),
        cfg.modules.theme_icons.enabled ==> enabled_modules(module_values(cfg, v)).contains(
            (cfg.modules.theme_icons, v.theme_icons@),
        ),
        cfg.modules.terminal.enabled ==> enabled_modules(module_values(cfg, v)).contains(
            (cfg.modules.terminal, v.terminal@),
        ),
        cfg.modules.cpu.enabled ==> enabled_modules(module_values(cfg, v)).contains(
            (cfg.modules.cpu, v.cpu@),
        ),
        cfg.modules.gpu.enabled ==> enabled_modules(module_values(cfg, v)).contains(
            (cfg.modules.gpu, v.gpu@),
        ),
        cfg.modules.memory.enabled ==> enabled_modules(module_values(cfg, v)).contains(
            (cfg.modules.memory, v.memory@),
        ),
        cfg.modules.disk.enabled ==> enabled_modules(module_values(cfg, v)).contains(
            (cfg.modules.disk, v.disk@),
        ),
        cfg.modules.battery.enabled ==> enabled_modules(module_values(cfg, v)).contains(
            (cfg.modules.battery, v.battery@),
        ),
        cfg.modules.network.enabled ==> enabled_modules(module_values(cfg, v)).contains(
            (cfg.modules.network, v.network@),
        ),
        cfg.modules.updates.enabled ==> enabled_modules(module_values(cfg, v)).contains(
            (cfg.modules.updates, v.updates@),
        ),
{
    let e = module_values(cfg, v);
    lemma_enabled_entry_kept(e, 0);
    lemma_enabled_entry_kept(e, 1);
    lemma_enabled_entry_kept(e, 2);
    lemma_enabled_entry_kept(e, 3);
    lemma_enabled_entry_kept(e, 4);
    lemma_enabled_entry_kept(e, 5);
    lemma_enabled_entry_kept(e, 6);
    lemma_enabled_entry_kept(e, 7);
    lemma_enabled_entry_kept(e, 8);
    lemma_enabled_entry_kept(e, 9);
    lemma_enabled_entry_kept(e, 10);
    lemma_enabled_entry_kept(e, 11);
    lemma_enabled_entry_kept(e, 12);
}

/// Lines 2.. are the lines of the enabled entries.
pub open spec fn module_lines_match(
    ls: Seq<String>,
    e: Seq<(ModuleConfig, Seq<char>)>,
    d: DisplayConfig,
) -> bool {
    let en = enabled_modules(e);
    &&& ls.len() == 2 + en.len()
    &&& forall|j: int|
        0 <= j < en.len() ==> is_info_line(#[trigger] ls[2 + j]@, en[j].0, d, en[j].1)
}

proof fn lemma_line_for_entry(
    ls: Seq<String>,
    e: Seq<(ModuleConfig, Seq<char>)>,
    d: DisplayConfig,
    m: ModuleConfig,
    value: Seq<char>,
)
    requires
        module_lines_match(ls, e, d),
        enabled_modules(e).contains((m, value)),
    ensures
        exists|j: int| 0 <= j && 2 + j < ls.len() && is_info_line(#[trigger] ls[2 + j]@, m, d, value),
{
    let en = enabled_modules(e);
    let k = choose|k: int| 0 <= k < en.len() && en[k] == (m, value);
    assert(is_info_line(ls[2 + k]@, en[k].0, d, en[k].1));
}

/// On the lines `build_info_lines` gives, every enabled module has a line that shows that
/// module's own value.
pub proof fn lemma_module_line_shows_own_value(ls: Seq<String>, cfg: Config, v: InfoValues)
    requires
        module_lines_match(ls, module_values(cfg, v), cfg.display),
    ensures
        cfg.modules.os.enabled ==> exists|j: int|
            0 <= j && 2 + j < ls.len() && is_info_line(
                #[trigger] ls[2 + j]@,
                cfg.modules.os,
                cfg.display,
                v.os@,
            ),
        cfg.modules.uptime.enabled ==> exists|j: int|
            0 <= j && 2 + j < ls.len() && is_info_line(
                #[trigger] ls[2 + j]@,
                cfg.modules.uptime,
                cfg.display,
                v.uptime@,
            ),
        cfg.modules.packages.enabled ==> exists|j: int|
            0 <= j && 2 + j < ls.len() && is_info_line(
                #[trigger] ls[2 + j]@,
                cfg.modules.packages,
                cfg.display,
                v.packages@,
            ),
        cfg.modules.de_wm.enabled ==> exists|j: int|
            0 <= j && 2 + j < ls.len() && is_info_line(
                #[trigger] ls[2 + j]@,
                cfg.modules.de_wm,
                cfg.display,
                v.de_wm@,
            ),
        cfg.modules.theme_icons.enabled ==> exists|j: int|
            0 <= j && 2 + j < ls.len() && is_info_line(
                #[trigger] ls[2 + j]@,
                cfg.modules.theme_icons,
                cfg.display,
                v.theme_icons@,
            ),
        cfg.modules.terminal.enabled ==> exists|j: int|
            0 <= j && 2 + j < ls.len() && is_info_line(
                #[trigger] ls[2 + j]@,
                cfg.modules.terminal,
                cfg.display,
                v.terminal@,
            ),
        cfg.modules.cpu.enabled ==> exists|j: int|
            0 <= j && 2 + j < ls.len() && is_info_line(
                #[trigger] ls[2 + j]@,
                cfg.modules.cpu,
                cfg.display,
                v.cpu@,
            ),
        cfg.modules.gpu.enabled ==> exists|j: int|
            0 <= j && 2 + j < ls.len() && is_info_line(
                #[trigger] ls[2 + j]@,
                cfg.modules.gpu,
                cfg.display,
                v.gpu@,
            ),
        cfg.modules.memory.enabled ==> exists|j: int|
            0 <= j && 2 + j < ls.len() && is_info_line(
                #[trigger] ls[2 + j]@,
                cfg.modules.memory,
                cfg.display,
                v.memory@,
            ),
        cfg.modules.disk.enabled ==> exists|j: int|
            0 <= j && 2 + j < ls.len() && is_info_line(
                #[trigger] ls[2 + j]@,
                cfg.modules.disk,
                cfg.display,
                v.disk@,
            ),
        cfg.modules.battery.enabled ==> exists|j: int|
            0 <= j && 2 + j < ls.len() && is_info_line(
                #[trigger] ls[2 + j]@,
                cfg.modules.battery,
                cfg.display,
                v.battery@,
            ),
        cfg.modules.network.enabled ==> exists|j: int|
            0 <= j && 2 + j < ls.len() && is_info_line(
                #[trigger] ls[2 + j]@,
                cfg.modules.network,
                cfg.display,
                v.network@,
            ),
        cfg.modules.updates.enabled ==> exists|j: int|
            0 <= j && 2 + j < ls.len() && is_info_line(
                #[trigger] ls[2 + j]@,
                cfg.modules.updates,
                cfg.display,
                v.updates@,
            ),
{
    let e = module_values(cfg, v);
    lemma_module_lines_show_own_values(cfg, v);
    if cfg.modules.os.enabled {
        lemma_line_for_entry(ls, e, cfg.display, cfg.modules.os, v.os@);
    }
    if cfg.modules.uptime.enabled {
        lemma_line_for_entry(ls, e, cfg.display, cfg.modules.uptime, v.uptime@);
    }
    if cfg.modules.packages.enabled {
        lemma_line_for_entry(ls, e, cfg.display, cfg.modules.packages, v.packages@);
    }
    if cfg.modules.de_wm.enabled {
        lemma_line_for_entry(ls, e, cfg.display, cfg.modules.de_wm, v.de_wm@);
    }
    if cfg.modules.theme_icons.enabled {
        lemma_line_for_entry(ls, e, cfg.display, cfg.modules.theme_icons, v.theme_icons@);
    }
    if cfg.modules.terminal.enabled {
        lemma_line_for_entry(ls, e, cfg.display, cfg.modules.terminal, v.terminal@);
    }
    if cfg.modules.cpu.enabled {
        lemma_line_for_entry(ls, e, cfg.display, cfg.modules.cpu, v.cpu@);
    }
    if cfg.modules.gpu.enabled {
        lemma_line_for_entry(ls, e, cfg.display, cfg.modules.gpu, v.gpu@);
    }
    if cfg.modules.memory.enabled {
        lemma_line_for_entry(ls, e, cfg.display, cfg.modules.memory, v.memory@);
    }
    if cfg.modules.disk.enabled {
        lemma_line_for_entry(ls, e, cfg.display, cfg.modules.disk, v.disk@);
    }
    if cfg.modules.battery.enabled {
        lemma_line_for_entry(ls, e, cfg.display, cfg.modules.battery, v.battery@);
    }
    if cfg.modules.network.enabled {
        lemma_line_for_entry(ls, e, cfg.display, cfg.modules.network, v.network@);
    }
    if cfg.modules.updates.enabled {
        lemma_line_for_entry(ls, e, cfg.display, cfg.modules.updates, v.updates@);
    }
}

fn add_line(
    ls: &mut Vec<String>,
    m: &ModuleConfig,
    d: &DisplayConfig,
    value: &String,
    Ghost(done): Ghost<Seq<(ModuleConfig, Seq<char>)>>,
)
    requires
        module_lines_match(old(ls)@, done, *d),
    ensures
        module_lines_match(final(ls)@, done.push((*m, value@)), *d),
        final(ls)@.take(2) == old(ls)@.take(2),
{
    let ghost e2 = done.push((*m, value@));
    assert(e2.drop_last() =~= done);
    if let Some(line) = format_info_line(m, d, value.as_str()) {
        ls.push(line);
        assert(enabled_modules(e2) =~= enabled_modules(done).push((*m, value@)));
    } else {
        assert(enabled_modules(e2) =~= enabled_modules(done));
    }
    assert(ls@.take(2) =~= old(ls)@.take(2));
}

/// The information column: `user@host`, a rule under it, then the line of each enabled
/// module in display order.
pub fn build_info_lines(cfg: &Config, username: &str, hostname: &str, values: &InfoValues) -> (r: Vec<String>)
    requires
        encode_utf8(username@).len() + 1 + encode_utf8(hostname@).len() <= usize::MAX,
    ensures
        r@.len() >= 2,
        r@[0]@ == user_host_line(cfg.display.colors.primary@, username@, hostname@),
        r@[1]@ == separator_line(cfg.display.colors.separator@, username@, hostname@),
        module_lines_match(r@, module_values(*cfg, *values), cfg.display),
{
    let p = cfg.display.colors.primary.as_str();
    let mut first = String::from_str("\x1b[");
    first.append(p);
    first.append("m");
    first.append(username);
    first.append("\x1b[0m");
    first.append("@");
    first.append("\x1b[");
    first.append(p);
    first.append("m");
    first.append(hostname);
    first.append("\x1b[0m");
    let mut second = String::from_str("\x1b[");
    second.append(cfg.display.colors.separator.as_str());
    second.append("m");
    let rule = chars_of("\u{2500}");
    proof {
        reveal_strlit("\u{2500}");
    }
    assert(rule@ =~= seq!['\u{2500}']);
    let width = username.len() + 1 + hostname.len();
    push_repeat(&mut second, &rule, width);
    second.append("\x1b[0m");
    let mut ls: Vec<String> = Vec::new();
    ls.push(first);
    ls.push(second);
    let ghost h0 = ls@[0]@;
    let ghost h1 = ls@[1]@;
    assert(h0 =~= user_host_line(cfg.display.colors.primary@, username@, hostname@));
    assert(h1 =~= separator_line(cfg.display.colors.separator@, username@, hostname@));
    let ghost all = module_values(*cfg, *values);
    let d = &cfg.display;
    assert(enabled_modules(all.take(0)) =~= seq![]);
    add_line(&mut ls, &cfg.modules.os, d, &values.os, Ghost(all.take(0)));
    assert(all.take(0).push(all[0]) =~= all.take(1));
    add_line(&mut ls, &cfg.modules.uptime, d, &values.uptime, Ghost(all.take(1)));
    assert(all.take(1).push(all[1]) =~= all.take(2));
    add_line(&mut ls, &cfg.modules.packages, d, &values.packages, Ghost(all.take(2)));
    assert(all.take(2).push(all[2]) =~= all.take(3));
    add_line(&mut ls, &cfg.modules.de_wm, d, &values.de_wm, Ghost(all.take(3)));
    assert(all.take(3).push(all[3]) =~= all.take(4));
    add_line(&mut ls, &cfg.modules.theme_icons, d, &values.theme_icons, Ghost(all.take(4)));
    assert(all.take(4).push(all[4]) =~= all.take(5));
    add_line(&mut ls, &cfg.modules.terminal, d, &values.terminal, Ghost(all.take(5)));
    assert(all.take(5).push(all[5]) =~= all.take(6));
    add_line(&mut ls, &cfg.modules.cpu, d, &values.cpu, Ghost(all.take(6)));
    assert(all.take(6).push(all[6]) =~= all.take(7));
    add_line(&mut ls, &cfg.modules.gpu, d, &values.gpu, Ghost(all.take(7)));
    assert(all.take(7).push(all[7]) =~= all.take(8));
    add_line(&mut ls, &cfg.modules.memory, d, &values.memory, Ghost(all.take(8)));
    assert(all.take(8).push(all[8]) =~= all.take(9));
    add_line(&mut ls, &cfg.modules.disk, d, &values.disk, Ghost(all.take(9)));
    assert(all.take(9).push(all[9]) =~= all.take(10));
    add_line(&mut ls, &cfg.modules.battery, d, &values.battery, Ghost(all.take(10)));
    assert(all.take(10).push(all[10]) =~= all.take(11));
    add_line(&mut ls, &cfg.modules.network, d, &values.network, Ghost(all.take(11)));
    assert(all.take(11).push(all[11]) =~= all.take(12));
    add_line(&mut ls, &cfg.modules.updates, d, &values.updates, Ghost(all.take(12)));
    assert(all.take(12).push(all[12]) =~= all);
    assert(ls@[0]@ == h0 && ls@[1]@ == h1) by {
        assert(ls@.take(2)[0] == ls@[0]);
        assert(ls@.take(2)[1] == ls@[1]);
    }
    ls
}

/// The value of a `KEY=value` line of `/etc/os-release`: the key and every double quote
/// removed, then trimmed.
pub open spec fn os_release_value(line: Seq<char>, key: Seq<char>) -> Seq<char> {
    trim(replace(replace(line, key, seq![]), seq!['"'], seq![]))
}

/// One line of `/etc/os-release`: `PRETTY_NAME=` sets the system name, `ID=` the
/// distribution (in lower case).
pub open spec fn os_release_step(st: (Seq<char>, Seq<char>), line: Seq<char>) -> (Seq<char>, Seq<char>) {
    (
        if starts_with(line, "PRETTY_NAME="@) {
            os_release_value(line, "PRETTY_NAME="@)
        } else {
            st.0
        },
        if starts_with(line, "ID="@) {
            lower_text(os_release_value(line, "ID="@))
        } else {
            st.1
        },
    )
}

pub open spec fn os_release_lines(ls: Seq<Seq<char>>) -> (Seq<char>, Seq<char>)
    decreases ls.len(),
{
    if ls.len() == 0 {
        ("Linux"@, "arch"@)
    } else {
        os_release_step(os_release_lines(ls.drop_last()), ls.last())
    }
}

fn os_release_value_exec(line: &Vec<char>, key: &str) -> (r: Vec<char>)
    requires
        key@.len() > 0,
    ensures
        r@ == os_release_value(line@, key@),
{
    let k = chars_of(key);
    let empty: Vec<char> = Vec::new();
    let quote = chars_of("\"");
    proof {
        reveal_strlit("\"");
    }
    assert(empty@ =~= seq![]);
    assert(quote@ =~= seq!['"']);
    let a = replace_exec(line, &k, &empty);
    let b = replace_exec(&a, &quote, &empty);
    trim_ws(&b)
}

/// The system name and the distribution identifier that `/etc/os-release` gives;
/// `Linux` and `arch` where it gives none.
pub fn parse_os_release(content: &str) -> (r: (String, String))
    ensures
        (r.0@, r.1@) == os_release_lines(lines(content@)),
{
    let text = chars_of(content);
    let ls = lines_exec(&text);
    let mut os_name = String::from_str("Linux");
    let mut distro = String::from_str("arch");
    let n = ls.len();
    for i in 0..n
        invariant
            n == ls@.len(),
            (os_name@, distro@) == os_release_lines(views(ls@).take(i as int)),
            views(ls@) == lines(content@),
    {
        let line = &ls[i];
        proof {
            reveal_strlit("PRETTY_NAME=");
            reveal_strlit("ID=");
        }
        if starts_with_exec(line, &chars_of("PRETTY_NAME=")) {
            os_name = string_of(&os_release_value_exec(line, "PRETTY_NAME="));
        }
        if starts_with_exec(line, &chars_of("ID=")) {
            distro = string_of(&lowercase_chars(&os_release_value_exec(line, "ID=")));
        }
        assert(views(ls@).take(i + 1).drop_last() =~= views(ls@).take(i as int));
    }
    assert(views(ls@).take(n as int) =~= views(ls@));
    (os_name, distro)
}

/// The logo to draw: the one asked for on the command line, else EndeavourOS's for a system
/// whose name mentions it, else the distribution's.
pub open spec fn chosen_logo_name(cli: Option<Seq<char>>, os_name: Seq<char>, distro: Seq<char>) -> Seq<char> {
    match cli {
        Some(l) => l,
        None => if contains(lower_text(os_name), "endeavour"@) {
            "endeavouros"@
        } else {
            distro
        },
    }
}

pub fn choose_logo(cli_logo: Option<String>, os_name: &str, detected_distro: String) -> (r: String)
    ensures
        r@ == chosen_logo_name(
            match cli_logo {
                Some(l) => Some(l@),
                None => None,
            },
            os_name@,
            detected_distro@,
        ),
{
    match cli_logo {
        Some(l) => l,
        None => {
            let lower = str_to_lowercase(os_name);
            if contains_exec(&chars_of(lower.as_str()), &chars_of("endeavour")) {
                String::from_str("endeavouros")
            } else {
                detected_distro
            }
        },
    }
}

/// The arrows line up: whenever the shown label and the two characters before it fit in the
/// key width, label, those two characters and the padding fill the key width exactly.
pub proof fn lemma_arrows_align(key_width: nat, label: Seq<char>)
    ensures
        label.len() + 2 <= key_width ==> label.len() + 2 + key_padding(key_width, label)
            == key_width,
        label.len() + 2 > key_width ==> key_padding(key_width, label) == 0,
{
}

} // verus!
