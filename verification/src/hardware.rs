//! What the hardware information lines say, from the text of the kernel's files.
use vstd::prelude::*;
use crate::text::{
    chars_of, contains, contains_exec, decimal, lines, lines_exec, parse_u64, parse_u64_exec,
    push_chars, push_decimal, push_repeat, repeat, same_chars, split_char, split_char_exec,
    starts_with, starts_with_exec, string_of, trim, trim_ws, views, words, words_exec,
};

verus! {

/// The hardware information lines.
pub struct HardwareInfo {
    pub cpu: String,
    pub gpu: String,
    pub memory: String,
    pub disk: String,
    pub battery: String,
}

/// The model of a `model name : ...` line: the text after the first colon, trimmed.
pub open spec fn cpu_model_of(line: Seq<char>) -> Seq<char> {
    let parts = split_char(line, ':');
    if parts.len() > 1 {
        trim(parts[1])
    } else {
        seq![]
    }
}

/// The model of the first `model name` line.
pub open spec fn first_cpu_model(ls: Seq<Seq<char>>) -> Option<Seq<char>>
    decreases ls.len(),
{
    if ls.len() == 0 {
        None
    } else if starts_with(ls[0], "model name"@) {
        Some(cpu_model_of(ls[0]))
    } else {
        first_cpu_model(ls.drop_first())
    }
}

/// The CPU model that `/proc/cpuinfo` names, or `Unknown CPU`.
pub open spec fn cpu_model(cpuinfo: Seq<char>) -> Seq<char> {
    match first_cpu_model(lines(cpuinfo)) {
        Some(m) => m,
        None => "Unknown CPU"@,
    }
}

fn cpu_model_of_exec(line: &Vec<char>) -> (r: Vec<char>)
    ensures
        r@ == cpu_model_of(line@),
{
    let parts = split_char_exec(line, ':');
    if parts.len() > 1 {
        trim_ws(&parts[1])
    } else {
        let r: Vec<char> = Vec::new();
        r
    }
}

/// The CPU model named by the text of `/proc/cpuinfo` (empty when it cannot be read).
pub fn parse_cpu_model(cpuinfo: &str) -> (r: String)
    ensures
        r@ == cpu_model(cpuinfo@),
{
    let text = chars_of(cpuinfo);
    let ls = lines_exec(&text);
    let n = ls.len();
    let mut i: usize = 0;
    assert(views(ls@).skip(0) =~= views(ls@));
    while i < n
        invariant
            n == ls@.len(),
            i <= n,
            first_cpu_model(views(ls@)) == first_cpu_model(views(ls@).skip(i as int)),
            views(ls@) == lines(cpuinfo@),
        decreases n - i,
    {
        let ghost rest = views(ls@).skip(i as int);
        assert(rest[0] == ls@[i as int]@);
        assert(rest.drop_first() =~= views(ls@).skip(i + 1));
        proof {
            reveal_strlit("model name");
        }
        if starts_with_exec(&ls[i], &chars_of("model name")) {
            return string_of(&cpu_model_of_exec(&ls[i]));
        }
        i = i + 1;
    }
    assert(views(ls@).skip(n as int) =~= seq![]);
    String::from_str("Unknown CPU")
}

/// The hwmon chips whose first temperature is the CPU's.
pub open spec fn is_cpu_sensor_name(name: Seq<char>) -> bool {
    let n = trim(name);
    n == "k10temp"@ || n == "coretemp"@ || n == "zenpower"@
}

/// Whether the `name` file of a hwmon chip names a CPU temperature sensor.
pub fn is_cpu_sensor(name: &str) -> (b: bool)
    ensures
        b == is_cpu_sensor_name(name@),
{
    let n = trim_ws(&chars_of(name));
    same_chars(&n, "k10temp") || same_chars(&n, "coretemp") || same_chars(&n, "zenpower")
}

/// The CPU line: the model and, in brackets, the temperature or `N/A`.
pub open spec fn cpu_line(cpuinfo: Seq<char>, temp: Option<Seq<char>>) -> Seq<char> {
    cpu_model(cpuinfo) + " ("@ + match temp {
        Some(t) => t,
        None => "N/A"@,
    } + ")"@
}

/// The CPU line from the text of `/proc/cpuinfo` and the temperature as displayed, if a
/// sensor gave one.
pub fn cpu_summary(cpuinfo: &str, temp: Option<&str>) -> (r: String)
    ensures
        r@ == cpu_line(
            cpuinfo@,
            match temp {
                Some(t) => Some(t@),
                None => None,
            },
        ),
{
    let mut r = parse_cpu_model(cpuinfo);
    r.append(" (");
    match temp {
        Some(t) => r.append(t),
        None => r.append("N/A"),
    }
    r.append(")");
    r
}

/// The graphics driver that is loaded, checked in this order.
pub open spec fn gpu_line(nvidia: bool, nouveau: bool, amdgpu: bool, vram: Option<Seq<char>>) -> Seq<char> {
    if nvidia {
        "NVIDIA GeForce Graphics"@ + " "@ + "Proprietary (nvidia)"@ + match vram {
            Some(v) => match parse_u64(trim(v)) {
                Some(bytes) => " ["@ + decimal((bytes / 1024 / 1024) as nat) + " MiB]"@,
                None => seq![],
            },
            None => seq![],
        }
    } else if nouveau {
        "NVIDIA GPU"@ + " "@ + "Open-Source (nouveau)"@
    } else if amdgpu {
        "AMD Radeon GPU"@ + " "@ + "Open-Source (amdgpu)"@
    } else {
        "Unknown GPU"@ + " "@ + "Unknown Driver"@
    }
}

/// The GPU line from which driver modules are loaded and, for the proprietary NVIDIA
/// driver, the text of the card's total video memory file.
pub fn gpu_summary(nvidia: bool, nouveau: bool, amdgpu: bool, vram: Option<&str>) -> (r: String)
    ensures
        r@ == gpu_line(
            nvidia,
            nouveau,
            amdgpu,
            match vram {
                Some(v) => Some(v@),
                None => None,
            },
        ),
{
    let (model, driver) = if nvidia {
        ("NVIDIA GeForce Graphics", "Proprietary (nvidia)")
    } else if nouveau {
        ("NVIDIA GPU", "Open-Source (nouveau)")
    } else if amdgpu {
        ("AMD Radeon GPU", "Open-Source (amdgpu)")
    } else {
        ("Unknown GPU", "Unknown Driver")
    };
    let mut r = String::from_str(model);
    r.append(" ");
    r.append(driver);
    if nvidia {
        if let Some(v) = vram {
            let t = trim_ws(&chars_of(v));
            if let Some(bytes) = parse_u64_exec(&t) {
                r.append(" [");
                push_decimal(&mut r, bytes / 1024 / 1024);
                r.append(" MiB]");
            }
        }
    }
    r
}

/// The number in the second field of a `/proc/meminfo` line, or 0.
pub open spec fn meminfo_value(line: Seq<char>) -> u64 {
    let w = words(line);
    let field = if w.len() > 1 {
        w[1]
    } else {
        "0"@
    };
    match parse_u64(field) {
        Some(v) => v,
        None => 0,
    }
}

/// Scanning `/proc/meminfo`: total, available, and whether the scan stopped (it stops at
/// `MemAvailable:`).
pub open spec fn meminfo_step(st: (u64, u64, bool), line: Seq<char>) -> (u64, u64, bool) {
    if st.2 {
        st
    } else if starts_with(line, "MemTotal:"@) {
        (meminfo_value(line), st.1, false)
    } else if starts_with(line, "MemAvailable:"@) {
        (st.0, meminfo_value(line), true)
    } else {
        st
    }
}

pub open spec fn meminfo_lines(ls: Seq<Seq<char>>) -> (u64, u64, bool)
    decreases ls.len(),
{
    if ls.len() == 0 {
        (0, 0, false)
    } else {
        meminfo_step(meminfo_lines(ls.drop_last()), ls.last())
    }
}

fn meminfo_value_exec(line: &Vec<char>) -> (r: u64)
    ensures
        r == meminfo_value(line@),
{
    let w = words_exec(line);
    let field = if w.len() > 1 {
        copy_vec(&w[1])
    } else {
        chars_of("0")
    };
    match parse_u64_exec(&field) {
        Some(v) => v,
        None => 0,
    }
}

fn copy_vec(v: &Vec<char>) -> (r: Vec<char>)
    ensures
        r@ == v@,
{
    let r = crate::text::copy_range(v, 0, v.len());
    assert(v@.subrange(0, v@.len() as int) =~= v@);
    r
}

/// Total and available memory in kB from the text of `/proc/meminfo`.
pub fn parse_meminfo(meminfo: &str) -> (r: (u64, u64))
    ensures
        r.0 == meminfo_lines(lines(meminfo@)).0,
        r.1 == meminfo_lines(lines(meminfo@)).1,
{
    let text = chars_of(meminfo);
    let ls = lines_exec(&text);
    let n = ls.len();
    let mut total: u64 = 0;
    let mut avail: u64 = 0;
    let mut done = false;
    for i in 0..n
        invariant
            n == ls@.len(),
            (total, avail, done) == meminfo_lines(views(ls@).take(i as int)),
    {
        proof {
            reveal_strlit("MemTotal:");
            reveal_strlit("MemAvailable:");
        }
        let line = &ls[i];
        if !done {
            if starts_with_exec(line, &chars_of("MemTotal:")) {
                total = meminfo_value_exec(line);
            } else if starts_with_exec(line, &chars_of("MemAvailable:")) {
                avail = meminfo_value_exec(line);
                done = true;
            }
        }
        assert(views(ls@).take(i + 1).drop_last() =~= views(ls@).take(i as int));
    }
    assert(views(ls@).take(n as int) =~= views(ls@));
    (total, avail)
}

/// The percentage of memory in use, rounded down; 0 when the total is 0.
pub open spec fn memory_percent(total: nat, avail: nat) -> nat {
    if total > 0 {
        (((total - avail) * 100) as int / (total as int)) as nat
    } else {
        0
    }
}

/// A bar of ten cells, one full cell per complete ten percent.
pub open spec fn memory_bar(pct: nat, full: Seq<char>, empty: Seq<char>) -> Seq<char> {
    "["@ + repeat(full, pct / 10) + repeat(empty, (10 - pct / 10) as nat) + "]"@
}

/// The memory line: used and total (as displayed), the percentage and the bar.
pub open spec fn memory_line(
    used: Seq<char>,
    total_text: Seq<char>,
    total: nat,
    avail: nat,
    full: Seq<char>,
    empty: Seq<char>,
) -> Seq<char> {
    let pct = memory_percent(total, avail);
    used + " GiB / "@ + total_text + " GiB ("@ + decimal(pct) + "%) "@ + memory_bar(pct, full, empty)
}

/// The memory line from total and available memory in kB, the bar symbols, and the used and
/// total amounts in GiB as displayed.
pub fn memory_summary(
    mem_total: u64,
    mem_available: u64,
    full: &str,
    empty: &str,
    used_gib: &str,
    total_gib: &str,
) -> (r: String)
    requires
        mem_available <= mem_total,
        (mem_total - mem_available) * 100 <= u64::MAX,
    ensures
        r@ == memory_line(used_gib@, total_gib@, mem_total as nat, mem_available as nat, full@, empty@),
{
    let used = mem_total - mem_available;
    let pct: u64 = if mem_total > 0 {
        (used * 100) / mem_total
    } else {
        0
    };
    assert(pct <= 100) by (nonlinear_arith)
        requires
            used <= mem_total,
            mem_total > 0 ==> pct == (used * 100) as int / (mem_total as int),
            mem_total == 0 ==> pct == 0,
    ;
    let bars = pct / 10;
    let mut r = String::from_str(used_gib);
    r.append(" GiB / ");
    r.append(total_gib);
    r.append(" GiB (");
    push_decimal(&mut r, pct);
    r.append("%) ");
    r.append("[");
    push_repeat(&mut r, &chars_of(full), bars as usize);
    push_repeat(&mut r, &chars_of(empty), (10 - bars) as usize);
    r.append("]");
    assert(r@ =~= memory_line(used_gib@, total_gib@, mem_total as nat, mem_available as nat, full@, empty@));
    r
}

/// The device mounted at `/` in the first matching `/proc/mounts` line.
pub open spec fn root_device_in(ls: Seq<Seq<char>>) -> Option<Seq<char>>
    decreases ls.len(),
{
    if ls.len() == 0 {
        None
    } else if words(ls[0]).len() > 1 && words(ls[0])[1] == "/"@ {
        Some(words(ls[0])[0])
    } else {
        root_device_in(ls.drop_first())
    }
}

/// The device of the root file system, from the text of `/proc/mounts`.
pub fn root_device(mounts: &str) -> (r: Option<String>)
    ensures
        r matches Some(d) ==> root_device_in(lines(mounts@)) == Some(d@),
        r is None ==> root_device_in(lines(mounts@)) is None,
{
    let text = chars_of(mounts);
    let ls = lines_exec(&text);
    let n = ls.len();
    let mut i: usize = 0;
    assert(views(ls@).skip(0) =~= views(ls@));
    while i < n
        invariant
            n == ls@.len(),
            i <= n,
            root_device_in(views(ls@)) == root_device_in(views(ls@).skip(i as int)),
            views(ls@) == lines(mounts@),
        decreases n - i,
    {
        let ghost rest = views(ls@).skip(i as int);
        assert(rest[0] == ls@[i as int]@);
        assert(rest.drop_first() =~= views(ls@).skip(i + 1));
        let parts = words_exec(&ls[i]);
        if parts.len() > 1 && same_chars(&parts[1], "/") {
            return Some(string_of(&parts[0]));
        }
        i = i + 1;
    }
    assert(views(ls@).skip(n as int) =~= seq![]);
    None
}

/// Whether the device is an NVMe drive.
pub open spec fn is_nvme(dev: Seq<char>) -> bool {
    contains(dev, "nvme"@)
}

/// Whether the device is an NVMe drive, whose wear the kernel reports.
pub fn is_nvme_device(dev: &str) -> (b: bool)
    ensures
        b == is_nvme(dev@),
{
    contains_exec(&chars_of(dev), &chars_of("nvme"))
}

/// The last `/`-separated component of a device path.
pub open spec fn device_name_of(dev: Seq<char>) -> Seq<char> {
    split_char(dev, '/').last()
}

/// The name of a device in `/sys/class/block`: the last component of its path.
pub fn device_name(dev: &str) -> (r: String)
    ensures
        r@ == device_name_of(dev@),
{
    let parts = split_char_exec(&chars_of(dev), '/');
    proof {
        crate::text::lemma_split_nonempty(dev@, '/');
    }
    string_of(&parts[parts.len() - 1])
}

/// The disk line: the root device, its kind and its health (the wear an NVMe drive reports,
/// else `Good`); `Unknown` when no root device was found.
pub open spec fn disk_line(dev: Option<Seq<char>>, wear: Option<Seq<char>>) -> Seq<char> {
    match dev {
        Some(d) => d + " ("@ + (if is_nvme(d) {
            "NVMe SSD"@
        } else {
            "SATA SSD/HDD"@
        }) + ") ["@ + (match wear {
            Some(w) => if is_nvme(d) {
                "Wear: "@ + trim(w) + "%"@
            } else {
                "Good"@
            },
            None => "Good"@,
        }) + "]"@,
        None => "Unknown"@,
    }
}

/// The disk line from the root device, if found, and the text of its wear file, if read.
pub fn disk_summary(dev: Option<&str>, wear: Option<&str>) -> (r: String)
    ensures
        r@ == disk_line(
            match dev {
                Some(d) => Some(d@),
                None => None,
            },
            match wear {
                Some(w) => Some(w@),
                None => None,
            },
        ),
{
    match dev {
        Some(d) => {
            let nvme = contains_exec(&chars_of(d), &chars_of("nvme"));
            let mut r = String::from_str(d);
            r.append(" (");
            if nvme {
                r.append("NVMe SSD");
            } else {
                r.append("SATA SSD/HDD");
            }
            r.append(") [");
            match wear {
                Some(w) if nvme => {
                    r.append("Wear: ");
                    push_chars(&mut r, &trim_ws(&chars_of(w)));
                    r.append("%");
                },
                _ => r.append("Good"),
            }
            r.append("]");
            r
        },
        None => String::from_str("Unknown"),
    }
}

/// The battery line: capacity, status and capacity level when the battery exists.
pub open spec fn battery_line(
    present: bool,
    capacity: Option<Seq<char>>,
    status: Option<Seq<char>>,
    level: Option<Seq<char>>,
) -> Seq<char> {
    if present {
        trim(
            match capacity {
                Some(c) => c,
                None => seq![],
            },
        ) + "% ["@ + trim(
            match status {
                Some(s) => s,
                None => seq![],
            },
        ) + "] (Health: "@ + trim(
            match level {
                Some(l) => l,
                None => "Good"@,
            },
        ) + ")"@
    } else {
        "Desktop / No Battery"@
    }
}

fn opt_chars(o: Option<&str>, default: &str) -> (r: Vec<char>)
    ensures
        r@ == match o {
            Some(s) => s@,
            None => default@,
        },
{
    match o {
        Some(s) => chars_of(s),
        None => chars_of(default),
    }
}

/// The battery line from whether the first battery exists and the texts of its
/// `capacity`, `status` and `capacity_level` files, where they were read.
pub fn battery_summary(
    present: bool,
    capacity: Option<&str>,
    status: Option<&str>,
    level: Option<&str>,
) -> (r: String)
    ensures
        r@ == battery_line(
            present,
            match capacity {
                Some(s) => Some(s@),
                None => None,
            },
            match status {
                Some(s) => Some(s@),
                None => None,
            },
            match level {
                Some(s) => Some(s@),
                None => None,
            },
        ),
{
    if !present {
        return String::from_str("Desktop / No Battery");
    }
    proof {
        reveal_strlit("");
    }
    let mut r = string_of(&trim_ws(&opt_chars(capacity, "")));
    r.append("% [");
    push_chars(&mut r, &trim_ws(&opt_chars(status, "")));
    r.append("] (Health: ");
    push_chars(&mut r, &trim_ws(&opt_chars(level, "Good")));
    r.append(")");
    r
}

/// What the hardware lines are made from: texts of kernel files (empty where a file could
/// not be read), which driver modules are loaded, and the amounts that are displayed with
/// decimals.
pub struct HardwareReadings {
    pub cpuinfo: String,
    pub cpu_temp: Option<String>,
    pub nvidia: bool,
    pub nouveau: bool,
    pub amdgpu: bool,
    pub vram_total: Option<String>,
    pub meminfo: String,
    pub used_gib: String,
    pub total_gib: String,
    pub mounts: String,
    pub disk_wear: Option<String>,
    pub battery_present: bool,
    pub battery_capacity: Option<String>,
    pub battery_status: Option<String>,
    pub battery_level: Option<String>,
}

pub open spec fn opt_view(o: Option<String>) -> Option<Seq<char>> {
    match o {
        Some(s) => Some(s@),
        None => None,
    }
}

fn opt_str(o: &Option<String>) -> (r: Option<&str>)
    ensures
        match r {
            Some(s) => opt_view(*o) == Some(s@),
            None => opt_view(*o) is None,
        },
{
    match o {
        Some(s) => Some(s.as_str()),
        None => None,
    }
}

/// Whether the memory figures can be used: no more available than in total, and the
/// percentage computable.
pub open spec fn meminfo_usable(meminfo: Seq<char>) -> bool {
    let m = meminfo_lines(lines(meminfo));
    m.1 <= m.0 && (m.0 - m.1) * 100 <= u64::MAX
}

/// The hardware lines.
pub fn get_hardware(cfg: &crate::config::Config, r: &HardwareReadings) -> (h: HardwareInfo)
    requires
        meminfo_usable(r.meminfo@),
    ensures
        h.cpu@ == cpu_line(r.cpuinfo@, opt_view(r.cpu_temp)),
        h.gpu@ == gpu_line(r.nvidia, r.nouveau, r.amdgpu, opt_view(r.vram_total)),
        h.memory@ == memory_line(
            r.used_gib@,
            r.total_gib@,
            meminfo_lines(lines(r.meminfo@)).0 as nat,
            meminfo_lines(lines(r.meminfo@)).1 as nat,
            cfg.display.memory_bar_symbol@,
            cfg.display.memory_bar_empty_symbol@,
        ),
        h.disk@ == disk_line(root_device_in(lines(r.mounts@)), opt_view(r.disk_wear)),
        h.battery@ == battery_line(
            r.battery_present,
            opt_view(r.battery_capacity),
            opt_view(r.battery_status),
            opt_view(r.battery_level),
        ),
{
    let cpu = cpu_summary(r.cpuinfo.as_str(), opt_str(&r.cpu_temp));
    let gpu = gpu_summary(r.nvidia, r.nouveau, r.amdgpu, opt_str(&r.vram_total));
    let (total, avail) = parse_meminfo(r.meminfo.as_str());
    let memory = memory_summary(
        total,
        avail,
        cfg.display.memory_bar_symbol.as_str(),
        cfg.display.memory_bar_empty_symbol.as_str(),
        r.used_gib.as_str(),
        r.total_gib.as_str(),
    );
    let dev = root_device(r.mounts.as_str());
    let dev_str: Option<&str> = match &dev {
        Some(d) => Some(d.as_str()),
        None => None,
    };
    let disk = disk_summary(dev_str, opt_str(&r.disk_wear));
    let battery = battery_summary(
        r.battery_present,
        opt_str(&r.battery_capacity),
        opt_str(&r.battery_status),
        opt_str(&r.battery_level),
    );
    HardwareInfo { cpu, gpu, memory, disk, battery }
}

/// When memory in use does not exceed the total, the percentage is at most 100, so the bar
/// always has ten cells: with one-character symbols it is twelve characters long.
pub proof fn lemma_memory_bar_cells(total: nat, avail: nat, full: Seq<char>, empty: Seq<char>)
    requires
        avail <= total,
    ensures
        memory_percent(total, avail) <= 100,
        memory_percent(total, avail) / 10 <= 10,
        full.len() == 1 && empty.len() == 1 ==> memory_bar(memory_percent(total, avail), full, empty).len() == 12,
{
    let pct = memory_percent(total, avail);
    if total > 0 {
        assert(((total - avail) * 100) as int / (total as int) <= 100) by (nonlinear_arith)
            requires
                avail <= total,
                total > 0,
        ;
    }
    crate::text::lemma_repeat_len(full, pct / 10);
    crate::text::lemma_repeat_len(empty, (10 - pct / 10) as nat);
    reveal_strlit("[");
    reveal_strlit("]");
    if full.len() == 1 && empty.len() == 1 {
        assert((pct / 10) * full.len() + (10 - pct / 10) * empty.len() == 10) by (nonlinear_arith)
            requires
                full.len() == 1,
                empty.len() == 1,
                pct / 10 <= 10,
        ;
    }
}

} // verus!
