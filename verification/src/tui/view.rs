//! The lines the interactive view shows on each tab, and how each line is
//! emphasised.
use vstd::prelude::*;
use crate::detect::cpu::CpuInfoView;
use crate::detect::disk::{kind_name_of, DiskInfoView};
use crate::detect::memory::MemoryInfoView;
use crate::detect::network::{format_bytes, format_bytes_of, NetworkInfoView};
use crate::detect::{CpuInfo, DiskInfo, MemoryInfo, NetworkInfo, SystemInfo};
use crate::optimize::{Change, ChangeView, Optimization, OptimizationView};
use crate::text::{
    chars_of, cut_within, decimal_of, join, join_of, pad_right, pad_right_of, prefix_within,
    push_chars, push_decimal, push_str, string_of, utf8_len, utf8_len_exceeds,
};
use super::app::OptEntry;

verus! {

/// How a line is emphasised.
#[derive(Debug, Clone, Copy, PartialEq, Eq, Structural)]
pub enum Look {
    Plain,
    Bold,
    /// Greyed out.
    Dim,
    /// The entry under the cursor.
    Cursor,
    /// A selected optimization.
    Enabled,
    /// The profile in use.
    Current,
}

/// A line of text and its emphasis.
#[derive(Debug, Clone)]
pub struct Line {
    pub text: String,
    pub look: Look,
}

impl DeepView for Line {
    type V = (Seq<char>, Look);

    open spec fn deep_view(&self) -> (Seq<char>, Look) {
        (self.text@, self.look)
    }
}

fn line(v: &Vec<char>, look: Look) -> (r: Line)
    ensures
        r.deep_view() == (v@, look),
{
    Line { text: string_of(v), look }
}

// ---------------------------------------------------------------------------
// The System tab
// ---------------------------------------------------------------------------

/// The CPU panel.
pub open spec fn cpu_lines_of(c: CpuInfoView) -> Seq<Seq<char>> {
    seq![
        "  Model: "@ + c.model,
        "  Cores/Threads: "@ + decimal_of(c.cores as nat) + "/"@ + decimal_of(c.threads as nat),
        "  Governor: "@ + c.governor,
        "  Scheduler: "@ + c.scheduler,
        "  P-State: "@ + match c.pstate_driver {
            Some(d) => d,
            None => "not available"@,
        },
    ]
}

/// The lines of the CPU panel.
pub fn cpu_lines(c: &CpuInfo) -> (r: Vec<String>)
    ensures
        r.deep_view() == cpu_lines_of(c.deep_view()),
{
    let mut r: Vec<String> = Vec::new();
    let mut v = chars_of("  Model: ");
    push_str(&mut v, c.model.as_str());
    r.push(string_of(&v));
    let mut v = chars_of("  Cores/Threads: ");
    push_decimal(&mut v, c.cores as u64);
    push_str(&mut v, "/");
    push_decimal(&mut v, c.threads as u64);
    r.push(string_of(&v));
    let mut v = chars_of("  Governor: ");
    push_str(&mut v, c.governor.as_str());
    r.push(string_of(&v));
    let mut v = chars_of("  Scheduler: ");
    push_str(&mut v, c.scheduler.as_str());
    r.push(string_of(&v));
    let mut v = chars_of("  P-State: ");
    match &c.pstate_driver {
        Some(d) => push_str(&mut v, d.as_str()),
        None => push_str(&mut v, "not available"),
    }
    r.push(string_of(&v));
    assert(r.deep_view() =~= cpu_lines_of(c.deep_view()));
    r
}

/// The memory panel below its first line (the total, which is also shown
/// in gigabytes with one decimal).
pub open spec fn memory_lines_of(m: MemoryInfoView) -> Seq<Seq<char>> {
    seq![
        "  Available: "@ + decimal_of(m.available_mb as nat) + " MB"@,
        "  Swap: "@ + decimal_of(m.swap_total_mb as nat) + " MB"@,
        "  Zram: "@ + if m.zram_enabled {
            decimal_of(m.zram_size_mb as nat) + " MB ("@ + m.zram_algorithm + ")"@
        } else {
            "disabled"@
        },
        "  Swappiness: "@ + decimal_of(m.swappiness as nat),
        "  VFS cache pressure: "@ + decimal_of(m.vfs_cache_pressure as nat),
    ]
}

/// The lines of the memory panel after the total.
pub fn memory_lines(m: &MemoryInfo) -> (r: Vec<String>)
    ensures
        r.deep_view() == memory_lines_of(m.deep_view()),
{
    let mut r: Vec<String> = Vec::new();
    let mut v = chars_of("  Available: ");
    push_decimal(&mut v, m.available_mb);
    push_str(&mut v, " MB");
    r.push(string_of(&v));
    let mut v = chars_of("  Swap: ");
    push_decimal(&mut v, m.swap_total_mb);
    push_str(&mut v, " MB");
    r.push(string_of(&v));
    let mut v = chars_of("  Zram: ");
    if m.zram_enabled {
        push_decimal(&mut v, m.zram_size_mb);
        push_str(&mut v, " MB (");
        push_str(&mut v, m.zram_algorithm.as_str());
        push_str(&mut v, ")");
    } else {
        push_str(&mut v, "disabled");
    }
    assert(v@ =~= memory_lines_of(m.deep_view())[2]);
    r.push(string_of(&v));
    let mut v = chars_of("  Swappiness: ");
    push_decimal(&mut v, m.swappiness as u64);
    r.push(string_of(&v));
    let mut v = chars_of("  VFS cache pressure: ");
    push_decimal(&mut v, m.vfs_cache_pressure as u64);
    r.push(string_of(&v));
    assert(r.deep_view() =~= memory_lines_of(m.deep_view()));
    r
}

/// The host panel.
pub open spec fn host_lines_of(kernel: Seq<char>, hostname: Seq<char>) -> Seq<Seq<char>> {
    seq!["  Kernel: "@ + kernel, "  Hostname: "@ + hostname]
}

/// The lines of the host panel.
pub fn host_lines(s: &SystemInfo) -> (r: Vec<String>)
    ensures
        r.deep_view() == host_lines_of(s.kernel@, s.hostname@),
{
    let mut r: Vec<String> = Vec::new();
    let mut v = chars_of("  Kernel: ");
    push_str(&mut v, s.kernel.as_str());
    r.push(string_of(&v));
    let mut v = chars_of("  Hostname: ");
    push_str(&mut v, s.hostname.as_str());
    r.push(string_of(&v));
    assert(r.deep_view() =~= host_lines_of(s.kernel@, s.hostname@));
    r
}

/// The mount options line: cut after 57 bytes, with `...`, where the
/// options take more than 60 bytes.
pub open spec fn options_line_of(opts: Seq<char>) -> Seq<char> {
    if utf8_len(opts) > 60 {
        "    Opts: "@ + prefix_within(opts, 57) + "..."@
    } else {
        "    Opts: "@ + opts
    }
}

/// The options of a disk can be shown: where they must be cut, 57 bytes
/// fall on a character boundary.
pub open spec fn options_fit(d: DiskInfoView) -> bool {
    let opts = join_of(d.mount_options, ","@);
    utf8_len(opts) > 60 ==> utf8_len(prefix_within(opts, 57)) == 57
}

/// The four lines of a disk: device, kind, size and mount point in bold;
/// filesystem and scheduler; mount options; a blank line.
pub open spec fn disk_lines_of(d: DiskInfoView) -> Seq<(Seq<char>, Look)> {
    seq![
        (
            "  "@ + d.name + " ("@ + kind_name_of(d.kind) + ", "@ + decimal_of(d.size_gb as nat)
                + " GB) -> "@ + d.mount_point,
            Look::Bold,
        ),
        ("    FS: "@ + d.filesystem + "  Sched: "@ + d.scheduler, Look::Plain),
        (options_line_of(join_of(d.mount_options, ","@)), Look::Plain),
        (Seq::<char>::empty(), Look::Plain),
    ]
}

/// The lines of all disks, in order.
pub open spec fn disks_lines_of(ds: Seq<DiskInfoView>) -> Seq<(Seq<char>, Look)>
    decreases ds.len(),
{
    if ds.len() == 0 {
        seq![]
    } else {
        disks_lines_of(ds.drop_last()) + disk_lines_of(ds.last())
    }
}

fn options_line(d: &DiskInfo) -> (r: Vec<char>)
    requires
        options_fit(d.deep_view()),
    ensures
        r@ == options_line_of(join_of(d.deep_view().mount_options, ","@)),
{
    let opts = join(&d.mount_options, ",");
    let mut v = chars_of("    Opts: ");
    if utf8_len_exceeds(&opts, 60) {
        let (head, _exact) = cut_within(&opts, 57);
        push_chars(&mut v, &head);
        push_str(&mut v, "...");
    } else {
        push_chars(&mut v, &opts);
    }
    v
}

/// The lines of the disks panel. Each disk's options must fit (see
/// `options_fit`).
pub fn disk_lines(disks: &Vec<DiskInfo>) -> (r: Vec<Line>)
    requires
        forall|i: int| 0 <= i < disks@.len() ==> options_fit(#[trigger] disks@[i].deep_view()),
    ensures
        r.deep_view() == disks_lines_of(disks.deep_view()),
{
    let ghost ds = disks.deep_view();
    let mut r: Vec<Line> = Vec::new();
    let mut i: usize = 0;
    while i < disks.len()
        invariant
            i <= disks@.len(),
            ds == disks.deep_view(),
            forall|k: int| 0 <= k < disks@.len() ==> options_fit(#[trigger] disks@[k].deep_view()),
            r.deep_view() == disks_lines_of(ds.take(i as int)),
        decreases disks@.len() - i,
    {
        proof {
            assert(ds.take(i + 1).drop_last() =~= ds.take(i as int));
            assert(ds.take(i + 1).last() == disks@[i as int].deep_view());
        }
        let d = &disks[i];
        let ghost before = r.deep_view();
        let mut v = chars_of("  ");
        push_str(&mut v, d.name.as_str());
        push_str(&mut v, " (");
        push_str(&mut v, d.kind.to_string().as_str());
        push_str(&mut v, ", ");
        push_decimal(&mut v, d.size_gb);
        push_str(&mut v, " GB) -> ");
        push_str(&mut v, d.mount_point.as_str());
        r.push(line(&v, Look::Bold));
        let mut v = chars_of("    FS: ");
        push_str(&mut v, d.filesystem.as_str());
        push_str(&mut v, "  Sched: ");
        push_str(&mut v, d.scheduler.as_str());
        r.push(line(&v, Look::Plain));
        let v = options_line(d);
        r.push(line(&v, Look::Plain));
        r.push(line(&Vec::new(), Look::Plain));
        assert(r.deep_view() =~= before + disk_lines_of(d.deep_view()));
        i += 1;
    }
    assert(ds.take(ds.len() as int) =~= ds);
    r
}

/// The network panel.
pub open spec fn network_lines_of(n: NetworkInfoView) -> Seq<Seq<char>> {
    seq![
        "  Congestion: "@ + n.congestion_control,
        "  TCP Fast Open: "@ + decimal_of(n.tcp_fastopen as nat),
        "  Buffers (r/w): "@ + format_bytes_of(n.rmem_max) + " / "@ + format_bytes_of(n.wmem_max),
        "  somaxconn: "@ + decimal_of(n.somaxconn as nat),
        "  TIME_WAIT reuse: "@ + if n.tw_reuse {
            "yes"@
        } else {
            "no"@
        },
        "  Port range: "@ + n.local_port_range,
    ]
}

/// The lines of the network panel.
pub fn network_lines(n: &NetworkInfo) -> (r: Vec<String>)
    ensures
        r.deep_view() == network_lines_of(n.deep_view()),
{
    let mut r: Vec<String> = Vec::new();
    let mut v = chars_of("  Congestion: ");
    push_str(&mut v, n.congestion_control.as_str());
    r.push(string_of(&v));
    let mut v = chars_of("  TCP Fast Open: ");
    push_decimal(&mut v, n.tcp_fastopen as u64);
    r.push(string_of(&v));
    let mut v = chars_of("  Buffers (r/w): ");
    push_str(&mut v, format_bytes(n.rmem_max).as_str());
    push_str(&mut v, " / ");
    push_str(&mut v, format_bytes(n.wmem_max).as_str());
    r.push(string_of(&v));
    let mut v = chars_of("  somaxconn: ");
    push_decimal(&mut v, n.somaxconn as u64);
    r.push(string_of(&v));
    let mut v = chars_of("  TIME_WAIT reuse: ");
    if n.tw_reuse {
        push_str(&mut v, "yes");
    } else {
        push_str(&mut v, "no");
    }
    r.push(string_of(&v));
    let mut v = chars_of("  Port range: ");
    push_str(&mut v, n.local_port_range.as_str());
    r.push(string_of(&v));
    assert(r.deep_view() =~= network_lines_of(n.deep_view()));
    r
}

// ---------------------------------------------------------------------------
// The Optimizations tab
// ---------------------------------------------------------------------------

/// The list entry of an optimization: a check box and its name; the cursor
/// stands out, then selected ones, and the others are greyed out.
pub open spec fn optimization_item_of(e: (OptimizationView, bool), at_cursor: bool) -> (
    Seq<char>,
    Look,
) {
    (
        (if e.1 {
            " [x] "@
        } else {
            " [ ] "@
        }) + e.0.name,
        if at_cursor {
            Look::Cursor
        } else if e.1 {
            Look::Enabled
        } else {
            Look::Dim
        },
    )
}

/// The list of optimizations with the cursor at `selected`.
pub open spec fn optimization_items_of(entries: Seq<(OptimizationView, bool)>, selected: int) -> Seq<
    (Seq<char>, Look),
> {
    Seq::new(entries.len(), |i: int| optimization_item_of(entries[i], i == selected))
}

/// The entries of the optimization list.
pub fn optimization_items(entries: &Vec<OptEntry>, selected: usize) -> (r: Vec<Line>)
    ensures
        r.deep_view() == optimization_items_of(entries.deep_view(), selected as int),
{
    let ghost es = entries.deep_view();
    let mut r: Vec<Line> = Vec::new();
    let mut i: usize = 0;
    while i < entries.len()
        invariant
            i <= entries@.len(),
            es == entries.deep_view(),
            r.deep_view() == optimization_items_of(es, selected as int).take(i as int),
        decreases entries@.len() - i,
    {
        let e = &entries[i];
        let mut v = if e.enabled {
            chars_of(" [x] ")
        } else {
            chars_of(" [ ] ")
        };
        push_str(&mut v, e.optimization.name.as_str());
        let look = if i == selected {
            Look::Cursor
        } else if e.enabled {
            Look::Enabled
        } else {
            Look::Dim
        };
        let l = line(&v, look);
        proof {
            assert(es[i as int] == e.deep_view());
            assert(r.deep_view().push(l.deep_view()) =~= optimization_items_of(
                es,
                selected as int,
            ).take(i + 1));
        }
        r.push(l);
        proof {
            assert(r.deep_view() =~= optimization_items_of(es, selected as int).take(i + 1));
        }
        i += 1;
    }
    assert(optimization_items_of(es, selected as int).take(es.len() as int) =~= optimization_items_of(
        es,
        selected as int,
    ));
    r
}

/// The title of the optimization list, naming the profile in use.
pub open spec fn optimizations_title_of(profile: Seq<char>) -> Seq<char> {
    " Optimizations ["@ + profile + "] (p: cycle) "@
}

/// The title of the optimization list.
pub fn optimizations_title(profile: &str) -> (r: String)
    ensures
        r@ == optimizations_title_of(profile@),
{
    let mut v = chars_of(" Optimizations [");
    push_str(&mut v, profile);
    push_str(&mut v, "] (p: cycle) ");
    string_of(&v)
}

/// The detail line of a change: what it changes from and to; greyed out,
/// and marked, where the value is already in place.
pub open spec fn change_detail_of(c: ChangeView) -> (Seq<char>, Look) {
    match c.current_value {
        Some(cur) => if cur != c.new_value {
            ("  "@ + c.target + " : "@ + cur + " -> "@ + c.new_value, Look::Plain)
        } else {
            ("  "@ + c.target + " = "@ + cur + " (already set)"@, Look::Dim)
        },
        None => ("  "@ + c.target + " = "@ + c.new_value, Look::Plain),
    }
}

/// The detail panel of an optimization: name, description, the reason, and
/// one line per change.
pub open spec fn detail_lines_of(o: OptimizationView) -> Seq<(Seq<char>, Look)> {
    seq![
        (o.name, Look::Bold),
        (Seq::<char>::empty(), Look::Plain),
        (o.description, Look::Plain),
        (Seq::<char>::empty(), Look::Plain),
        ("Why:"@, Look::Bold),
        (o.explanation, Look::Plain),
        (Seq::<char>::empty(), Look::Plain),
        ("Changes:"@, Look::Bold),
    ] + o.changes.map_values(|c: ChangeView| change_detail_of(c))
}

fn change_detail(c: &Change) -> (r: Line)
    ensures
        r.deep_view() == change_detail_of(c.deep_view()),
{
    let mut v = chars_of("  ");
    push_str(&mut v, c.target.as_str());
    match &c.current_value {
        Some(cur) => {
            if *cur != c.new_value {
                push_str(&mut v, " : ");
                push_str(&mut v, cur.as_str());
                push_str(&mut v, " -> ");
                push_str(&mut v, c.new_value.as_str());
                line(&v, Look::Plain)
            } else {
                push_str(&mut v, " = ");
                push_str(&mut v, cur.as_str());
                push_str(&mut v, " (already set)");
                line(&v, Look::Dim)
            }
        },
        None => {
            push_str(&mut v, " = ");
            push_str(&mut v, c.new_value.as_str());
            line(&v, Look::Plain)
        },
    }
}

/// The lines of the detail panel.
pub fn detail_lines(o: &Optimization) -> (r: Vec<Line>)
    ensures
        r.deep_view() == detail_lines_of(o.deep_view()),
{
    let mut r: Vec<Line> = Vec::new();
    r.push(line(&chars_of(o.name.as_str()), Look::Bold));
    r.push(line(&Vec::new(), Look::Plain));
    r.push(line(&chars_of(o.description.as_str()), Look::Plain));
    r.push(line(&Vec::new(), Look::Plain));
    r.push(line(&chars_of("Why:"), Look::Bold));
    r.push(line(&chars_of(o.explanation.as_str()), Look::Plain));
    r.push(line(&Vec::new(), Look::Plain));
    r.push(line(&chars_of("Changes:"), Look::Bold));
    let ghost head = r.deep_view();
    let ghost cs = o.changes.deep_view();
    let mut i: usize = 0;
    while i < o.changes.len()
        invariant
            i <= o.changes@.len(),
            cs == o.changes.deep_view(),
            r.deep_view() == head + cs.take(i as int).map_values(
                |c: ChangeView| change_detail_of(c),
            ),
        decreases o.changes@.len() - i,
    {
        let l = change_detail(&o.changes[i]);
        proof {
            assert(cs[i as int] == o.changes@[i as int].deep_view());
            assert(r.deep_view().push(l.deep_view()) =~= head + cs.take(i + 1).map_values(
                |c: ChangeView| change_detail_of(c),
            ));
        }
        r.push(l);
        i += 1;
    }
    assert(cs.take(cs.len() as int) =~= cs);
    assert(r.deep_view() =~= detail_lines_of(o.deep_view()));
    r
}

// ---------------------------------------------------------------------------
// The Profiles tab and the status bar
// ---------------------------------------------------------------------------

/// The list entry of a profile: a marker on the profile in use, the name in
/// a column of 16 characters, the description; the cursor stands out, then
/// the profile in use.
pub open spec fn profile_item_of(p: (Seq<char>, Seq<char>), at_cursor: bool, in_use: bool) -> (
    Seq<char>,
    Look,
) {
    (
        (if in_use {
            " > "@
        } else {
            "   "@
        }) + pad_right_of(p.0, 16) + " "@ + p.1,
        if at_cursor {
            Look::Cursor
        } else if in_use {
            Look::Current
        } else {
            Look::Plain
        },
    )
}

/// The list of profiles with the cursor at `selected` and `current` in use.
pub open spec fn profile_items_of(
    profiles: Seq<(Seq<char>, Seq<char>)>,
    selected: int,
    current: int,
) -> Seq<(Seq<char>, Look)> {
    Seq::new(
        profiles.len(),
        |i: int| profile_item_of(profiles[i], i == selected, i == current),
    )
}

/// The entries of the profile list.
pub fn profile_items(profiles: &Vec<(String, String)>, selected: usize, current: usize) -> (r: Vec<
    Line,
>)
    ensures
        r.deep_view() == profile_items_of(profiles.deep_view(), selected as int, current as int),
{
    let ghost ps = profiles.deep_view();
    let mut r: Vec<Line> = Vec::new();
    let mut i: usize = 0;
    while i < profiles.len()
        invariant
            i <= profiles@.len(),
            ps == profiles.deep_view(),
            r.deep_view() == profile_items_of(ps, selected as int, current as int).take(i as int),
        decreases profiles@.len() - i,
    {
        let mut v = if i == current {
            chars_of(" > ")
        } else {
            chars_of("   ")
        };
        push_chars(&mut v, &pad_right(profiles[i].0.as_str(), 16));
        push_str(&mut v, " ");
        push_str(&mut v, profiles[i].1.as_str());
        let look = if i == selected {
            Look::Cursor
        } else if i == current {
            Look::Current
        } else {
            Look::Plain
        };
        let l = line(&v, look);
        proof {
            assert(ps[i as int] == (profiles@[i as int].0@, profiles@[i as int].1@));
            assert(r.deep_view().push(l.deep_view()) =~= profile_items_of(
                ps,
                selected as int,
                current as int,
            ).take(i + 1));
        }
        r.push(l);
        proof {
            assert(r.deep_view() =~= profile_items_of(ps, selected as int, current as int).take(
                i + 1,
            ));
        }
        i += 1;
    }
    assert(profile_items_of(ps, selected as int, current as int).take(ps.len() as int)
        =~= profile_items_of(ps, selected as int, current as int));
    r
}

/// The status bar text.
pub open spec fn status_line_of(message: Seq<char>) -> Seq<char> {
    " "@ + message
}

/// The text of the status bar.
pub fn status_line(message: &str) -> (r: String)
    ensures
        r@ == status_line_of(message@),
{
    let mut v = chars_of(" ");
    push_str(&mut v, message);
    string_of(&v)
}

} // verus!
