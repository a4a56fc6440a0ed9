//! Memory, swap, zram and virtual-memory tunables.
use vstd::prelude::*;
use crate::probe::{sysctl_path_of, Probe};
use crate::text::{
    chars_of, find_prefixed, first_prefixed, lines, lines_of, parse_u64, parse_u64_of, seqs_of,
    string_of, words, words_of, decimal_of, push_decimal, push_str, parse_u32_of, trim_of,
};
use super::{active_choice, active_choice_of, sysctl_u32, sysctl_u32_or, sysctl_u64, sysctl_u64_or};

verus! {

/// What is known about memory.
#[derive(Debug, Clone)]
pub struct MemoryInfo {
    pub total_mb: u64,
    pub available_mb: u64,
    pub swap_total_mb: u64,
    pub zram_enabled: bool,
    pub zram_size_mb: u64,
    pub zram_algorithm: String,
    pub swappiness: u32,
    pub vfs_cache_pressure: u32,
    pub dirty_bytes: u64,
    pub dirty_background_bytes: u64,
}

/// The mathematical value of a `MemoryInfo`.
pub struct MemoryInfoView {
    pub total_mb: u64,
    pub available_mb: u64,
    pub swap_total_mb: u64,
    pub zram_enabled: bool,
    pub zram_size_mb: u64,
    pub zram_algorithm: Seq<char>,
    pub swappiness: u32,
    pub vfs_cache_pressure: u32,
    pub dirty_bytes: u64,
    pub dirty_background_bytes: u64,
}

impl DeepView for MemoryInfo {
    type V = MemoryInfoView;

    open spec fn deep_view(&self) -> MemoryInfoView {
        MemoryInfoView {
            total_mb: self.total_mb,
            available_mb: self.available_mb,
            swap_total_mb: self.swap_total_mb,
            zram_enabled: self.zram_enabled,
            zram_size_mb: self.zram_size_mb,
            zram_algorithm: self.zram_algorithm@,
            swappiness: self.swappiness,
            vfs_cache_pressure: self.vfs_cache_pressure,
            dirty_bytes: self.dirty_bytes,
            dirty_background_bytes: self.dirty_background_bytes,
        }
    }
}

/// The value of a `/proc/meminfo` field: the second word of the first line
/// that starts with `field`, parsed as `u64`.
pub open spec fn meminfo_field_of(meminfo: Seq<char>, field: Seq<char>) -> Option<u64> {
    let ls = lines_of(meminfo);
    match first_prefixed(ls, field) {
        Some(i) => {
            let ws = words_of(ls[i]);
            if ws.len() > 1 {
                parse_u64_of(ws[1])
            } else {
                None
            }
        },
        None => None,
    }
}

/// A `/proc/meminfo` field in kilobytes, 0 when missing.
pub open spec fn meminfo_kb_of(meminfo: Seq<char>, field: Seq<char>) -> u64 {
    match meminfo_field_of(meminfo, field) {
        Some(v) => v,
        None => 0,
    }
}

/// Reads a field of `/proc/meminfo` (in kilobytes).
pub fn parse_meminfo_field(meminfo: &str, field: &str) -> (r: Option<u64>)
    ensures
        r == meminfo_field_of(meminfo@, field@),
{
    meminfo_field(&chars_of(meminfo), field)
}

fn meminfo_field(meminfo: &Vec<char>, field: &str) -> (r: Option<u64>)
    ensures
        r == meminfo_field_of(meminfo@, field@),
{
    let ls = lines(meminfo);
    match find_prefixed(&ls, &chars_of(field)) {
        Some(i) => {
            assert(seqs_of(ls@)[i as int] == ls@[i as int]@);
            let ws = words(&ls[i]);
            if ws.len() > 1 {
                assert(seqs_of(ws@)[1] == ws@[1]@);
                parse_u64(&ws[1])
            } else {
                None
            }
        },
        None => None,
    }
}

/// zram state: enabled with its size in megabytes and its compression
/// algorithm when `/sys/block/zram0/disksize` holds a positive number;
/// disabled, 0 and `none` otherwise.
pub open spec fn zram_of(probe: Probe) -> (bool, u64, Seq<char>) {
    let size = match probe.file_trimmed("/sys/block/zram0/disksize"@) {
        Some(s) => parse_u64_of(s),
        None => None,
    };
    let algorithm = match probe.file("/sys/block/zram0/comp_algorithm"@) {
        Some(s) => active_choice_of(s),
        None => "none"@,
    };
    match size {
        Some(n) => if n > 0 {
            (true, n / 1024 / 1024, algorithm)
        } else {
            (false, 0, "none"@)
        },
        None => (false, 0, "none"@),
    }
}

/// Detects zram.
pub fn detect_zram(probe: &Probe) -> (r: (bool, u64, String))
    ensures
        r.0 == zram_of(*probe).0,
        r.1 == zram_of(*probe).1,
        r.2@ == zram_of(*probe).2,
{
    let size = match probe.read_trimmed_lit("/sys/block/zram0/disksize") {
        Some(s) => parse_u64(&s),
        None => None,
    };
    let algorithm = match probe.read(&chars_of("/sys/block/zram0/comp_algorithm")) {
        Some(s) => active_choice(&s),
        None => chars_of("none"),
    };
    match size {
        Some(n) => if n > 0 {
            (true, n / 1024 / 1024, string_of(&algorithm))
        } else {
            (false, 0, string_of(&chars_of("none")))
        },
        None => (false, 0, string_of(&chars_of("none"))),
    }
}

/// Memory as `/proc/meminfo`, zram and the `vm` sysctls describe it; `None`
/// when `/proc/meminfo` is unreadable.
pub open spec fn memory_of(probe: Probe) -> Option<MemoryInfoView> {
    match probe.file("/proc/meminfo"@) {
        None => None,
        Some(m) => {
            let z = zram_of(probe);
            Some(
                MemoryInfoView {
                    total_mb: meminfo_kb_of(m, "MemTotal"@) / 1024,
                    available_mb: meminfo_kb_of(m, "MemAvailable"@) / 1024,
                    swap_total_mb: meminfo_kb_of(m, "SwapTotal"@) / 1024,
                    zram_enabled: z.0,
                    zram_size_mb: z.1,
                    zram_algorithm: z.2,
                    swappiness: sysctl_u32_or(probe, "vm.swappiness"@, 60),
                    vfs_cache_pressure: sysctl_u32_or(probe, "vm.vfs_cache_pressure"@, 100),
                    dirty_bytes: sysctl_u64_or(probe, "vm.dirty_bytes"@, 0),
                    dirty_background_bytes: sysctl_u64_or(probe, "vm.dirty_background_bytes"@, 0),
                },
            )
        },
    }
}

fn kb_or_zero(v: Option<u64>) -> (r: u64)
    ensures
        r == match v {
            Some(x) => x,
            None => 0u64,
        },
{
    match v {
        Some(x) => x,
        None => 0,
    }
}

/// Detects memory; `None` when `/proc/meminfo` is unreadable.
pub fn detect(probe: &Probe) -> (r: Option<MemoryInfo>)
    ensures
        r.deep_view() == memory_of(*probe),
{
    let m = match probe.read(&chars_of("/proc/meminfo")) {
        Some(m) => m,
        None => {
            return None;
        },
    };
    let total_kb = kb_or_zero(meminfo_field(&m, "MemTotal"));
    let available_kb = kb_or_zero(meminfo_field(&m, "MemAvailable"));
    let swap_total_kb = kb_or_zero(meminfo_field(&m, "SwapTotal"));
    let (zram_enabled, zram_size_mb, zram_algorithm) = detect_zram(probe);
    Some(
        MemoryInfo {
            total_mb: total_kb / 1024,
            available_mb: available_kb / 1024,
            swap_total_mb: swap_total_kb / 1024,
            zram_enabled,
            zram_size_mb,
            zram_algorithm,
            swappiness: sysctl_u32(probe, "vm.swappiness", 60),
            vfs_cache_pressure: sysctl_u32(probe, "vm.vfs_cache_pressure", 100),
            dirty_bytes: sysctl_u64(probe, "vm.dirty_bytes", 0),
            dirty_background_bytes: sysctl_u64(probe, "vm.dirty_background_bytes", 0),
        },
    )
}


/// How memory is shown in a scan report: totals, swap with zram, and
/// swappiness.
pub open spec fn memory_text_of(m: MemoryInfoView) -> Seq<char> {
    "Memory: "@ + decimal_of(m.total_mb as nat) + " MB total, "@ + decimal_of(
        m.available_mb as nat,
    ) + " MB available\n  Swap: "@ + decimal_of(m.swap_total_mb as nat) + " MB (zram: "@ + (if m.zram_enabled {
        decimal_of(m.zram_size_mb as nat) + " MB, "@ + m.zram_algorithm
    } else {
        "disabled"@
    }) + ")\n  Swappiness: "@ + decimal_of(m.swappiness as nat)
}

impl MemoryInfo {
    /// Memory as a scan report shows it.
    pub fn to_string(&self) -> (r: String)
        ensures
            r@ == memory_text_of(self.deep_view()),
    {
        let mut v: Vec<char> = Vec::new();
        push_str(&mut v, "Memory: ");
        push_decimal(&mut v, self.total_mb);
        push_str(&mut v, " MB total, ");
        push_decimal(&mut v, self.available_mb);
        push_str(&mut v, " MB available\n  Swap: ");
        push_decimal(&mut v, self.swap_total_mb);
        push_str(&mut v, " MB (zram: ");
        if self.zram_enabled {
            push_decimal(&mut v, self.zram_size_mb);
            push_str(&mut v, " MB, ");
            push_str(&mut v, self.zram_algorithm.as_str());
        } else {
            push_str(&mut v, "disabled");
        }
        push_str(&mut v, ")\n  Swappiness: ");
        push_decimal(&mut v, self.swappiness as u64);
        assert(v@ =~= memory_text_of(self.deep_view()));
        string_of(&v)
    }
}

/// Memory detection needs `/proc/meminfo`, and reads the `vm` tunables from
/// their files under `/proc/sys/vm`, trimmed and parsed: swappiness 60,
/// cache pressure 100 and the dirty byte limits 0 where a file is unreadable
/// or does not parse.
pub proof fn lemma_memory_from_sysctl_files(probe: Probe)
    ensures
        memory_of(probe) is Some == probe.file("/proc/meminfo"@) is Some,
        memory_of(probe) matches Some(m) ==> m.swappiness == match probe.file("/proc/sys/vm/swappiness"@) {
            Some(t) => match parse_u32_of(trim_of(t)) {
                Some(n) => n,
                None => 60u32,
            },
            None => 60u32,
        },
        memory_of(probe) matches Some(m) ==> m.vfs_cache_pressure == match probe.file("/proc/sys/vm/vfs_cache_pressure"@) {
            Some(t) => match parse_u32_of(trim_of(t)) {
                Some(n) => n,
                None => 100u32,
            },
            None => 100u32,
        },
        memory_of(probe) matches Some(m) ==> m.dirty_bytes == match probe.file("/proc/sys/vm/dirty_bytes"@) {
            Some(t) => match parse_u64_of(trim_of(t)) {
                Some(n) => n,
                None => 0u64,
            },
            None => 0u64,
        },
        memory_of(probe) matches Some(m) ==> m.dirty_background_bytes == match probe.file("/proc/sys/vm/dirty_background_bytes"@) {
            Some(t) => match parse_u64_of(trim_of(t)) {
                Some(n) => n,
                None => 0u64,
            },
            None => 0u64,
        },
{
    reveal_strlit("/proc/sys/");
    reveal_strlit("vm.swappiness");
    reveal_strlit("/proc/sys/vm/swappiness");
    assert(sysctl_path_of("vm.swappiness"@) =~= "/proc/sys/vm/swappiness"@);
    reveal_strlit("vm.vfs_cache_pressure");
    reveal_strlit("/proc/sys/vm/vfs_cache_pressure");
    assert(sysctl_path_of("vm.vfs_cache_pressure"@) =~= "/proc/sys/vm/vfs_cache_pressure"@);
    reveal_strlit("vm.dirty_bytes");
    reveal_strlit("/proc/sys/vm/dirty_bytes");
    assert(sysctl_path_of("vm.dirty_bytes"@) =~= "/proc/sys/vm/dirty_bytes"@);
    reveal_strlit("vm.dirty_background_bytes");
    reveal_strlit("/proc/sys/vm/dirty_background_bytes");
    assert(sysctl_path_of("vm.dirty_background_bytes"@) =~= "/proc/sys/vm/dirty_background_bytes"@);
}

} // verus!
