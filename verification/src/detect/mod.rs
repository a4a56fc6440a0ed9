//! Hardware and configuration detection from the contents of `/proc` and
//! `/sys`.
use vstd::prelude::*;
use crate::probe::Probe;
use crate::text::{
    chars_of, copy, find_prefixed, first_prefixed, lines, lines_of, seqs_of, split, split_of, string_of,
    trim, trim_by, trim_both_of, trim_of, words, words_of, parse_u32, parse_u32_of, parse_u64,
    parse_u64_of, CharClass, push_str,
};

pub mod cpu;
pub mod disk;
pub mod gpu;
pub mod memory;
pub mod network;

pub use cpu::{CpuInfo, CpuVendor};
pub use disk::{DiskInfo, DiskKind};
pub use gpu::{GpuInfo, GpuVendor};
pub use memory::MemoryInfo;
pub use network::NetworkInfo;
pub use crate::probe::{read_file_trimmed, read_sysctl};

verus! {

// ---------------------------------------------------------------------------
// Shared parsing helpers
// ---------------------------------------------------------------------------

/// The text between the first and the second `:` of the first line of `ls`
/// that starts with `key` (`find(starts_with).and_then(split(':').nth(1))`).
pub open spec fn field_after_colon(ls: Seq<Seq<char>>, key: Seq<char>) -> Option<Seq<char>> {
    match first_prefixed(ls, key) {
        Some(i) => {
            let parts = split_of(ls[i], ':');
            if parts.len() > 1 {
                Some(parts[1])
            } else {
                None
            }
        },
        None => None,
    }
}

/// `field_after_colon` over the lines of `text`.
pub open spec fn colon_field_of(text: Seq<char>, key: Seq<char>) -> Option<Seq<char>> {
    field_after_colon(lines_of(text), key)
}

/// Finds the field after the colon on the first line of `ls` starting with `key`.
pub fn colon_field(ls: &Vec<Vec<char>>, key: &str) -> (r: Option<Vec<char>>)
    ensures
        match r {
            Some(v) => field_after_colon(seqs_of(ls@), key@) == Some(v@),
            None => field_after_colon(seqs_of(ls@), key@) is None,
        },
{
    let k = chars_of(key);
    match find_prefixed(ls, &k) {
        Some(i) => {
            let parts = split(&ls[i], ':');
            assert(seqs_of(ls@)[i as int] == ls@[i as int]@);
            if parts.len() > 1 {
                assert(seqs_of(parts@)[1] == parts@[1]@);
                Some(copy(&parts[1]))
            } else {
                None
            }
        },
        None => None,
    }
}

/// The active entry of a kernel choice list such as
/// `noop deadline [mq-deadline]`: the first word starting with `[`, with its
/// brackets trimmed; the trimmed text where no word is bracketed.
pub open spec fn active_choice_of(s: Seq<char>) -> Seq<char> {
    let t = trim_of(s);
    let ws = words_of(t);
    match first_prefixed(ws, seq!['[']) {
        Some(i) => trim_both_of(ws[i], CharClass::Brackets),
        None => t,
    }
}

/// Picks the active entry of a kernel choice list.
pub fn active_choice(s: &Vec<char>) -> (r: Vec<char>)
    ensures
        r@ == active_choice_of(s@),
{
    let t = trim(s);
    let ws = words(&t);
    let mut open: Vec<char> = Vec::new();
    open.push('[');
    assert(open@ =~= seq!['[']);
    match find_prefixed(&ws, &open) {
        Some(i) => {
            assert(seqs_of(ws@)[i as int] == ws@[i as int]@);
            trim_by(&ws[i], CharClass::Brackets)
        },
        None => t,
    }
}

/// A sysctl value parsed as `u32`, or `default` when it is unreadable or
/// does not parse.
pub open spec fn sysctl_u32_or(probe: Probe, key: Seq<char>, default: u32) -> u32 {
    match probe.sysctl(key) {
        Some(s) => match parse_u32_of(s) {
            Some(v) => v,
            None => default,
        },
        None => default,
    }
}

/// A sysctl value parsed as `u64`, or `default`.
pub open spec fn sysctl_u64_or(probe: Probe, key: Seq<char>, default: u64) -> u64 {
    match probe.sysctl(key) {
        Some(s) => match parse_u64_of(s) {
            Some(v) => v,
            None => default,
        },
        None => default,
    }
}

/// A sysctl value as text, or `default`.
pub open spec fn sysctl_text_or(probe: Probe, key: Seq<char>, default: Seq<char>) -> Seq<char> {
    match probe.sysctl(key) {
        Some(s) => s,
        None => default,
    }
}

/// Reads a sysctl as `u32`, falling back to `default`.
pub fn sysctl_u32(probe: &Probe, key: &str, default: u32) -> (r: u32)
    ensures
        r == sysctl_u32_or(*probe, key@, default),
{
    match probe.sysctl_chars(&chars_of(key)) {
        Some(s) => match parse_u32(&s) {
            Some(v) => v,
            None => default,
        },
        None => default,
    }
}

/// Reads a sysctl as `u64`, falling back to `default`.
pub fn sysctl_u64(probe: &Probe, key: &str, default: u64) -> (r: u64)
    ensures
        r == sysctl_u64_or(*probe, key@, default),
{
    match probe.sysctl_chars(&chars_of(key)) {
        Some(s) => match parse_u64(&s) {
            Some(v) => v,
            None => default,
        },
        None => default,
    }
}

/// Reads a sysctl as text, falling back to `default`.
pub fn sysctl_text(probe: &Probe, key: &str, default: &str) -> (r: String)
    ensures
        r@ == sysctl_text_or(*probe, key@, default@),
{
    match probe.sysctl_chars(&chars_of(key)) {
        Some(s) => string_of(&s),
        None => string_of(&chars_of(default)),
    }
}

// ---------------------------------------------------------------------------
// The whole system
// ---------------------------------------------------------------------------

/// Everything detected about the host.
#[derive(Debug, Clone)]
pub struct SystemInfo {
    pub cpu: CpuInfo,
    pub memory: MemoryInfo,
    pub disks: Vec<DiskInfo>,
    pub network: NetworkInfo,
    pub gpu: Option<GpuInfo>,
    pub kernel: String,
    pub hostname: String,
}

/// Why a scan failed: a file that detection cannot do without was unreadable.
#[derive(Debug, Clone)]
pub enum ScanError {
    Unreadable { path: String },
}

/// The kernel release: the third word of `/proc/version`, or `unknown`.
pub open spec fn kernel_of(probe: Probe) -> Seq<char> {
    match probe.file_trimmed("/proc/version"@) {
        Some(v) => {
            let ws = words_of(v);
            if ws.len() > 2 {
                ws[2]
            } else {
                "unknown"@
            }
        },
        None => "unknown"@,
    }
}

/// The host name: the trimmed `/etc/hostname`, or `unknown`.
pub open spec fn hostname_of(probe: Probe) -> Seq<char> {
    match probe.file_trimmed("/etc/hostname"@) {
        Some(h) => h,
        None => "unknown"@,
    }
}

/// The host name is `/etc/hostname` trimmed, and the kernel release is the
/// third whitespace-separated word of `/proc/version` trimmed; each is
/// `unknown` where its file is unreadable, the release also where the file
/// holds fewer than three words.
pub proof fn lemma_host_names(probe: Probe)
    ensures
        hostname_of(probe) == match probe.file("/etc/hostname"@) {
            Some(h) => trim_of(h),
            None => "unknown"@,
        },
        kernel_of(probe) == match probe.file("/proc/version"@) {
            Some(v) => if words_of(trim_of(v)).len() > 2 {
                words_of(trim_of(v))[2]
            } else {
                "unknown"@
            },
            None => "unknown"@,
        },
{
}

/// Reads the kernel release.
fn kernel(probe: &Probe) -> (r: String)
    ensures
        r@ == kernel_of(*probe),
{
    match probe.read_trimmed_lit("/proc/version") {
        Some(v) => {
            let ws = words(&v);
            if ws.len() > 2 {
                assert(seqs_of(ws@)[2] == ws@[2]@);
                string_of(&ws[2])
            } else {
                string_of(&chars_of("unknown"))
            }
        },
        None => string_of(&chars_of("unknown")),
    }
}

/// Reads the host name.
fn hostname(probe: &Probe) -> (r: String)
    ensures
        r@ == hostname_of(*probe),
{
    match probe.read_trimmed_lit("/etc/hostname") {
        Some(h) => string_of(&h),
        None => string_of(&chars_of("unknown")),
    }
}

/// The file whose absence makes a scan fail: the first of `/proc/cpuinfo`,
/// `/proc/meminfo` and `/proc/mounts` that could not be read.
pub open spec fn missing_file_of(probe: Probe) -> Option<Seq<char>> {
    if probe.file("/proc/cpuinfo"@) is None {
        Some("/proc/cpuinfo"@)
    } else if probe.file("/proc/meminfo"@) is None {
        Some("/proc/meminfo"@)
    } else if probe.file("/proc/mounts"@) is None {
        Some("/proc/mounts"@)
    } else {
        None
    }
}

/// The path that a failed scan names; `None` for a successful one.
pub open spec fn failed_path(r: &Result<SystemInfo, ScanError>) -> Option<Seq<char>> {
    match r {
        Ok(_) => None,
        Err(ScanError::Unreadable { path }) => Some(path@),
    }
}

/// Detects everything about the host. Fails, naming the file, when
/// `/proc/cpuinfo`, `/proc/meminfo` or `/proc/mounts` (in that order) could
/// not be read.
pub fn scan_system(probe: &Probe) -> (r: Result<SystemInfo, ScanError>)
    ensures
        failed_path(&r) == missing_file_of(*probe),
        r matches Ok(sys) ==> {
            &&& Some(sys.cpu.deep_view()) == cpu::cpu_of(*probe)
            &&& Some(sys.memory.deep_view()) == memory::memory_of(*probe)
            &&& disk::disks_of(*probe) == Some(sys.disks.deep_view())
            &&& sys.network.deep_view() == network::network_of(*probe)
            &&& sys.gpu.deep_view() == gpu::gpu_of(*probe)
            &&& sys.kernel@ == kernel_of(*probe)
            &&& sys.hostname@ == hostname_of(*probe)
        },
{
    let cpu = match cpu::detect(probe) {
        Some(c) => c,
        None => {
            return Err(ScanError::Unreadable { path: string_of(&chars_of("/proc/cpuinfo")) });
        },
    };
    let memory = match memory::detect(probe) {
        Some(m) => m,
        None => {
            return Err(ScanError::Unreadable { path: string_of(&chars_of("/proc/meminfo")) });
        },
    };
    let disks = match disk::detect(probe) {
        Some(d) => d,
        None => {
            return Err(ScanError::Unreadable { path: string_of(&chars_of("/proc/mounts")) });
        },
    };
    let network = network::detect(probe);
    let gpu = gpu::detect(probe);
    Ok(SystemInfo { cpu, memory, disks, network, gpu, kernel: kernel(probe), hostname: hostname(probe) })
}


/// Each disk's report followed by a line break, in order.
pub open spec fn disks_text_of(ds: Seq<disk::DiskInfoView>) -> Seq<char>
    decreases ds.len(),
{
    if ds.len() == 0 {
        seq![]
    } else {
        disks_text_of(ds.drop_last()) + disk::disk_text_of(ds.last()) + "\n"@
    }
}

/// The scan report: host and kernel, then CPU, memory, the GPU if there is
/// one, each disk, and the network stack.
pub open spec fn system_text_of(s: SystemInfo) -> Seq<char> {
    "System: "@ + s.hostname@ + " (kernel "@ + s.kernel@ + ")\n\n"@ + cpu::cpu_text_of(
        s.cpu.deep_view(),
    ) + "\n"@ + memory::memory_text_of(s.memory.deep_view()) + "\n"@ + match s.gpu {
        Some(g) => gpu::gpu_text_of(g.deep_view()) + "\n"@,
        None => Seq::<char>::empty(),
    } + disks_text_of(s.disks.deep_view()) + network::network_text_of(s.network.deep_view())
}

impl SystemInfo {
    /// The scan report.
    pub fn to_string(&self) -> (r: String)
        ensures
            r@ == system_text_of(*self),
    {
        let mut v: Vec<char> = Vec::new();
        push_str(&mut v, "System: ");
        push_str(&mut v, self.hostname.as_str());
        push_str(&mut v, " (kernel ");
        push_str(&mut v, self.kernel.as_str());
        push_str(&mut v, ")\n\n");
        push_str(&mut v, self.cpu.to_string().as_str());
        push_str(&mut v, "\n");
        push_str(&mut v, self.memory.to_string().as_str());
        push_str(&mut v, "\n");
        match &self.gpu {
            Some(g) => {
                push_str(&mut v, g.to_string().as_str());
                push_str(&mut v, "\n");
            },
            None => {},
        }
        let ghost head = v@;
        let ghost ds = self.disks.deep_view();
        let mut i: usize = 0;
        while i < self.disks.len()
            invariant
                i <= self.disks@.len(),
                ds == self.disks.deep_view(),
                v@ == head + disks_text_of(ds.take(i as int)),
            decreases self.disks@.len() - i,
        {
            proof {
                assert(ds.take(i + 1).drop_last() =~= ds.take(i as int));
                assert(ds.take(i + 1).last() == self.disks@[i as int].deep_view());
            }
            push_str(&mut v, self.disks[i].to_string().as_str());
            push_str(&mut v, "\n");
            assert(v@ =~= head + disks_text_of(ds.take(i + 1)));
            i += 1;
        }
        assert(ds.take(ds.len() as int) =~= ds);
        push_str(&mut v, self.network.to_string().as_str());
        assert(v@ =~= system_text_of(*self));
        string_of(&v)
    }
}

} // verus!
