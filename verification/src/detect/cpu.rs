//! CPU model, topology, frequency governor, P-state driver and scheduler.
use vstd::prelude::*;
use crate::probe::Probe;
use crate::text::{
    chars_of, contains_lit, contains_seq, count_prefixed, count_starting_with, eq_lit, lines,
    lines_of, lit_cat, parse_usize, parse_usize_of, string_of, trim, trim_of, cat, decimal_of,
    push_decimal, push_str,
};
use super::{colon_field, colon_field_of};

verus! {

/// What is known about the CPU.
#[derive(Debug, Clone)]
pub struct CpuInfo {
    pub model: String,
    pub cores: usize,
    pub threads: usize,
    pub vendor: CpuVendor,
    pub governor: String,
    pub pstate_driver: Option<String>,
    pub scheduler: String,
}

/// The CPU vendor, from the `vendor_id` of `/proc/cpuinfo`.
#[derive(Debug, Clone, PartialEq)]
pub enum CpuVendor {
    Amd,
    Intel,
    Other(String),
}

/// The mathematical value of a `CpuVendor`.
pub enum CpuVendorView {
    Amd,
    Intel,
    Other(Seq<char>),
}

/// The mathematical value of a `CpuInfo`.
pub struct CpuInfoView {
    pub model: Seq<char>,
    pub cores: usize,
    pub threads: usize,
    pub vendor: CpuVendorView,
    pub governor: Seq<char>,
    pub pstate_driver: Option<Seq<char>>,
    pub scheduler: Seq<char>,
}

impl DeepView for CpuVendor {
    type V = CpuVendorView;

    open spec fn deep_view(&self) -> CpuVendorView {
        match self {
            CpuVendor::Amd => CpuVendorView::Amd,
            CpuVendor::Intel => CpuVendorView::Intel,
            CpuVendor::Other(s) => CpuVendorView::Other(s@),
        }
    }
}

impl DeepView for CpuInfo {
    type V = CpuInfoView;

    open spec fn deep_view(&self) -> CpuInfoView {
        CpuInfoView {
            model: self.model@,
            cores: self.cores,
            threads: self.threads,
            vendor: self.vendor.deep_view(),
            governor: self.governor@,
            pstate_driver: self.pstate_driver.deep_view(),
            scheduler: self.scheduler@,
        }
    }
}

/// The vendor named by a `vendor_id` value.
pub open spec fn vendor_of(id: Seq<char>) -> CpuVendorView {
    if id == "AuthenticAMD"@ {
        CpuVendorView::Amd
    } else if id == "GenuineIntel"@ {
        CpuVendorView::Intel
    } else {
        CpuVendorView::Other(id)
    }
}

/// The scheduler in use: a `sched_ext` scheduler when one is loaded, BORE
/// when the kernel version names it or CachyOS, the stock CFS/EEVDF otherwise.
pub open spec fn scheduler_of(probe: Probe) -> Seq<char> {
    let ops = probe.file_trimmed("/sys/kernel/sched_ext/root/ops"@);
    if ops is Some && ops->0.len() > 0 {
        "sched_ext ("@ + ops->0 + ")"@
    } else {
        match probe.file("/proc/version"@) {
            Some(v) => if contains_seq(v, "bore"@) || contains_seq(v, "BORE"@) {
                "BORE"@
            } else if contains_seq(v, "cachyos"@) || contains_seq(v, "CachyOS"@) {
                "BORE (CachyOS)"@
            } else {
                "CFS/EEVDF"@
            },
            None => "CFS/EEVDF"@,
        }
    }
}

/// The CPU as `/proc/cpuinfo` and sysfs describe it; `None` when
/// `/proc/cpuinfo` is unreadable.
pub open spec fn cpu_of(probe: Probe) -> Option<CpuInfoView> {
    match probe.file("/proc/cpuinfo"@) {
        None => None,
        Some(text) => {
            let ls = lines_of(text);
            let threads = count_prefixed(ls, "processor"@);
            let vendor_id = match colon_field_of(text, "vendor_id"@) {
                Some(v) => trim_of(v),
                None => Seq::empty(),
            };
            Some(
                CpuInfoView {
                    model: match colon_field_of(text, "model name"@) {
                        Some(v) => trim_of(v),
                        None => "Unknown"@,
                    },
                    cores: match colon_field_of(text, "cpu cores"@) {
                        Some(v) => match parse_usize_of(trim_of(v)) {
                            Some(n) => n,
                            None => threads as usize,
                        },
                        None => threads as usize,
                    },
                    threads: threads as usize,
                    vendor: vendor_of(vendor_id),
                    governor: match probe.file_trimmed(
                        "/sys/devices/system/cpu/cpu0/cpufreq/scaling_governor"@,
                    ) {
                        Some(g) => g,
                        None => "unknown"@,
                    },
                    pstate_driver: match probe.file_trimmed(
                        "/sys/devices/system/cpu/amd_pstate/status"@,
                    ) {
                        Some(d) => Some(d),
                        None => probe.file_trimmed("/sys/devices/system/cpu/intel_pstate/status"@),
                    },
                    scheduler: scheduler_of(probe),
                },
            )
        },
    }
}

/// The number of lines of `ls` that start with `p` is the length of those
/// lines filtered out of `ls`.
proof fn lemma_count_prefixed_is_filter(ls: Seq<Seq<char>>, p: Seq<char>)
    ensures
        count_prefixed(ls, p) == ls.filter(|l: Seq<char>| p.is_prefix_of(l)).len(),
    decreases ls.len(),
{
    reveal(Seq::filter);
    if ls.len() > 0 {
        lemma_count_prefixed_is_filter(ls.drop_last(), p);
    }
}

/// The CPU is read from `/proc/cpuinfo` and sysfs. It is known exactly when
/// `/proc/cpuinfo` is readable. Its thread count is the number of lines
/// that start with `processor`; its model is the trimmed `model name`
/// field, or `Unknown`; its core count is the `cpu cores` field where that
/// is a number and the thread count where the field is missing; it is AMD
/// or Intel exactly when the trimmed `vendor_id` field is `AuthenticAMD` or
/// `GenuineIntel`; its governor is cpu0's trimmed `scaling_governor`, or
/// `unknown`; its P-state driver is the trimmed AMD P-state status where
/// that is readable and the Intel one otherwise; and a loaded `sched_ext`
/// scheduler is named as such.
pub proof fn lemma_cpu_from_proc_cpuinfo(probe: Probe)
    ensures
        cpu_of(probe) is Some <==> probe.file("/proc/cpuinfo"@) is Some,
        probe.file("/proc/cpuinfo"@) matches Some(text) ==> {
            let c = cpu_of(probe)->0;
            let threads = lines_of(text).filter(|l: Seq<char>| "processor"@.is_prefix_of(l)).len();
            &&& threads <= usize::MAX ==> c.threads == threads
            &&& c.model == match colon_field_of(text, "model name"@) {
                Some(v) => trim_of(v),
                None => "Unknown"@,
            }
            &&& (colon_field_of(text, "cpu cores"@) is None && threads <= usize::MAX) ==> c.cores
                == threads
            &&& colon_field_of(text, "cpu cores"@) matches Some(v) ==> (parse_usize_of(trim_of(v)) matches Some(
                n,
            ) ==> c.cores == n)
            &&& (c.vendor is Amd) == (colon_field_of(text, "vendor_id"@) matches Some(v) && trim_of(v)
                == "AuthenticAMD"@)
            &&& (c.vendor is Intel) == (colon_field_of(text, "vendor_id"@) matches Some(v) && trim_of(v)
                == "GenuineIntel"@)
            &&& c.governor == match probe.file(
                "/sys/devices/system/cpu/cpu0/cpufreq/scaling_governor"@,
            ) {
                Some(g) => trim_of(g),
                None => "unknown"@,
            }
            &&& c.pstate_driver == match probe.file("/sys/devices/system/cpu/amd_pstate/status"@) {
                Some(d) => Some(trim_of(d)),
                None => match probe.file("/sys/devices/system/cpu/intel_pstate/status"@) {
                    Some(d) => Some(trim_of(d)),
                    None => None,
                },
            }
            &&& c.scheduler == scheduler_of(probe)
        },
        probe.file("/sys/kernel/sched_ext/root/ops"@) matches Some(o) ==> (trim_of(o).len() > 0
            ==> scheduler_of(probe) == "sched_ext ("@ + trim_of(o) + ")"@),
        (probe.file("/sys/kernel/sched_ext/root/ops"@) is None && probe.file("/proc/version"@) is None)
            ==> scheduler_of(probe) == "CFS/EEVDF"@,
{
    if let Some(text) = probe.file("/proc/cpuinfo"@) {
        lemma_count_prefixed_is_filter(lines_of(text), "processor"@);
        let id = match colon_field_of(text, "vendor_id"@) {
            Some(v) => trim_of(v),
            None => Seq::empty(),
        };
        reveal_strlit("AuthenticAMD");
        reveal_strlit("GenuineIntel");
        assert(id.len() == 0 ==> id != "AuthenticAMD"@ && id != "GenuineIntel"@);
        assert("AuthenticAMD"@[0] != "GenuineIntel"@[0]);
    }
}

/// Names the scheduler in use.
pub fn detect_scheduler(probe: &Probe) -> (r: String)
    ensures
        r@ == scheduler_of(*probe),
{
    match probe.read_trimmed_lit("/sys/kernel/sched_ext/root/ops") {
        Some(s) => {
            if s.len() > 0 {
                let named = cat(&lit_cat("sched_ext (", &s), &chars_of(")"));
                return string_of(&named);
            }
        },
        None => {},
    }
    match probe.read(&chars_of("/proc/version")) {
        Some(v) => {
            if contains_lit(&v, "bore") || contains_lit(&v, "BORE") {
                string_of(&chars_of("BORE"))
            } else if contains_lit(&v, "cachyos") || contains_lit(&v, "CachyOS") {
                string_of(&chars_of("BORE (CachyOS)"))
            } else {
                string_of(&chars_of("CFS/EEVDF"))
            }
        },
        None => string_of(&chars_of("CFS/EEVDF")),
    }
}

/// Detects the CPU; `None` when `/proc/cpuinfo` is unreadable.
pub fn detect(probe: &Probe) -> (r: Option<CpuInfo>)
    ensures
        r.deep_view() == cpu_of(*probe),
{
    let text = match probe.read(&chars_of("/proc/cpuinfo")) {
        Some(t) => t,
        None => {
            return None;
        },
    };
    let ls = lines(&text);
    let threads = count_starting_with(&ls, &chars_of("processor"));
    let model = match colon_field(&ls, "model name") {
        Some(v) => trim(&v),
        None => chars_of("Unknown"),
    };
    let vendor_id = match colon_field(&ls, "vendor_id") {
        Some(v) => trim(&v),
        None => Vec::new(),
    };
    proof {
        assert(vendor_id@ == match colon_field_of(text@, "vendor_id"@) {
            Some(v) => trim_of(v),
            None => Seq::<char>::empty(),
        });
    }
    let vendor = if eq_lit(&vendor_id, "AuthenticAMD") {
        CpuVendor::Amd
    } else if eq_lit(&vendor_id, "GenuineIntel") {
        CpuVendor::Intel
    } else {
        CpuVendor::Other(string_of(&vendor_id))
    };
    let cores = match colon_field(&ls, "cpu cores") {
        Some(v) => match parse_usize(&trim(&v)) {
            Some(n) => n,
            None => threads,
        },
        None => threads,
    };
    let governor = match probe.read_trimmed_lit(
        "/sys/devices/system/cpu/cpu0/cpufreq/scaling_governor",
    ) {
        Some(g) => string_of(&g),
        None => string_of(&chars_of("unknown")),
    };
    let pstate_driver = match probe.read_trimmed_lit("/sys/devices/system/cpu/amd_pstate/status") {
        Some(d) => Some(string_of(&d)),
        None => match probe.read_trimmed_lit("/sys/devices/system/cpu/intel_pstate/status") {
            Some(d) => Some(string_of(&d)),
            None => None,
        },
    };
    let scheduler = detect_scheduler(probe);
    Some(
        CpuInfo {
            model: string_of(&model),
            cores,
            threads,
            vendor,
            governor,
            pstate_driver,
            scheduler,
        },
    )
}


/// How a CPU is shown in a scan report.
pub open spec fn cpu_text_of(c: CpuInfoView) -> Seq<char> {
    "CPU: "@ + c.model + "\n  Cores/Threads: "@ + decimal_of(c.cores as nat) + "/"@ + decimal_of(
        c.threads as nat,
    ) + "\n  Governor: "@ + c.governor + "\n"@ + match c.pstate_driver {
        Some(d) => "  P-State driver: "@ + d + "\n"@,
        None => Seq::<char>::empty(),
    } + "  Scheduler: "@ + c.scheduler
}

impl CpuInfo {
    /// The CPU as a scan report shows it.
    pub fn to_string(&self) -> (r: String)
        ensures
            r@ == cpu_text_of(self.deep_view()),
    {
        let mut v: Vec<char> = Vec::new();
        push_str(&mut v, "CPU: ");
        push_str(&mut v, self.model.as_str());
        push_str(&mut v, "\n  Cores/Threads: ");
        push_decimal(&mut v, self.cores as u64);
        push_str(&mut v, "/");
        push_decimal(&mut v, self.threads as u64);
        push_str(&mut v, "\n  Governor: ");
        push_str(&mut v, self.governor.as_str());
        push_str(&mut v, "\n");
        let ghost head = v@;
        match &self.pstate_driver {
            Some(d) => {
                push_str(&mut v, "  P-State driver: ");
                push_str(&mut v, d.as_str());
                push_str(&mut v, "\n");
            },
            None => {},
        }
        push_str(&mut v, "  Scheduler: ");
        push_str(&mut v, self.scheduler.as_str());
        assert(v@ =~= cpu_text_of(self.deep_view()));
        string_of(&v)
    }
}

} // verus!
