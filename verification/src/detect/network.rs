//! The TCP stack configuration.
use vstd::prelude::*;
use crate::probe::{sysctl_path_of, Probe};
use crate::text::{
    cat, chars_of, decimal, decimal_of, eq_lit, parse_u32_of, parse_u64_of, push_decimal, push_str,
    string_of, trim_of,
};
use super::{sysctl_text, sysctl_text_or, sysctl_u32, sysctl_u32_or, sysctl_u64, sysctl_u64_or};

verus! {

/// What is known about the network stack.
#[derive(Debug, Clone)]
pub struct NetworkInfo {
    pub congestion_control: String,
    pub tcp_fastopen: u32,
    pub rmem_max: u64,
    pub wmem_max: u64,
    pub somaxconn: u32,
    pub tw_reuse: bool,
    pub local_port_range: String,
}

/// The mathematical value of a `NetworkInfo`.
pub struct NetworkInfoView {
    pub congestion_control: Seq<char>,
    pub tcp_fastopen: u32,
    pub rmem_max: u64,
    pub wmem_max: u64,
    pub somaxconn: u32,
    pub tw_reuse: bool,
    pub local_port_range: Seq<char>,
}

impl DeepView for NetworkInfo {
    type V = NetworkInfoView;

    open spec fn deep_view(&self) -> NetworkInfoView {
        NetworkInfoView {
            congestion_control: self.congestion_control@,
            tcp_fastopen: self.tcp_fastopen,
            rmem_max: self.rmem_max,
            wmem_max: self.wmem_max,
            somaxconn: self.somaxconn,
            tw_reuse: self.tw_reuse,
            local_port_range: self.local_port_range@,
        }
    }
}

/// A byte count in whole megabytes, kilobytes or bytes, whichever is the
/// largest unit it reaches.
pub open spec fn format_bytes_of(bytes: u64) -> Seq<char> {
    if bytes >= 1024 * 1024 {
        decimal_of((bytes / 1024 / 1024) as nat) + " MB"@
    } else if bytes >= 1024 {
        decimal_of((bytes / 1024) as nat) + " KB"@
    } else {
        decimal_of(bytes as nat) + " B"@
    }
}

/// Renders a byte count in MB, KB or B.
pub fn format_bytes(bytes: u64) -> (r: String)
    ensures
        r@ == format_bytes_of(bytes),
{
    let v = if bytes >= 1024 * 1024 {
        cat(&decimal(bytes / 1024 / 1024), &chars_of(" MB"))
    } else if bytes >= 1024 {
        cat(&decimal(bytes / 1024), &chars_of(" KB"))
    } else {
        cat(&decimal(bytes), &chars_of(" B"))
    };
    string_of(&v)
}

/// Whether TIME_WAIT reuse is on: the sysctl reads `1` or `2`.
pub open spec fn tw_reuse_of(probe: Probe) -> bool {
    match probe.sysctl("net.ipv4.tcp_tw_reuse"@) {
        Some(s) => s == "1"@ || s == "2"@,
        None => false,
    }
}

/// The network stack as its sysctls describe it.
pub open spec fn network_of(probe: Probe) -> NetworkInfoView {
    NetworkInfoView {
        congestion_control: sysctl_text_or(probe, "net.ipv4.tcp_congestion_control"@, "unknown"@),
        tcp_fastopen: sysctl_u32_or(probe, "net.ipv4.tcp_fastopen"@, 0),
        rmem_max: sysctl_u64_or(probe, "net.core.rmem_max"@, 0),
        wmem_max: sysctl_u64_or(probe, "net.core.wmem_max"@, 0),
        somaxconn: sysctl_u32_or(probe, "net.core.somaxconn"@, 0),
        tw_reuse: tw_reuse_of(probe),
        local_port_range: sysctl_text_or(probe, "net.ipv4.ip_local_port_range"@, "unknown"@),
    }
}

/// Detects the network stack configuration.
pub fn detect(probe: &Probe) -> (r: NetworkInfo)
    ensures
        r.deep_view() == network_of(*probe),
{
    let tw_reuse = match probe.sysctl_chars(&chars_of("net.ipv4.tcp_tw_reuse")) {
        Some(s) => eq_lit(&s, "1") || eq_lit(&s, "2"),
        None => false,
    };
    NetworkInfo {
        congestion_control: sysctl_text(probe, "net.ipv4.tcp_congestion_control", "unknown"),
        tcp_fastopen: sysctl_u32(probe, "net.ipv4.tcp_fastopen", 0),
        rmem_max: sysctl_u64(probe, "net.core.rmem_max", 0),
        wmem_max: sysctl_u64(probe, "net.core.wmem_max", 0),
        somaxconn: sysctl_u32(probe, "net.core.somaxconn", 0),
        tw_reuse,
        local_port_range: sysctl_text(probe, "net.ipv4.ip_local_port_range", "unknown"),
    }
}


/// How the network stack is shown in a scan report: congestion control,
/// TCP Fast Open and the socket buffer limits.
pub open spec fn network_text_of(n: NetworkInfoView) -> Seq<char> {
    "Network:\n  Congestion control: "@ + n.congestion_control + "\n  TCP Fast Open: "@ + decimal_of(
        n.tcp_fastopen as nat,
    ) + "\n  Buffer max (r/w): "@ + format_bytes_of(n.rmem_max) + " / "@ + format_bytes_of(
        n.wmem_max,
    )
}

impl NetworkInfo {
    /// The network stack as a scan report shows it.
    pub fn to_string(&self) -> (r: String)
        ensures
            r@ == network_text_of(self.deep_view()),
    {
        let mut v: Vec<char> = Vec::new();
        push_str(&mut v, "Network:\n  Congestion control: ");
        push_str(&mut v, self.congestion_control.as_str());
        push_str(&mut v, "\n  TCP Fast Open: ");
        push_decimal(&mut v, self.tcp_fastopen as u64);
        push_str(&mut v, "\n  Buffer max (r/w): ");
        push_str(&mut v, format_bytes(self.rmem_max).as_str());
        push_str(&mut v, " / ");
        push_str(&mut v, format_bytes(self.wmem_max).as_str());
        assert(v@ =~= network_text_of(self.deep_view()));
        string_of(&v)
    }
}

/// The network stack is read from the sysctl files under `/proc/sys/net`,
/// trimmed: TIME_WAIT reuse is on exactly when `tcp_tw_reuse` reads `1` or
/// `2`; numbers are parsed, 0 where a file is unreadable or does not parse;
/// texts are taken as they read, `unknown` where unreadable.
pub proof fn lemma_network_from_sysctl_files(probe: Probe)
    ensures
        network_of(probe).tw_reuse == match probe.file("/proc/sys/net/ipv4/tcp_tw_reuse"@) {
            Some(t) => trim_of(t) == "1"@ || trim_of(t) == "2"@,
            None => false,
        },
        network_of(probe).tcp_fastopen == match probe.file("/proc/sys/net/ipv4/tcp_fastopen"@) {
            Some(t) => match parse_u32_of(trim_of(t)) {
                Some(n) => n,
                None => 0u32,
            },
            None => 0u32,
        },
        network_of(probe).rmem_max == match probe.file("/proc/sys/net/core/rmem_max"@) {
            Some(t) => match parse_u64_of(trim_of(t)) {
                Some(n) => n,
                None => 0u64,
            },
            None => 0u64,
        },
        network_of(probe).wmem_max == match probe.file("/proc/sys/net/core/wmem_max"@) {
            Some(t) => match parse_u64_of(trim_of(t)) {
                Some(n) => n,
                None => 0u64,
            },
            None => 0u64,
        },
        network_of(probe).somaxconn == match probe.file("/proc/sys/net/core/somaxconn"@) {
            Some(t) => match parse_u32_of(trim_of(t)) {
                Some(n) => n,
                None => 0u32,
            },
            None => 0u32,
        },
        network_of(probe).congestion_control == match probe.file(
            "/proc/sys/net/ipv4/tcp_congestion_control"@,
        ) {
            Some(t) => trim_of(t),
            None => "unknown"@,
        },
        network_of(probe).local_port_range == match probe.file(
            "/proc/sys/net/ipv4/ip_local_port_range"@,
        ) {
            Some(t) => trim_of(t),
            None => "unknown"@,
        },
{
    reveal_strlit("/proc/sys/");
    reveal_strlit("net.ipv4.tcp_tw_reuse");
    reveal_strlit("/proc/sys/net/ipv4/tcp_tw_reuse");
    assert(sysctl_path_of("net.ipv4.tcp_tw_reuse"@) =~= "/proc/sys/net/ipv4/tcp_tw_reuse"@);
    reveal_strlit("net.ipv4.tcp_fastopen");
    reveal_strlit("/proc/sys/net/ipv4/tcp_fastopen");
    assert(sysctl_path_of("net.ipv4.tcp_fastopen"@) =~= "/proc/sys/net/ipv4/tcp_fastopen"@);
    reveal_strlit("net.core.rmem_max");
    reveal_strlit("/proc/sys/net/core/rmem_max");
    assert(sysctl_path_of("net.core.rmem_max"@) =~= "/proc/sys/net/core/rmem_max"@);
    reveal_strlit("net.core.wmem_max");
    reveal_strlit("/proc/sys/net/core/wmem_max");
    assert(sysctl_path_of("net.core.wmem_max"@) =~= "/proc/sys/net/core/wmem_max"@);
    reveal_strlit("net.core.somaxconn");
    reveal_strlit("/proc/sys/net/core/somaxconn");
    assert(sysctl_path_of("net.core.somaxconn"@) =~= "/proc/sys/net/core/somaxconn"@);
    reveal_strlit("net.ipv4.tcp_congestion_control");
    reveal_strlit("/proc/sys/net/ipv4/tcp_congestion_control");
    assert(sysctl_path_of("net.ipv4.tcp_congestion_control"@)
        =~= "/proc/sys/net/ipv4/tcp_congestion_control"@);
    reveal_strlit("net.ipv4.ip_local_port_range");
    reveal_strlit("/proc/sys/net/ipv4/ip_local_port_range");
    assert(sysctl_path_of("net.ipv4.ip_local_port_range"@) =~= "/proc/sys/net/ipv4/ip_local_port_range"@);
}

} // verus!
