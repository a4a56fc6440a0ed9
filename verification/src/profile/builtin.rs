//! The profiles that ship with the tuner, as TOML text.
use vstd::prelude::*;
use crate::text::{chars_of, string_of};

verus! {

/// Balanced optimization for development workloads.
pub const DEVELOPER_TOML: &'static str = "[profile]
name = \"developer\"
description = \"Balanced optimization for development workloads (IDE, Docker, builds)\"

[[optimization]]
name = \"Inotify watches\"
description = \"Increase inotify limits for IDEs, file watchers, and dev servers\"
explanation = \"VS Code, JetBrains, webpack, vite, and other tools use inotify to watch files. The default 8192 is far too low for real projects.\"

[[optimization.sysctl]]
key = \"fs.inotify.max_user_watches\"
value = \"1048576\"

[[optimization.sysctl]]
key = \"fs.inotify.max_user_instances\"
value = \"8192\"

[[optimization]]
name = \"TCP buffer sizes\"
description = \"Increase TCP buffer limits for high-bandwidth transfers\"
explanation = \"Default max of ~212KB bottlenecks large transfers (git clone, docker pull). 16MB allows full utilization of fast connections.\"

[[optimization.sysctl]]
key = \"net.core.rmem_max\"
value = \"16777216\"

[[optimization.sysctl]]
key = \"net.core.wmem_max\"
value = \"16777216\"

[[optimization]]
name = \"TCP Fast Open\"
description = \"Enable TCP Fast Open for outgoing and incoming connections\"
explanation = \"Fast Open sends data in the opening handshake, saving a round trip on repeated connections to package registries and APIs.\"

[[optimization.sysctl]]
key = \"net.ipv4.tcp_fastopen\"
value = \"3\"

[[optimization]]
name = \"Connection handling\"
description = \"Raise the connection backlog and widen the local port range\"
explanation = \"Dev servers, test suites and container networks open many connections at once. A larger backlog and port range avoid refused or stalled connections.\"

[[optimization.sysctl]]
key = \"net.core.somaxconn\"
value = \"4096\"

[[optimization.sysctl]]
key = \"net.ipv4.ip_local_port_range\"
value = \"1024 65535\"

[[optimization]]
name = \"BBR congestion control\"
description = \"Use BBR congestion control with fair queueing\"
explanation = \"BBR keeps throughput high on lossy or long links where cubic backs off too far. Only offered when the kernel provides it.\"
requires = [\"bbr\"]

[[optimization.sysctl]]
key = \"net.core.default_qdisc\"
value = \"fq\"

[[optimization.sysctl]]
key = \"net.ipv4.tcp_congestion_control\"
value = \"bbr\"

[[optimization]]
name = \"VFS cache pressure\"
description = \"Keep directory and inode caches longer\"
explanation = \"Builds and file watchers walk large source trees repeatedly. Reclaiming dentry and inode caches less eagerly keeps those walks fast.\"

[[optimization.sysctl]]
key = \"vm.vfs_cache_pressure\"
value = \"50\"

[[optimization]]
name = \"Dirty page writeback\"
description = \"Write dirty pages back in bounded amounts\"
explanation = \"With lots of RAM the default ratios let gigabytes of dirty pages pile up and then stall the system while they flush. Fixed byte limits keep writeback smooth.\"
min_ram_mb = 8192

[[optimization.sysctl]]
key = \"vm.dirty_bytes\"
value = \"268435456\"

[[optimization.sysctl]]
key = \"vm.dirty_background_bytes\"
value = \"67108864\"

[[optimization]]
name = \"Swap readahead on NVMe\"
description = \"Read single pages from swap on NVMe storage\"
explanation = \"NVMe has no seek penalty, so reading clusters of swap pages ahead only wastes memory.\"
requires = [\"nvme\"]

[[optimization.sysctl]]
key = \"vm.page-cluster\"
value = \"0\"

[[optimization]]
name = \"Writeback for spinning disks\"
description = \"Let dirty pages age longer before writeback on hard disks\"
explanation = \"Hard disks pay a seek for every flush; batching writes over a longer window keeps builds from stalling on I/O.\"
requires = [\"hdd\"]

[[optimization.sysctl]]
key = \"vm.dirty_expire_centisecs\"
value = \"6000\"
";

/// Maximum compilation performance.
pub const COMPILE_TOML: &'static str = "[profile]
name = \"compile\"
description = \"Maximum compilation performance (parallel builds, zram tuning)\"
extends = [\"developer\"]

[[optimization]]
name = \"Swap readahead\"
description = \"Read one page at a time from swap\"
explanation = \"Compressed swap in RAM (zram) has no seek cost, so reading clusters of pages ahead only wastes memory during large parallel builds.\"

[[optimization.sysctl]]
key = \"vm.page-cluster\"
value = \"0\"

[[optimization]]
name = \"Swappiness for zram\"
description = \"Prefer swapping to compressed RAM over dropping caches\"
explanation = \"With zram, swapping out idle pages is cheaper than evicting the page cache that the compiler and linker keep rereading.\"

[[optimization.sysctl]]
key = \"vm.swappiness\"
value = \"180\"
";

/// Low-latency optimizations for gaming.
pub const GAMING_TOML: &'static str = "[profile]
name = \"gaming\"
description = \"Low-latency optimizations for gaming\"

[[optimization]]
name = \"Memory map count\"
description = \"Allow many more memory mappings per process\"
explanation = \"Some games and Proton titles create far more memory mappings than the default limit allows and crash when they run out.\"

[[optimization.sysctl]]
key = \"vm.max_map_count\"
value = \"2147483642\"

[[optimization]]
name = \"Low swappiness\"
description = \"Keep game memory in RAM\"
explanation = \"Swapping out game assets causes stutter when they are needed again.\"

[[optimization.sysctl]]
key = \"vm.swappiness\"
value = \"10\"

[[optimization]]
name = \"Split lock mitigation\"
description = \"Stop slowing down threads that trigger split locks\"
explanation = \"Some games trigger split locks on Intel CPUs; the kernel's mitigation deliberately delays those threads, which shows as stutter.\"
requires = [\"intel\"]

[[optimization.sysctl]]
key = \"kernel.split_lock_mitigate\"
value = \"0\"
";

/// Power-saving optimizations for laptops.
pub const BATTERY_TOML: &'static str = "[profile]
name = \"battery\"
description = \"Power-saving optimizations for laptop use\"

[[optimization]]
name = \"Lazy writeback\"
description = \"Wake the disk less often to write back\"
explanation = \"Grouping writes into fewer, larger flushes lets the disk and CPU stay in low-power states longer.\"

[[optimization.sysctl]]
key = \"vm.dirty_writeback_centisecs\"
value = \"1500\"

[[optimization.sysctl]]
key = \"vm.laptop_mode\"
value = \"5\"
";

/// Throughput-oriented server optimizations.
pub const SERVER_TOML: &'static str = "[profile]
name = \"server\"
description = \"Throughput-oriented server optimizations\"
extends = [\"developer\"]

[[optimization]]
name = \"Connection backlog\"
description = \"Queue more incoming packets and half-open connections\"
explanation = \"Busy servers drop connections when the receive and SYN queues overflow under bursts.\"

[[optimization.sysctl]]
key = \"net.core.netdev_max_backlog\"
value = \"16384\"

[[optimization.sysctl]]
key = \"net.ipv4.tcp_max_syn_backlog\"
value = \"8192\"

[[optimization]]
name = \"TIME_WAIT reuse\"
description = \"Reuse sockets in TIME_WAIT for new outgoing connections\"
explanation = \"Servers that open many short outgoing connections run out of local ports while old sockets sit in TIME_WAIT.\"

[[optimization.sysctl]]
key = \"net.ipv4.tcp_tw_reuse\"
value = \"1\"
";

/// The names of the profiles that ship with the tuner, in loading order.
pub open spec fn builtin_names() -> Seq<Seq<char>> {
    seq!["developer"@, "compile"@, "gaming"@, "battery"@, "server"@]
}

/// The TOML text of each profile that ships with the tuner.
pub open spec fn builtin_texts() -> Seq<Seq<char>> {
    seq![DEVELOPER_TOML@, COMPILE_TOML@, GAMING_TOML@, BATTERY_TOML@, SERVER_TOML@]
}

/// The profiles that ship with the tuner: name and TOML text, in loading
/// order.
pub fn builtin_profiles() -> (r: Vec<(String, String)>)
    ensures
        r.deep_view().len() == 5,
        forall|i: int|
            0 <= i < 5 ==> #[trigger] r.deep_view()[i] == (builtin_names()[i], builtin_texts()[i]),
{
    let mut r: Vec<(String, String)> = Vec::new();
    r.push((string_of(&chars_of("developer")), string_of(&chars_of(DEVELOPER_TOML))));
    r.push((string_of(&chars_of("compile")), string_of(&chars_of(COMPILE_TOML))));
    r.push((string_of(&chars_of("gaming")), string_of(&chars_of(GAMING_TOML))));
    r.push((string_of(&chars_of("battery")), string_of(&chars_of(BATTERY_TOML))));
    r.push((string_of(&chars_of("server")), string_of(&chars_of(SERVER_TOML))));
    assert(r.deep_view() =~= Seq::new(5, |i: int| (builtin_names()[i], builtin_texts()[i])));
    r
}

} // verus!
