use tuxtune::detect::disk::extract_block_device;
use tuxtune::detect::memory::parse_meminfo_field;
use tuxtune::detect::network::format_bytes;
use tuxtune::detect::{read_file_trimmed, read_sysctl, scan_system, CpuVendor, DiskKind, GpuVendor, ScanError};
use tuxtune::probe::Probe;

fn probe(files: &[(&str, &str)], services: &[(&str, &str)], gpu_infos: &[&str]) -> Probe {
    Probe {
        files: files.iter().map(|(p, c)| (p.to_string(), c.to_string())).collect(),
        services: services.iter().map(|(n, o)| (n.to_string(), o.to_string())).collect(),
        gpu_infos: gpu_infos.iter().map(|s| s.to_string()).collect(),
    }
}

fn cpuinfo(threads: usize) -> String {
    let mut s = String::new();
    for i in 0..threads {
        s.push_str(&format!(
            "processor\t: {i}\nvendor_id\t: AuthenticAMD\nmodel name\t: AMD Ryzen 7 7435HS\ncpu cores\t: 8\n\n"
        ));
    }
    s
}

const MEMINFO: &str = "MemTotal:       24275000 kB\nMemFree:         1000000 kB\nMemAvailable:    9949184 kB\nSwapTotal:      12582908 kB\n";

const MOUNTS: &str = "/dev/nvme0n1p2 / btrfs rw,noatime,compress=zstd:3 0 0\n\
proc /proc proc rw,nosuid 0 0\n\
/dev/nvme0n1p1 /boot vfat rw,relatime 0 0\n\
/dev/loop0 /snap/core squashfs ro 0 0\n\
/dev/nvme0n1p2 /home btrfs rw,noatime 0 0\n\
/dev/sda1 /data ext4 rw 0 0\n";

fn host_files(cpu: &str) -> Vec<(String, String)> {
    let files: Vec<(&str, &str)> = vec![
        ("/proc/cpuinfo", cpu),
        ("/proc/meminfo", MEMINFO),
        ("/proc/mounts", MOUNTS),
        ("/proc/version", "Linux version 6.19.0-2-cachyos (gcc 15) #1 SMP PREEMPT_DYNAMIC\n"),
        ("/etc/hostname", "omarchy\n"),
        ("/sys/devices/system/cpu/cpu0/cpufreq/scaling_governor", "powersave\n"),
        ("/sys/block/zram0/disksize", "4294967296\n"),
        ("/sys/block/zram0/comp_algorithm", "lzo lzo-rle lz4 [zstd]\n"),
        ("/proc/sys/vm/swappiness", "80\n"),
        ("/proc/sys/vm/vfs_cache_pressure", "100\n"),
        ("/proc/sys/net/ipv4/tcp_congestion_control", "cubic\n"),
        ("/proc/sys/net/ipv4/tcp_fastopen", "3\n"),
        ("/proc/sys/net/core/rmem_max", "16777216\n"),
        ("/proc/sys/net/core/wmem_max", "16777216\n"),
        ("/proc/sys/net/core/somaxconn", "4096\n"),
        ("/proc/sys/net/ipv4/tcp_tw_reuse", "2\n"),
        ("/proc/sys/net/ipv4/ip_local_port_range", "32768\t60999\n"),
        ("/sys/block/nvme0n1/queue/scheduler", "[none] mq-deadline kyber\n"),
        ("/sys/block/nvme0n1/size", "1000215216\n"),
        ("/sys/block/sda/queue/rotational", "1\n"),
        ("/sys/block/sda/queue/scheduler", "mq-deadline [bfq] none\n"),
        ("/sys/block/sda/size", "3907029168\n"),
    ];
    files.iter().map(|(p, c)| (p.to_string(), c.to_string())).collect()
}

fn host() -> Probe {
    let cpu = cpuinfo(16);
    Probe { files: host_files(&cpu), services: vec![], gpu_infos: vec![] }
}

#[test]
fn block_device_of_nvme_partition() {
    assert_eq!(extract_block_device("/dev/nvme0n1p2"), "nvme0n1");
    assert_eq!(extract_block_device("/dev/nvme1n1p10"), "nvme1n1");
}

#[test]
fn block_device_of_sata_partition() {
    assert_eq!(extract_block_device("/dev/sda1"), "sda");
    assert_eq!(extract_block_device("/dev/sdb12"), "sdb");
    assert_eq!(extract_block_device("/dev/sdc"), "sdc");
}

#[test]
fn block_device_of_mapper_and_odd_names() {
    assert_eq!(extract_block_device("/dev/mapper/cryptroot"), "cryptroot");
    assert_eq!(extract_block_device("/dev/dm-0"), "dm-0");
    assert_eq!(extract_block_device("/dev/dm-12"), "dm-12");
    assert_eq!(extract_block_device("/dev/mmcblk0p1"), "mmcblk0p");
    // A whole NVMe namespace has no `p` suffix: only trailing digits go.
    assert_eq!(extract_block_device("/dev/nvme0n1"), "nvme0n");
    // `/dev/` is stripped as often as it repeats.
    assert_eq!(extract_block_device("/dev//dev/sda2"), "sda");
}

#[test]
fn meminfo_fields() {
    assert_eq!(parse_meminfo_field(MEMINFO, "MemTotal"), Some(24275000));
    assert_eq!(parse_meminfo_field(MEMINFO, "MemAvailable"), Some(9949184));
    assert_eq!(parse_meminfo_field(MEMINFO, "SwapTotal"), Some(12582908));
    assert_eq!(parse_meminfo_field(MEMINFO, "Hugepagesize"), None);
    assert_eq!(parse_meminfo_field("MemTotal: lots kB\n", "MemTotal"), None);
    assert_eq!(parse_meminfo_field("MemTotal:\n", "MemTotal"), None);
    // The first line that starts with the field counts.
    assert_eq!(parse_meminfo_field("MemTotalX: 5 kB\nMemTotal: 7 kB\n", "MemTotal"), Some(5));
}

#[test]
fn byte_counts_in_largest_unit() {
    assert_eq!(format_bytes(0), "0 B");
    assert_eq!(format_bytes(1023), "1023 B");
    assert_eq!(format_bytes(1024), "1 KB");
    assert_eq!(format_bytes(212992), "208 KB");
    assert_eq!(format_bytes(1048575), "1023 KB");
    assert_eq!(format_bytes(1048576), "1 MB");
    assert_eq!(format_bytes(16777216), "16 MB");
}

#[test]
fn sysctl_reads_are_trimmed() {
    let p = host();
    assert_eq!(read_sysctl(&p, "vm.swappiness"), Some("80".to_string()));
    assert_eq!(read_sysctl(&p, "net.ipv4.ip_local_port_range"), Some("32768\t60999".to_string()));
    assert_eq!(read_sysctl(&p, "vm.dirty_bytes"), None);
    assert_eq!(read_file_trimmed(&p, "/etc/hostname"), Some("omarchy".to_string()));
    assert_eq!(read_file_trimmed(&p, "/etc/missing"), None);
}

#[test]
fn scan_reads_cpu_and_memory() {
    let sys = scan_system(&host()).unwrap();
    assert_eq!(sys.cpu.model, "AMD Ryzen 7 7435HS");
    assert_eq!(sys.cpu.cores, 8);
    assert_eq!(sys.cpu.threads, 16);
    assert_eq!(sys.cpu.vendor, CpuVendor::Amd);
    assert_eq!(sys.cpu.governor, "powersave");
    assert_eq!(sys.cpu.pstate_driver, None);
    assert_eq!(sys.cpu.scheduler, "BORE (CachyOS)");
    assert_eq!(sys.memory.total_mb, 23706);
    assert_eq!(sys.memory.available_mb, 9716);
    assert_eq!(sys.memory.swap_total_mb, 12287);
    assert!(sys.memory.zram_enabled);
    assert_eq!(sys.memory.zram_size_mb, 4096);
    assert_eq!(sys.memory.zram_algorithm, "zstd");
    assert_eq!(sys.memory.swappiness, 80);
    assert_eq!(sys.memory.vfs_cache_pressure, 100);
    assert_eq!(sys.memory.dirty_bytes, 0);
    assert_eq!(sys.kernel, "6.19.0-2-cachyos");
    assert_eq!(sys.hostname, "omarchy");
    assert!(sys.gpu.is_none());
}

#[test]
fn scan_reads_network() {
    let sys = scan_system(&host()).unwrap();
    assert_eq!(sys.network.congestion_control, "cubic");
    assert_eq!(sys.network.tcp_fastopen, 3);
    assert_eq!(sys.network.rmem_max, 16777216);
    assert_eq!(sys.network.wmem_max, 16777216);
    assert_eq!(sys.network.somaxconn, 4096);
    assert!(sys.network.tw_reuse);
    assert_eq!(sys.network.local_port_range, "32768\t60999");
}

#[test]
fn scan_lists_disks_by_mount_point_once_each() {
    let sys = scan_system(&host()).unwrap();
    let mounts: Vec<&str> = sys.disks.iter().map(|d| d.mount_point.as_str()).collect();
    assert_eq!(mounts, vec!["/", "/boot", "/data", "/home"]);
    let root = &sys.disks[0];
    assert_eq!(root.name, "nvme0n1");
    assert_eq!(root.kind, DiskKind::Nvme);
    assert_eq!(root.filesystem, "btrfs");
    assert_eq!(root.scheduler, "none");
    assert_eq!(root.mount_options, vec!["rw", "noatime", "compress=zstd:3"]);
    assert_eq!(root.size_gb, 476);
    let data = &sys.disks[2];
    assert_eq!(data.name, "sda");
    assert_eq!(data.kind, DiskKind::Hdd);
    assert_eq!(data.scheduler, "bfq");
    assert_eq!(data.size_gb, 1863);
}

#[test]
fn scan_defaults_where_files_are_missing() {
    let cpu = "processor : 0\nprocessor : 1\n";
    let p = probe(
        &[("/proc/cpuinfo", cpu), ("/proc/meminfo", ""), ("/proc/mounts", "")],
        &[],
        &[],
    );
    let sys = scan_system(&p).unwrap();
    assert_eq!(sys.cpu.model, "Unknown");
    assert_eq!(sys.cpu.threads, 2);
    assert_eq!(sys.cpu.cores, 2);
    assert_eq!(sys.cpu.vendor, CpuVendor::Other(String::new()));
    assert_eq!(sys.cpu.governor, "unknown");
    assert_eq!(sys.cpu.scheduler, "CFS/EEVDF");
    assert_eq!(sys.memory.total_mb, 0);
    assert!(!sys.memory.zram_enabled);
    assert_eq!(sys.memory.zram_algorithm, "none");
    assert_eq!(sys.memory.swappiness, 60);
    assert_eq!(sys.memory.vfs_cache_pressure, 100);
    assert_eq!(sys.network.congestion_control, "unknown");
    assert_eq!(sys.network.local_port_range, "unknown");
    assert!(!sys.network.tw_reuse);
    assert!(sys.disks.is_empty());
    assert_eq!(sys.kernel, "unknown");
    assert_eq!(sys.hostname, "unknown");
}

#[test]
fn scan_fails_on_missing_cpuinfo() {
    let p = probe(&[("/proc/meminfo", MEMINFO), ("/proc/mounts", MOUNTS)], &[], &[]);
    match scan_system(&p) {
        Err(ScanError::Unreadable { path }) => assert_eq!(path, "/proc/cpuinfo"),
        Ok(_) => panic!("scan should fail"),
    }
}

#[test]
fn scan_fails_on_missing_meminfo() {
    let p = probe(&[("/proc/cpuinfo", "processor : 0\n"), ("/proc/mounts", MOUNTS)], &[], &[]);
    match scan_system(&p) {
        Err(ScanError::Unreadable { path }) => assert_eq!(path, "/proc/meminfo"),
        Ok(_) => panic!("scan should fail"),
    }
}

#[test]
fn scan_fails_on_missing_mounts() {
    let p = probe(&[("/proc/cpuinfo", "processor : 0\n"), ("/proc/meminfo", MEMINFO)], &[], &[]);
    match scan_system(&p) {
        Err(ScanError::Unreadable { path }) => assert_eq!(path, "/proc/mounts"),
        Ok(_) => panic!("scan should fail"),
    }
}

#[test]
fn scheduler_detection() {
    let cases: Vec<(Vec<(&str, &str)>, &str)> = vec![
        (vec![("/sys/kernel/sched_ext/root/ops", "rusty\n")], "sched_ext (rusty)"),
        (vec![("/sys/kernel/sched_ext/root/ops", "  \n"), ("/proc/version", "Linux 6.9-bore")], "BORE"),
        (vec![("/proc/version", "Linux version 6.9.1-CachyOS")], "BORE (CachyOS)"),
        (vec![("/proc/version", "Linux version 6.9.1-arch1")], "CFS/EEVDF"),
    ];
    for (extra, expected) in cases {
        let mut files = vec![("/proc/cpuinfo", "processor : 0\n"), ("/proc/meminfo", ""), ("/proc/mounts", "")];
        files.extend(extra);
        let sys = scan_system(&probe(&files, &[], &[])).unwrap();
        assert_eq!(sys.cpu.scheduler, expected);
    }
}

#[test]
fn pstate_prefers_amd_then_intel() {
    let base = vec![("/proc/cpuinfo", "vendor_id : GenuineIntel\n"), ("/proc/meminfo", ""), ("/proc/mounts", "")];
    let mut intel = base.clone();
    intel.push(("/sys/devices/system/cpu/intel_pstate/status", "active\n"));
    let sys = scan_system(&probe(&intel, &[], &[])).unwrap();
    assert_eq!(sys.cpu.vendor, CpuVendor::Intel);
    assert_eq!(sys.cpu.pstate_driver, Some("active".to_string()));
    let mut both = intel.clone();
    both.push(("/sys/devices/system/cpu/amd_pstate/status", "guided\n"));
    let sys = scan_system(&probe(&both, &[], &[])).unwrap();
    assert_eq!(sys.cpu.pstate_driver, Some("guided".to_string()));
}

#[test]
fn nvidia_gpu_detection() {
    let mut files = vec![
        ("/proc/cpuinfo", "processor : 0\n"),
        ("/proc/meminfo", ""),
        ("/proc/mounts", ""),
        (
            "/proc/driver/nvidia/version",
            "NVRM version: NVIDIA UNIX x86_64 Kernel Module  570.133.07  Release Build\nGCC version: gcc 14\n",
        ),
        ("/proc/driver/nvidia/params", "EnableGpuFirmware: 18\nPreserveVideoMemoryAllocations: 1\n"),
    ];
    let services = [("nvidia-suspend", "enabled\n"), ("nvidia-resume", "enabled\n"), ("nvidia-hibernate", "disabled\n")];
    let infos = ["Model: \t\t NVIDIA GeForce RTX 4060 Laptop GPU\nIRQ: 100\n"];
    let sys = scan_system(&probe(&files, &services, &infos)).unwrap();
    let gpu = sys.gpu.unwrap();
    assert_eq!(gpu.vendor, GpuVendor::Nvidia);
    assert_eq!(gpu.driver_version, "570.133.07");
    assert_eq!(gpu.model, "NVIDIA GeForce RTX 4060 Laptop GPU");
    assert!(gpu.preserve_vram);
    assert!(!gpu.suspend_services_enabled);

    files.retain(|(p, _)| *p != "/proc/driver/nvidia/params");
    let sys = scan_system(&probe(&files, &[], &[])).unwrap();
    let gpu = sys.gpu.unwrap();
    assert_eq!(gpu.model, "NVIDIA GPU");
    assert!(!gpu.preserve_vram);
    assert!(!gpu.suspend_services_enabled);
}

#[test]
fn scan_report_text() {
    let sys = scan_system(&host()).unwrap();
    let text = sys.to_string();
    assert!(text.starts_with("System: omarchy (kernel 6.19.0-2-cachyos)\n\n"));
    assert!(text.contains(
        "CPU: AMD Ryzen 7 7435HS\n  Cores/Threads: 8/16\n  Governor: powersave\n  Scheduler: BORE (CachyOS)\n"
    ));
    assert!(text.contains(
        "Memory: 23706 MB total, 9716 MB available\n  Swap: 12287 MB (zram: 4096 MB, zstd)\n  Swappiness: 80\n"
    ));
    assert!(text.contains(
        "Disk: nvme0n1 (NVMe, 476 GB, btrfs)\n  Mount: / [none]\n  Options: rw,noatime,compress=zstd:3\n"
    ));
    assert!(text.ends_with(
        "Network:\n  Congestion control: cubic\n  TCP Fast Open: 3\n  Buffer max (r/w): 16 MB / 16 MB"
    ));
}

#[test]
fn parts_of_the_report() {
    let sys = scan_system(&host()).unwrap();
    assert_eq!(sys.disks[2].kind.to_string(), "HDD");
    assert_eq!(DiskKind::Ssd.to_string(), "SSD");
    assert_eq!(DiskKind::Unknown.to_string(), "Unknown");
    let mut cpu = sys.cpu.clone();
    cpu.pstate_driver = Some("active".to_string());
    assert_eq!(
        cpu.to_string(),
        "CPU: AMD Ryzen 7 7435HS\n  Cores/Threads: 8/16\n  Governor: powersave\n  P-State driver: active\n  Scheduler: BORE (CachyOS)"
    );
    let mut mem = sys.memory.clone();
    mem.zram_enabled = false;
    assert!(mem.to_string().contains("  Swap: 12287 MB (zram: disabled)\n"));
}

#[test]
fn gpu_report_text() {
    let files = vec![
        ("/proc/cpuinfo", "processor : 0\n"),
        ("/proc/meminfo", ""),
        ("/proc/mounts", ""),
        ("/proc/driver/nvidia/version", "NVRM version: NVIDIA Kernel Module  550.1  Release\n"),
    ];
    let sys = scan_system(&probe(&files, &[], &[])).unwrap();
    let gpu = sys.gpu.clone().unwrap();
    assert_eq!(
        gpu.to_string(),
        "GPU: NVIDIA GPU\n  Driver: 550.1\n  VRAM preservation: DISABLED\n  Suspend services: DISABLED"
    );
    let mut other = gpu.clone();
    other.vendor = GpuVendor::Amd;
    assert_eq!(other.to_string(), "GPU: NVIDIA GPU\n  Driver: 550.1\n");
    assert!(sys.to_string().contains("  Suspend services: DISABLED\nNetwork:\n"));
}

#[test]
fn scan_report_matches_the_readme_sample() {
    let cpu = cpuinfo(16);
    let mut files = host_files(&cpu);
    files.retain(|(p, _)| p != "/proc/mounts");
    files.insert(0, ("/proc/mounts".to_string(), String::new()));
    let sys = scan_system(&Probe { files, services: vec![], gpu_infos: vec![] }).unwrap();
    assert_eq!(
        sys.to_string(),
        "System: omarchy (kernel 6.19.0-2-cachyos)\n\nCPU: AMD Ryzen 7 7435HS\n  Cores/Threads: 8/16\n  Governor: powersave\n  Scheduler: BORE (CachyOS)\nMemory: 23706 MB total, 9716 MB available\n  Swap: 12287 MB (zram: 4096 MB, zstd)\n  Swappiness: 80\nNetwork:\n  Congestion control: cubic\n  TCP Fast Open: 3\n  Buffer max (r/w): 16 MB / 16 MB"
    );
}
