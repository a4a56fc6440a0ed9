use tuxtune::detect::{scan_system, DiskInfo, DiskKind, SystemInfo};
use tuxtune::optimize::{Category, Change, ChangeKind, Optimization};
use tuxtune::probe::Probe;
use tuxtune::profile::{OptimizationToml, ProfileMeta, ProfileToml, SysctlEntry};
use tuxtune::tui::app::{applied_outcome, App, ApplyOutcome, OptEntry, Tab};
use tuxtune::tui::view::{
    cpu_lines, detail_lines, disk_lines, host_lines, memory_lines, network_lines, optimization_items,
    optimizations_title, profile_items, status_line, Look,
};

fn probe() -> Probe {
    let files = vec![
        ("/proc/cpuinfo", "processor : 0\nprocessor : 1\nmodel name : Test CPU\n"),
        ("/proc/meminfo", "MemTotal: 16000000 kB\nMemAvailable: 8000000 kB\nSwapTotal: 1048576 kB\n"),
        ("/proc/mounts", "/dev/sda2 / ext4 rw,relatime 0 0\n"),
        ("/proc/sys/vm/swappiness", "60\n"),
        ("/proc/sys/net/core/rmem_max", "212992\n"),
        ("/proc/sys/net/core/wmem_max", "212992\n"),
        ("/proc/sys/net/ipv4/tcp_tw_reuse", "0\n"),
    ];
    Probe {
        files: files.iter().map(|(p, c)| (p.to_string(), c.to_string())).collect(),
        services: vec![],
        gpu_infos: vec![],
    }
}

fn opt_toml(name: &str, key: &str) -> OptimizationToml {
    OptimizationToml {
        name: name.to_string(),
        description: format!("{name} description"),
        explanation: format!("{name} explanation"),
        requires: vec![],
        min_ram_mb: None,
        sysctl: vec![SysctlEntry { key: key.to_string(), value: "1".to_string() }],
    }
}

fn profiles() -> Vec<(String, ProfileToml)> {
    let make = |name: &str, desc: &str, opts: Vec<OptimizationToml>| {
        (
            name.to_string(),
            ProfileToml {
                profile: ProfileMeta { name: name.to_string(), description: desc.to_string(), extends: vec![] },
                optimization: opts,
            },
        )
    };
    vec![
        make("developer", "Balanced", vec![opt_toml("One", "vm.one"), opt_toml("Two", "vm.swappiness")]),
        make("gaming", "Fast", vec![opt_toml("Three", "vm.three")]),
        make("battery", "Slow", vec![]),
    ]
}

fn system() -> SystemInfo {
    scan_system(&probe()).unwrap()
}

fn app() -> App {
    App::new(system(), &profiles(), &probe())
}

#[test]
fn new_view_starts_on_system_tab_with_first_profile() {
    let a = app();
    assert_eq!(a.tab, Tab::System);
    assert_eq!(a.tab_index, 0);
    assert_eq!(a.selected, 0);
    assert_eq!(a.profile_index, 0);
    assert_eq!(a.profiles[1], ("gaming".to_string(), "Fast".to_string()));
    let names: Vec<&str> = a.optimizations.iter().map(|e| e.optimization.name.as_str()).collect();
    assert_eq!(names, vec!["One", "Two"]);
    assert!(a.optimizations.iter().all(|e| e.enabled));
    assert_eq!(a.status_message, "Press 'a' to apply, Space to toggle, Tab to switch views, 'q' to quit");
}

#[test]
fn tabs_cycle_both_ways() {
    let mut a = app();
    a.selected = 1;
    a.next_tab();
    assert_eq!((a.tab, a.tab_index, a.selected), (Tab::Optimizations, 1, 0));
    a.next_tab();
    assert_eq!(a.tab, Tab::Profiles);
    a.next_tab();
    assert_eq!((a.tab, a.tab_index), (Tab::System, 0));
    a.prev_tab();
    assert_eq!((a.tab, a.tab_index), (Tab::Profiles, 2));
    a.prev_tab();
    assert_eq!(a.tab, Tab::Optimizations);
    a.next_tab();
    a.prev_tab();
    assert_eq!(a.tab, Tab::Optimizations);
}

#[test]
fn tab_titles() {
    assert_eq!(Tab::System.title(), "System");
    assert_eq!(Tab::Optimizations.title(), "Optimizations");
    assert_eq!(Tab::Profiles.title(), "Profiles");
    assert_eq!(Tab::at(2), Tab::Profiles);
    assert_eq!(Tab::COUNT, 3);
}

#[test]
fn cursor_stays_within_the_tab() {
    let mut a = app();
    a.scroll_down();
    assert_eq!(a.selected, 0, "the System tab has one position");
    a.scroll_up();
    assert_eq!(a.selected, 0);
    a.next_tab();
    a.scroll_down();
    a.scroll_down();
    a.scroll_down();
    assert_eq!(a.selected, 1, "two optimizations");
    a.scroll_up();
    a.scroll_up();
    assert_eq!(a.selected, 0);
    a.next_tab();
    for _ in 0..5 {
        a.scroll_down();
    }
    assert_eq!(a.selected, 2, "three profiles");
}

#[test]
fn toggle_only_on_the_optimizations_tab() {
    let mut a = app();
    a.toggle_selected();
    assert!(a.optimizations[0].enabled);
    a.next_tab();
    a.scroll_down();
    a.toggle_selected();
    assert!(a.optimizations[0].enabled);
    assert!(!a.optimizations[1].enabled);
    a.toggle_selected();
    assert!(a.optimizations[1].enabled);
}

#[test]
fn apply_hands_out_the_enabled_optimizations() {
    let mut a = app();
    a.next_tab();
    a.toggle_selected();
    let chosen = a.apply_selected().unwrap();
    assert_eq!(chosen.len(), 1);
    assert_eq!(chosen[0].name, "Two");
    a.scroll_down();
    a.toggle_selected();
    assert!(a.apply_selected().is_none());
    assert_eq!(a.status_message, "No optimizations selected");
}

#[test]
fn apply_outcome_sets_status() {
    let mut a = app();
    a.record_apply(ApplyOutcome::Applied {
        applied: 3,
        failed: 1,
        snapshot_path: "/s/snapshot_t.json".to_string(),
    });
    assert_eq!(a.status_message, "Applied 3 optimizations (1 failed). Snapshot: /s/snapshot_t.json");
    a.record_apply(ApplyOutcome::SnapshotFailed { error: "Permission denied".to_string() });
    assert_eq!(a.status_message, "Snapshot failed: Permission denied");
}

#[test]
fn cycling_profiles_wraps_and_reenables() {
    let mut a = app();
    a.next_tab();
    a.toggle_selected();
    a.scroll_down();
    a.cycle_profile(&profiles(), &probe());
    assert_eq!(a.profile_index, 1);
    assert_eq!(a.selected, 0);
    assert_eq!(a.status_message, "Profile: gaming");
    assert_eq!(a.optimizations.len(), 1);
    assert!(a.optimizations[0].enabled);
    a.cycle_profile(&profiles(), &probe());
    assert!(a.optimizations.is_empty());
    a.cycle_profile(&profiles(), &probe());
    assert_eq!(a.profile_index, 0);
    assert_eq!(a.optimizations.len(), 2);
    assert_eq!(a.optimizations[1].optimization.changes[0].current_value, Some("60".to_string()));
}

#[test]
fn rescan_replaces_the_system() {
    let mut a = app();
    let mut sys = system();
    sys.hostname = "other".to_string();
    a.rescan(sys);
    assert_eq!(a.system.hostname, "other");
    assert_eq!(a.status_message, "System rescanned");
}

#[test]
fn system_panels() {
    let sys = system();
    assert_eq!(
        cpu_lines(&sys.cpu),
        vec!["  Model: Test CPU", "  Cores/Threads: 2/2", "  Governor: unknown", "  Scheduler: CFS/EEVDF", "  P-State: not available"]
    );
    assert_eq!(
        memory_lines(&sys.memory),
        vec!["  Available: 7812 MB", "  Swap: 1024 MB", "  Zram: disabled", "  Swappiness: 60", "  VFS cache pressure: 100"]
    );
    assert_eq!(host_lines(&sys), vec!["  Kernel: unknown", "  Hostname: unknown"]);
    assert_eq!(
        network_lines(&sys.network),
        vec![
            "  Congestion: unknown",
            "  TCP Fast Open: 0",
            "  Buffers (r/w): 208 KB / 208 KB",
            "  somaxconn: 0",
            "  TIME_WAIT reuse: no",
            "  Port range: unknown",
        ]
    );
    let lines = disk_lines(&sys.disks);
    let texts: Vec<&str> = lines.iter().map(|l| l.text.as_str()).collect();
    assert_eq!(texts, vec!["  sda (Unknown, 0 GB) -> /", "    FS: ext4  Sched: unknown", "    Opts: rw,relatime", ""]);
    assert_eq!(lines[0].look, Look::Bold);
    assert_eq!(lines[1].look, Look::Plain);
}

#[test]
fn long_mount_options_are_cut() {
    let opts: Vec<String> = (0..20).map(|i| format!("opt{i}")).collect();
    let joined = opts.join(",");
    assert!(joined.len() > 60);
    let disk = DiskInfo {
        name: "sda".to_string(),
        kind: DiskKind::Ssd,
        filesystem: "ext4".to_string(),
        mount_point: "/".to_string(),
        scheduler: "none".to_string(),
        mount_options: opts,
        size_gb: 100,
    };
    let lines = disk_lines(&vec![disk]);
    assert_eq!(lines[2].text, format!("    Opts: {}...", &joined[..57]));
    assert_eq!(lines[0].text, "  sda (SSD, 100 GB) -> /");
}

fn change(current: Option<&str>, new: &str) -> Change {
    Change {
        kind: ChangeKind::SysctlSet,
        target: "vm.x".to_string(),
        current_value: current.map(|s| s.to_string()),
        new_value: new.to_string(),
    }
}

#[test]
fn detail_panel() {
    let o = Optimization {
        name: "N".to_string(),
        category: Category::Sysctl,
        description: "D".to_string(),
        explanation: "E".to_string(),
        changes: vec![change(Some("1"), "2"), change(Some("2"), "2"), change(None, "3")],
    };
    let lines = detail_lines(&o);
    let texts: Vec<&str> = lines.iter().map(|l| l.text.as_str()).collect();
    assert_eq!(
        texts,
        vec!["N", "", "D", "", "Why:", "E", "", "Changes:", "  vm.x : 1 -> 2", "  vm.x = 2 (already set)", "  vm.x = 3"]
    );
    let looks: Vec<Look> = lines.iter().map(|l| l.look).collect();
    assert_eq!(looks[0], Look::Bold);
    assert_eq!(looks[4], Look::Bold);
    assert_eq!(looks[7], Look::Bold);
    assert_eq!(looks[8], Look::Plain);
    assert_eq!(looks[9], Look::Dim);
    assert_eq!(looks[10], Look::Plain);
}

#[test]
fn optimization_and_profile_lists() {
    let mut a = app();
    a.next_tab();
    a.toggle_selected();
    let items = optimization_items(&a.optimizations, a.selected);
    assert_eq!(items[0].text, " [ ] One");
    assert_eq!(items[0].look, Look::Cursor);
    assert_eq!(items[1].text, " [x] Two");
    assert_eq!(items[1].look, Look::Enabled);
    let off = vec![OptEntry { optimization: a.optimizations[0].optimization.clone(), enabled: false }];
    assert_eq!(optimization_items(&off, 5)[0].look, Look::Dim);
    assert_eq!(optimizations_title("developer"), " Optimizations [developer] (p: cycle) ");

    let items = profile_items(&a.profiles, 2, 0);
    assert_eq!(items[0].text, " > developer        Balanced");
    assert_eq!(items[0].look, Look::Current);
    assert_eq!(items[1].text, "   gaming           Fast");
    assert_eq!(items[1].look, Look::Plain);
    assert_eq!(items[2].look, Look::Cursor);
    let long = vec![("a-very-long-profile-name".to_string(), "x".to_string())];
    assert_eq!(profile_items(&long, 0, 0)[0].text, " > a-very-long-profile-name x");
    assert_eq!(status_line("ready"), " ready");
}

#[test]
fn finishing_apply_counts_outcomes() {
    let mut a = app();
    let mut sys = system();
    sys.hostname = "after".to_string();
    a.record_apply(applied_outcome(&vec![true, false, true], "/s/snapshot_t.json".to_string()));
    a.take_scan(sys);
    assert_eq!(a.status_message, "Applied 2 optimizations (1 failed). Snapshot: /s/snapshot_t.json");
    assert_eq!(a.system.hostname, "after");
    match applied_outcome(&vec![false, false], "p".to_string()) {
        ApplyOutcome::Applied { applied, failed, snapshot_path } => {
            assert_eq!((applied, failed, snapshot_path.as_str()), (0, 2, "p"));
        }
        other => panic!("unexpected outcome {other:?}"),
    }
}
