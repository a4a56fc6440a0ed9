use std::collections::{BTreeMap, BTreeSet};
use tuxtune::detect::{GpuInfo, GpuVendor};
use tuxtune::optimize::{apply, nvidia_suspend_opt, Category, Change, ChangeKind, Optimization, Step};
use tuxtune::probe::Probe;
use tuxtune::state::{join_path, rollback, snapshot, snapshot_dir, Restore, Snapshot, SnapshotEntry};

fn change(kind: ChangeKind, target: &str, current: Option<&str>, new: &str) -> Change {
    Change {
        kind,
        target: target.to_string(),
        current_value: current.map(|s| s.to_string()),
        new_value: new.to_string(),
    }
}

fn optimization(name: &str, changes: Vec<Change>) -> Optimization {
    Optimization {
        name: name.to_string(),
        category: Category::Sysctl,
        description: "d".to_string(),
        explanation: "e".to_string(),
        changes,
    }
}

fn sample() -> Vec<Optimization> {
    vec![
        optimization(
            "Inotify watches",
            vec![
                change(ChangeKind::SysctlSet, "fs.inotify.max_user_watches", Some("8192"), "1048576"),
                change(ChangeKind::SysctlSet, "fs.inotify.max_user_instances", Some("128"), "8192"),
            ],
        ),
        optimization(
            "Module options",
            vec![
                change(ChangeKind::WriteFile, "/etc/modprobe.d/nvidia.conf", Some("old\n"), "new\n"),
                change(ChangeKind::WriteFile, "/etc/modprobe.d/fresh.conf", None, "x\n"),
            ],
        ),
    ]
}

fn nvidia(preserve_vram: bool, services: bool) -> GpuInfo {
    GpuInfo {
        vendor: GpuVendor::Nvidia,
        model: "NVIDIA GPU".to_string(),
        driver_version: "550.1".to_string(),
        preserve_vram,
        suspend_services_enabled: services,
    }
}

fn no_files() -> Probe {
    Probe { files: vec![], services: vec![], gpu_infos: vec![] }
}

#[test]
fn apply_gives_one_step_per_change() {
    let steps = apply(&sample()[0]);
    assert_eq!(steps.len(), 2);
    match &steps[0] {
        Step::WriteSysctl { key, path, value } => {
            assert_eq!(key, "fs.inotify.max_user_watches");
            assert_eq!(path, "/proc/sys/fs/inotify/max_user_watches");
            assert_eq!(value, "1048576");
        }
        other => panic!("unexpected step {other:?}"),
    }
    let steps = apply(&sample()[1]);
    match &steps[0] {
        Step::WriteFile { path, value } => {
            assert_eq!(path, "/etc/modprobe.d/nvidia.conf");
            assert_eq!(value, "new\n");
        }
        other => panic!("unexpected step {other:?}"),
    }
    let other = optimization(
        "Other",
        vec![
            change(ChangeKind::EnableService, "nvidia-resume", Some("disabled"), "enabled"),
            change(ChangeKind::InstallPackage, "mold", None, "installed"),
        ],
    );
    let steps = apply(&other);
    assert!(matches!(&steps[0], Step::EnableService { name } if name == "nvidia-resume"));
    assert!(matches!(&steps[1], Step::ManualInstall { name } if name == "mold"));
}

#[test]
fn snapshot_records_every_change_in_order() {
    let snap = snapshot(&sample(), "/home/me/.local/share/tuxtune/snapshots", "20260224_143052");
    assert_eq!(snap.path, "/home/me/.local/share/tuxtune/snapshots/snapshot_20260224_143052.json");
    assert_eq!(snap.timestamp, "20260224_143052");
    let entries: Vec<(&str, Option<&str>)> =
        snap.entries.iter().map(|e| (e.target.as_str(), e.previous_value.as_deref())).collect();
    assert_eq!(
        entries,
        vec![
            ("fs.inotify.max_user_watches", Some("8192")),
            ("fs.inotify.max_user_instances", Some("128")),
            ("/etc/modprobe.d/nvidia.conf", Some("old\n")),
            ("/etc/modprobe.d/fresh.conf", None),
        ]
    );
}

#[test]
fn rollback_restores_known_values() {
    let snap = snapshot(&sample(), "/snaps/", "t");
    assert_eq!(snap.path, "/snaps/snapshot_t.json");
    let restores = rollback(&snap);
    assert_eq!(restores.len(), 4);
    assert!(matches!(&restores[3], Restore::RemoveFile { path } if path == "/etc/modprobe.d/fresh.conf"));
    match &restores[0] {
        Restore::Sysctl { key, path, value } => {
            assert_eq!(key, "fs.inotify.max_user_watches");
            assert_eq!(path, "/proc/sys/fs/inotify/max_user_watches");
            assert_eq!(value, "8192");
        }
        other => panic!("unexpected restore {other:?}"),
    }
    match &restores[2] {
        Restore::File { path, value } => {
            assert_eq!(path, "/etc/modprobe.d/nvidia.conf");
            assert_eq!(value, "old\n");
        }
        other => panic!("unexpected restore {other:?}"),
    }
}

#[test]
fn rollback_of_an_empty_snapshot_does_nothing() {
    let snap = Snapshot { path: "/s.json".to_string(), timestamp: "t".to_string(), entries: vec![] };
    assert!(rollback(&snap).is_empty());
    let unknown = Snapshot {
        path: "/s.json".to_string(),
        timestamp: "t".to_string(),
        entries: vec![SnapshotEntry { target: "vm.x".to_string(), previous_value: None, kind: None }],
    };
    assert!(rollback(&unknown).is_empty());
    // Entries written without a kind restore known values only.
    let legacy = Snapshot {
        path: "/s.json".to_string(),
        timestamp: "t".to_string(),
        entries: vec![
            SnapshotEntry { target: "/etc/x.conf".to_string(), previous_value: None, kind: None },
            SnapshotEntry { target: "/etc/y.conf".to_string(), previous_value: Some("y".to_string()), kind: None },
            SnapshotEntry { target: "vm.z".to_string(), previous_value: Some("1".to_string()), kind: None },
        ],
    };
    let restores = rollback(&legacy);
    assert_eq!(restores.len(), 2);
    assert!(matches!(&restores[0], Restore::File { path, value } if path == "/etc/y.conf" && value == "y"));
    assert!(matches!(&restores[1], Restore::Sysctl { path, .. } if path == "/proc/sys/vm/z"));
    let package = Snapshot {
        path: "/s.json".to_string(),
        timestamp: "t".to_string(),
        entries: vec![
            SnapshotEntry { target: "mold".to_string(), previous_value: None, kind: Some(ChangeKind::InstallPackage) },
            SnapshotEntry {
                target: "nvidia-resume".to_string(),
                previous_value: Some("enabled".to_string()),
                kind: Some(ChangeKind::EnableService),
            },
        ],
    };
    assert!(rollback(&package).is_empty());
}

#[derive(Clone, Debug, PartialEq)]
struct Host {
    files: BTreeMap<String, String>,
    enabled: BTreeSet<String>,
}

fn run_steps(host: &mut Host, steps: &[Step]) {
    for s in steps {
        match s {
            Step::WriteSysctl { path, value, .. } => {
                if host.files.contains_key(path) {
                    host.files.insert(path.clone(), value.clone());
                }
            }
            Step::WriteFile { path, value } => {
                host.files.insert(path.clone(), value.clone());
            }
            Step::EnableService { name } => {
                host.enabled.insert(name.clone());
            }
            Step::ManualInstall { .. } => {}
        }
    }
}

fn run_restores(host: &mut Host, restores: &[Restore]) {
    for r in restores {
        match r {
            Restore::File { path, value } | Restore::Sysctl { path, value, .. } => {
                if host.files.contains_key(path) {
                    host.files.insert(path.clone(), value.clone());
                }
            }
            Restore::RemoveFile { path } => {
                host.files.remove(path);
            }
            Restore::DisableService { name } => {
                host.enabled.remove(name);
            }
        }
    }
}

#[test]
fn rollback_undoes_apply_on_a_model_of_the_host() {
    let mut host = Host { files: BTreeMap::new(), enabled: BTreeSet::new() };
    // Sysctl files read with a trailing newline; their values are recorded trimmed.
    host.files.insert("/proc/sys/fs/inotify/max_user_watches".to_string(), "8192\n".to_string());
    host.files.insert("/proc/sys/fs/inotify/max_user_instances".to_string(), "128\n".to_string());
    host.files.insert("/etc/modprobe.d/nvidia.conf".to_string(), "old\n".to_string());
    host.files.insert("/etc/hosts".to_string(), "127.0.0.1 localhost\n".to_string());
    host.enabled.insert("nvidia-suspend".to_string());
    let before = host.clone();
    let mut opts = sample();
    opts.push(optimization(
        "Services",
        vec![
            change(ChangeKind::EnableService, "nvidia-suspend", Some("enabled"), "enabled"),
            change(ChangeKind::EnableService, "nvidia-resume", Some("disabled"), "enabled"),
            change(ChangeKind::SysctlSet, "vm.missing", None, "1"),
        ],
    ));
    let snap = snapshot(&opts, "/snaps", "t");
    for o in &opts {
        run_steps(&mut host, &apply(o));
    }
    assert_eq!(host.files["/proc/sys/fs/inotify/max_user_watches"], "1048576");
    assert_eq!(host.files["/etc/modprobe.d/fresh.conf"], "x\n");
    assert!(host.enabled.contains("nvidia-resume"));
    run_restores(&mut host, &rollback(&snap));
    assert_eq!(host.enabled, before.enabled);
    assert_eq!(host.files.len(), before.files.len());
    for (path, value) in &before.files {
        if path.starts_with("/proc/sys/") {
            assert_eq!(host.files[path], value.trim());
        } else {
            assert_eq!(&host.files[path], value);
        }
    }
}

#[test]
fn rollback_disables_services_that_applying_enabled() {
    let opt = nvidia_suspend_opt(&nvidia(true, false), &no_files()).unwrap();
    let snap = snapshot(&vec![opt], "/snaps", "t");
    let restores = rollback(&snap);
    assert_eq!(restores.len(), 3);
    assert!(matches!(&restores[0], Restore::DisableService { name } if name == "nvidia-suspend"));
    assert!(matches!(&restores[2], Restore::DisableService { name } if name == "nvidia-hibernate"));
}

#[test]
fn snapshot_directory_under_home() {
    assert_eq!(snapshot_dir(Some("/home/me")), "/home/me/.local/share/tuxtune/snapshots");
    assert_eq!(snapshot_dir(Some("/home/me/")), "/home/me/.local/share/tuxtune/snapshots");
    assert_eq!(snapshot_dir(None), "/tmp/.local/share/tuxtune/snapshots");
    assert_eq!(snapshot_dir(Some("")), ".local/share/tuxtune/snapshots");
    let a: Vec<char> = "a".chars().collect();
    let b: Vec<char> = "b".chars().collect();
    let joined = join_path(&a, &b);
    assert_eq!(joined.iter().collect::<String>(), "a/b");
}

#[test]
fn nvidia_fix_changes() {
    assert!(nvidia_suspend_opt(&nvidia(true, true), &no_files()).is_none());
    let mut amd = nvidia(false, false);
    amd.vendor = GpuVendor::Amd;
    assert!(nvidia_suspend_opt(&amd, &no_files()).is_none());

    let probe = Probe {
        files: vec![("/etc/modprobe.d/nvidia.conf".to_string(), "options nvidia_drm modeset=1\n".to_string())],
        services: vec![
            ("nvidia-suspend".to_string(), "enabled\n".to_string()),
            ("nvidia-resume".to_string(), "disabled\n".to_string()),
        ],
        gpu_infos: vec![],
    };
    let fix = nvidia_suspend_opt(&nvidia(false, false), &probe).unwrap();
    assert_eq!(fix.name, "NVIDIA GPU suspend fix");
    assert_eq!(fix.category, Category::Gpu);
    let targets: Vec<&str> = fix.changes.iter().map(|c| c.target.as_str()).collect();
    assert_eq!(targets, vec!["/etc/modprobe.d/nvidia.conf", "nvidia-resume", "nvidia-hibernate"]);
    assert_eq!(fix.changes[0].kind, ChangeKind::WriteFile);
    assert_eq!(fix.changes[0].current_value, Some("options nvidia_drm modeset=1\n".to_string()));
    assert!(fix.changes[0].new_value.contains("NVreg_PreserveVideoMemoryAllocations=1"));
    assert_eq!(fix.changes[1].kind, ChangeKind::EnableService);
    assert_eq!(fix.changes[1].current_value, Some("disabled".to_string()));
    assert_eq!(fix.changes[1].new_value, "enabled");

    let only_vram = nvidia_suspend_opt(&nvidia(false, true), &probe).unwrap();
    assert_eq!(only_vram.changes.len(), 1);

    let all_enabled = Probe {
        files: vec![],
        services: vec![
            ("nvidia-suspend".to_string(), "enabled".to_string()),
            ("nvidia-resume".to_string(), "enabled".to_string()),
            ("nvidia-hibernate".to_string(), " enabled \n".to_string()),
        ],
        gpu_infos: vec![],
    };
    assert!(nvidia_suspend_opt(&nvidia(true, false), &all_enabled).is_none());
}

#[test]
fn dry_run_preview_text() {
    let opts = sample();
    assert_eq!(
        opts[0].to_string(),
        "[Sysctl] Inotify watches\n  d\n  Why: e\n    fs.inotify.max_user_watches : 8192 -> 1048576\n    fs.inotify.max_user_instances : 128 -> 8192\n"
    );
    assert!(opts[1].to_string().ends_with("    /etc/modprobe.d/fresh.conf = x\n\n"));
    assert_eq!(Category::IoScheduler.to_string(), "IoScheduler");
}

#[test]
fn restored_lines() {
    let snap = snapshot(&sample(), "/snaps", "t");
    let lines: Vec<String> = rollback(&snap).iter().map(|r| r.restored_line()).collect();
    assert_eq!(
        lines,
        vec![
            "  Restored: fs.inotify.max_user_watches = 8192",
            "  Restored: fs.inotify.max_user_instances = 128",
            "  Restored: /etc/modprobe.d/nvidia.conf",
            "  Removed: /etc/modprobe.d/fresh.conf",
        ]
    );
}
