use toml::Value;
use tuxtune::detect::{scan_system, SystemInfo};
use tuxtune::optimize::{sysctl_opt, Category, ChangeKind, Optimization};
use tuxtune::probe::Probe;
use tuxtune::profile::{
    add_user_profile, builtin_profiles, detect_capabilities, list_all, listing_line, load_profiles, resolve, resolve_profile, resolve_with_warnings, OptimizationToml, ProfileMeta,
    ProfileToml, SysctlEntry,
};

fn all_profiles() -> Vec<(String, String)> {
    builtin_profiles()
}

fn strings(v: Option<&Value>) -> Vec<String> {
    match v.and_then(|v| v.as_array()) {
        Some(a) => a.iter().map(|s| s.as_str().unwrap().to_string()).collect(),
        None => vec![],
    }
}

fn text(v: &Value, key: &str) -> String {
    v[key].as_str().unwrap().to_string()
}

fn to_profile(toml_str: &str) -> ProfileToml {
    let val: Value = toml::from_str(toml_str).unwrap();
    let meta = &val["profile"];
    let mut optimization = vec![];
    if let Some(opts) = val.get("optimization").and_then(|v| v.as_array()) {
        for o in opts {
            let sysctl = match o.get("sysctl").and_then(|v| v.as_array()) {
                Some(a) => a.iter().map(|s| SysctlEntry { key: text(s, "key"), value: text(s, "value") }).collect(),
                None => vec![],
            };
            optimization.push(OptimizationToml {
                name: text(o, "name"),
                description: text(o, "description"),
                explanation: text(o, "explanation"),
                requires: strings(o.get("requires")),
                min_ram_mb: o.get("min_ram_mb").and_then(|v| v.as_integer()).map(|v| v as u64),
                sysctl,
            });
        }
    }
    ProfileToml {
        profile: ProfileMeta {
            name: text(meta, "name"),
            description: text(meta, "description"),
            extends: strings(meta.get("extends")),
        },
        optimization,
    }
}

fn loaded() -> Vec<(String, ProfileToml)> {
    builtin_profiles().into_iter().map(|(n, t)| (n, to_profile(&t))).collect()
}

fn host(extra: &[(&str, &str)]) -> Probe {
    let mut files = vec![
        ("/proc/cpuinfo".to_string(), "processor : 0\n".to_string()),
        ("/proc/meminfo".to_string(), "MemTotal: 24275000 kB\n".to_string()),
        ("/proc/mounts".to_string(), String::new()),
        ("/proc/sys/fs/inotify/max_user_watches".to_string(), "8192\n".to_string()),
        ("/proc/sys/fs/inotify/max_user_instances".to_string(), "128\n".to_string()),
        ("/proc/sys/net/core/rmem_max".to_string(), "212992\n".to_string()),
        ("/proc/sys/net/core/wmem_max".to_string(), "212992\n".to_string()),
    ];
    // The first entry for a path counts, so the extra files go in front.
    for (i, (p, c)) in extra.iter().enumerate() {
        files.insert(i, (p.to_string(), c.to_string()));
    }
    Probe { files, services: vec![], gpu_infos: vec![] }
}

fn system(p: &Probe) -> SystemInfo {
    scan_system(p).unwrap()
}

fn names(opts: &[Optimization]) -> Vec<&str> {
    opts.iter().map(|o| o.name.as_str()).collect()
}

fn opt(name: &str, requires: &[&str], min_ram_mb: Option<u64>, key: &str, value: &str) -> OptimizationToml {
    OptimizationToml {
        name: name.to_string(),
        description: format!("{name} description"),
        explanation: format!("{name} explanation"),
        requires: requires.iter().map(|s| s.to_string()).collect(),
        min_ram_mb,
        sysctl: vec![SysctlEntry { key: key.to_string(), value: value.to_string() }],
    }
}

fn profile(name: &str, extends: &[&str], optimization: Vec<OptimizationToml>) -> (String, ProfileToml) {
    (
        name.to_string(),
        ProfileToml {
            profile: ProfileMeta {
                name: name.to_string(),
                description: format!("{name} profile"),
                extends: extends.iter().map(|s| s.to_string()).collect(),
            },
            optimization,
        },
    )
}

#[test]
fn all_profiles_parse() {
    for (name, toml_str) in all_profiles() {
        let val: Value = toml::from_str(&toml_str).unwrap_or_else(|e| panic!("Failed to parse {name}.toml: {e}"));
        assert!(val.is_table(), "{name}.toml root should be a table");
    }
}

#[test]
fn all_profiles_have_metadata() {
    for (name, toml_str) in all_profiles() {
        let val: Value = toml::from_str(&toml_str).unwrap();
        let profile = val.get("profile").unwrap_or_else(|| panic!("{name}.toml missing [profile] table"));
        assert!(profile.get("name").and_then(|v| v.as_str()).is_some(), "{name}.toml missing profile.name");
        assert!(
            profile.get("description").and_then(|v| v.as_str()).is_some(),
            "{name}.toml missing profile.description"
        );
    }
}

#[test]
fn all_profiles_have_optimizations_or_extends() {
    for (name, toml_str) in all_profiles() {
        let val: Value = toml::from_str(&toml_str).unwrap();
        let has_opts = val.get("optimization").and_then(|v| v.as_array()).is_some_and(|a| !a.is_empty());
        let has_extends = val
            .get("profile")
            .and_then(|p| p.get("extends"))
            .and_then(|v| v.as_array())
            .is_some_and(|a| !a.is_empty());
        assert!(has_opts || has_extends, "{name}.toml has neither optimizations nor extends");
    }
}

#[test]
fn developer_profile_has_expected_optimizations() {
    let val: Value = toml::from_str(&all_profiles()[0].1).unwrap();
    let opts = val["optimization"].as_array().unwrap();
    let names: Vec<&str> = opts.iter().map(|o| o["name"].as_str().unwrap()).collect();
    assert!(names.contains(&"Inotify watches"));
    assert!(names.contains(&"TCP buffer sizes"));
    assert!(names.contains(&"TCP Fast Open"));
    assert!(names.contains(&"Connection handling"));
}

#[test]
fn compile_extends_developer() {
    let val: Value = toml::from_str(&all_profiles()[1].1).unwrap();
    let extends = val["profile"]["extends"].as_array().unwrap();
    let parents: Vec<&str> = extends.iter().map(|v| v.as_str().unwrap()).collect();
    assert!(parents.contains(&"developer"));
}

#[test]
fn server_extends_developer() {
    let val: Value = toml::from_str(&all_profiles()[4].1).unwrap();
    let extends = val["profile"]["extends"].as_array().unwrap();
    let parents: Vec<&str> = extends.iter().map(|v| v.as_str().unwrap()).collect();
    assert!(parents.contains(&"developer"));
}

#[test]
fn optimization_entries_have_required_fields() {
    for (name, toml_str) in all_profiles() {
        let val: Value = toml::from_str(&toml_str).unwrap();
        if let Some(opts) = val.get("optimization").and_then(|v| v.as_array()) {
            for (i, opt) in opts.iter().enumerate() {
                assert!(opt.get("name").and_then(|v| v.as_str()).is_some(), "{name}.toml optimization[{i}] missing name");
                assert!(
                    opt.get("description").and_then(|v| v.as_str()).is_some(),
                    "{name}.toml optimization[{i}] missing description"
                );
                assert!(
                    opt.get("explanation").and_then(|v| v.as_str()).is_some(),
                    "{name}.toml optimization[{i}] missing explanation"
                );
            }
        }
    }
}

#[test]
fn sysctl_entries_have_key_and_value() {
    for (name, toml_str) in all_profiles() {
        let val: Value = toml::from_str(&toml_str).unwrap();
        if let Some(opts) = val.get("optimization").and_then(|v| v.as_array()) {
            for (i, opt) in opts.iter().enumerate() {
                if let Some(sysctls) = opt.get("sysctl").and_then(|v| v.as_array()) {
                    for (j, sysctl) in sysctls.iter().enumerate() {
                        assert!(
                            sysctl.get("key").and_then(|v| v.as_str()).is_some(),
                            "{name}.toml optimization[{i}].sysctl[{j}] missing key"
                        );
                        assert!(
                            sysctl.get("value").and_then(|v| v.as_str()).is_some(),
                            "{name}.toml optimization[{i}].sysctl[{j}] missing value"
                        );
                    }
                }
            }
        }
    }
}

#[test]
fn extends_references_are_valid() {
    let profiles = all_profiles();
    let known_names: Vec<&str> = profiles.iter().map(|(name, _)| name.as_str()).collect();
    for (name, toml_str) in &profiles {
        let val: Value = toml::from_str(toml_str).unwrap();
        if let Some(extends) = val.get("profile").and_then(|p| p.get("extends")).and_then(|v| v.as_array()) {
            for parent in extends {
                let parent_name = parent.as_str().unwrap();
                assert!(known_names.contains(&parent_name), "{name}.toml extends unknown profile: {parent_name}");
                assert_ne!(parent_name, name.as_str(), "{name}.toml extends itself");
            }
        }
    }
}

#[test]
fn requires_field_is_string_array() {
    for (name, toml_str) in all_profiles() {
        let val: Value = toml::from_str(&toml_str).unwrap();
        if let Some(opts) = val.get("optimization").and_then(|v| v.as_array()) {
            for (i, opt) in opts.iter().enumerate() {
                if let Some(requires) = opt.get("requires") {
                    let arr = requires
                        .as_array()
                        .unwrap_or_else(|| panic!("{name}.toml optimization[{i}].requires is not an array"));
                    for (j, req) in arr.iter().enumerate() {
                        assert!(req.as_str().is_some(), "{name}.toml optimization[{i}].requires[{j}] is not a string");
                    }
                }
            }
        }
    }
}

#[test]
fn min_ram_mb_is_positive_integer() {
    for (name, toml_str) in all_profiles() {
        let val: Value = toml::from_str(&toml_str).unwrap();
        if let Some(opts) = val.get("optimization").and_then(|v| v.as_array()) {
            for (i, opt) in opts.iter().enumerate() {
                if let Some(min_ram) = opt.get("min_ram_mb") {
                    let v = min_ram
                        .as_integer()
                        .unwrap_or_else(|| panic!("{name}.toml optimization[{i}].min_ram_mb is not an integer"));
                    assert!(v > 0, "{name}.toml optimization[{i}].min_ram_mb must be positive");
                }
            }
        }
    }
}

#[test]
fn profile_names_match_filenames() {
    for (filename, toml_str) in all_profiles() {
        let val: Value = toml::from_str(&toml_str).unwrap();
        let profile_name = val["profile"]["name"].as_str().unwrap();
        assert_eq!(profile_name, filename, "profile.name '{profile_name}' doesn't match filename '{filename}.toml'");
    }
}

#[test]
fn builtin_profiles_in_loading_order() {
    let order: Vec<String> = builtin_profiles().into_iter().map(|(n, _)| n).collect();
    assert_eq!(order, vec!["developer", "compile", "gaming", "battery", "server"]);
}

#[test]
fn list_all_gives_names_and_descriptions() {
    let listed = list_all(&loaded());
    assert_eq!(listed.len(), 5);
    assert_eq!(
        listed[0],
        (
            "developer".to_string(),
            "Balanced optimization for development workloads (IDE, Docker, builds)".to_string()
        )
    );
    assert_eq!(listed[4].0, "server");
    assert_eq!(listed[4].1, "Throughput-oriented server optimizations");
}

#[test]
fn developer_with_bbr_and_plenty_of_memory() {
    let p = host(&[("/proc/sys/net/ipv4/tcp_available_congestion_control", "reno cubic bbr\n")]);
    let opts = resolve("developer", &system(&p), &loaded(), &p);
    assert_eq!(
        names(&opts),
        vec![
            "Inotify watches",
            "TCP buffer sizes",
            "TCP Fast Open",
            "Connection handling",
            "BBR congestion control",
            "VFS cache pressure",
            "Dirty page writeback",
        ]
    );
}

#[test]
fn capability_and_memory_requirements_filter() {
    let p = host(&[
        ("/proc/sys/net/ipv4/tcp_available_congestion_control", "reno cubic\n"),
        ("/proc/meminfo", "MemTotal: 4000000 kB\n"),
    ]);
    let sys = system(&p);
    assert_eq!(sys.memory.total_mb, 3906);
    let opts = resolve("developer", &sys, &loaded(), &p);
    let n = names(&opts);
    assert!(!n.contains(&"BBR congestion control"));
    assert!(!n.contains(&"Dirty page writeback"));
    assert_eq!(n.len(), 5);
}

#[test]
fn capabilities_from_available_congestion_control() {
    let with = host(&[("/proc/sys/net/ipv4/tcp_available_congestion_control", "reno cubic bbr\n")]);
    assert_eq!(detect_capabilities(&system(&with), &with), vec!["bbr".to_string()]);
    let without = host(&[("/proc/sys/net/ipv4/tcp_available_congestion_control", "reno cubic\n")]);
    assert!(detect_capabilities(&system(&without), &without).is_empty());
    assert!(detect_capabilities(&system(&host(&[])), &host(&[])).is_empty());
}

fn hardware_host(vendor: &str, mounts: &str) -> Probe {
    let cpu = format!("processor : 0\nvendor_id : {vendor}\n");
    let mut p = host(&[]);
    p.files.insert(0, ("/proc/cpuinfo".to_string(), cpu));
    p.files.insert(0, ("/proc/mounts".to_string(), mounts.to_string()));
    p.files.push(("/sys/block/sda/queue/rotational".to_string(), "1\n".to_string()));
    p.files.push(("/sys/block/sdb/queue/rotational".to_string(), "0\n".to_string()));
    p
}

#[test]
fn capabilities_from_cpu_vendor_and_disks() {
    let p = hardware_host("GenuineIntel", "/dev/nvme0n1p1 / ext4 rw 0 0\n/dev/sda1 /data ext4 rw 0 0\n");
    let caps = detect_capabilities(&system(&p), &p);
    assert_eq!(caps, vec!["intel", "nvme", "hdd"]);
    let p = hardware_host("AuthenticAMD", "/dev/sdb1 / ext4 rw 0 0\n");
    assert_eq!(detect_capabilities(&system(&p), &p), vec!["amd", "ssd"]);
}

#[test]
fn recommendations_follow_cpu_vendor_and_disk_kind() {
    let all = loaded();
    let intel_nvme = hardware_host("GenuineIntel", "/dev/nvme0n1p1 / ext4 rw 0 0\n");
    let amd_hdd = hardware_host("AuthenticAMD", "/dev/sda1 / ext4 rw 0 0\n");
    let dev_nvme = resolve("developer", &system(&intel_nvme), &all, &intel_nvme);
    let dev_hdd = resolve("developer", &system(&amd_hdd), &all, &amd_hdd);
    assert!(names(&dev_nvme).contains(&"Swap readahead on NVMe"));
    assert!(!names(&dev_nvme).contains(&"Writeback for spinning disks"));
    assert!(names(&dev_hdd).contains(&"Writeback for spinning disks"));
    assert!(!names(&dev_hdd).contains(&"Swap readahead on NVMe"));
    let gaming_intel = resolve("gaming", &system(&intel_nvme), &all, &intel_nvme);
    let gaming_amd = resolve("gaming", &system(&amd_hdd), &all, &amd_hdd);
    assert_eq!(names(&gaming_intel), vec!["Memory map count", "Low swappiness", "Split lock mitigation"]);
    assert_eq!(names(&gaming_amd), vec!["Memory map count", "Low swappiness"]);
}

#[test]
fn parents_come_first() {
    let p = host(&[]);
    let opts = resolve("compile", &system(&p), &loaded(), &p);
    let n = names(&opts);
    assert_eq!(n[0], "Inotify watches");
    assert_eq!(&n[n.len() - 2..], &["Swap readahead", "Swappiness for zram"]);
    let server = resolve("server", &system(&p), &loaded(), &p);
    assert_eq!(names(&server).last(), Some(&"TIME_WAIT reuse"));
}

#[test]
fn unknown_profile_falls_back_to_developer() {
    let p = host(&[]);
    let sys = system(&p);
    let all = loaded();
    assert_eq!(names(&resolve("turbo", &sys, &all, &p)), names(&resolve("developer", &sys, &all, &p)));
    let empty: Vec<(String, ProfileToml)> = vec![];
    assert!(resolve("developer", &sys, &empty, &p).is_empty());
}

#[test]
fn circular_extends_resolve_each_profile_once() {
    let p = host(&[]);
    let sys = system(&p);
    let all = vec![
        profile("a", &["b"], vec![opt("A", &[], None, "vm.a", "1")]),
        profile("b", &["a", "c"], vec![opt("B", &[], None, "vm.b", "2")]),
        profile("c", &["c"], vec![opt("C", &[], None, "vm.c", "3")]),
    ];
    assert_eq!(names(&resolve("a", &sys, &all, &p)), vec!["C", "B", "A"]);
    assert_eq!(names(&resolve("c", &sys, &all, &p)), vec!["C"]);
    let diamond = vec![
        profile("top", &["left", "right"], vec![opt("T", &[], None, "vm.t", "1")]),
        profile("left", &["base"], vec![opt("L", &[], None, "vm.l", "1")]),
        profile("right", &["base"], vec![opt("R", &[], None, "vm.r", "1")]),
        profile("base", &[], vec![opt("X", &[], None, "vm.x", "1")]),
    ];
    assert_eq!(names(&resolve("top", &sys, &diamond, &p)), vec!["X", "L", "R", "T"]);
}

#[test]
fn resolved_changes_carry_current_values() {
    let p = host(&[]);
    let opts = resolve("developer", &system(&p), &loaded(), &p);
    let inotify = &opts[0];
    assert_eq!(inotify.category, Category::Sysctl);
    assert_eq!(inotify.changes.len(), 2);
    assert_eq!(inotify.changes[0].kind, ChangeKind::SysctlSet);
    assert_eq!(inotify.changes[0].target, "fs.inotify.max_user_watches");
    assert_eq!(inotify.changes[0].current_value, Some("8192".to_string()));
    assert_eq!(inotify.changes[0].new_value, "1048576");
    assert_eq!(inotify.changes[1].current_value, Some("128".to_string()));
    let fast_open = &opts[2];
    assert_eq!(fast_open.changes[0].current_value, None);
}

#[test]
fn sysctl_opt_builds_one_change_per_param() {
    let p = host(&[]);
    let params = vec![
        ("net.core.rmem_max".to_string(), "16777216".to_string()),
        ("net.core.missing".to_string(), "1".to_string()),
    ];
    let o = sysctl_opt(&p, "TCP buffer sizes", "desc", "why", &params);
    assert_eq!(o.name, "TCP buffer sizes");
    assert_eq!(o.description, "desc");
    assert_eq!(o.explanation, "why");
    assert_eq!(o.category, Category::Sysctl);
    assert_eq!(o.changes.len(), 2);
    assert_eq!(o.changes[0].target, "net.core.rmem_max");
    assert_eq!(o.changes[0].current_value, Some("212992".to_string()));
    assert_eq!(o.changes[0].new_value, "16777216");
    assert_eq!(o.changes[1].current_value, None);
    let none = sysctl_opt(&p, "Nothing", "d", "e", &vec![]);
    assert!(none.changes.is_empty());
}

#[test]
fn nvidia_fix_is_appended_when_needed() {
    let p = host(&[("/proc/driver/nvidia/version", "NVRM version: Kernel Module  550.1  Release\n")]);
    let opts = resolve("gaming", &system(&p), &loaded(), &p);
    assert_eq!(names(&opts), vec!["Memory map count", "Low swappiness", "NVIDIA GPU suspend fix"]);
    let fix = opts.last().unwrap();
    assert_eq!(fix.category, Category::Gpu);
    assert_eq!(fix.changes.len(), 4);
}

#[test]
fn user_profile_replaces_builtin_of_same_name() {
    let mut all = loaded();
    let mine = profile("developer", &[], vec![opt("Mine", &[], None, "vm.mine", "1")]);
    add_user_profile(&mut all, mine.1);
    let order: Vec<&str> = all.iter().map(|(n, _)| n.as_str()).collect();
    assert_eq!(order, vec!["compile", "gaming", "battery", "server", "developer"]);
    let p = host(&[]);
    let opts = resolve("developer", &system(&p), &all, &p);
    assert_eq!(names(&opts), vec!["Mine"]);
    let compile = resolve("compile", &system(&p), &all, &p);
    assert_eq!(names(&compile), vec!["Mine", "Swap readahead", "Swappiness for zram"]);
}

#[test]
fn user_profile_with_new_name_goes_last() {
    let mut all = loaded();
    add_user_profile(&mut all, profile("work", &["server"], vec![]).1);
    assert_eq!(all.len(), 6);
    assert_eq!(all[5].0, "work");
    assert_eq!(all[0].0, "developer");
}

#[test]
fn unknown_name_resolves_as_developer_with_its_ancestors() {
    let p = host(&[]);
    let sys = system(&p);
    let all = vec![
        profile("developer", &["base"], vec![opt("D", &[], None, "vm.d", "1")]),
        profile("base", &[], vec![opt("B", &[], None, "vm.b", "1")]),
    ];
    assert_eq!(names(&resolve("turbo", &sys, &all, &p)), vec!["B", "D"]);
    assert_eq!(names(&resolve("developer", &sys, &all, &p)), vec!["B", "D"]);
}

#[test]
fn unknown_name_when_developer_is_on_a_cycle() {
    let p = host(&[]);
    let sys = system(&p);
    let all = vec![
        profile("developer", &["x"], vec![opt("D", &[], None, "vm.d", "1")]),
        profile("x", &["developer"], vec![opt("X", &[], None, "vm.x", "1")]),
    ];
    assert_eq!(names(&resolve("developer", &sys, &all, &p)), vec!["X", "D"]);
    // Starting from another name, `developer` itself is not yet visited when
    // `x` extends it, so it is resolved once more.
    assert_eq!(names(&resolve("turbo", &sys, &all, &p)), vec!["D", "X", "D"]);
}

#[test]
fn listing_lines_pad_the_name() {
    assert_eq!(
        listing_line("developer", "Balanced optimization"),
        format!("  {:<16} {}", "developer", "Balanced optimization")
    );
    assert_eq!(listing_line("developer", "x"), "  developer        x");
    let long = "a-name-longer-than-sixteen";
    assert_eq!(listing_line(long, "d"), format!("  {long:<16} d"));
    assert_eq!(listing_line("é", ""), format!("  {:<16} ", "é"));
}

#[test]
fn resolve_profile_skips_visited_names() {
    let p = host(&[]);
    let sys = system(&p);
    let all = loaded();
    let mut visited = vec!["developer".to_string()];
    let mut warnings: Vec<String> = vec![];
    let opts = resolve_profile("compile", &sys, &all, &vec![], &p, &mut visited, &mut warnings);
    assert_eq!(warnings, vec!["Circular extends detected for profile: developer"]);
    assert_eq!(names(&opts), vec!["Swap readahead", "Swappiness for zram"]);
    assert!(visited.contains(&"compile".to_string()));
    assert!(visited.contains(&"developer".to_string()));
    let again = resolve_profile("compile", &sys, &all, &vec![], &p, &mut visited, &mut warnings);
    assert!(again.is_empty());
    assert_eq!(warnings.len(), 2);
    assert_eq!(warnings[1], "Circular extends detected for profile: compile");
    let mut fresh: Vec<String> = vec![];
    let mut quiet: Vec<String> = vec![];
    let with_caps = resolve_profile("gaming", &sys, &all, &vec!["intel".to_string()], &p, &mut fresh, &mut quiet);
    assert!(quiet.is_empty());
    assert_eq!(names(&with_caps), vec!["Memory map count", "Low swappiness", "Split lock mitigation"]);
}

#[test]
fn more_memory_keeps_every_recommendation() {
    let small = host(&[("/proc/meminfo", "MemTotal: 4000000 kB\n")]);
    let large = host(&[]);
    let all = loaded();
    let few = names(&resolve("developer", &system(&small), &all, &small)).into_iter().map(String::from).collect::<Vec<_>>();
    let many = names(&resolve("developer", &system(&large), &all, &large)).into_iter().map(String::from).collect::<Vec<_>>();
    assert!(few.len() < many.len());
    let mut it = many.iter();
    for n in &few {
        assert!(it.any(|m| m == n), "{n} kept in order");
    }
}

#[test]
fn resolution_warnings() {
    let p = host(&[]);
    let sys = system(&p);
    let (opts, warnings) = resolve_with_warnings("turbo", &sys, &loaded(), &p);
    assert_eq!(names(&opts), names(&resolve("developer", &sys, &loaded(), &p)));
    assert_eq!(warnings, vec!["Unknown profile: turbo, using 'developer'"]);
    assert!(resolve_with_warnings("compile", &sys, &loaded(), &p).1.is_empty());
    let cyclic = vec![
        profile("a", &["b"], vec![opt("A", &[], None, "vm.a", "1")]),
        profile("b", &["a", "c"], vec![opt("B", &[], None, "vm.b", "2")]),
        profile("c", &["c"], vec![opt("C", &[], None, "vm.c", "3")]),
    ];
    assert_eq!(
        resolve_with_warnings("a", &sys, &cyclic, &p).1,
        vec!["Circular extends detected for profile: a", "Circular extends detected for profile: c"]
    );
    let diamond = vec![
        profile("top", &["left", "right"], vec![]),
        profile("left", &["base"], vec![]),
        profile("right", &["base"], vec![]),
        profile("base", &[], vec![]),
    ];
    assert_eq!(resolve_with_warnings("top", &sys, &diamond, &p).1, vec!["Circular extends detected for profile: base"]);
    let empty: Vec<(String, ProfileToml)> = vec![];
    assert_eq!(resolve_with_warnings("x", &sys, &empty, &p).1, vec!["Unknown profile: x, using 'developer'"]);
}

#[test]
fn loading_skips_what_did_not_parse_and_lets_users_override() {
    let b = loaded();
    let builtins: Vec<(String, Option<ProfileToml>)> = vec![
        (b[0].0.clone(), Some(b[0].1.clone())),
        ("compile".to_string(), None),
        (b[2].0.clone(), Some(b[2].1.clone())),
    ];
    let users = vec![
        Some(profile("gaming", &[], vec![opt("Mine", &[], None, "vm.m", "1")]).1),
        None,
        Some(profile("work", &["developer"], vec![]).1),
    ];
    let all = load_profiles(builtins, users);
    let order: Vec<&str> = all.iter().map(|(n, _)| n.as_str()).collect();
    assert_eq!(order, vec!["developer", "gaming", "work"]);
    assert_eq!(all[1].1.optimization[0].name, "Mine");
}
