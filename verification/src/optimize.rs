//! Optimizations: the changes they make, how they are built, and the steps
//! that carry them out.
use vstd::prelude::*;
use crate::detect::gpu::{GpuInfo, GpuVendor};
use crate::probe::{dots_to_slashes, sysctl_path, sysctl_path_of, trim_opt, Probe};
use crate::text::{chars_of, push_str, string_of};

verus! {

/// A named group of changes with the reasons for it.
#[derive(Debug, Clone)]
pub struct Optimization {
    pub name: String,
    pub category: Category,
    pub description: String,
    pub explanation: String,
    pub changes: Vec<Change>,
}

/// What an optimization tunes.
#[derive(Debug, Clone, Copy, PartialEq, Eq)]
pub enum Category {
    Sysctl,
    IoScheduler,
    Filesystem,
    Packages,
    Service,
    Gpu,
}

/// One change: a target, its current value where known, and the new value.
#[derive(Debug, Clone)]
pub struct Change {
    pub kind: ChangeKind,
    pub target: String,
    pub current_value: Option<String>,
    pub new_value: String,
}

/// How a change is carried out.
#[derive(Debug, Clone, Copy, PartialEq, Eq)]
pub enum ChangeKind {
    SysctlSet,
    WriteFile,
    EnableService,
    InstallPackage,
}

/// The mathematical value of a `Change`.
pub struct ChangeView {
    pub kind: ChangeKind,
    pub target: Seq<char>,
    pub current_value: Option<Seq<char>>,
    pub new_value: Seq<char>,
}

/// The mathematical value of an `Optimization`.
pub struct OptimizationView {
    pub name: Seq<char>,
    pub category: Category,
    pub description: Seq<char>,
    pub explanation: Seq<char>,
    pub changes: Seq<ChangeView>,
}

impl DeepView for Change {
    type V = ChangeView;

    open spec fn deep_view(&self) -> ChangeView {
        ChangeView {
            kind: self.kind,
            target: self.target@,
            current_value: self.current_value.deep_view(),
            new_value: self.new_value@,
        }
    }
}

impl DeepView for Optimization {
    type V = OptimizationView;

    open spec fn deep_view(&self) -> OptimizationView {
        OptimizationView {
            name: self.name@,
            category: self.category,
            description: self.description@,
            explanation: self.explanation@,
            changes: self.changes.deep_view(),
        }
    }
}

// ---------------------------------------------------------------------------
// How optimizations are shown
// ---------------------------------------------------------------------------

/// The name a category is shown by (its variant's name).
pub open spec fn category_name_of(c: Category) -> Seq<char> {
    match c {
        Category::Sysctl => "Sysctl"@,
        Category::IoScheduler => "IoScheduler"@,
        Category::Filesystem => "Filesystem"@,
        Category::Packages => "Packages"@,
        Category::Service => "Service"@,
        Category::Gpu => "Gpu"@,
    }
}

impl Category {
    /// The name the category is shown by.
    pub fn to_string(&self) -> (r: String)
        ensures
            r@ == category_name_of(*self),
    {
        let s = match self {
            Category::Sysctl => "Sysctl",
            Category::IoScheduler => "IoScheduler",
            Category::Filesystem => "Filesystem",
            Category::Packages => "Packages",
            Category::Service => "Service",
            Category::Gpu => "Gpu",
        };
        string_of(&chars_of(s))
    }
}

/// The line of a change in a preview: `target : current -> new` where the
/// current value is known, `target = new` where it is not.
pub open spec fn change_text_of(c: ChangeView) -> Seq<char> {
    match c.current_value {
        Some(cur) => "    "@ + c.target + " : "@ + cur + " -> "@ + c.new_value + "\n"@,
        None => "    "@ + c.target + " = "@ + c.new_value + "\n"@,
    }
}

/// The lines of all changes, in order.
pub open spec fn changes_text_of(cs: Seq<ChangeView>) -> Seq<char>
    decreases cs.len(),
{
    if cs.len() == 0 {
        seq![]
    } else {
        changes_text_of(cs.drop_last()) + change_text_of(cs.last())
    }
}

/// How an optimization is previewed: category and name, description, the
/// reason, and one line per change.
pub open spec fn optimization_text_of(o: OptimizationView) -> Seq<char> {
    "["@ + category_name_of(o.category) + "] "@ + o.name + "\n  "@ + o.description + "\n  Why: "@
        + o.explanation + "\n"@ + changes_text_of(o.changes)
}

impl Optimization {
    /// The optimization as a preview shows it.
    pub fn to_string(&self) -> (r: String)
        ensures
            r@ == optimization_text_of(self.deep_view()),
    {
        let mut v: Vec<char> = Vec::new();
        push_str(&mut v, "[");
        push_str(&mut v, self.category.to_string().as_str());
        push_str(&mut v, "] ");
        push_str(&mut v, self.name.as_str());
        push_str(&mut v, "\n  ");
        push_str(&mut v, self.description.as_str());
        push_str(&mut v, "\n  Why: ");
        push_str(&mut v, self.explanation.as_str());
        push_str(&mut v, "\n");
        let ghost head = v@;
        let ghost cs = self.changes.deep_view();
        let mut i: usize = 0;
        while i < self.changes.len()
            invariant
                i <= self.changes@.len(),
                cs == self.changes.deep_view(),
                v@ == head + changes_text_of(cs.take(i as int)),
            decreases self.changes@.len() - i,
        {
            proof {
                assert(cs.take(i + 1).drop_last() =~= cs.take(i as int));
                assert(cs.take(i + 1).last() == self.changes@[i as int].deep_view());
            }
            let c = &self.changes[i];
            push_str(&mut v, "    ");
            push_str(&mut v, c.target.as_str());
            match &c.current_value {
                Some(cur) => {
                    push_str(&mut v, " : ");
                    push_str(&mut v, cur.as_str());
                    push_str(&mut v, " -> ");
                },
                None => {
                    push_str(&mut v, " = ");
                },
            }
            push_str(&mut v, c.new_value.as_str());
            push_str(&mut v, "\n");
            assert(v@ =~= head + changes_text_of(cs.take(i + 1)));
            i += 1;
        }
        assert(cs.take(cs.len() as int) =~= cs);
        assert(v@ =~= optimization_text_of(self.deep_view()));
        string_of(&v)
    }
}

// ---------------------------------------------------------------------------
// Sysctl optimizations
// ---------------------------------------------------------------------------

/// Setting the sysctl `key` to `value`, with the value it has now.
pub open spec fn sysctl_change_of(probe: Probe, key: Seq<char>, value: Seq<char>) -> ChangeView {
    ChangeView {
        kind: ChangeKind::SysctlSet,
        target: key,
        current_value: probe.sysctl(key),
        new_value: value,
    }
}

/// A sysctl optimization: one change per `(key, value)` pair, in order.
pub open spec fn sysctl_opt_of(
    probe: Probe,
    name: Seq<char>,
    description: Seq<char>,
    explanation: Seq<char>,
    params: Seq<(Seq<char>, Seq<char>)>,
) -> OptimizationView {
    OptimizationView {
        name,
        category: Category::Sysctl,
        description,
        explanation,
        changes: params.map_values(|p: (Seq<char>, Seq<char>)| sysctl_change_of(probe, p.0, p.1)),
    }
}

/// A sysctl optimization keeps the name, description and explanation it is
/// given, and has one change per `(key, value)` parameter, in order: a
/// sysctl change of that key to that value, whose current value is the
/// key's file under `/proc/sys` (dots read as slashes), trimmed.
pub proof fn lemma_sysctl_opt_params(
    probe: Probe,
    name: Seq<char>,
    description: Seq<char>,
    explanation: Seq<char>,
    params: Seq<(Seq<char>, Seq<char>)>,
)
    ensures
        sysctl_opt_of(probe, name, description, explanation, params).name == name,
        sysctl_opt_of(probe, name, description, explanation, params).description == description,
        sysctl_opt_of(probe, name, description, explanation, params).explanation == explanation,
        sysctl_opt_of(probe, name, description, explanation, params).category == Category::Sysctl,
        sysctl_opt_of(probe, name, description, explanation, params).changes.len() == params.len(),
        forall|i: int|
            0 <= i < params.len() ==> {
                let c = #[trigger] sysctl_opt_of(probe, name, description, explanation, params).changes[i];
                &&& c.kind == ChangeKind::SysctlSet
                &&& c.target == params[i].0
                &&& c.new_value == params[i].1
                &&& c.current_value == trim_opt(
                    probe.file(
                        "/proc/sys/"@ + params[i].0.map_values(
                            |ch: char|
                                if ch == '.' {
                                    '/'
                                } else {
                                    ch
                                },
                        ),
                    ),
                )
            },
{
    assert forall|i: int| 0 <= i < params.len() implies params[i].0.map_values(
        |ch: char|
            if ch == '.' {
                '/'
            } else {
                ch
            },
    ) =~= dots_to_slashes(params[i].0) by {}
}

/// Builds a sysctl optimization, reading the current value of each key.
pub fn sysctl_opt(
    probe: &Probe,
    name: &str,
    description: &str,
    explanation: &str,
    params: &Vec<(String, String)>,
) -> (r: Optimization)
    ensures
        r.deep_view() == sysctl_opt_of(*probe, name@, description@, explanation@, params.deep_view()),
        r.changes@.len() == params@.len(),
        forall|i: int|
            0 <= i < params@.len() ==> (#[trigger] r.changes@[i]).target@ == params@[i].0@
                && r.changes@[i].new_value@ == params@[i].1@ && r.changes@[i].kind
                == ChangeKind::SysctlSet,
{
    let mut changes: Vec<Change> = Vec::new();
    let ghost ps = params.deep_view();
    let mut i: usize = 0;
    while i < params.len()
        invariant
            i <= params@.len(),
            ps == params.deep_view(),
            changes.deep_view() == ps.take(i as int).map_values(
                |p: (Seq<char>, Seq<char>)| sysctl_change_of(*probe, p.0, p.1),
            ),
        decreases params@.len() - i,
    {
        let key = chars_of(params[i].0.as_str());
        let current = match probe.sysctl_chars(&key) {
            Some(v) => Some(string_of(&v)),
            None => None,
        };
        let change = Change {
            kind: ChangeKind::SysctlSet,
            target: string_of(&key),
            current_value: current,
            new_value: string_of(&chars_of(params[i].1.as_str())),
        };
        proof {
            assert(ps[i as int] == (params@[i as int].0@, params@[i as int].1@));
            assert(ps.take(i + 1).map_values(
                |p: (Seq<char>, Seq<char>)| sysctl_change_of(*probe, p.0, p.1),
            ) =~= changes.deep_view().push(change.deep_view()));
        }
        changes.push(change);
        proof {
            assert(changes.deep_view() =~= ps.take(i + 1).map_values(
                |p: (Seq<char>, Seq<char>)| sysctl_change_of(*probe, p.0, p.1),
            ));
        }
        i += 1;
    }
    proof {
        assert(ps.take(ps.len() as int) =~= ps);
        lemma_sysctl_opt_params(*probe, name@, description@, explanation@, ps);
        assert forall|i: int| 0 <= i < params@.len() implies (#[trigger] changes@[i]).target@
            == params@[i].0@ && changes@[i].new_value@ == params@[i].1@ && changes@[i].kind
            == ChangeKind::SysctlSet by {
            assert(changes.deep_view()[i] == changes@[i].deep_view());
            assert(ps[i] == (params@[i].0@, params@[i].1@));
        }
    }
    Optimization {
        name: string_of(&chars_of(name)),
        category: Category::Sysctl,
        description: string_of(&chars_of(description)),
        explanation: string_of(&chars_of(explanation)),
        changes,
    }
}

// ---------------------------------------------------------------------------
// The NVIDIA suspend fix
// ---------------------------------------------------------------------------

/// Where the NVIDIA module options are written.
pub open spec fn nvidia_modprobe_path() -> Seq<char> {
    "/etc/modprobe.d/nvidia.conf"@
}

/// The NVIDIA module options that preserve video memory across suspend.
pub open spec fn nvidia_modprobe_content() -> Seq<char> {
    "options nvidia_drm modeset=1\noptions nvidia NVreg_PreserveVideoMemoryAllocations=1\noptions nvidia NVreg_TemporaryFilePath=/var/tmp\n"@
}

/// The name of the NVIDIA suspend fix.
pub open spec fn nvidia_fix_name() -> Seq<char> {
    "NVIDIA GPU suspend fix"@
}

/// The description of the NVIDIA suspend fix.
pub open spec fn nvidia_fix_description() -> Seq<char> {
    "Fix NVIDIA GPU freeze on suspend/resume by preserving VRAM and enabling suspend services"@
}

/// The explanation of the NVIDIA suspend fix.
pub open spec fn nvidia_fix_explanation() -> Seq<char> {
    "NVIDIA GPUs lose VRAM contents during Linux suspend, causing a frozen display on wake. NVreg_PreserveVideoMemoryAllocations=1 saves VRAM to disk before sleep. The nvidia-suspend/resume/hibernate systemd services coordinate the save/restore cycle. Requires initramfs rebuild (mkinitcpio -P) and reboot after applying."@
}

/// Enabling a disabled service.
pub open spec fn enable_change_of(service: Seq<char>) -> ChangeView {
    ChangeView {
        kind: ChangeKind::EnableService,
        target: service,
        current_value: Some("disabled"@),
        new_value: "enabled"@,
    }
}

/// The service changes: one for each of the suspend, resume and hibernate
/// services that is not enabled, in that order.
pub open spec fn service_changes_of(probe: Probe) -> Seq<ChangeView> {
    let s1 = if probe.service_is_enabled("nvidia-suspend"@) {
        seq![]
    } else {
        seq![enable_change_of("nvidia-suspend"@)]
    };
    let s2 = if probe.service_is_enabled("nvidia-resume"@) {
        seq![]
    } else {
        seq![enable_change_of("nvidia-resume"@)]
    };
    let s3 = if probe.service_is_enabled("nvidia-hibernate"@) {
        seq![]
    } else {
        seq![enable_change_of("nvidia-hibernate"@)]
    };
    s1 + s2 + s3
}

/// The changes of the NVIDIA fix: the module options unless VRAM is
/// already preserved, then the service changes unless the services are
/// already enabled.
pub open spec fn nvidia_changes_of(gpu: GpuInfo, probe: Probe) -> Seq<ChangeView> {
    let vram = if gpu.preserve_vram {
        seq![]
    } else {
        seq![
            ChangeView {
                kind: ChangeKind::WriteFile,
                target: nvidia_modprobe_path(),
                current_value: probe.file(nvidia_modprobe_path()),
                new_value: nvidia_modprobe_content(),
            },
        ]
    };
    let services = if gpu.suspend_services_enabled {
        seq![]
    } else {
        service_changes_of(probe)
    };
    vram + services
}

/// The NVIDIA suspend fix for `gpu`: nothing for a GPU of another vendor or
/// one that is fully configured, nothing when no change remains.
pub open spec fn nvidia_suspend_opt_of(gpu: GpuInfo, probe: Probe) -> Option<OptimizationView> {
    if !(gpu.vendor is Nvidia) {
        None
    } else if gpu.preserve_vram && gpu.suspend_services_enabled {
        None
    } else {
        let changes = nvidia_changes_of(gpu, probe);
        if changes.len() == 0 {
            None
        } else {
            Some(
                OptimizationView {
                    name: nvidia_fix_name(),
                    category: Category::Gpu,
                    description: nvidia_fix_description(),
                    explanation: nvidia_fix_explanation(),
                    changes,
                },
            )
        }
    }
}

/// The NVIDIA suspend fix is offered exactly for an NVIDIA GPU whose video
/// memory is not preserved, or whose suspend services are not all enabled
/// while one of `nvidia-suspend`, `nvidia-resume`, `nvidia-hibernate` is
/// not. It is a GPU optimization. It first writes the module options to
/// `/etc/modprobe.d/nvidia.conf` exactly when video memory is not
/// preserved, recording what the file held, and it enables a service,
/// recorded as disabled before, exactly when it is one of those three, the
/// services are not all enabled, and `systemctl is-enabled` does not report
/// it enabled.
pub proof fn lemma_nvidia_fix(gpu: GpuInfo, probe: Probe, s: Seq<char>)
    ensures
        nvidia_suspend_opt_of(gpu, probe) is Some <==> (gpu.vendor is Nvidia && (!gpu.preserve_vram || (
        !gpu.suspend_services_enabled && (!probe.service_is_enabled("nvidia-suspend"@)
            || !probe.service_is_enabled("nvidia-resume"@) || !probe.service_is_enabled(
            "nvidia-hibernate"@,
        ))))),
        nvidia_suspend_opt_of(gpu, probe) matches Some(o) ==> {
            &&& o.category == Category::Gpu
            &&& o.name == "NVIDIA GPU suspend fix"@
            &&& !gpu.preserve_vram ==> o.changes[0] == ChangeView {
                kind: ChangeKind::WriteFile,
                target: "/etc/modprobe.d/nvidia.conf"@,
                current_value: probe.file("/etc/modprobe.d/nvidia.conf"@),
                new_value: nvidia_modprobe_content(),
            }
            &&& (exists|i: int| 0 <= i < o.changes.len() && #[trigger] o.changes[i].kind
                == ChangeKind::WriteFile) <==> !gpu.preserve_vram
            &&& o.changes.contains(
                ChangeView {
                    kind: ChangeKind::EnableService,
                    target: s,
                    current_value: Some("disabled"@),
                    new_value: "enabled"@,
                },
            ) <==> (!gpu.suspend_services_enabled && (s == "nvidia-suspend"@ || s
                == "nvidia-resume"@ || s == "nvidia-hibernate"@) && !probe.service_is_enabled(s))
        },
{
    reveal_strlit("nvidia-suspend");
    reveal_strlit("nvidia-resume");
    reveal_strlit("nvidia-hibernate");
    assert("nvidia-suspend"@[7] != "nvidia-resume"@[7]);
    assert("nvidia-suspend"@[7] != "nvidia-hibernate"@[7]);
    assert("nvidia-resume"@[7] != "nvidia-hibernate"@[7]);
    if let Some(o) = nvidia_suspend_opt_of(gpu, probe) {
        let e = ChangeView {
            kind: ChangeKind::EnableService,
            target: s,
            current_value: Some("disabled"@),
            new_value: "enabled"@,
        };
        let cs = o.changes;
        if cs.contains(e) {
            let i = choose|i: int| 0 <= i < cs.len() && cs[i] == e;
            assert(cs[i] == e);
        }
        if !gpu.preserve_vram {
            assert(cs[0].kind == ChangeKind::WriteFile);
        }
        if !gpu.suspend_services_enabled && !probe.service_is_enabled(s) {
            if s == "nvidia-suspend"@ || s == "nvidia-resume"@ || s == "nvidia-hibernate"@ {
                assert(cs.contains(e)) by {
                    let v = if gpu.preserve_vram { 0int } else { 1int };
                    let s1 = if probe.service_is_enabled("nvidia-suspend"@) { 0int } else { 1int };
                    let s2 = if probe.service_is_enabled("nvidia-resume"@) { 0int } else { 1int };
                    if s == "nvidia-suspend"@ {
                        assert(cs[v] == e);
                    } else if s == "nvidia-resume"@ {
                        assert(cs[v + s1] == e);
                    } else {
                        assert(cs[v + s1 + s2] == e);
                    }
                }
            }
        }
    }
}

fn enable_change(service: &str) -> (r: Change)
    ensures
        r.deep_view() == enable_change_of(service@),
{
    Change {
        kind: ChangeKind::EnableService,
        target: string_of(&chars_of(service)),
        current_value: Some(string_of(&chars_of("disabled"))),
        new_value: string_of(&chars_of("enabled")),
    }
}

/// Builds the NVIDIA suspend fix when `gpu` needs it.
pub fn nvidia_suspend_opt(gpu: &GpuInfo, probe: &Probe) -> (r: Option<Optimization>)
    ensures
        r.deep_view() == nvidia_suspend_opt_of(*gpu, *probe),
{
    match gpu.vendor {
        GpuVendor::Nvidia => {},
        _ => {
            return None;
        },
    }
    if gpu.preserve_vram && gpu.suspend_services_enabled {
        return None;
    }
    let mut changes: Vec<Change> = Vec::new();
    if !gpu.preserve_vram {
        let path = chars_of("/etc/modprobe.d/nvidia.conf");
        let current = match probe.read(&path) {
            Some(v) => Some(string_of(&v)),
            None => None,
        };
        changes.push(
            Change {
                kind: ChangeKind::WriteFile,
                target: string_of(&path),
                current_value: current,
                new_value: string_of(
                    &chars_of(
                        "options nvidia_drm modeset=1\noptions nvidia NVreg_PreserveVideoMemoryAllocations=1\noptions nvidia NVreg_TemporaryFilePath=/var/tmp\n",
                    ),
                ),
            },
        );
    }
    let ghost vram = changes.deep_view();
    if !gpu.suspend_services_enabled {
        if !probe.service_enabled(&chars_of("nvidia-suspend")) {
            changes.push(enable_change("nvidia-suspend"));
        }
        let ghost after1 = changes.deep_view();
        if !probe.service_enabled(&chars_of("nvidia-resume")) {
            changes.push(enable_change("nvidia-resume"));
        }
        let ghost after2 = changes.deep_view();
        if !probe.service_enabled(&chars_of("nvidia-hibernate")) {
            changes.push(enable_change("nvidia-hibernate"));
        }
        proof {
            let s = service_changes_of(*probe);
            assert(changes.deep_view() =~= vram + s);
        }
    } else {
        assert(changes.deep_view() =~= vram + Seq::<ChangeView>::empty());
    }
    assert(changes.deep_view() =~= nvidia_changes_of(*gpu, *probe));
    if changes.len() == 0 {
        return None;
    }
    Some(
        Optimization {
            name: string_of(&chars_of("NVIDIA GPU suspend fix")),
            category: Category::Gpu,
            description: string_of(
                &chars_of(
                    "Fix NVIDIA GPU freeze on suspend/resume by preserving VRAM and enabling suspend services",
                ),
            ),
            explanation: string_of(
                &chars_of(
                    "NVIDIA GPUs lose VRAM contents during Linux suspend, causing a frozen display on wake. NVreg_PreserveVideoMemoryAllocations=1 saves VRAM to disk before sleep. The nvidia-suspend/resume/hibernate systemd services coordinate the save/restore cycle. Requires initramfs rebuild (mkinitcpio -P) and reboot after applying.",
                ),
            ),
            changes,
        },
    )
}

// ---------------------------------------------------------------------------
// Carrying changes out
// ---------------------------------------------------------------------------

/// One action on the host that carries out a change.
#[derive(Debug, Clone)]
pub enum Step {
    /// Write `value` to `path`, the file of the sysctl `key`.
    WriteSysctl { key: String, path: String, value: String },
    /// Write `value` to the file `path`.
    WriteFile { path: String, value: String },
    /// Run `systemctl enable name`.
    EnableService { name: String },
    /// Tell the user that the package `name` needs a manual install.
    ManualInstall { name: String },
}

/// The mathematical value of a `Step`.
pub enum StepView {
    WriteSysctl { key: Seq<char>, path: Seq<char>, value: Seq<char> },
    WriteFile { path: Seq<char>, value: Seq<char> },
    EnableService { name: Seq<char> },
    ManualInstall { name: Seq<char> },
}

impl DeepView for Step {
    type V = StepView;

    open spec fn deep_view(&self) -> StepView {
        match self {
            Step::WriteSysctl { key, path, value } => StepView::WriteSysctl {
                key: key@,
                path: path@,
                value: value@,
            },
            Step::WriteFile { path, value } => StepView::WriteFile { path: path@, value: value@ },
            Step::EnableService { name } => StepView::EnableService { name: name@ },
            Step::ManualInstall { name } => StepView::ManualInstall { name: name@ },
        }
    }
}

/// The step that carries out a change.
pub open spec fn step_of(c: ChangeView) -> StepView {
    match c.kind {
        ChangeKind::SysctlSet => StepView::WriteSysctl {
            key: c.target,
            path: sysctl_path_of(c.target),
            value: c.new_value,
        },
        ChangeKind::WriteFile => StepView::WriteFile { path: c.target, value: c.new_value },
        ChangeKind::EnableService => StepView::EnableService { name: c.target },
        ChangeKind::InstallPackage => StepView::ManualInstall { name: c.target },
    }
}

/// A model of what steps and rollbacks change on the host: the contents of
/// files by path, and the services that are enabled.
pub struct HostState {
    pub files: Map<Seq<char>, Seq<char>>,
    pub enabled: Set<Seq<char>>,
}

/// What a step does to the host when it succeeds: a sysctl is written where
/// its file exists (files under `/proc/sys` cannot be created), a file is
/// written or created, a service is enabled; a manual install changes
/// nothing.
pub open spec fn after_step(st: HostState, s: StepView) -> HostState {
    match s {
        StepView::WriteSysctl { key: _, path, value } => if st.files.dom().contains(path) {
            HostState { files: st.files.insert(path, value), enabled: st.enabled }
        } else {
            st
        },
        StepView::WriteFile { path, value } => HostState {
            files: st.files.insert(path, value),
            enabled: st.enabled,
        },
        StepView::EnableService { name } => HostState { files: st.files, enabled: st.enabled.insert(name) },
        StepView::ManualInstall { .. } => st,
    }
}

/// The host after carrying out `steps` in order, each of them succeeding.
pub open spec fn after_steps(st: HostState, steps: Seq<StepView>) -> HostState
    decreases steps.len(),
{
    if steps.len() == 0 {
        st
    } else {
        after_step(after_steps(st, steps.drop_last()), steps.last())
    }
}

/// The steps that apply an optimization, one per change and in order. They
/// are carried out in order, stopping at the first that fails.
pub fn apply(opt: &Optimization) -> (r: Vec<Step>)
    ensures
        r.deep_view() == opt.changes.deep_view().map_values(|c: ChangeView| step_of(c)),
{
    let ghost cs = opt.changes.deep_view();
    let mut steps: Vec<Step> = Vec::new();
    let mut i: usize = 0;
    while i < opt.changes.len()
        invariant
            i <= opt.changes@.len(),
            cs == opt.changes.deep_view(),
            steps.deep_view() == cs.take(i as int).map_values(|c: ChangeView| step_of(c)),
        decreases opt.changes@.len() - i,
    {
        let change = &opt.changes[i];
        let target = chars_of(change.target.as_str());
        let value = chars_of(change.new_value.as_str());
        let step = match change.kind {
            ChangeKind::SysctlSet => Step::WriteSysctl {
                key: string_of(&target),
                path: string_of(&sysctl_path(&target)),
                value: string_of(&value),
            },
            ChangeKind::WriteFile => Step::WriteFile {
                path: string_of(&target),
                value: string_of(&value),
            },
            ChangeKind::EnableService => Step::EnableService { name: string_of(&target) },
            ChangeKind::InstallPackage => Step::ManualInstall { name: string_of(&target) },
        };
        proof {
            assert(cs[i as int] == change.deep_view());
            assert(cs.take(i + 1).map_values(|c: ChangeView| step_of(c)) =~= steps.deep_view().push(
                step.deep_view(),
            ));
        }
        steps.push(step);
        proof {
            assert(steps.deep_view() =~= cs.take(i + 1).map_values(|c: ChangeView| step_of(c)));
        }
        i += 1;
    }
    proof {
        assert(cs.take(cs.len() as int) =~= cs);
    }
    steps
}

} // verus!
