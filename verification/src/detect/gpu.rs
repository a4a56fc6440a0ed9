//! NVIDIA GPU detection: driver version, model, VRAM preservation and the
//! suspend services.
use vstd::prelude::*;
use crate::probe::Probe;
use crate::text::{
    chars_of, contains_char, contains_lit, contains_seq, copy, find_containing, find_prefixed,
    first_containing, first_prefixed, is_ascii_digit, is_digit, lines, lines_of, seqs_of, split,
    split_of, string_of, trim, trim_of, words, words_of, push_str,
};

verus! {

/// What is known about the GPU.
#[derive(Debug, Clone)]
pub struct GpuInfo {
    pub vendor: GpuVendor,
    pub model: String,
    pub driver_version: String,
    pub preserve_vram: bool,
    pub suspend_services_enabled: bool,
}

/// The GPU vendor.
#[derive(Debug, Clone, PartialEq)]
pub enum GpuVendor {
    Nvidia,
    Amd,
    Intel,
    Other(String),
}

/// The mathematical value of a `GpuVendor`.
pub enum GpuVendorView {
    Nvidia,
    Amd,
    Intel,
    Other(Seq<char>),
}

/// The mathematical value of a `GpuInfo`.
pub struct GpuInfoView {
    pub vendor: GpuVendorView,
    pub model: Seq<char>,
    pub driver_version: Seq<char>,
    pub preserve_vram: bool,
    pub suspend_services_enabled: bool,
}

impl DeepView for GpuVendor {
    type V = GpuVendorView;

    open spec fn deep_view(&self) -> GpuVendorView {
        match self {
            GpuVendor::Nvidia => GpuVendorView::Nvidia,
            GpuVendor::Amd => GpuVendorView::Amd,
            GpuVendor::Intel => GpuVendorView::Intel,
            GpuVendor::Other(s) => GpuVendorView::Other(s@),
        }
    }
}

impl DeepView for GpuInfo {
    type V = GpuInfoView;

    open spec fn deep_view(&self) -> GpuInfoView {
        GpuInfoView {
            vendor: self.vendor.deep_view(),
            model: self.model@,
            driver_version: self.driver_version@,
            preserve_vram: self.preserve_vram,
            suspend_services_enabled: self.suspend_services_enabled,
        }
    }
}

/// A word that reads as a version number: it starts with a digit and holds a dot.
pub open spec fn is_version_word(w: Seq<char>) -> bool {
    w.len() > 0 && is_digit(w[0]) && w.contains('.')
}

/// Index of the first version-like word.
pub open spec fn first_version_word(ws: Seq<Seq<char>>) -> Option<int>
    decreases ws.len(),
{
    if ws.len() == 0 {
        None
    } else if is_version_word(ws[0]) {
        Some(0)
    } else {
        match first_version_word(ws.drop_first()) {
            Some(i) => Some(i + 1),
            None => None,
        }
    }
}

proof fn lemma_first_version_word(ws: Seq<Seq<char>>)
    ensures
        match first_version_word(ws) {
            Some(i) => 0 <= i < ws.len() && is_version_word(ws[i]) && forall|j: int|
                0 <= j < i ==> !is_version_word(#[trigger] ws[j]),
            None => forall|j: int| 0 <= j < ws.len() ==> !is_version_word(#[trigger] ws[j]),
        },
    decreases ws.len(),
{
    if ws.len() > 0 && !is_version_word(ws[0]) {
        lemma_first_version_word(ws.drop_first());
        assert forall|j: int| 1 <= j < ws.len() implies ws[j] == ws.drop_first()[j - 1] by {}
    }
}

/// The driver version: on the first line of the version file that mentions
/// `Kernel Module`, the first word that starts with a digit and holds a dot;
/// `unknown` when there is none.
pub open spec fn driver_version_of(version: Seq<char>) -> Seq<char> {
    let ls = lines_of(version);
    match first_containing(ls, "Kernel Module"@) {
        Some(i) => {
            let ws = words_of(ls[i]);
            match first_version_word(ws) {
                Some(j) => ws[j],
                None => "unknown"@,
            }
        },
        None => "unknown"@,
    }
}

/// The GPU model: from the first information file, in order, that has a
/// line starting with `Model:`, the trimmed text after that colon.
pub open spec fn nvidia_model_of(infos: Seq<Seq<char>>) -> Option<Seq<char>>
    decreases infos.len(),
{
    if infos.len() == 0 {
        None
    } else {
        let ls = lines_of(infos[0]);
        match first_prefixed(ls, "Model:"@) {
            Some(i) => {
                let parts = split_of(ls[i], ':');
                if parts.len() > 1 {
                    Some(trim_of(parts[1]))
                } else {
                    None
                }
            },
            None => nvidia_model_of(infos.drop_first()),
        }
    }
}

/// The GPU, when the NVIDIA driver is loaded (its version file is readable).
pub open spec fn gpu_of(probe: Probe) -> Option<GpuInfoView> {
    match probe.file("/proc/driver/nvidia/version"@) {
        None => None,
        Some(version) => Some(
            GpuInfoView {
                vendor: GpuVendorView::Nvidia,
                model: match nvidia_model_of(probe.gpu_infos@.map_values(|s: String| s@)) {
                    Some(m) => m,
                    None => "NVIDIA GPU"@,
                },
                driver_version: driver_version_of(version),
                preserve_vram: match probe.file("/proc/driver/nvidia/params"@) {
                    Some(p) => contains_seq(p, "PreserveVideoMemoryAllocations: 1"@),
                    None => false,
                },
                suspend_services_enabled: probe.service_is_enabled("nvidia-suspend"@)
                    && probe.service_is_enabled("nvidia-resume"@) && probe.service_is_enabled(
                    "nvidia-hibernate"@,
                ),
            },
        ),
    }
}

/// Whether `w` starts with a digit and contains a dot.
fn version_word(w: &Vec<char>) -> (r: bool)
    ensures
        r == is_version_word(w@),
{
    w.len() > 0 && is_ascii_digit(w[0]) && contains_char(w, '.')
}

/// Reads the driver version out of `/proc/driver/nvidia/version`.
pub fn driver_version(version: &Vec<char>) -> (r: Vec<char>)
    ensures
        r@ == driver_version_of(version@),
{
    let ls = lines(version);
    match find_containing(&ls, &chars_of("Kernel Module")) {
        Some(i) => {
            assert(seqs_of(ls@)[i as int] == ls@[i as int]@);
            let ws = words(&ls[i]);
            let ghost wss = seqs_of(ws@);
            assert(driver_version_of(version@) == match first_version_word(wss) {
                Some(j) => wss[j],
                None => "unknown"@,
            });
            let mut j: usize = 0;
            while j < ws.len()
                invariant
                    j <= ws@.len(),
                    wss == seqs_of(ws@),
                    driver_version_of(version@) == match first_version_word(wss) {
                        Some(j) => wss[j],
                        None => "unknown"@,
                    },
                    forall|k: int| 0 <= k < j ==> !is_version_word(#[trigger] wss[k]),
                decreases ws@.len() - j,
            {
                assert(wss[j as int] == ws@[j as int]@);
                if version_word(&ws[j]) {
                    proof {
                        lemma_first_version_word(wss);
                        match first_version_word(wss) {
                            Some(k) => {
                                if k < j {
                                    assert(!is_version_word(wss[k]));
                                } else if k > j {
                                    assert(!is_version_word(wss[j as int]));
                                }
                            },
                            None => {
                                assert(!is_version_word(wss[j as int]));
                            },
                        }
                    }
                    return copy(&ws[j]);
                }
                j += 1;
            }
            proof {
                lemma_first_version_word(wss);
                if let Some(k) = first_version_word(wss) {
                    assert(!is_version_word(wss[k]));
                }
            }
            chars_of("unknown")
        },
        None => chars_of("unknown"),
    }
}

/// Finds the GPU model among the information files.
pub fn detect_nvidia_model(infos: &Vec<String>) -> (r: Option<String>)
    ensures
        match r {
            Some(m) => nvidia_model_of(infos@.map_values(|s: String| s@)) == Some(m@),
            None => nvidia_model_of(infos@.map_values(|s: String| s@)) is None,
        },
{
    let ghost all = infos@.map_values(|s: String| s@);
    let mut i: usize = 0;
    proof {
        assert(all.skip(0) =~= all);
    }
    while i < infos.len()
        invariant
            i <= infos@.len(),
            all == infos@.map_values(|s: String| s@),
            nvidia_model_of(all) == nvidia_model_of(all.skip(i as int)),
        decreases infos@.len() - i,
    {
        let text = chars_of(infos[i].as_str());
        proof {
            assert(all.skip(i as int)[0] == text@);
            assert(all.skip(i as int).drop_first() =~= all.skip(i + 1));
        }
        let ls = lines(&text);
        match find_prefixed(&ls, &chars_of("Model:")) {
            Some(k) => {
                assert(seqs_of(ls@)[k as int] == ls@[k as int]@);
                let parts = split(&ls[k], ':');
                if parts.len() > 1 {
                    assert(seqs_of(parts@)[1] == parts@[1]@);
                    return Some(string_of(&trim(&parts[1])));
                } else {
                    return None;
                }
            },
            None => {},
        }
        i += 1;
    }
    None
}

/// Detects an NVIDIA GPU.
pub fn detect(probe: &Probe) -> (r: Option<GpuInfo>)
    ensures
        r.deep_view() == gpu_of(*probe),
{
    let version = match probe.read(&chars_of("/proc/driver/nvidia/version")) {
        Some(v) => v,
        None => {
            return None;
        },
    };
    let driver_version = string_of(&driver_version(&version));
    let model = match detect_nvidia_model(&probe.gpu_infos) {
        Some(m) => m,
        None => string_of(&chars_of("NVIDIA GPU")),
    };
    let preserve_vram = match probe.read(&chars_of("/proc/driver/nvidia/params")) {
        Some(p) => contains_lit(&p, "PreserveVideoMemoryAllocations: 1"),
        None => false,
    };
    let suspend_services_enabled = probe.service_enabled(&chars_of("nvidia-suspend"))
        && probe.service_enabled(&chars_of("nvidia-resume")) && probe.service_enabled(
        &chars_of("nvidia-hibernate"),
    );
    Some(
        GpuInfo {
            vendor: GpuVendor::Nvidia,
            model,
            driver_version,
            preserve_vram,
            suspend_services_enabled,
        },
    )
}


/// `enabled`, or `DISABLED` to stand out.
pub open spec fn enabled_word(b: bool) -> Seq<char> {
    if b {
        "enabled"@
    } else {
        "DISABLED"@
    }
}

/// How a GPU is shown in a scan report: model and driver, and for NVIDIA
/// the suspend settings.
pub open spec fn gpu_text_of(g: GpuInfoView) -> Seq<char> {
    "GPU: "@ + g.model + "\n  Driver: "@ + g.driver_version + "\n"@ + if g.vendor is Nvidia {
        "  VRAM preservation: "@ + enabled_word(g.preserve_vram) + "\n  Suspend services: "@
            + enabled_word(g.suspend_services_enabled)
    } else {
        Seq::<char>::empty()
    }
}

fn push_enabled_word(v: &mut Vec<char>, b: bool)
    ensures
        final(v)@ == old(v)@ + enabled_word(b),
{
    if b {
        push_str(v, "enabled");
    } else {
        push_str(v, "DISABLED");
    }
}

impl GpuInfo {
    /// The GPU as a scan report shows it.
    pub fn to_string(&self) -> (r: String)
        ensures
            r@ == gpu_text_of(self.deep_view()),
    {
        let mut v: Vec<char> = Vec::new();
        push_str(&mut v, "GPU: ");
        push_str(&mut v, self.model.as_str());
        push_str(&mut v, "\n  Driver: ");
        push_str(&mut v, self.driver_version.as_str());
        push_str(&mut v, "\n");
        match self.vendor {
            GpuVendor::Nvidia => {
                push_str(&mut v, "  VRAM preservation: ");
                push_enabled_word(&mut v, self.preserve_vram);
                push_str(&mut v, "\n  Suspend services: ");
                push_enabled_word(&mut v, self.suspend_services_enabled);
            },
            _ => {},
        }
        assert(v@ =~= gpu_text_of(self.deep_view()));
        string_of(&v)
    }
}

/// An NVIDIA GPU is detected exactly when the driver's version file is
/// readable. Its suspend services count as enabled exactly when
/// `systemctl is-enabled` printed `enabled` (surrounding whitespace aside)
/// for each of `nvidia-suspend`, `nvidia-resume` and `nvidia-hibernate`, and
/// VRAM preservation is on exactly when the driver's parameters say
/// `PreserveVideoMemoryAllocations: 1`.
pub proof fn lemma_gpu_from_driver_and_services(probe: Probe)
    ensures
        gpu_of(probe) is Some == probe.file("/proc/driver/nvidia/version"@) is Some,
        gpu_of(probe) matches Some(g) ==> g.vendor is Nvidia,
        gpu_of(probe) matches Some(g) ==> g.suspend_services_enabled == (match probe.service("nvidia-suspend"@) {
                Some(out) => trim_of(out) == "enabled"@,
                None => false,
            }
            && match probe.service("nvidia-resume"@) {
                Some(out) => trim_of(out) == "enabled"@,
                None => false,
            } && match probe.service("nvidia-hibernate"@) {
                Some(out) => trim_of(out) == "enabled"@,
                None => false,
            }),
        gpu_of(probe) matches Some(g) ==> g.preserve_vram == match probe.file(
            "/proc/driver/nvidia/params"@,
        ) {
            Some(t) => contains_seq(t, "PreserveVideoMemoryAllocations: 1"@),
            None => false,
        },
{
}

} // verus!
