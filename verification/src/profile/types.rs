//! The shape of a workload profile as its TOML file describes it.
use vstd::prelude::*;

verus! {

/// A profile: its metadata and its optimizations.
#[derive(Debug, Clone)]
pub struct ProfileToml {
    pub profile: ProfileMeta,
    pub optimization: Vec<OptimizationToml>,
}

/// The `[profile]` table: name, description and the profiles it extends.
#[derive(Debug, Clone)]
pub struct ProfileMeta {
    pub name: String,
    pub description: String,
    pub extends: Vec<String>,
}

/// An `[[optimization]]` entry.
#[derive(Debug, Clone)]
pub struct OptimizationToml {
    pub name: String,
    pub description: String,
    pub explanation: String,
    /// Capabilities the host must have (such as `bbr`).
    pub requires: Vec<String>,
    /// Memory the host must have, in megabytes.
    pub min_ram_mb: Option<u64>,
    pub sysctl: Vec<SysctlEntry>,
}

/// A `[[optimization.sysctl]]` entry: a key and the value to set.
#[derive(Debug, Clone)]
pub struct SysctlEntry {
    pub key: String,
    pub value: String,
}

/// The mathematical value of an `OptimizationToml`.
pub struct OptimizationTomlView {
    pub name: Seq<char>,
    pub description: Seq<char>,
    pub explanation: Seq<char>,
    pub requires: Seq<Seq<char>>,
    pub min_ram_mb: Option<u64>,
    pub sysctl: Seq<(Seq<char>, Seq<char>)>,
}

/// The mathematical value of a `ProfileToml`.
pub struct ProfileView {
    pub name: Seq<char>,
    pub description: Seq<char>,
    pub extends: Seq<Seq<char>>,
    pub optimization: Seq<OptimizationTomlView>,
}

impl DeepView for SysctlEntry {
    type V = (Seq<char>, Seq<char>);

    open spec fn deep_view(&self) -> (Seq<char>, Seq<char>) {
        (self.key@, self.value@)
    }
}

impl DeepView for OptimizationToml {
    type V = OptimizationTomlView;

    open spec fn deep_view(&self) -> OptimizationTomlView {
        OptimizationTomlView {
            name: self.name@,
            description: self.description@,
            explanation: self.explanation@,
            requires: self.requires.deep_view(),
            min_ram_mb: self.min_ram_mb,
            sysctl: self.sysctl.deep_view(),
        }
    }
}

impl DeepView for ProfileToml {
    type V = ProfileView;

    open spec fn deep_view(&self) -> ProfileView {
        ProfileView {
            name: self.profile.name@,
            description: self.profile.description@,
            extends: self.profile.extends.deep_view(),
            optimization: self.optimization.deep_view(),
        }
    }
}

} // verus!
