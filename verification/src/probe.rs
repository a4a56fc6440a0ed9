//! What was read from the running system: file contents by path, the output
//! of `systemctl is-enabled` by service name, and the NVIDIA GPU information
//! files. Everything the library decides about the host is decided from a
//! `Probe`; reading the host is left to the caller.
use vstd::prelude::*;
use crate::text::{chars_of, eq_chars, eq_lit, lit_cat, string_of, trim, trim_of};

verus! {

/// A snapshot of what could be read from the host.
pub struct Probe {
    /// Contents of the files that could be read, by path. Where a path occurs
    /// twice, its first entry counts; a path that is absent could not be read.
    pub files: Vec<(String, String)>,
    /// Standard output of `systemctl is-enabled <name>`, by service name, for
    /// the commands that could be run.
    pub services: Vec<(String, String)>,
    /// Contents of the readable `information` files under
    /// `/proc/driver/nvidia/gpus/`, in directory order.
    pub gpu_infos: Vec<String>,
}

/// The value of the first entry whose key is `key`.
pub open spec fn lookup(entries: Seq<(String, String)>, key: Seq<char>) -> Option<Seq<char>>
    decreases entries.len(),
{
    if entries.len() == 0 {
        None
    } else if entries[0].0@ == key {
        Some(entries[0].1@)
    } else {
        lookup(entries.drop_first(), key)
    }
}

/// `o` with `f` applied to its content.
pub open spec fn trim_opt(o: Option<Seq<char>>) -> Option<Seq<char>> {
    match o {
        Some(s) => Some(trim_of(s)),
        None => None,
    }
}

/// `'.'` replaced by `'/'` throughout.
pub open spec fn dots_to_slashes(key: Seq<char>) -> Seq<char> {
    key.map_values(|c: char| if c == '.' { '/' } else { c })
}

/// The file behind a sysctl key: `/proc/sys/` and the key with its dots
/// turned into slashes.
pub open spec fn sysctl_path_of(key: Seq<char>) -> Seq<char> {
    "/proc/sys/"@ + dots_to_slashes(key)
}

impl Probe {
    /// The contents of the file at `path`, if it could be read.
    pub open spec fn file(&self, path: Seq<char>) -> Option<Seq<char>> {
        lookup(self.files@, path)
    }

    /// The output of `systemctl is-enabled name`, if the command ran.
    pub open spec fn service(&self, name: Seq<char>) -> Option<Seq<char>> {
        lookup(self.services@, name)
    }

    /// The trimmed contents of the file at `path`.
    pub open spec fn file_trimmed(&self, path: Seq<char>) -> Option<Seq<char>> {
        trim_opt(self.file(path))
    }

    /// The trimmed value of a sysctl key.
    pub open spec fn sysctl(&self, key: Seq<char>) -> Option<Seq<char>> {
        self.file_trimmed(sysctl_path_of(key))
    }

    /// Whether `systemctl is-enabled name` printed `enabled`.
    pub open spec fn service_is_enabled(&self, name: Seq<char>) -> bool {
        match self.service(name) {
            Some(out) => trim_of(out) == "enabled"@,
            None => false,
        }
    }
}

/// Looks `key` up in `entries`.
pub fn find_entry(entries: &Vec<(String, String)>, key: &Vec<char>) -> (r: Option<Vec<char>>)
    ensures
        match r {
            Some(v) => lookup(entries@, key@) == Some(v@),
            None => lookup(entries@, key@) is None,
        },
{
    let mut i: usize = 0;
    proof {
        assert(entries@.skip(0) =~= entries@);
    }
    while i < entries.len()
        invariant
            i <= entries@.len(),
            lookup(entries@, key@) == lookup(entries@.skip(i as int), key@),
        decreases entries@.len() - i,
    {
        proof {
            assert(entries@.skip(i as int).drop_first() =~= entries@.skip(i + 1));
        }
        let k = chars_of(entries[i].0.as_str());
        if eq_chars(&k, key) {
            return Some(chars_of(entries[i].1.as_str()));
        }
        i += 1;
    }
    None
}

/// The characters of `key` with every `'.'` turned into `'/'`.
pub fn dots_to_slashes_exec(key: &Vec<char>) -> (r: Vec<char>)
    ensures
        r@ == dots_to_slashes(key@),
{
    let mut r: Vec<char> = Vec::new();
    let mut i: usize = 0;
    while i < key.len()
        invariant
            i <= key@.len(),
            r@ == dots_to_slashes(key@.take(i as int)),
        decreases key@.len() - i,
    {
        let c = key[i];
        r.push(if c == '.' { '/' } else { c });
        proof {
            assert(dots_to_slashes(key@.take(i + 1)) =~= dots_to_slashes(key@.take(i as int)).push(
                if c == '.' { '/' } else { c },
            ));
        }
        i += 1;
    }
    proof {
        assert(key@.take(key@.len() as int) =~= key@);
    }
    r
}

/// The file behind a sysctl key.
pub fn sysctl_path(key: &Vec<char>) -> (r: Vec<char>)
    ensures
        r@ == sysctl_path_of(key@),
{
    lit_cat("/proc/sys/", &dots_to_slashes_exec(key))
}

impl Probe {
    /// The contents of the file at `path`.
    pub fn read(&self, path: &Vec<char>) -> (r: Option<Vec<char>>)
        ensures
            match r {
                Some(v) => self.file(path@) == Some(v@),
                None => self.file(path@) is None,
            },
    {
        find_entry(&self.files, path)
    }

    /// The trimmed contents of the file at `path`.
    pub fn read_trimmed(&self, path: &Vec<char>) -> (r: Option<Vec<char>>)
        ensures
            match r {
                Some(v) => self.file_trimmed(path@) == Some(v@),
                None => self.file_trimmed(path@) is None,
            },
    {
        match self.read(path) {
            Some(v) => Some(trim(&v)),
            None => None,
        }
    }

    /// The trimmed contents of the file at the literal path `path`.
    pub fn read_trimmed_lit(&self, path: &str) -> (r: Option<Vec<char>>)
        ensures
            match r {
                Some(v) => self.file_trimmed(path@) == Some(v@),
                None => self.file_trimmed(path@) is None,
            },
    {
        self.read_trimmed(&chars_of(path))
    }

    /// The trimmed value of the sysctl `key`.
    pub fn sysctl_chars(&self, key: &Vec<char>) -> (r: Option<Vec<char>>)
        ensures
            match r {
                Some(v) => self.sysctl(key@) == Some(v@),
                None => self.sysctl(key@) is None,
            },
    {
        self.read_trimmed(&sysctl_path(key))
    }

    /// Whether `systemctl is-enabled name` printed `enabled`.
    pub fn service_enabled(&self, name: &Vec<char>) -> (r: bool)
        ensures
            r == self.service_is_enabled(name@),
    {
        match find_entry(&self.services, name) {
            Some(out) => eq_lit(&trim(&out), "enabled"),
            None => false,
        }
    }
}

/// The trimmed contents of the file at `path`, if it could be read.
pub fn read_file_trimmed(probe: &Probe, path: &str) -> (r: Option<String>)
    ensures
        match r {
            Some(v) => probe.file_trimmed(path@) == Some(v@),
            None => probe.file_trimmed(path@) is None,
        },
{
    match probe.read_trimmed_lit(path) {
        Some(v) => Some(string_of(&v)),
        None => None,
    }
}

/// The trimmed value of the sysctl `key`, read from `/proc/sys/`.
pub fn read_sysctl(probe: &Probe, key: &str) -> (r: Option<String>)
    ensures
        match r {
            Some(v) => probe.sysctl(key@) == Some(v@),
            None => probe.sysctl(key@) is None,
        },
{
    match probe.sysctl_chars(&chars_of(key)) {
        Some(v) => Some(string_of(&v)),
        None => None,
    }
}

} // verus!
