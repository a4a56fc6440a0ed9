//! Workload profiles: loading order, and resolution of a profile, with the
//! profiles it extends, into the optimizations that fit the host.
use vstd::prelude::*;
use crate::detect::disk::DiskInfoView;
use crate::detect::{CpuVendor, DiskInfo, DiskKind, SystemInfo};
use crate::optimize::{nvidia_suspend_opt, nvidia_suspend_opt_of, sysctl_opt, sysctl_opt_of, Optimization, OptimizationView};
use crate::probe::Probe;
use crate::text::{
    cat, lit_cat, chars_of, contains_lit, contains_seq, eq_chars, lemma_seqs_push, pad_right, pad_right_of, push_chars,
    push_str, seqs_of, string_of,
};

pub mod builtin;
pub mod types;

pub use builtin::builtin_profiles;
pub use types::{OptimizationToml, OptimizationTomlView, ProfileMeta, ProfileToml, ProfileView, SysctlEntry};

verus! {

// ---------------------------------------------------------------------------
// The set of loaded profiles
// ---------------------------------------------------------------------------

/// The profile loaded under `name`: the first entry with that name.
pub open spec fn find_profile_of(all: Seq<(Seq<char>, ProfileView)>, name: Seq<char>) -> Option<
    ProfileView,
>
    decreases all.len(),
{
    if all.len() == 0 {
        None
    } else if all[0].0 == name {
        Some(all[0].1)
    } else {
        find_profile_of(all.drop_first(), name)
    }
}

/// The profile that a name resolves to: the one loaded under it, else
/// `developer`.
pub open spec fn profile_for(all: Seq<(Seq<char>, ProfileView)>, name: Seq<char>) -> Option<
    ProfileView,
> {
    match find_profile_of(all, name) {
        Some(p) => Some(p),
        None => find_profile_of(all, "developer"@),
    }
}

/// Every name that the loaded profiles mention: their names and the names
/// they extend.
pub open spec fn profile_names(all: Seq<(Seq<char>, ProfileView)>) -> Seq<Seq<char>>
    decreases all.len(),
{
    if all.len() == 0 {
        seq![]
    } else {
        profile_names(all.drop_last()) + seq![all.last().0] + all.last().1.extends
    }
}

/// The names that resolution can visit below the top level.
pub open spec fn universe(all: Seq<(Seq<char>, ProfileView)>) -> Set<Seq<char>> {
    profile_names(all).to_set()
}

/// The entries of `all` loaded under another name than `name`.
pub open spec fn without_name(all: Seq<(Seq<char>, ProfileView)>, name: Seq<char>) -> Seq<
    (Seq<char>, ProfileView),
>
    decreases all.len(),
{
    if all.len() == 0 {
        seq![]
    } else if all.last().0 == name {
        without_name(all.drop_last(), name)
    } else {
        without_name(all.drop_last(), name).push(all.last())
    }
}

proof fn lemma_extends_in_universe(all: Seq<(Seq<char>, ProfileView)>, k: int, j: int)
    requires
        0 <= k < all.len(),
        0 <= j < all[k].1.extends.len(),
    ensures
        universe(all).contains(all[k].1.extends[j]),
    decreases all.len(),
{
    let names = profile_names(all);
    if k == all.len() - 1 {
        let prev = profile_names(all.drop_last());
        assert(names[prev.len() + 1 + j] == all[k].1.extends[j]);
    } else {
        lemma_extends_in_universe(all.drop_last(), k, j);
        let x = all[k].1.extends[j];
        assert(all.drop_last()[k] == all[k]);
        let prev = profile_names(all.drop_last());
        let i = choose|i: int| 0 <= i < prev.len() && prev[i] == x;
        assert(names[i] == x);
    }
}

proof fn lemma_find_profile_in(all: Seq<(Seq<char>, ProfileView)>, name: Seq<char>)
    ensures
        find_profile_of(all, name) matches Some(p) ==> exists|k: int|
            0 <= k < all.len() && #[trigger] all[k].1 == p && all[k].0 == name,
    decreases all.len(),
{
    if all.len() > 0 && all[0].0 != name {
        lemma_find_profile_in(all.drop_first(), name);
        if let Some(p) = find_profile_of(all, name) {
            let k = choose|k: int| 0 <= k < all.drop_first().len() && #[trigger] all.drop_first()[k].1
                == p && all.drop_first()[k].0 == name;
            assert(all[k + 1] == all.drop_first()[k]);
        }
    }
}

// ---------------------------------------------------------------------------
// Resolution
// ---------------------------------------------------------------------------

/// What resolution depends on besides the profile name.
pub struct ResolveContext {
    pub all: Seq<(Seq<char>, ProfileView)>,
    pub probe: Probe,
    pub caps: Set<Seq<char>>,
    pub total_mb: u64,
}

/// Whether an optimization entry applies: the host has every required
/// capability and at least the required memory.
pub open spec fn admitted(o: OptimizationTomlView, caps: Set<Seq<char>>, total_mb: u64) -> bool {
    &&& forall|i: int| 0 <= i < o.requires.len() ==> caps.contains(#[trigger] o.requires[i])
    &&& match o.min_ram_mb {
        Some(m) => total_mb >= m,
        None => true,
    }
}

/// The optimizations that a profile's own entries give, in order.
pub open spec fn own_opts_of(ctx: ResolveContext, opts: Seq<OptimizationTomlView>) -> Seq<
    OptimizationView,
>
    decreases opts.len(),
{
    if opts.len() == 0 {
        seq![]
    } else {
        let rest = own_opts_of(ctx, opts.drop_last());
        let o = opts.last();
        if admitted(o, ctx.caps, ctx.total_mb) {
            rest.push(sysctl_opt_of(ctx.probe, o.name, o.description, o.explanation, o.sysctl))
        } else {
            rest
        }
    }
}

/// Resolves `name`, which `visited` already holds: the optimizations of the
/// profiles it extends, in order, then its own; and the names visited by then.
pub open spec fn resolve_body(ctx: ResolveContext, name: Seq<char>, visited: Set<Seq<char>>) -> (
    Seq<OptimizationView>,
    Set<Seq<char>>,
)
    decreases universe(ctx.all).difference(visited).len(), 1int, 0int,
{
    match profile_for(ctx.all, name) {
        None => (seq![], visited),
        Some(p) => {
            let parents = resolve_list(ctx, p.extends, 0, visited);
            (parents.0 + own_opts_of(ctx, p.optimization), parents.1)
        },
    }
}

/// Resolves `parents[i..]` in order, each unless already visited (a cycle
/// or a repeat contributes nothing).
pub open spec fn resolve_list(
    ctx: ResolveContext,
    parents: Seq<Seq<char>>,
    i: int,
    visited: Set<Seq<char>>,
) -> (Seq<OptimizationView>, Set<Seq<char>>)
    decreases universe(ctx.all).difference(visited).len(), 0int, parents.len() - i,
{
    if i < 0 || i >= parents.len() {
        (seq![], visited)
    } else {
        let p = parents[i];
        if visited.contains(p) {
            resolve_list(ctx, parents, i + 1, visited)
        } else if !universe(ctx.all).contains(p) {
            (seq![], visited)
        } else {
            proof {
                vstd::seq_lib::seq_to_set_is_finite(profile_names(ctx.all));
                universe(ctx.all).lemma_set_insert_diff_decreases(visited, p);
            }
            let first = resolve_body(ctx, p, visited.insert(p));
            proof {
                let u = universe(ctx.all);
                vstd::seq_lib::seq_to_set_is_finite(profile_names(ctx.all));
                assert(u.difference(visited.union(first.1)).subset_of(u.difference(visited)));
                vstd::set_lib::lemma_set_subset_finite(u, u.difference(visited));
                vstd::set_lib::lemma_len_subset(
                    u.difference(visited.union(first.1)),
                    u.difference(visited),
                );
            }
            let rest = resolve_list(ctx, parents, i + 1, visited.union(first.1));
            (first.0 + rest.0, rest.1)
        }
    }
}

/// The optimizations of the profile `name` with everything it extends,
/// each profile taken at most once.
pub open spec fn resolve_profile_of(ctx: ResolveContext, name: Seq<char>) -> Seq<OptimizationView> {
    resolve_body(ctx, name, Set::empty().insert(name)).0
}

/// The warning for a profile that resolution reaches again.
pub open spec fn circular_warning_of(name: Seq<char>) -> Seq<char> {
    "Circular extends detected for profile: "@ + name
}

/// The warning for a name that no loaded profile has.
pub open spec fn unknown_warning_of(name: Seq<char>) -> Seq<char> {
    "Unknown profile: "@ + name + ", using 'developer'"@
}

/// The warnings that resolving `name` (already visited) gives, in order: an
/// unknown name first, then those of its parents, where a parent visited
/// already is reported as circular.
pub open spec fn warnings_body(ctx: ResolveContext, name: Seq<char>, visited: Set<Seq<char>>) -> Seq<
    Seq<char>,
>
    decreases universe(ctx.all).difference(visited).len(), 1int, 0int,
{
    let unknown = if find_profile_of(ctx.all, name) is None {
        seq![unknown_warning_of(name)]
    } else {
        Seq::<Seq<char>>::empty()
    };
    match profile_for(ctx.all, name) {
        None => unknown,
        Some(p) => unknown + warnings_list(ctx, p.extends, 0, visited),
    }
}

/// The warnings that resolving `parents[i..]` gives, in order.
pub open spec fn warnings_list(
    ctx: ResolveContext,
    parents: Seq<Seq<char>>,
    i: int,
    visited: Set<Seq<char>>,
) -> Seq<Seq<char>>
    decreases universe(ctx.all).difference(visited).len(), 0int, parents.len() - i,
{
    if i < 0 || i >= parents.len() {
        seq![]
    } else {
        let p = parents[i];
        if visited.contains(p) {
            seq![circular_warning_of(p)] + warnings_list(ctx, parents, i + 1, visited)
        } else if !universe(ctx.all).contains(p) {
            seq![]
        } else {
            proof {
                vstd::seq_lib::seq_to_set_is_finite(profile_names(ctx.all));
                universe(ctx.all).lemma_set_insert_diff_decreases(visited, p);
            }
            let first = resolve_body(ctx, p, visited.insert(p));
            proof {
                let u = universe(ctx.all);
                vstd::seq_lib::seq_to_set_is_finite(profile_names(ctx.all));
                assert(u.difference(visited.union(first.1)).subset_of(u.difference(visited)));
                vstd::set_lib::lemma_set_subset_finite(u, u.difference(visited));
                vstd::set_lib::lemma_len_subset(
                    u.difference(visited.union(first.1)),
                    u.difference(visited),
                );
            }
            warnings_body(ctx, p, visited.insert(p)) + warnings_list(
                ctx,
                parents,
                i + 1,
                visited.union(first.1),
            )
        }
    }
}

/// The warnings that resolving `name` gives, given the names visited so
/// far: a circular one when `name` was visited already.
pub open spec fn warnings_from(ctx: ResolveContext, name: Seq<char>, visited: Set<Seq<char>>) -> Seq<
    Seq<char>,
> {
    if visited.contains(name) {
        seq![circular_warning_of(name)]
    } else {
        warnings_body(ctx, name, visited.insert(name))
    }
}

/// The capabilities of the host: `bbr` when it is an available congestion
/// control.
pub open spec fn caps_of(probe: Probe) -> Set<Seq<char>> {
    match probe.file("/proc/sys/net/ipv4/tcp_available_congestion_control"@) {
        Some(s) => if contains_seq(s, "bbr"@) {
            Set::empty().insert("bbr"@)
        } else {
            Set::empty()
        },
        None => Set::empty(),
    }
}

/// Whether one of the disks is of kind `k`.
pub open spec fn has_disk_kind(disks: Seq<DiskInfoView>, k: DiskKind) -> bool {
    exists|i: int| 0 <= i < disks.len() && #[trigger] disks[i].kind == k
}

/// The capabilities that profile entries can require: `bbr` when it is an
/// available congestion control; `amd` or `intel` by the CPU vendor; `nvme`,
/// `ssd` and `hdd` for each kind of disk the host has.
pub open spec fn capabilities_of(system: SystemInfo, probe: Probe) -> Set<Seq<char>> {
    caps_of(probe).union(
        Set::new(
            |c: Seq<char>|
                (c == "amd"@ && system.cpu.vendor is Amd) || (c == "intel"@
                    && system.cpu.vendor is Intel) || (c == "nvme"@ && has_disk_kind(
                    system.disks.deep_view(),
                    DiskKind::Nvme,
                )) || (c == "ssd"@ && has_disk_kind(system.disks.deep_view(), DiskKind::Ssd)) || (
                c == "hdd"@ && has_disk_kind(system.disks.deep_view(), DiskKind::Hdd)),
        ),
    )
}

/// The optimizations for profile `name` on the host `system`: the resolved
/// profile, with entries admitted by the host's capabilities and memory,
/// then the NVIDIA suspend fix when the GPU needs it.
pub open spec fn resolve_of(
    name: Seq<char>,
    system: SystemInfo,
    all: Seq<(Seq<char>, ProfileView)>,
    probe: Probe,
) -> Seq<OptimizationView> {
    let ctx = ResolveContext {
        all,
        probe,
        caps: capabilities_of(system, probe),
        total_mb: system.memory.total_mb,
    };
    let opts = resolve_profile_of(ctx, name);
    match system.gpu {
        Some(g) => match nvidia_suspend_opt_of(g, probe) {
            Some(o) => opts.push(o),
            None => opts,
        },
        None => opts,
    }
}

// ---------------------------------------------------------------------------
// Executable resolution
// ---------------------------------------------------------------------------

/// The set of the names in `v`.
pub open spec fn name_set(v: Seq<Vec<char>>) -> Set<Seq<char>> {
    seqs_of(v).to_set()
}

/// Whether `n` is one of `v`.
fn contains_name(v: &Vec<Vec<char>>, n: &Vec<char>) -> (r: bool)
    ensures
        r == name_set(v@).contains(n@),
{
    let mut i: usize = 0;
    while i < v.len()
        invariant
            i <= v@.len(),
            forall|j: int| 0 <= j < i ==> seqs_of(v@)[j] != n@,
        decreases v@.len() - i,
    {
        assert(seqs_of(v@)[i as int] == v@[i as int]@);
        if eq_chars(&v[i], n) {
            assert(seqs_of(v@).contains(n@));
            return true;
        }
        i += 1;
    }
    false
}

/// Index of the first profile loaded under `name`.
fn find_profile(all: &Vec<(String, ProfileToml)>, name: &Vec<char>) -> (r: Option<usize>)
    ensures
        match r {
            Some(k) => k < all@.len() && find_profile_of(all.deep_view(), name@) == Some(
                all.deep_view()[k as int].1,
            ),
            None => find_profile_of(all.deep_view(), name@) is None,
        },
{
    let ghost av = all.deep_view();
    let mut i: usize = 0;
    proof {
        assert(av.skip(0) =~= av);
    }
    while i < all.len()
        invariant
            i <= all@.len(),
            av == all.deep_view(),
            find_profile_of(av, name@) == find_profile_of(av.skip(i as int), name@),
        decreases all@.len() - i,
    {
        proof {
            assert(av.skip(i as int).drop_first() =~= av.skip(i + 1));
            assert(av.skip(i as int)[0] == av[i as int]);
        }
        if eq_chars(&chars_of(all[i].0.as_str()), name) {
            return Some(i);
        }
        i += 1;
    }
    None
}

/// Whether `o` applies on the host.
fn is_admitted(o: &OptimizationToml, caps: &Vec<Vec<char>>, total_mb: u64) -> (r: bool)
    ensures
        r == admitted(o.deep_view(), name_set(caps@), total_mb),
{
    let ghost ov = o.deep_view();
    let mut i: usize = 0;
    while i < o.requires.len()
        invariant
            i <= o.requires@.len(),
            ov == o.deep_view(),
            forall|j: int| 0 <= j < i ==> name_set(caps@).contains(#[trigger] ov.requires[j]),
        decreases o.requires@.len() - i,
    {
        assert(ov.requires[i as int] == o.requires@[i as int]@);
        if !contains_name(caps, &chars_of(o.requires[i].as_str())) {
            return false;
        }
        i += 1;
    }
    match o.min_ram_mb {
        Some(m) => total_mb >= m,
        None => true,
    }
}

/// The `(key, value)` pairs of sysctl entries.
fn sysctl_params(entries: &Vec<SysctlEntry>) -> (r: Vec<(String, String)>)
    ensures
        r.deep_view() == entries.deep_view(),
{
    let mut r: Vec<(String, String)> = Vec::new();
    let mut i: usize = 0;
    while i < entries.len()
        invariant
            i <= entries@.len(),
            r.deep_view() == entries.deep_view().take(i as int),
        decreases entries@.len() - i,
    {
        let pair = (entries[i].key.clone(), entries[i].value.clone());
        proof {
            assert(r.deep_view().push(pair.deep_view()) =~= entries.deep_view().take(i + 1));
        }
        r.push(pair);
        proof {
            assert(r.deep_view() =~= entries.deep_view().take(i + 1));
        }
        i += 1;
    }
    proof {
        assert(entries.deep_view().take(entries@.len() as int) =~= entries.deep_view());
    }
    r
}

/// The optimizations of a profile's own admitted entries.
fn own_opts(
    opts: &Vec<OptimizationToml>,
    probe: &Probe,
    caps: &Vec<Vec<char>>,
    total_mb: u64,
    Ghost(ctx): Ghost<ResolveContext>,
) -> (r: Vec<Optimization>)
    requires
        ctx.probe == *probe,
        ctx.caps == name_set(caps@),
        ctx.total_mb == total_mb,
    ensures
        r.deep_view() == own_opts_of(ctx, opts.deep_view()),
{
    let ghost ov = opts.deep_view();
    let mut r: Vec<Optimization> = Vec::new();
    let mut i: usize = 0;
    while i < opts.len()
        invariant
            i <= opts@.len(),
            ov == opts.deep_view(),
            ctx.probe == *probe,
            ctx.caps == name_set(caps@),
            ctx.total_mb == total_mb,
            r.deep_view() == own_opts_of(ctx, ov.take(i as int)),
        decreases opts@.len() - i,
    {
        proof {
            assert(ov.take(i + 1).drop_last() =~= ov.take(i as int));
            assert(ov.take(i + 1).last() == opts@[i as int].deep_view());
        }
        let o = &opts[i];
        if is_admitted(o, caps, total_mb) {
            let params = sysctl_params(&o.sysctl);
            let opt = sysctl_opt(
                probe,
                o.name.as_str(),
                o.description.as_str(),
                o.explanation.as_str(),
                &params,
            );
            proof {
                assert(r.deep_view().push(opt.deep_view()) =~= own_opts_of(ctx, ov.take(i + 1)));
            }
            r.push(opt);
            proof {
                assert(r.deep_view() =~= own_opts_of(ctx, ov.take(i + 1)));
            }
        }
        i += 1;
    }
    proof {
        assert(ov.take(ov.len() as int) =~= ov);
    }
    r
}

/// Appends `b` to `a`.
fn append_opts(a: &mut Vec<Optimization>, b: Vec<Optimization>)
    ensures
        final(a).deep_view() == old(a).deep_view() + b.deep_view(),
{
    let mut b = b;
    let ghost a0 = a.deep_view();
    let ghost bv = b.deep_view();
    a.append(&mut b);
    assert(a.deep_view() =~= a0 + bv);
}

proof fn lemma_push_name_set(v: Seq<Vec<char>>, x: Vec<char>)
    ensures
        name_set(v.push(x)) == name_set(v).insert(x@),
{
    assert(seqs_of(v.push(x)) =~= seqs_of(v).push(x@));
    seqs_of(v).lemma_push_to_set_commute(x@);
}

/// Resolves `name` (already marked visited) into `visited`.
fn resolve_body_exec(
    all: &Vec<(String, ProfileToml)>,
    probe: &Probe,
    caps: &Vec<Vec<char>>,
    total_mb: u64,
    name: &Vec<char>,
    visited: &mut Vec<Vec<char>>,
    warnings: &mut Vec<String>,
    Ghost(ctx): Ghost<ResolveContext>,
) -> (r: Vec<Optimization>)
    requires
        ctx.all == all.deep_view(),
        ctx.probe == *probe,
        ctx.caps == name_set(caps@),
        ctx.total_mb == total_mb,
    ensures
        r.deep_view() == resolve_body(ctx, name@, name_set(old(visited)@)).0,
        final(warnings).deep_view() == old(warnings).deep_view() + warnings_body(
            ctx,
            name@,
            name_set(old(visited)@),
        ),
        name_set(final(visited)@) == resolve_body(ctx, name@, name_set(old(visited)@)).1,
        name_set(old(visited)@).subset_of(name_set(final(visited)@)),
    decreases universe(ctx.all).difference(name_set(old(visited)@)).len(),
{
    let ghost v0 = name_set(visited@);
    let ghost wstart = warnings.deep_view();
    let k = match find_profile(all, name) {
        Some(k) => k,
        None => {
            push_warning(warnings, &cat(&lit_cat("Unknown profile: ", name), &chars_of(", using 'developer'")));
            match find_profile(all, &chars_of("developer")) {
                Some(k) => k,
                None => {
                    assert(warnings.deep_view() =~= wstart + warnings_body(ctx, name@, v0));
                    return Vec::new();
                },
            }
        },
    };
    let ghost w0 = warnings.deep_view();
    assert(w0 =~= wstart + if find_profile_of(ctx.all, name@) is None {
        seq![unknown_warning_of(name@)]
    } else {
        Seq::<Seq<char>>::empty()
    });
    let prof = &all[k].1;
    let ghost pv = all.deep_view()[k as int].1;
    assert(pv == prof.deep_view());
    let parents = &prof.profile.extends;
    let ghost ext = pv.extends;
    proof {
        lemma_find_profile_in(ctx.all, name@);
        lemma_find_profile_in(ctx.all, "developer"@);
        assert forall|j: int| 0 <= j < ext.len() implies universe(ctx.all).contains(
            #[trigger] ext[j],
        ) by {
            let kk = if find_profile_of(ctx.all, name@) is Some {
                choose|kk: int| 0 <= kk < ctx.all.len() && #[trigger] ctx.all[kk].1 == pv
                    && ctx.all[kk].0 == name@
            } else {
                choose|kk: int| 0 <= kk < ctx.all.len() && #[trigger] ctx.all[kk].1 == pv
                    && ctx.all[kk].0 == "developer"@
            };
            lemma_extends_in_universe(ctx.all, kk, j);
        }
    }
    let mut opts: Vec<Optimization> = Vec::new();
    let mut i: usize = 0;
    while i < parents.len()
        invariant
            i <= parents@.len(),
            ext == parents.deep_view(),
            ctx.all == all.deep_view(),
            ctx.probe == *probe,
            ctx.caps == name_set(caps@),
            ctx.total_mb == total_mb,
            forall|j: int| 0 <= j < ext.len() ==> universe(ctx.all).contains(#[trigger] ext[j]),
            v0.subset_of(name_set(visited@)),
            v0 == name_set(old(visited)@),
            resolve_list(ctx, ext, 0, v0).0 == opts.deep_view() + resolve_list(
                ctx,
                ext,
                i as int,
                name_set(visited@),
            ).0,
            resolve_list(ctx, ext, 0, v0).1 == resolve_list(ctx, ext, i as int, name_set(visited@)).1,
            w0 + warnings_list(ctx, ext, 0, v0) == warnings.deep_view() + warnings_list(
                ctx,
                ext,
                i as int,
                name_set(visited@),
            ),
        decreases parents@.len() - i,
    {
        let p = chars_of(parents[i].as_str());
        let ghost vi = name_set(visited@);
        let ghost wi = warnings.deep_view();
        assert(ext[i as int] == p@);
        if contains_name(visited, &p) {
            assert(resolve_list(ctx, ext, i as int, vi) == resolve_list(ctx, ext, i + 1, vi));
            push_warning(warnings, &lit_cat("Circular extends detected for profile: ", &p));
            assert(warnings_list(ctx, ext, i as int, vi) == seq![circular_warning_of(p@)]
                + warnings_list(ctx, ext, i + 1, vi));
            assert(wi + warnings_list(ctx, ext, i as int, vi) =~= warnings.deep_view()
                + warnings_list(ctx, ext, i + 1, vi));
        } else {
            assert(universe(ctx.all).contains(p@));
            let ghost vseq = visited@;
            let cp = copy_name(&p);
            visited.push(cp);
            proof {
                lemma_push_name_set(vseq, cp);
                assert(name_set(visited@) == vi.insert(p@));
                vstd::seq_lib::seq_to_set_is_finite(profile_names(ctx.all));
                universe(ctx.all).lemma_set_insert_diff_decreases(vi, p@);
                let u = universe(ctx.all);
                assert(u.difference(vi).subset_of(u.difference(v0)));
                vstd::set_lib::lemma_set_subset_finite(u, u.difference(v0));
                vstd::set_lib::lemma_len_subset(u.difference(vi), u.difference(v0));
            }
            let sub = resolve_body_exec(all, probe, caps, total_mb, &p, visited, warnings, Ghost(ctx));
            proof {
                let first = resolve_body(ctx, p@, vi.insert(p@));
                assert(vi.union(first.1) =~= first.1);
                let wrest = warnings_list(ctx, ext, i + 1, vi.union(first.1));
                assert(warnings_list(ctx, ext, i as int, vi) == warnings_body(ctx, p@, vi.insert(p@)) + wrest);
                assert(wi + warnings_list(ctx, ext, i as int, vi) =~= warnings.deep_view() + wrest);
                let rest = resolve_list(ctx, ext, i + 1, vi.union(first.1));
                assert(resolve_list(ctx, ext, i as int, vi) == (first.0 + rest.0, rest.1));
                assert(opts.deep_view() + (first.0 + rest.0) =~= (opts.deep_view() + sub.deep_view())
                    + rest.0);
            }
            append_opts(&mut opts, sub);
        }
        i += 1;
    }
    assert(warnings_list(ctx, ext, i as int, name_set(visited@)) =~= Seq::<Seq<char>>::empty());
    assert(warnings.deep_view() =~= wstart + warnings_body(ctx, name@, v0));
    let own = own_opts(&prof.optimization, probe, caps, total_mb, Ghost(ctx));
    append_opts(&mut opts, own);
    opts
}

fn push_warning(warnings: &mut Vec<String>, text: &Vec<char>)
    ensures
        final(warnings).deep_view() == old(warnings).deep_view().push(text@),
{
    let ghost before = warnings.deep_view();
    warnings.push(string_of(text));
    assert(warnings.deep_view() =~= before.push(text@));
}

/// A copy of a name.
fn copy_name(n: &Vec<char>) -> (r: Vec<char>)
    ensures
        r@ == n@,
{
    crate::text::copy(n)
}

/// Whether one of the disks is of kind `k`.
fn has_kind(disks: &Vec<DiskInfo>, k: DiskKind) -> (r: bool)
    ensures
        r == has_disk_kind(disks.deep_view(), k),
{
    let mut i: usize = 0;
    while i < disks.len()
        invariant
            i <= disks@.len(),
            forall|j: int| 0 <= j < i ==> (#[trigger] disks.deep_view()[j]).kind != k,
        decreases disks@.len() - i,
    {
        assert(disks.deep_view()[i as int] == disks@[i as int].deep_view());
        if disks[i].kind == k {
            return true;
        }
        i += 1;
    }
    false
}

fn push_cap(caps: &mut Vec<String>, c: &str)
    ensures
        final(caps).deep_view() == old(caps).deep_view().push(c@),
        final(caps).deep_view().to_set() == old(caps).deep_view().to_set().insert(c@),
{
    let ghost before = caps.deep_view();
    caps.push(string_of(&chars_of(c)));
    assert(caps.deep_view() =~= before.push(c@));
    proof {
        before.lemma_push_to_set_commute(c@);
    }
}

/// The capabilities of the host (see `capabilities_of`).
pub fn detect_capabilities(system: &SystemInfo, probe: &Probe) -> (r: Vec<String>)
    ensures
        r.deep_view().to_set() == capabilities_of(*system, *probe),
{
    let mut caps: Vec<String> = Vec::new();
    assert(caps.deep_view().to_set() =~= Set::<Seq<char>>::empty());
    let has_bbr = match probe.read(&chars_of("/proc/sys/net/ipv4/tcp_available_congestion_control")) {
        Some(s) => contains_lit(&s, "bbr"),
        None => false,
    };
    if has_bbr {
        push_cap(&mut caps, "bbr");
    }
    assert(caps.deep_view().to_set() =~= caps_of(*probe));
    match system.cpu.vendor {
        CpuVendor::Amd => push_cap(&mut caps, "amd"),
        CpuVendor::Intel => push_cap(&mut caps, "intel"),
        _ => {},
    }
    if has_kind(&system.disks, DiskKind::Nvme) {
        push_cap(&mut caps, "nvme");
    }
    if has_kind(&system.disks, DiskKind::Ssd) {
        push_cap(&mut caps, "ssd");
    }
    if has_kind(&system.disks, DiskKind::Hdd) {
        push_cap(&mut caps, "hdd");
    }
    assert(caps.deep_view().to_set() =~= capabilities_of(*system, *probe));
    caps
}

/// The names in `v` as character vectors.
fn name_chars(v: &Vec<String>) -> (r: Vec<Vec<char>>)
    ensures
        seqs_of(r@) == v.deep_view(),
{
    let mut r: Vec<Vec<char>> = Vec::new();
    let mut i: usize = 0;
    while i < v.len()
        invariant
            i <= v@.len(),
            seqs_of(r@) == v.deep_view().take(i as int),
        decreases v@.len() - i,
    {
        let c = chars_of(v[i].as_str());
        proof {
            lemma_seqs_push(r@, c);
            assert(seqs_of(r@).push(c@) =~= v.deep_view().take(i + 1));
        }
        r.push(c);
        i += 1;
    }
    proof {
        assert(v.deep_view().take(v@.len() as int) =~= v.deep_view());
    }
    r
}

/// What resolution depends on besides the name: the loaded profiles, the
/// probe, the capabilities and the memory.
pub open spec fn context_of(
    all: Seq<(Seq<char>, ProfileView)>,
    probe: Probe,
    caps: Set<Seq<char>>,
    total_mb: u64,
) -> ResolveContext {
    ResolveContext { all, probe, caps, total_mb }
}

/// Resolves `name` given the names visited so far: nothing when `name` was
/// visited; otherwise `name` is marked visited and resolved, its parents
/// first, each once.
pub open spec fn resolve_from(ctx: ResolveContext, name: Seq<char>, visited: Set<Seq<char>>) -> (
    Seq<OptimizationView>,
    Set<Seq<char>>,
) {
    if visited.contains(name) {
        (seq![], visited)
    } else {
        resolve_body(ctx, name, visited.insert(name))
    }
}

/// The names as strings.
fn name_strings(v: &Vec<Vec<char>>) -> (r: Vec<String>)
    ensures
        r.deep_view() == seqs_of(v@),
{
    let mut r: Vec<String> = Vec::new();
    let mut i: usize = 0;
    while i < v.len()
        invariant
            i <= v@.len(),
            r.deep_view() == seqs_of(v@).take(i as int),
        decreases v@.len() - i,
    {
        let s = string_of(&v[i]);
        proof {
            assert(r.deep_view().push(s@) =~= seqs_of(v@).take(i + 1));
        }
        r.push(s);
        proof {
            assert(r.deep_view() =~= seqs_of(v@).take(i + 1));
        }
        i += 1;
    }
    assert(seqs_of(v@).take(v@.len() as int) =~= seqs_of(v@));
    r
}

/// Resolves profile `name` on the host `system` with the capabilities
/// `caps`, given the names `visited` so far (see `resolve_from`), adds the
/// names it visits to `visited` and its warnings to `warnings`.
pub fn resolve_profile(
    name: &str,
    system: &SystemInfo,
    all: &Vec<(String, ProfileToml)>,
    caps: &Vec<String>,
    probe: &Probe,
    visited: &mut Vec<String>,
    warnings: &mut Vec<String>,
) -> (r: Vec<Optimization>)
    ensures
        final(warnings).deep_view() == old(warnings).deep_view() + warnings_from(
            context_of(all.deep_view(), *probe, caps.deep_view().to_set(), system.memory.total_mb),
            name@,
            old(visited).deep_view().to_set(),
        ),
        r.deep_view() == resolve_from(
            context_of(all.deep_view(), *probe, caps.deep_view().to_set(), system.memory.total_mb),
            name@,
            old(visited).deep_view().to_set(),
        ).0,
        final(visited).deep_view().to_set() == resolve_from(
            context_of(all.deep_view(), *probe, caps.deep_view().to_set(), system.memory.total_mb),
            name@,
            old(visited).deep_view().to_set(),
        ).1,
{
    let ghost ctx = context_of(all.deep_view(), *probe, caps.deep_view().to_set(), system.memory.total_mb);
    let cs = name_chars(caps);
    let mut seen = name_chars(visited);
    let n = chars_of(name);
    if contains_name(&seen, &n) {
        push_warning(warnings, &lit_cat("Circular extends detected for profile: ", &n));
        return Vec::new();
    }
    let ghost before = seen@;
    seen.push(copy_name(&n));
    proof {
        lemma_push_name_set(before, seen@[before.len() as int]);
        assert(seen@ =~= before.push(seen@[before.len() as int]));
    }
    let r = resolve_body_exec(all, probe, &cs, system.memory.total_mb, &n, &mut seen, warnings, Ghost(ctx));
    *visited = name_strings(&seen);
    r
}

/// The optimizations for profile `name` on the host `system`: the profile
/// with everything it extends (each profile once; an unknown name falls
/// back to `developer`), entries kept only where the host has the required
/// capabilities and memory; then the NVIDIA suspend fix when the GPU needs it.
pub fn resolve(
    name: &str,
    system: &SystemInfo,
    all: &Vec<(String, ProfileToml)>,
    probe: &Probe,
) -> (r: Vec<Optimization>)
    ensures
        r.deep_view() == resolve_of(name@, *system, all.deep_view(), *probe),
{
    resolve_with_warnings(name, system, all, probe).0
}

/// The warnings that resolving `name` on the host `system` gives (see
/// `warnings_body`): an unknown name, and profiles reached again.
pub open spec fn resolve_warnings_of(
    name: Seq<char>,
    system: SystemInfo,
    all: Seq<(Seq<char>, ProfileView)>,
    probe: Probe,
) -> Seq<Seq<char>> {
    warnings_body(
        ResolveContext {
            all,
            probe,
            caps: capabilities_of(system, probe),
            total_mb: system.memory.total_mb,
        },
        name,
        Set::empty().insert(name),
    )
}

/// Resolves `name` as `resolve` does, and gives the warnings to report.
pub fn resolve_with_warnings(
    name: &str,
    system: &SystemInfo,
    all: &Vec<(String, ProfileToml)>,
    probe: &Probe,
) -> (r: (Vec<Optimization>, Vec<String>))
    ensures
        r.0.deep_view() == resolve_of(name@, *system, all.deep_view(), *probe),
        r.1.deep_view() == resolve_warnings_of(name@, *system, all.deep_view(), *probe),
{
    let mut warnings: Vec<String> = Vec::new();
    let caps = name_chars(&detect_capabilities(system, probe));
    let ghost ctx = ResolveContext {
        all: all.deep_view(),
        probe: *probe,
        caps: capabilities_of(*system, *probe),
        total_mb: system.memory.total_mb,
    };
    let n = chars_of(name);
    let mut visited: Vec<Vec<char>> = Vec::new();
    visited.push(copy_name(&n));
    proof {
        assert(seqs_of(visited@) =~= Seq::<Seq<char>>::empty().push(name@));
        Seq::<Seq<char>>::empty().lemma_push_to_set_commute(name@);
        assert(Seq::<Seq<char>>::empty().to_set() =~= Set::<Seq<char>>::empty());
    }
    let mut opts = resolve_body_exec(
        all,
        probe,
        &caps,
        system.memory.total_mb,
        &n,
        &mut visited,
        &mut warnings,
        Ghost(ctx),
    );
    assert(warnings.deep_view() =~= resolve_warnings_of(name@, *system, all.deep_view(), *probe));
    match &system.gpu {
        Some(gpu) => match nvidia_suspend_opt(gpu, probe) {
            Some(o) => {
                opts.push(o);
            },
            None => {},
        },
        None => {},
    }
    (opts, warnings)
}

// ---------------------------------------------------------------------------
// Listing and loading
// ---------------------------------------------------------------------------

/// The name and description of each loaded profile, in loading order.
pub fn list_all(all: &Vec<(String, ProfileToml)>) -> (r: Vec<(String, String)>)
    ensures
        r.deep_view() == all.deep_view().map_values(
            |e: (Seq<char>, ProfileView)| (e.0, e.1.description),
        ),
{
    let ghost av = all.deep_view();
    let mut r: Vec<(String, String)> = Vec::new();
    let mut i: usize = 0;
    while i < all.len()
        invariant
            i <= all@.len(),
            av == all.deep_view(),
            r.deep_view() == av.take(i as int).map_values(
                |e: (Seq<char>, ProfileView)| (e.0, e.1.description),
            ),
        decreases all@.len() - i,
    {
        let pair = (all[i].0.clone(), all[i].1.profile.description.clone());
        proof {
            assert(av[i as int] == all@[i as int].deep_view());
            assert(r.deep_view().push(pair.deep_view()) =~= av.take(i + 1).map_values(
                |e: (Seq<char>, ProfileView)| (e.0, e.1.description),
            ));
        }
        r.push(pair);
        i += 1;
    }
    proof {
        assert(av.take(av.len() as int) =~= av);
    }
    r
}

/// The line of a profile in the list of profiles: the name in a column of
/// 16 characters, then the description.
pub open spec fn listing_line_of(name: Seq<char>, description: Seq<char>) -> Seq<char> {
    "  "@ + pad_right_of(name, 16) + " "@ + description
}

/// Renders the line of a profile in the list of profiles.
pub fn listing_line(name: &str, description: &str) -> (r: String)
    ensures
        r@ == listing_line_of(name@, description@),
{
    let mut v = chars_of("  ");
    push_chars(&mut v, &pad_right(name, 16));
    push_str(&mut v, " ");
    push_str(&mut v, description);
    string_of(&v)
}

/// Adds a profile loaded from the user's directory: it replaces every
/// profile loaded under its name and goes last.
pub fn add_user_profile(profiles: &mut Vec<(String, ProfileToml)>, p: ProfileToml)
    ensures
        final(profiles).deep_view() == without_name(old(profiles).deep_view(), p.deep_view().name).push(
            (p.deep_view().name, p.deep_view()),
        ),
{
    let name = p.profile.name.clone();
    let n = chars_of(name.as_str());
    let ghost olds = profiles.deep_view();
    let n0 = profiles.len();
    let mut rest: Vec<(String, ProfileToml)> = Vec::new();
    std::mem::swap(&mut rest, profiles);
    let mut consumed: usize = 0;
    proof {
        assert(olds.take(0) =~= Seq::<(Seq<char>, ProfileView)>::empty());
        assert(olds.skip(0) =~= olds);
        assert(profiles.deep_view() =~= Seq::<(Seq<char>, ProfileView)>::empty());
    }
    while rest.len() > 0
        invariant
            consumed <= olds.len(),
            olds.len() == n0,
            n@ == p.deep_view().name,
            rest.deep_view() == olds.skip(consumed as int),
            profiles.deep_view() == without_name(olds.take(consumed as int), n@),
        decreases rest@.len(),
    {
        let e = rest.remove(0);
        proof {
            assert(olds.skip(consumed as int)[0] == e.deep_view());
            assert(olds.skip(consumed as int).drop_first() =~= olds.skip(consumed + 1));
            assert(olds.take(consumed + 1).drop_last() =~= olds.take(consumed as int));
            assert(olds.take(consumed + 1).last() == e.deep_view());
        }
        if !eq_chars(&chars_of(e.0.as_str()), &n) {
            proof {
                assert(profiles.deep_view().push(e.deep_view()) =~= without_name(
                    olds.take(consumed + 1),
                    n@,
                ));
            }
            profiles.push(e);
            proof {
                assert(profiles.deep_view() =~= without_name(olds.take(consumed + 1), n@));
            }
        }
        proof {
            assert(rest.deep_view() =~= olds.skip(consumed + 1));
        }
        consumed += 1;
    }
    proof {
        assert(olds.take(consumed as int) =~= olds);
    }
    let ghost before = profiles.deep_view();
    let entry = (name, p);
    profiles.push(entry);
    assert(profiles.deep_view() =~= before.push((n@, entry.1.deep_view())));
}

} // verus!

verus! {

// ---------------------------------------------------------------------------
// Laws
// ---------------------------------------------------------------------------

proof fn lemma_find_push(all: Seq<(Seq<char>, ProfileView)>, e: (Seq<char>, ProfileView), m: Seq<char>)
    ensures
        find_profile_of(all.push(e), m) == (if find_profile_of(all, m) is Some {
            find_profile_of(all, m)
        } else if e.0 == m {
            Some(e.1)
        } else {
            None
        }),
    decreases all.len(),
{
    if all.len() > 0 {
        assert(all.push(e).drop_first() =~= all.drop_first().push(e));
        assert(all.push(e)[0] == all[0]);
        lemma_find_push(all.drop_first(), e, m);
    } else {
        assert(all.push(e).drop_first() =~= Seq::<(Seq<char>, ProfileView)>::empty());
        assert(all.push(e)[0] == e);
        assert(find_profile_of(Seq::<(Seq<char>, ProfileView)>::empty(), m) is None);
    }
}

proof fn lemma_without_name(all: Seq<(Seq<char>, ProfileView)>, n: Seq<char>, m: Seq<char>)
    ensures
        find_profile_of(without_name(all, n), n) is None,
        m != n ==> find_profile_of(without_name(all, n), m) == find_profile_of(all, m),
    decreases all.len(),
{
    if all.len() > 0 {
        let init = all.drop_last();
        lemma_without_name(init, n, m);
        assert(init.push(all.last()) =~= all);
        lemma_find_push(init, all.last(), m);
        if all.last().0 != n {
            lemma_find_push(without_name(init, n), all.last(), m);
            lemma_find_push(without_name(init, n), all.last(), n);
        }
    }
}

/// A profile from the user's directory overrides by name: after adding it,
/// its name finds it, and every other name finds what it found before.
pub proof fn lemma_user_profile_overrides(
    all: Seq<(Seq<char>, ProfileView)>,
    p: ProfileView,
    m: Seq<char>,
)
    ensures
        find_profile_of(without_name(all, p.name).push((p.name, p)), p.name) == Some(p),
        m != p.name ==> find_profile_of(without_name(all, p.name).push((p.name, p)), m)
            == find_profile_of(all, m),
{
    lemma_without_name(all, p.name, m);
    lemma_find_push(without_name(all, p.name), (p.name, p), p.name);
    lemma_find_push(without_name(all, p.name), (p.name, p), m);
}

/// No two loaded profiles share a name.
pub open spec fn names_distinct(all: Seq<(Seq<char>, ProfileView)>) -> bool {
    forall|i: int, j: int| 0 <= i < j < all.len() ==> #[trigger] all[i].0 != #[trigger] all[j].0
}

proof fn lemma_without_name_distinct(all: Seq<(Seq<char>, ProfileView)>, n: Seq<char>)
    requires
        names_distinct(all),
    ensures
        names_distinct(without_name(all, n)),
        forall|k: int| 0 <= k < without_name(all, n).len() ==> #[trigger] without_name(all, n)[k].0 != n,
        forall|k: int|
            0 <= k < without_name(all, n).len() ==> exists|i: int|
                0 <= i < all.len() && #[trigger] all[i].0 == #[trigger] without_name(all, n)[k].0,
    decreases all.len(),
{
    if all.len() > 0 {
        let init = all.drop_last();
        assert forall|i: int, j: int| 0 <= i < j < init.len() implies #[trigger] init[i].0 != #[trigger] init[j].0 by {
            assert(init[i] == all[i] && init[j] == all[j]);
        }
        lemma_without_name_distinct(init, n);
        let w0 = without_name(init, n);
        let w = without_name(all, n);
        assert forall|k: int| 0 <= k < w0.len() implies exists|i: int|
            0 <= i < all.len() && #[trigger] all[i].0 == #[trigger] w0[k].0 by {
            let i = choose|i: int| 0 <= i < init.len() && #[trigger] init[i].0 == #[trigger] w0[k].0;
            assert(all[i] == init[i]);
        }
        if all.last().0 != n {
            assert(w == w0.push(all.last()));
            assert forall|k: int| 0 <= k < w0.len() implies #[trigger] w0[k].0 != all.last().0 by {
                let i = choose|i: int| 0 <= i < init.len() && #[trigger] init[i].0 == #[trigger] w0[k].0;
                assert(all[i] == init[i]);
                assert(all[i].0 != all[all.len() - 1].0);
            }
            assert forall|i: int, j: int| 0 <= i < j < w.len() implies #[trigger] w[i].0 != #[trigger] w[j].0 by {
                if j == w.len() - 1 {
                    assert(w[i] == w0[i]);
                } else {
                    assert(w[i] == w0[i] && w[j] == w0[j]);
                }
            }
            assert forall|k: int| 0 <= k < w.len() implies exists|i: int|
                0 <= i < all.len() && #[trigger] all[i].0 == #[trigger] w[k].0 by {
                if k == w.len() - 1 {
                    assert(all[all.len() - 1].0 == w[k].0);
                } else {
                    assert(w[k] == w0[k]);
                }
            }
        }
    }
}

/// Adding a profile from the user's directory keeps the loaded names
/// distinct.
pub proof fn lemma_user_profile_keeps_names_distinct(all: Seq<(Seq<char>, ProfileView)>, p: ProfileView)
    requires
        names_distinct(all),
    ensures
        names_distinct(without_name(all, p.name).push((p.name, p))),
{
    lemma_without_name_distinct(all, p.name);
    let w = without_name(all, p.name);
    let v = w.push((p.name, p));
    assert forall|i: int, j: int| 0 <= i < j < v.len() implies #[trigger] v[i].0 != #[trigger] v[j].0 by {
        assert(v[i] == w[i]);
        if j < w.len() {
            assert(v[j] == w[j]);
        }
    }
}

/// `o` is what an entry of a loaded profile gives, and the host admits
/// that entry.
pub open spec fn from_admitted_entry(ctx: ResolveContext, o: OptimizationView) -> bool {
    exists|k: int, j: int|
        0 <= k < ctx.all.len() && 0 <= j < ctx.all[k].1.optimization.len() && admitted(
            #[trigger] ctx.all[k].1.optimization[j],
            ctx.caps,
            ctx.total_mb,
        ) && o == sysctl_opt_of(
            ctx.probe,
            ctx.all[k].1.optimization[j].name,
            ctx.all[k].1.optimization[j].description,
            ctx.all[k].1.optimization[j].explanation,
            ctx.all[k].1.optimization[j].sysctl,
        )
}

/// Every optimization of `s` comes from an admitted entry.
pub open spec fn all_from_admitted(ctx: ResolveContext, s: Seq<OptimizationView>) -> bool {
    forall|i: int| 0 <= i < s.len() ==> from_admitted_entry(ctx, #[trigger] s[i])
}

proof fn lemma_concat_admitted(ctx: ResolveContext, a: Seq<OptimizationView>, b: Seq<OptimizationView>)
    requires
        all_from_admitted(ctx, a),
        all_from_admitted(ctx, b),
    ensures
        all_from_admitted(ctx, a + b),
{
    assert forall|i: int| 0 <= i < (a + b).len() implies from_admitted_entry(ctx, #[trigger] (a + b)[i]) by {
        if i < a.len() {
            assert((a + b)[i] == a[i]);
        } else {
            assert((a + b)[i] == b[i - a.len()]);
        }
    }
}

proof fn lemma_own_admitted(ctx: ResolveContext, k: int, n: int)
    requires
        0 <= k < ctx.all.len(),
        0 <= n <= ctx.all[k].1.optimization.len(),
    ensures
        all_from_admitted(ctx, own_opts_of(ctx, ctx.all[k].1.optimization.take(n))),
    decreases n,
{
    let opts = ctx.all[k].1.optimization;
    if n > 0 {
        lemma_own_admitted(ctx, k, n - 1);
        assert(opts.take(n).drop_last() =~= opts.take(n - 1));
        let rest = own_opts_of(ctx, opts.take(n - 1));
        let o = opts[n - 1];
        if admitted(o, ctx.caps, ctx.total_mb) {
            let s = rest.push(sysctl_opt_of(ctx.probe, o.name, o.description, o.explanation, o.sysctl));
            assert forall|i: int| 0 <= i < s.len() implies from_admitted_entry(ctx, #[trigger] s[i]) by {
                if i < rest.len() {
                    assert(s[i] == rest[i]);
                } else {
                    assert(ctx.all[k].1.optimization[n - 1] == o);
                }
            }
        }
    } else {
        assert(opts.take(0) =~= Seq::<OptimizationTomlView>::empty());
    }
}

proof fn lemma_profile_for_in(ctx: ResolveContext, name: Seq<char>)
    ensures
        profile_for(ctx.all, name) matches Some(p) ==> exists|k: int|
            0 <= k < ctx.all.len() && #[trigger] ctx.all[k].1 == p,
{
    lemma_find_profile_in(ctx.all, name);
    lemma_find_profile_in(ctx.all, "developer"@);
}

proof fn lemma_body_admitted(ctx: ResolveContext, name: Seq<char>, visited: Set<Seq<char>>)
    ensures
        all_from_admitted(ctx, resolve_body(ctx, name, visited).0),
    decreases universe(ctx.all).difference(visited).len(), 1int, 0int,
{
    lemma_profile_for_in(ctx, name);
    match profile_for(ctx.all, name) {
        None => {},
        Some(p) => {
            let k = choose|k: int| 0 <= k < ctx.all.len() && #[trigger] ctx.all[k].1 == p;
            lemma_list_admitted(ctx, p.extends, 0, visited);
            lemma_own_admitted(ctx, k, p.optimization.len() as int);
            assert(p.optimization.take(p.optimization.len() as int) =~= p.optimization);
            lemma_concat_admitted(
                ctx,
                resolve_list(ctx, p.extends, 0, visited).0,
                own_opts_of(ctx, p.optimization),
            );
        },
    }
}

proof fn lemma_list_admitted(
    ctx: ResolveContext,
    parents: Seq<Seq<char>>,
    i: int,
    visited: Set<Seq<char>>,
)
    ensures
        all_from_admitted(ctx, resolve_list(ctx, parents, i, visited).0),
    decreases universe(ctx.all).difference(visited).len(), 0int, parents.len() - i,
{
    if i < 0 || i >= parents.len() {
    } else {
        let p = parents[i];
        if visited.contains(p) {
            lemma_list_admitted(ctx, parents, i + 1, visited);
        } else if !universe(ctx.all).contains(p) {
        } else {
            vstd::seq_lib::seq_to_set_is_finite(profile_names(ctx.all));
            universe(ctx.all).lemma_set_insert_diff_decreases(visited, p);
            let first = resolve_body(ctx, p, visited.insert(p));
            lemma_body_admitted(ctx, p, visited.insert(p));
            let u = universe(ctx.all);
            assert(u.difference(visited.union(first.1)).subset_of(u.difference(visited)));
            vstd::set_lib::lemma_set_subset_finite(u, u.difference(visited));
            vstd::set_lib::lemma_len_subset(u.difference(visited.union(first.1)), u.difference(visited));
            lemma_list_admitted(ctx, parents, i + 1, visited.union(first.1));
            lemma_concat_admitted(
                ctx,
                first.0,
                resolve_list(ctx, parents, i + 1, visited.union(first.1)).0,
            );
        }
    }
}

/// Resolution is hardware-aware: every optimization that a profile resolves
/// to comes from an entry of a loaded profile whose required capabilities
/// the host has and whose memory requirement it meets.
pub proof fn lemma_resolved_are_admitted(ctx: ResolveContext, name: Seq<char>)
    ensures
        all_from_admitted(ctx, resolve_profile_of(ctx, name)),
{
    lemma_body_admitted(ctx, name, Set::empty().insert(name));
}

/// A profile that extends nothing resolves to its own admitted entries; one
/// that extends only itself too (the cycle contributes nothing).
pub proof fn lemma_resolve_without_parents(ctx: ResolveContext, name: Seq<char>, p: ProfileView)
    requires
        profile_for(ctx.all, name) == Some(p),
        forall|j: int| 0 <= j < p.extends.len() ==> #[trigger] p.extends[j] == name,
    ensures
        resolve_profile_of(ctx, name) == own_opts_of(ctx, p.optimization),
{
    let v = Set::empty().insert(name);
    assert forall|i: int| 0 <= i <= p.extends.len() implies #[trigger] resolve_list(ctx, p.extends, i, v)
        == (Seq::<OptimizationView>::empty(), v) by {
        lemma_list_all_visited(ctx, p.extends, i, v, name);
    }
    assert(resolve_list(ctx, p.extends, 0, v).0 + own_opts_of(ctx, p.optimization) =~= own_opts_of(
        ctx,
        p.optimization,
    ));
}

/// Resolution from any name of `r` stays in `r`: the profile each name of
/// `r` resolves to extends only names of `r`.
pub open spec fn closed_under_extends(all: Seq<(Seq<char>, ProfileView)>, r: Set<Seq<char>>) -> bool {
    forall|x: Seq<char>|
        #![trigger r.contains(x)]
        r.contains(x) ==> match profile_for(all, x) {
            Some(q) => forall|j: int| 0 <= j < q.extends.len() ==> r.contains(#[trigger] q.extends[j]),
            None => true,
        }
}

/// `v1` and `v2` hold the same names of `u`, except perhaps `d`.
spec fn agree_except(u: Set<Seq<char>>, v1: Set<Seq<char>>, v2: Set<Seq<char>>, d: Seq<char>) -> bool {
    forall|x: Seq<char>| #![trigger u.contains(x), v1.contains(x)] #![trigger u.contains(x), v2.contains(x)]
        u.contains(x) && x != d ==> (v1.contains(x) <==> v2.contains(x))
}

proof fn lemma_extends_of_resolved_in_universe(all: Seq<(Seq<char>, ProfileView)>, x: Seq<char>)
    ensures
        profile_for(all, x) matches Some(q) ==> forall|j: int|
            0 <= j < q.extends.len() ==> universe(all).contains(#[trigger] q.extends[j]),
{
    lemma_find_profile_in(all, x);
    lemma_find_profile_in(all, "developer"@);
    if let Some(q) = profile_for(all, x) {
        let k = choose|k: int| 0 <= k < all.len() && #[trigger] all[k].1 == q && (all[k].0 == x
            || all[k].0 == "developer"@);
        assert forall|j: int| 0 <= j < q.extends.len() implies universe(all).contains(
            #[trigger] q.extends[j],
        ) by {
            lemma_extends_in_universe(all, k, j);
        }
    }
}

/// Resolving a name of `r` gives the same under visited sets that agree
/// except on `d`, a name outside `r`.
proof fn lemma_body_agree(
    ctx: ResolveContext,
    x: Seq<char>,
    v1: Set<Seq<char>>,
    v2: Set<Seq<char>>,
    r: Set<Seq<char>>,
    d: Seq<char>,
)
    requires
        agree_except(universe(ctx.all), v1, v2, d),
        r.contains(x),
        closed_under_extends(ctx.all, r),
        !r.contains(d),
    ensures
        resolve_body(ctx, x, v1).0 == resolve_body(ctx, x, v2).0,
        agree_except(universe(ctx.all), resolve_body(ctx, x, v1).1, resolve_body(ctx, x, v2).1, d),
    decreases universe(ctx.all).difference(v1).len(), 1int, 0int,
{
    if let Some(q) = profile_for(ctx.all, x) {
        lemma_extends_of_resolved_in_universe(ctx.all, x);
        assert(r.contains(x));
        lemma_list_agree(ctx, q.extends, 0, v1, v2, r, d);
    }
}

/// Resolving parents from `r` gives the same under visited sets that agree
/// except on `d`, a name outside `r`.
proof fn lemma_list_agree(
    ctx: ResolveContext,
    parents: Seq<Seq<char>>,
    i: int,
    v1: Set<Seq<char>>,
    v2: Set<Seq<char>>,
    r: Set<Seq<char>>,
    d: Seq<char>,
)
    requires
        agree_except(universe(ctx.all), v1, v2, d),
        forall|j: int| 0 <= j < parents.len() ==> r.contains(#[trigger] parents[j]),
        forall|j: int| 0 <= j < parents.len() ==> universe(ctx.all).contains(#[trigger] parents[j]),
        closed_under_extends(ctx.all, r),
        !r.contains(d),
    ensures
        resolve_list(ctx, parents, i, v1).0 == resolve_list(ctx, parents, i, v2).0,
        agree_except(
            universe(ctx.all),
            resolve_list(ctx, parents, i, v1).1,
            resolve_list(ctx, parents, i, v2).1,
            d,
        ),
    decreases universe(ctx.all).difference(v1).len(), 0int, parents.len() - i,
{
    if 0 <= i < parents.len() {
        let p = parents[i];
        let u = universe(ctx.all);
        assert(r.contains(p) && u.contains(p));
        assert(p != d);
        if v1.contains(p) {
            assert(v2.contains(p));
            lemma_list_agree(ctx, parents, i + 1, v1, v2, r, d);
        } else {
            assert(!v2.contains(p));
            vstd::seq_lib::seq_to_set_is_finite(profile_names(ctx.all));
            u.lemma_set_insert_diff_decreases(v1, p);
            assert(agree_except(u, v1.insert(p), v2.insert(p), d));
            lemma_body_agree(ctx, p, v1.insert(p), v2.insert(p), r, d);
            let first1 = resolve_body(ctx, p, v1.insert(p));
            let first2 = resolve_body(ctx, p, v2.insert(p));
            assert(u.difference(v1.union(first1.1)).subset_of(u.difference(v1)));
            vstd::set_lib::lemma_set_subset_finite(u, u.difference(v1));
            vstd::set_lib::lemma_len_subset(u.difference(v1.union(first1.1)), u.difference(v1));
            assert(agree_except(u, v1.union(first1.1), v2.union(first2.1), d));
            lemma_list_agree(ctx, parents, i + 1, v1.union(first1.1), v2.union(first2.1), r, d);
        }
    }
}

/// A name that no loaded profile has and no profile extends resolves as
/// `developer` does where `developer`'s parents lie in a set `r`, without
/// `developer`, from which resolution never leaves.
proof fn lemma_unknown_with_closed_set(
    ctx: ResolveContext,
    name: Seq<char>,
    p: ProfileView,
    r: Set<Seq<char>>,
)
    requires
        find_profile_of(ctx.all, name) is None,
        !universe(ctx.all).contains(name),
        find_profile_of(ctx.all, "developer"@) == Some(p),
        forall|j: int| 0 <= j < p.extends.len() ==> r.contains(#[trigger] p.extends[j]),
        closed_under_extends(ctx.all, r),
        !r.contains("developer"@),
    ensures
        resolve_profile_of(ctx, name) == resolve_profile_of(ctx, "developer"@),
{
    let d = "developer"@;
    let u = universe(ctx.all);
    let v1 = Set::<Seq<char>>::empty().insert(name);
    let v2 = Set::<Seq<char>>::empty().insert(d);
    assert(agree_except(u, v1, v2, d));
    lemma_extends_of_resolved_in_universe(ctx.all, d);
    lemma_list_agree(ctx, p.extends, 0, v1, v2, r, d);
}

/// `s` is a chain of extends: each name after the first is a parent of the
/// profile that the name before it resolves to.
pub open spec fn is_extends_path(all: Seq<(Seq<char>, ProfileView)>, s: Seq<Seq<char>>) -> bool {
    forall|i: int|
        0 <= i < s.len() - 1 ==> (profile_for(all, #[trigger] s[i]) matches Some(q)
            && q.extends.contains(s[i + 1]))
}

/// Resolution from `a` meets `b` through one or more extends.
pub open spec fn reaches(all: Seq<(Seq<char>, ProfileView)>, a: Seq<char>, b: Seq<char>) -> bool {
    exists|s: Seq<Seq<char>>| s.len() >= 2 && s[0] == a && s.last() == b && #[trigger] is_extends_path(all, s)
}

/// An unknown profile name falls back to `developer`: a name that no loaded
/// profile has and no profile extends resolves as `developer` does, where
/// `developer` is loaded and cannot reach itself through extends.
pub proof fn lemma_unknown_resolves_as_developer(ctx: ResolveContext, name: Seq<char>)
    requires
        find_profile_of(ctx.all, name) is None,
        !universe(ctx.all).contains(name),
        find_profile_of(ctx.all, "developer"@) is Some,
        !reaches(ctx.all, "developer"@, "developer"@),
    ensures
        resolve_profile_of(ctx, name) == resolve_profile_of(ctx, "developer"@),
{
    let d = "developer"@;
    let p = find_profile_of(ctx.all, d)->0;
    let r = Set::new(|x: Seq<char>| reaches(ctx.all, d, x));
    assert(profile_for(ctx.all, d) == Some(p));
    assert forall|j: int| 0 <= j < p.extends.len() implies r.contains(#[trigger] p.extends[j]) by {
        let s = seq![d, p.extends[j]];
        assert(p.extends.contains(p.extends[j]));
        assert(is_extends_path(ctx.all, s));
    }
    assert forall|x: Seq<char>| #![trigger r.contains(x)] r.contains(x) implies match profile_for(ctx.all, x) {
        Some(q) => forall|j: int| 0 <= j < q.extends.len() ==> r.contains(#[trigger] q.extends[j]),
        None => true,
    } by {
        if let Some(q) = profile_for(ctx.all, x) {
            let s = choose|s: Seq<Seq<char>>| s.len() >= 2 && s[0] == d && s.last() == x
                && #[trigger] is_extends_path(ctx.all, s);
            assert forall|j: int| 0 <= j < q.extends.len() implies r.contains(#[trigger] q.extends[j]) by {
                let t = s.push(q.extends[j]);
                assert(q.extends.contains(q.extends[j]));
                assert forall|i: int| 0 <= i < t.len() - 1 implies (profile_for(ctx.all, #[trigger] t[i]) matches Some(q2)
                    && q2.extends.contains(t[i + 1])) by {
                    if i < s.len() - 1 {
                        assert(t[i] == s[i] && t[i + 1] == s[i + 1]);
                    } else {
                        assert(t[i] == x);
                    }
                }
                assert(is_extends_path(ctx.all, t));
            }
        }
    }
    assert(closed_under_extends(ctx.all, r));
    lemma_unknown_with_closed_set(ctx, name, p, r);
}

proof fn lemma_list_all_visited(
    ctx: ResolveContext,
    parents: Seq<Seq<char>>,
    i: int,
    v: Set<Seq<char>>,
    name: Seq<char>,
)
    requires
        0 <= i <= parents.len(),
        v.contains(name),
        forall|j: int| 0 <= j < parents.len() ==> #[trigger] parents[j] == name,
    ensures
        resolve_list(ctx, parents, i, v) == (Seq::<OptimizationView>::empty(), v),
    decreases parents.len() - i,
{
    if i < parents.len() {
        assert(parents[i] == name);
        lemma_list_all_visited(ctx, parents, i + 1, v, name);
    }
}

// ---------------------------------------------------------------------------
// More memory never drops a recommendation
// ---------------------------------------------------------------------------

/// `f` places `a` inside `b`: `a[k]` is `b[f[k]]`, at increasing positions.
pub open spec fn embeds(a: Seq<OptimizationView>, b: Seq<OptimizationView>, f: Seq<int>) -> bool {
    &&& f.len() == a.len()
    &&& forall|k: int| 0 <= k < a.len() ==> 0 <= #[trigger] f[k] < b.len() && b[f[k]] == a[k]
    &&& forall|k: int, l: int| 0 <= k < l < a.len() ==> #[trigger] f[k] < #[trigger] f[l]
}

/// `a` is `b` with some optimizations left out and the rest in order.
pub open spec fn is_subsequence(a: Seq<OptimizationView>, b: Seq<OptimizationView>) -> bool {
    exists|f: Seq<int>| #[trigger] embeds(a, b, f)
}

proof fn lemma_subsequence_concat(
    a1: Seq<OptimizationView>,
    b1: Seq<OptimizationView>,
    a2: Seq<OptimizationView>,
    b2: Seq<OptimizationView>,
)
    requires
        is_subsequence(a1, b1),
        is_subsequence(a2, b2),
    ensures
        is_subsequence(a1 + a2, b1 + b2),
{
    let f1 = choose|f: Seq<int>| #[trigger] embeds(a1, b1, f);
    let f2 = choose|f: Seq<int>| #[trigger] embeds(a2, b2, f);
    let f = f1 + f2.map_values(|x: int| x + b1.len());
    let a = a1 + a2;
    let b = b1 + b2;
    assert forall|k: int| 0 <= k < a.len() implies 0 <= #[trigger] f[k] < b.len() && b[f[k]] == a[k] by {
        if k < a1.len() {
            assert(f[k] == f1[k]);
        } else {
            assert(f[k] == f2[k - a1.len()] + b1.len());
        }
    }
    assert forall|k: int, l: int| 0 <= k < l < a.len() implies #[trigger] f[k] < #[trigger] f[l] by {
        if l < a1.len() {
            assert(f[k] == f1[k] && f[l] == f1[l]);
        } else if k < a1.len() {
            assert(f[k] == f1[k]);
            assert(f[l] == f2[l - a1.len()] + b1.len());
        } else {
            assert(f[k] == f2[k - a1.len()] + b1.len());
            assert(f[l] == f2[l - a1.len()] + b1.len());
        }
    }
    assert(embeds(a, b, f));
}

proof fn lemma_subsequence_refl(a: Seq<OptimizationView>)
    ensures
        is_subsequence(a, a),
{
    let f = Seq::new(a.len(), |k: int| k);
    assert(embeds(a, a, f));
}

proof fn lemma_subsequence_empty(b: Seq<OptimizationView>)
    ensures
        is_subsequence(Seq::empty(), b),
{
    assert(embeds(Seq::empty(), b, Seq::<int>::empty()));
}

/// The same context with more memory.
pub open spec fn with_memory(ctx: ResolveContext, total_mb: u64) -> ResolveContext {
    ResolveContext { all: ctx.all, probe: ctx.probe, caps: ctx.caps, total_mb }
}

proof fn lemma_own_more_memory(ctx: ResolveContext, m: u64, opts: Seq<OptimizationTomlView>)
    requires
        ctx.total_mb <= m,
    ensures
        is_subsequence(own_opts_of(ctx, opts), own_opts_of(with_memory(ctx, m), opts)),
    decreases opts.len(),
{
    let ctx2 = with_memory(ctx, m);
    if opts.len() == 0 {
        lemma_subsequence_refl(Seq::empty());
    } else {
        lemma_own_more_memory(ctx, m, opts.drop_last());
        let o = opts.last();
        let x = sysctl_opt_of(ctx.probe, o.name, o.description, o.explanation, o.sysctl);
        let r1 = own_opts_of(ctx, opts.drop_last());
        let r2 = own_opts_of(ctx2, opts.drop_last());
        if admitted(o, ctx.caps, ctx.total_mb) {
            assert(admitted(o, ctx2.caps, ctx2.total_mb));
            lemma_subsequence_refl(seq![x]);
            lemma_subsequence_concat(r1, r2, seq![x], seq![x]);
            assert(r1 + seq![x] == r1.push(x));
            assert(r2 + seq![x] == r2.push(x));
        } else if admitted(o, ctx2.caps, ctx2.total_mb) {
            lemma_subsequence_empty(seq![x]);
            lemma_subsequence_concat(r1, r2, Seq::empty(), seq![x]);
            assert(r1 + Seq::empty() == r1);
            assert(r2 + seq![x] == r2.push(x));
        }
    }
}

proof fn lemma_body_more_memory(ctx: ResolveContext, m: u64, x: Seq<char>, v: Set<Seq<char>>)
    requires
        ctx.total_mb <= m,
    ensures
        resolve_body(with_memory(ctx, m), x, v).1 == resolve_body(ctx, x, v).1,
        is_subsequence(resolve_body(ctx, x, v).0, resolve_body(with_memory(ctx, m), x, v).0),
    decreases universe(ctx.all).difference(v).len(), 1int, 0int,
{
    let ctx2 = with_memory(ctx, m);
    match profile_for(ctx.all, x) {
        None => {
            lemma_subsequence_refl(Seq::empty());
        },
        Some(p) => {
            lemma_list_more_memory(ctx, m, p.extends, 0, v);
            lemma_own_more_memory(ctx, m, p.optimization);
            lemma_subsequence_concat(
                resolve_list(ctx, p.extends, 0, v).0,
                resolve_list(ctx2, p.extends, 0, v).0,
                own_opts_of(ctx, p.optimization),
                own_opts_of(ctx2, p.optimization),
            );
        },
    }
}

proof fn lemma_list_more_memory(
    ctx: ResolveContext,
    m: u64,
    parents: Seq<Seq<char>>,
    i: int,
    v: Set<Seq<char>>,
)
    requires
        ctx.total_mb <= m,
    ensures
        resolve_list(with_memory(ctx, m), parents, i, v).1 == resolve_list(ctx, parents, i, v).1,
        is_subsequence(
            resolve_list(ctx, parents, i, v).0,
            resolve_list(with_memory(ctx, m), parents, i, v).0,
        ),
    decreases universe(ctx.all).difference(v).len(), 0int, parents.len() - i,
{
    if i < 0 || i >= parents.len() {
        lemma_subsequence_refl(Seq::empty());
    } else {
        let p = parents[i];
        let u = universe(ctx.all);
        if v.contains(p) {
            lemma_list_more_memory(ctx, m, parents, i + 1, v);
        } else if !u.contains(p) {
            lemma_subsequence_refl(Seq::empty());
        } else {
            vstd::seq_lib::seq_to_set_is_finite(profile_names(ctx.all));
            u.lemma_set_insert_diff_decreases(v, p);
            lemma_body_more_memory(ctx, m, p, v.insert(p));
            let first = resolve_body(ctx, p, v.insert(p));
            assert(u.difference(v.union(first.1)).subset_of(u.difference(v)));
            vstd::set_lib::lemma_set_subset_finite(u, u.difference(v));
            vstd::set_lib::lemma_len_subset(u.difference(v.union(first.1)), u.difference(v));
            lemma_list_more_memory(ctx, m, parents, i + 1, v.union(first.1));
            lemma_subsequence_concat(
                first.0,
                resolve_body(with_memory(ctx, m), p, v.insert(p)).0,
                resolve_list(ctx, parents, i + 1, v.union(first.1)).0,
                resolve_list(with_memory(ctx, m), parents, i + 1, v.union(first.1)).0,
            );
        }
    }
}

/// More memory never drops a recommendation: on two hosts alike but for
/// their memory, what the smaller one is offered is what the larger one is
/// offered with some entries left out, the rest in the same order.
pub proof fn lemma_more_memory_keeps_recommendations(
    name: Seq<char>,
    s1: SystemInfo,
    s2: SystemInfo,
    all: Seq<(Seq<char>, ProfileView)>,
    probe: Probe,
)
    requires
        s1.cpu == s2.cpu,
        s1.disks == s2.disks,
        s1.gpu == s2.gpu,
        s1.memory.total_mb <= s2.memory.total_mb,
    ensures
        is_subsequence(resolve_of(name, s1, all, probe), resolve_of(name, s2, all, probe)),
{
    let ctx = ResolveContext {
        all,
        probe,
        caps: capabilities_of(s1, probe),
        total_mb: s1.memory.total_mb,
    };
    assert(capabilities_of(s1, probe) =~= capabilities_of(s2, probe));
    let ctx2 = with_memory(ctx, s2.memory.total_mb);
    lemma_body_more_memory(ctx, s2.memory.total_mb, name, Set::empty().insert(name));
    let a = resolve_profile_of(ctx, name);
    let b = resolve_profile_of(ctx2, name);
    match s1.gpu {
        Some(g) => match nvidia_suspend_opt_of(g, probe) {
            Some(o) => {
                lemma_subsequence_refl(seq![o]);
                lemma_subsequence_concat(a, b, seq![o], seq![o]);
                assert(a + seq![o] == a.push(o));
                assert(b + seq![o] == b.push(o));
            },
            None => {},
        },
        None => {},
    }
}

// ---------------------------------------------------------------------------
// Each profile is resolved at most once
// ---------------------------------------------------------------------------

/// The names whose own entries resolving `name` adds, in order (the
/// profiles it extends first).
pub open spec fn trace_body(ctx: ResolveContext, name: Seq<char>, visited: Set<Seq<char>>) -> Seq<
    Seq<char>,
>
    decreases universe(ctx.all).difference(visited).len(), 1int, 0int,
{
    match profile_for(ctx.all, name) {
        None => seq![],
        Some(p) => trace_list(ctx, p.extends, 0, visited) + seq![name],
    }
}

/// The names whose own entries resolving `parents[i..]` adds, in order.
pub open spec fn trace_list(
    ctx: ResolveContext,
    parents: Seq<Seq<char>>,
    i: int,
    visited: Set<Seq<char>>,
) -> Seq<Seq<char>>
    decreases universe(ctx.all).difference(visited).len(), 0int, parents.len() - i,
{
    if i < 0 || i >= parents.len() {
        seq![]
    } else {
        let p = parents[i];
        if visited.contains(p) {
            trace_list(ctx, parents, i + 1, visited)
        } else if !universe(ctx.all).contains(p) {
            seq![]
        } else {
            proof {
                vstd::seq_lib::seq_to_set_is_finite(profile_names(ctx.all));
                universe(ctx.all).lemma_set_insert_diff_decreases(visited, p);
            }
            let first = resolve_body(ctx, p, visited.insert(p));
            proof {
                let u = universe(ctx.all);
                vstd::seq_lib::seq_to_set_is_finite(profile_names(ctx.all));
                assert(u.difference(visited.union(first.1)).subset_of(u.difference(visited)));
                vstd::set_lib::lemma_set_subset_finite(u, u.difference(visited));
                vstd::set_lib::lemma_len_subset(
                    u.difference(visited.union(first.1)),
                    u.difference(visited),
                );
            }
            trace_body(ctx, p, visited.insert(p)) + trace_list(ctx, parents, i + 1, visited.union(first.1))
        }
    }
}

/// The own entries of the profile that `name` resolves to.
pub open spec fn own_of(ctx: ResolveContext, name: Seq<char>) -> Seq<OptimizationView> {
    match profile_for(ctx.all, name) {
        Some(q) => own_opts_of(ctx, q.optimization),
        None => seq![],
    }
}

/// The own entries of the profiles that `names` resolve to, in order.
pub open spec fn own_of_names(ctx: ResolveContext, names: Seq<Seq<char>>) -> Seq<OptimizationView>
    decreases names.len(),
{
    if names.len() == 0 {
        seq![]
    } else {
        own_of_names(ctx, names.drop_last()) + own_of(ctx, names.last())
    }
}

proof fn lemma_own_of_names_concat(ctx: ResolveContext, a: Seq<Seq<char>>, b: Seq<Seq<char>>)
    ensures
        own_of_names(ctx, a + b) == own_of_names(ctx, a) + own_of_names(ctx, b),
    decreases b.len(),
{
    if b.len() == 0 {
        assert(a + b =~= a);
    } else {
        lemma_own_of_names_concat(ctx, a, b.drop_last());
        assert((a + b).drop_last() =~= a + b.drop_last());
        assert((a + b).last() == b.last());
    }
}

proof fn lemma_trace_body(ctx: ResolveContext, x: Seq<char>, v: Set<Seq<char>>)
    requires
        v.contains(x),
    ensures
        trace_body(ctx, x, v).no_duplicates(),
        forall|k: int|
            0 <= k < trace_body(ctx, x, v).len() ==> #[trigger] trace_body(ctx, x, v)[k] == x
                || !v.contains(trace_body(ctx, x, v)[k]),
        forall|k: int|
            0 <= k < trace_body(ctx, x, v).len() ==> resolve_body(ctx, x, v).1.contains(
                #[trigger] trace_body(ctx, x, v)[k],
            ),
        v.subset_of(resolve_body(ctx, x, v).1),
        resolve_body(ctx, x, v).0 == own_of_names(ctx, trace_body(ctx, x, v)),
    decreases universe(ctx.all).difference(v).len(), 1int, 0int,
{
    match profile_for(ctx.all, x) {
        None => {},
        Some(p) => {
            lemma_trace_list(ctx, p.extends, 0, v);
            let tl = trace_list(ctx, p.extends, 0, v);
            let t = tl + seq![x];
            assert forall|k: int, l: int| 0 <= k < t.len() && 0 <= l < t.len() && k != l implies t[k] != t[l] by {
                if k < tl.len() && l < tl.len() {
                    assert(t[k] == tl[k] && t[l] == tl[l]);
                } else if k < tl.len() {
                    assert(t[k] == tl[k]);
                } else if l < tl.len() {
                    assert(t[l] == tl[l]);
                }
            }
            assert forall|k: int| 0 <= k < t.len() implies #[trigger] t[k] == x || !v.contains(t[k]) by {
                if k < tl.len() {
                    assert(t[k] == tl[k]);
                }
            }
            assert forall|k: int| 0 <= k < t.len() implies resolve_body(ctx, x, v).1.contains(#[trigger] t[k]) by {
                if k < tl.len() {
                    assert(t[k] == tl[k]);
                }
            }
            lemma_own_of_names_concat(ctx, tl, seq![x]);
            assert(seq![x].drop_last() =~= Seq::<Seq<char>>::empty());
            assert(own_of_names(ctx, Seq::<Seq<char>>::empty()) == Seq::<OptimizationView>::empty());
            assert(own_of_names(ctx, seq![x]) =~= own_of(ctx, x));
            assert(own_of(ctx, x) == own_opts_of(ctx, p.optimization));
        },
    }
}

proof fn lemma_trace_list(ctx: ResolveContext, parents: Seq<Seq<char>>, i: int, v: Set<Seq<char>>)
    ensures
        trace_list(ctx, parents, i, v).no_duplicates(),
        forall|k: int|
            0 <= k < trace_list(ctx, parents, i, v).len() ==> !v.contains(
                #[trigger] trace_list(ctx, parents, i, v)[k],
            ),
        forall|k: int|
            0 <= k < trace_list(ctx, parents, i, v).len() ==> resolve_list(ctx, parents, i, v).1.contains(
                #[trigger] trace_list(ctx, parents, i, v)[k],
            ),
        v.subset_of(resolve_list(ctx, parents, i, v).1),
        resolve_list(ctx, parents, i, v).0 == own_of_names(ctx, trace_list(ctx, parents, i, v)),
    decreases universe(ctx.all).difference(v).len(), 0int, parents.len() - i,
{
    if 0 <= i < parents.len() {
        let p = parents[i];
        let u = universe(ctx.all);
        if v.contains(p) {
            lemma_trace_list(ctx, parents, i + 1, v);
        } else if u.contains(p) {
            vstd::seq_lib::seq_to_set_is_finite(profile_names(ctx.all));
            u.lemma_set_insert_diff_decreases(v, p);
            let vp = v.insert(p);
            lemma_trace_body(ctx, p, vp);
            let first = resolve_body(ctx, p, vp);
            let tb = trace_body(ctx, p, vp);
            assert(u.difference(v.union(first.1)).subset_of(u.difference(v)));
            vstd::set_lib::lemma_set_subset_finite(u, u.difference(v));
            vstd::set_lib::lemma_len_subset(u.difference(v.union(first.1)), u.difference(v));
            let w = v.union(first.1);
            lemma_trace_list(ctx, parents, i + 1, w);
            let tr = trace_list(ctx, parents, i + 1, w);
            let t = tb + tr;
            assert(t == trace_list(ctx, parents, i, v));
            assert forall|k: int| 0 <= k < t.len() implies !v.contains(#[trigger] t[k]) by {
                if k < tb.len() {
                    assert(t[k] == tb[k]);
                } else {
                    assert(t[k] == tr[k - tb.len()]);
                }
            }
            assert forall|k: int, l: int| 0 <= k < t.len() && 0 <= l < t.len() && k != l implies t[k] != t[l] by {
                if k < tb.len() && l < tb.len() {
                    assert(t[k] == tb[k] && t[l] == tb[l]);
                } else if k >= tb.len() && l >= tb.len() {
                    assert(t[k] == tr[k - tb.len()] && t[l] == tr[l - tb.len()]);
                } else if k < tb.len() {
                    assert(t[k] == tb[k] && t[l] == tr[l - tb.len()]);
                    assert(first.1.contains(tb[k]));
                } else {
                    assert(t[l] == tb[l] && t[k] == tr[k - tb.len()]);
                    assert(first.1.contains(tb[l]));
                }
            }
            assert forall|k: int| 0 <= k < t.len() implies resolve_list(ctx, parents, i, v).1.contains(
                #[trigger] t[k],
            ) by {
                if k < tb.len() {
                    assert(t[k] == tb[k]);
                    assert(w.contains(tb[k]));
                } else {
                    assert(t[k] == tr[k - tb.len()]);
                }
            }
            assert(vp.subset_of(first.1));
            lemma_own_of_names_concat(ctx, tb, tr);
        }
    }
}

/// Each profile is resolved at most once, cycles and diamonds included:
/// resolving `name` adds the own entries of a list of names, in order, and
/// no name occurs twice in that list.
pub proof fn lemma_each_profile_resolved_once(ctx: ResolveContext, name: Seq<char>)
    ensures
        trace_body(ctx, name, Set::empty().insert(name)).no_duplicates(),
        resolve_profile_of(ctx, name) == own_of_names(ctx, trace_body(ctx, name, Set::empty().insert(name))),
{
    lemma_trace_body(ctx, name, Set::empty().insert(name));
}

// ---------------------------------------------------------------------------
// Resolution for any set of names visited so far
// ---------------------------------------------------------------------------

/// The names whose own entries resolving `name` adds, given the names
/// visited so far: none when `name` was visited.
pub open spec fn trace_from(ctx: ResolveContext, name: Seq<char>, visited: Set<Seq<char>>) -> Seq<
    Seq<char>,
> {
    if visited.contains(name) {
        seq![]
    } else {
        trace_body(ctx, name, visited.insert(name))
    }
}

/// Parents come first: resolving a name not visited yet gives what its
/// parents resolve to, in order and with the visited names threaded through,
/// then the profile's own admitted entries.
pub proof fn lemma_resolve_from_parents_first(
    ctx: ResolveContext,
    name: Seq<char>,
    visited: Set<Seq<char>>,
    p: ProfileView,
)
    requires
        !visited.contains(name),
        profile_for(ctx.all, name) == Some(p),
    ensures
        resolve_from(ctx, name, visited).0 == resolve_list(ctx, p.extends, 0, visited.insert(name)).0
            + own_opts_of(ctx, p.optimization),
{
}

/// Resolving the parents from position `i` is resolving the parent at `i`,
/// given the names visited so far, then the rest with the names it visited.
pub proof fn lemma_parents_in_order(
    ctx: ResolveContext,
    parents: Seq<Seq<char>>,
    i: int,
    visited: Set<Seq<char>>,
)
    requires
        0 <= i < parents.len(),
        universe(ctx.all).contains(parents[i]),
    ensures
        resolve_list(ctx, parents, i, visited) == (
            resolve_from(ctx, parents[i], visited).0 + resolve_list(
                ctx,
                parents,
                i + 1,
                resolve_from(ctx, parents[i], visited).1,
            ).0,
            resolve_list(ctx, parents, i + 1, resolve_from(ctx, parents[i], visited).1).1,
        ),
{
    let p = parents[i];
    if visited.contains(p) {
        assert(Seq::<OptimizationView>::empty() + resolve_list(ctx, parents, i + 1, visited).0
            =~= resolve_list(ctx, parents, i + 1, visited).0);
    } else {
        lemma_trace_body(ctx, p, visited.insert(p));
        let first = resolve_body(ctx, p, visited.insert(p));
        assert(visited.union(first.1) =~= first.1);
    }
}

/// Resolving `name` given any names visited so far: afterwards the visited
/// names include those before and `name`; the result is the own entries of
/// a list of names, in order, none of them visited before and none twice.
pub proof fn lemma_resolve_from_visits_once(ctx: ResolveContext, name: Seq<char>, visited: Set<Seq<char>>)
    ensures
        visited.insert(name).subset_of(resolve_from(ctx, name, visited).1),
        trace_from(ctx, name, visited).no_duplicates(),
        forall|k: int|
            0 <= k < trace_from(ctx, name, visited).len() ==> !visited.contains(
                #[trigger] trace_from(ctx, name, visited)[k],
            ),
        resolve_from(ctx, name, visited).0 == own_of_names(ctx, trace_from(ctx, name, visited)),
{
    if visited.contains(name) {
        assert(visited.insert(name) =~= visited);
        assert(own_of_names(ctx, Seq::<Seq<char>>::empty()) == Seq::<OptimizationView>::empty());
    } else {
        lemma_trace_body(ctx, name, visited.insert(name));
    }
}

// ---------------------------------------------------------------------------
// The same list where no memory floor lies between
// ---------------------------------------------------------------------------

proof fn lemma_trace_more_memory(ctx: ResolveContext, m: u64, x: Seq<char>, v: Set<Seq<char>>)
    requires
        ctx.total_mb <= m,
    ensures
        trace_body(with_memory(ctx, m), x, v) == trace_body(ctx, x, v),
    decreases universe(ctx.all).difference(v).len(), 1int, 0int,
{
    if let Some(p) = profile_for(ctx.all, x) {
        lemma_trace_list_more_memory(ctx, m, p.extends, 0, v);
    }
}

proof fn lemma_trace_list_more_memory(
    ctx: ResolveContext,
    m: u64,
    parents: Seq<Seq<char>>,
    i: int,
    v: Set<Seq<char>>,
)
    requires
        ctx.total_mb <= m,
    ensures
        trace_list(with_memory(ctx, m), parents, i, v) == trace_list(ctx, parents, i, v),
    decreases universe(ctx.all).difference(v).len(), 0int, parents.len() - i,
{
    if 0 <= i < parents.len() {
        let p = parents[i];
        let u = universe(ctx.all);
        if v.contains(p) {
            lemma_trace_list_more_memory(ctx, m, parents, i + 1, v);
        } else if u.contains(p) {
            vstd::seq_lib::seq_to_set_is_finite(profile_names(ctx.all));
            u.lemma_set_insert_diff_decreases(v, p);
            lemma_trace_more_memory(ctx, m, p, v.insert(p));
            lemma_body_more_memory(ctx, m, p, v.insert(p));
            let first = resolve_body(ctx, p, v.insert(p));
            assert(u.difference(v.union(first.1)).subset_of(u.difference(v)));
            vstd::set_lib::lemma_set_subset_finite(u, u.difference(v));
            vstd::set_lib::lemma_len_subset(u.difference(v.union(first.1)), u.difference(v));
            lemma_trace_list_more_memory(ctx, m, parents, i + 1, v.union(first.1));
        }
    }
}

/// No entry of the profiles that `names` resolve to asks for more than `lo`
/// and at most `hi` megabytes.
pub open spec fn no_floor_between(
    all: Seq<(Seq<char>, ProfileView)>,
    names: Seq<Seq<char>>,
    lo: u64,
    hi: u64,
) -> bool {
    forall|k: int, j: int|
        #![trigger names[k], profile_for(all, names[k])->0.optimization[j]]
        0 <= k < names.len() && profile_for(all, names[k]) is Some && 0 <= j
            < profile_for(all, names[k])->0.optimization.len() ==> match profile_for(
            all,
            names[k],
        )->0.optimization[j].min_ram_mb {
            Some(f) => !(lo < f && f <= hi),
            None => true,
        }
}

proof fn lemma_own_same_memory(ctx: ResolveContext, m: u64, opts: Seq<OptimizationTomlView>)
    requires
        ctx.total_mb <= m,
        forall|j: int|
            0 <= j < opts.len() ==> match (#[trigger] opts[j]).min_ram_mb {
                Some(f) => !(ctx.total_mb < f && f <= m),
                None => true,
            },
    ensures
        own_opts_of(with_memory(ctx, m), opts) == own_opts_of(ctx, opts),
    decreases opts.len(),
{
    if opts.len() > 0 {
        assert(opts.last() == opts[opts.len() - 1]);
        assert forall|j: int| 0 <= j < opts.drop_last().len() implies match (#[trigger] opts.drop_last()[j]).min_ram_mb {
            Some(f) => !(ctx.total_mb < f && f <= m),
            None => true,
        } by {
            assert(opts.drop_last()[j] == opts[j]);
        }
        lemma_own_same_memory(ctx, m, opts.drop_last());
    }
}

proof fn lemma_own_of_names_same_memory(ctx: ResolveContext, m: u64, names: Seq<Seq<char>>)
    requires
        ctx.total_mb <= m,
        no_floor_between(ctx.all, names, ctx.total_mb, m),
    ensures
        own_of_names(with_memory(ctx, m), names) == own_of_names(ctx, names),
    decreases names.len(),
{
    if names.len() > 0 {
        let n0 = names.drop_last();
        assert forall|k: int, j: int|
            #![trigger n0[k], profile_for(ctx.all, n0[k])->0.optimization[j]]
            0 <= k < n0.len() && profile_for(ctx.all, n0[k]) is Some && 0 <= j
                < profile_for(ctx.all, n0[k])->0.optimization.len() implies match profile_for(
                ctx.all,
                n0[k],
            )->0.optimization[j].min_ram_mb {
                Some(f) => !(ctx.total_mb < f && f <= m),
                None => true,
            } by {
            assert(n0[k] == names[k]);
        }
        lemma_own_of_names_same_memory(ctx, m, n0);
        let x = names.last();
        assert(x == names[names.len() - 1]);
        if let Some(q) = profile_for(ctx.all, x) {
            assert forall|j: int| 0 <= j < q.optimization.len() implies match (#[trigger] q.optimization[j]).min_ram_mb {
                Some(f) => !(ctx.total_mb < f && f <= m),
                None => true,
            } by {
                assert(names[names.len() - 1] == x);
                assert(profile_for(ctx.all, names[names.len() - 1])->0.optimization[j] == q.optimization[j]);
            }
            lemma_own_same_memory(ctx, m, q.optimization);
        }
    }
}

/// The names whose profiles resolving `name` on the host `system` reaches.
pub open spec fn reached_names(
    name: Seq<char>,
    system: SystemInfo,
    all: Seq<(Seq<char>, ProfileView)>,
    probe: Probe,
) -> Seq<Seq<char>> {
    trace_body(
        ResolveContext {
            all,
            probe,
            caps: capabilities_of(system, probe),
            total_mb: system.memory.total_mb,
        },
        name,
        Set::empty().insert(name),
    )
}

/// On two hosts alike but for their memory, the lists are the same where no
/// entry of a profile that resolution reaches asks for more memory than the
/// smaller host has and no more than the larger one has.
pub proof fn lemma_same_recommendations_without_floor_between(
    name: Seq<char>,
    s1: SystemInfo,
    s2: SystemInfo,
    all: Seq<(Seq<char>, ProfileView)>,
    probe: Probe,
)
    requires
        s1.cpu == s2.cpu,
        s1.disks == s2.disks,
        s1.gpu == s2.gpu,
        s1.memory.total_mb <= s2.memory.total_mb,
        no_floor_between(
            all,
            reached_names(name, s1, all, probe),
            s1.memory.total_mb,
            s2.memory.total_mb,
        ),
    ensures
        resolve_of(name, s1, all, probe) == resolve_of(name, s2, all, probe),
{
    let ctx = ResolveContext {
        all,
        probe,
        caps: capabilities_of(s1, probe),
        total_mb: s1.memory.total_mb,
    };
    assert(capabilities_of(s1, probe) =~= capabilities_of(s2, probe));
    let m = s2.memory.total_mb;
    let v = Set::empty().insert(name);
    lemma_trace_body(ctx, name, v);
    lemma_trace_body(with_memory(ctx, m), name, v);
    lemma_trace_more_memory(ctx, m, name, v);
    lemma_own_of_names_same_memory(ctx, m, trace_body(ctx, name, v));
    assert(resolve_profile_of(ctx, name) == resolve_profile_of(with_memory(ctx, m), name));
}

// ---------------------------------------------------------------------------
// Loading the built-in and the user's profiles
// ---------------------------------------------------------------------------

/// The built-in profiles that parsed, under their names, in order.
pub open spec fn parsed_builtins(builtins: Seq<(Seq<char>, Option<ProfileView>)>) -> Seq<
    (Seq<char>, ProfileView),
>
    decreases builtins.len(),
{
    if builtins.len() == 0 {
        seq![]
    } else {
        let rest = parsed_builtins(builtins.drop_last());
        match builtins.last().1 {
            Some(p) => rest.push((builtins.last().0, p)),
            None => rest,
        }
    }
}

/// `base` with each user profile that parsed added in order: each replaces
/// every profile of its name and goes last.
pub open spec fn with_user_profiles(
    base: Seq<(Seq<char>, ProfileView)>,
    users: Seq<Option<ProfileView>>,
) -> Seq<(Seq<char>, ProfileView)>
    decreases users.len(),
{
    if users.len() == 0 {
        base
    } else {
        let rest = with_user_profiles(base, users.drop_last());
        match users.last() {
            Some(p) => without_name(rest, p.name).push((p.name, p)),
            None => rest,
        }
    }
}

/// Loads the profiles: the built-in ones that parsed (`None` for one that
/// did not), then the user's profiles that parsed, in order, each replacing
/// every profile of its name and going last.
pub fn load_profiles(
    builtins: Vec<(String, Option<ProfileToml>)>,
    users: Vec<Option<ProfileToml>>,
) -> (r: Vec<(String, ProfileToml)>)
    ensures
        r.deep_view() == with_user_profiles(parsed_builtins(builtins.deep_view()), users.deep_view()),
{
    let ghost bv = builtins.deep_view();
    let ghost uv = users.deep_view();
    let mut r: Vec<(String, ProfileToml)> = Vec::new();
    for b in it: builtins
        invariant
            bv == it.seq().map_values(|x: (String, Option<ProfileToml>)| x.deep_view()),
            r.deep_view() == parsed_builtins(bv.take(it.index() as int)),
    {
        proof {
            let k = it.index() as int;
            assert(bv.take(k + 1).drop_last() =~= bv.take(k));
            assert(bv.take(k + 1).last() == b.deep_view());
        }
        let (name, parsed) = b;
        match parsed {
            Some(p) => {
                let ghost before = r.deep_view();
                r.push((name, p));
                assert(r.deep_view() =~= before.push((name@, p.deep_view())));
            },
            None => {},
        }
    }
    proof {
        assert(bv.take(bv.len() as int) =~= bv);
    }
    let ghost base = r.deep_view();
    for u in it: users
        invariant
            uv == it.seq().map_values(|x: Option<ProfileToml>| x.deep_view()),
            r.deep_view() == with_user_profiles(base, uv.take(it.index() as int)),
    {
        proof {
            let k = it.index() as int;
            assert(uv.take(k + 1).drop_last() =~= uv.take(k));
            assert(uv.take(k + 1).last() == u.deep_view());
        }
        match u {
            Some(p) => add_user_profile(&mut r, p),
            None => {},
        }
    }
    proof {
        assert(uv.take(uv.len() as int) =~= uv);
    }
    r
}

#[verifier::spinoff_prover]
#[verifier::rlimit(40)]
proof fn lemma_parsed_builtins_distinct(builtins: Seq<(Seq<char>, Option<ProfileView>)>)
    requires
        forall|i: int, j: int|
            0 <= i < j < builtins.len() ==> #[trigger] builtins[i].0 != #[trigger] builtins[j].0,
    ensures
        names_distinct(parsed_builtins(builtins)),
        forall|k: int|
            0 <= k < parsed_builtins(builtins).len() ==> exists|i: int|
                0 <= i < builtins.len() && #[trigger] builtins[i].0 == #[trigger] parsed_builtins(
                    builtins,
                )[k].0,
    decreases builtins.len(),
{
    if builtins.len() > 0 {
        let init = builtins.drop_last();
        assert forall|i: int, j: int| 0 <= i < j < init.len() implies #[trigger] init[i].0 != #[trigger] init[j].0 by {
            assert(init[i] == builtins[i] && init[j] == builtins[j]);
        }
        lemma_parsed_builtins_distinct(init);
        let w0 = parsed_builtins(init);
        let w = parsed_builtins(builtins);
        assert forall|k: int| 0 <= k < w0.len() implies exists|i: int|
            0 <= i < builtins.len() && #[trigger] builtins[i].0 == #[trigger] w0[k].0 by {
            let i = choose|i: int| 0 <= i < init.len() && #[trigger] init[i].0 == #[trigger] w0[k].0;
            assert(builtins[i] == init[i]);
        }
        if let Some(p) = builtins.last().1 {
            let e = (builtins.last().0, p);
            assert(w == w0.push(e));
            assert forall|k: int| 0 <= k < w0.len() implies #[trigger] w0[k].0 != e.0 by {
                let i = choose|i: int| 0 <= i < init.len() && #[trigger] init[i].0 == #[trigger] w0[k].0;
                assert(builtins[i] == init[i]);
                assert(builtins[i].0 != builtins[builtins.len() - 1].0);
            }
            assert forall|i: int, j: int| 0 <= i < j < w.len() implies #[trigger] w[i].0 != #[trigger] w[j].0 by {
                assert(w[i] == w0[i]);
                if j < w0.len() {
                    assert(w[j] == w0[j]);
                }
            }
            assert forall|k: int| 0 <= k < w.len() implies exists|i: int|
                0 <= i < builtins.len() && #[trigger] builtins[i].0 == #[trigger] w[k].0 by {
                if k == w.len() - 1 {
                    assert(builtins[builtins.len() - 1].0 == w[k].0);
                } else {
                    assert(w[k] == w0[k]);
                }
            }
        } else {
            assert(w == w0);
            assert forall|k: int| 0 <= k < w.len() implies exists|i: int|
                0 <= i < builtins.len() && #[trigger] builtins[i].0 == #[trigger] w[k].0 by {
                assert(w[k] == w0[k]);
                let i = choose|i: int| 0 <= i < init.len() && #[trigger] init[i].0 == #[trigger] w0[k].0;
                assert(builtins[i] == init[i]);
                assert(builtins[i].0 == w[k].0);
            }
        }
    }
}

proof fn lemma_with_user_profiles_distinct(
    base: Seq<(Seq<char>, ProfileView)>,
    users: Seq<Option<ProfileView>>,
)
    requires
        names_distinct(base),
    ensures
        names_distinct(with_user_profiles(base, users)),
    decreases users.len(),
{
    if users.len() > 0 {
        lemma_with_user_profiles_distinct(base, users.drop_last());
        if let Some(p) = users.last() {
            lemma_user_profile_keeps_names_distinct(with_user_profiles(base, users.drop_last()), p);
        }
    }
}

/// Loading keeps names distinct: where the built-in profiles have distinct
/// names, no two loaded profiles share a name. The last user profile that
/// parsed is the last loaded profile, and its name finds it.
pub proof fn lemma_loaded_profiles(
    builtins: Seq<(Seq<char>, Option<ProfileView>)>,
    users: Seq<Option<ProfileView>>,
)
    requires
        forall|i: int, j: int|
            0 <= i < j < builtins.len() ==> #[trigger] builtins[i].0 != #[trigger] builtins[j].0,
    ensures
        names_distinct(with_user_profiles(parsed_builtins(builtins), users)),
        users.len() > 0 && users.last() is Some ==> {
            let p = users.last()->0;
            let loaded = with_user_profiles(parsed_builtins(builtins), users);
            &&& loaded.last() == (p.name, p)
            &&& find_profile_of(loaded, p.name) == Some(p)
        },
{
    lemma_parsed_builtins_distinct(builtins);
    lemma_with_user_profiles_distinct(parsed_builtins(builtins), users);
    if users.len() > 0 && users.last() is Some {
        let p = users.last()->0;
        let rest = with_user_profiles(parsed_builtins(builtins), users.drop_last());
        lemma_user_profile_overrides(rest, p, p.name);
    }
}

} // verus!
