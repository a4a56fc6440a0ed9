//! Snapshots of the values that optimizations change, and the restores that
//! roll them back.
use vstd::prelude::*;
use crate::optimize::{after_steps, step_of, StepView, ChangeKind, ChangeView, HostState, Optimization, OptimizationView};
use crate::probe::{sysctl_path, sysctl_path_of};
use crate::text::{cat, chars_of, eq_lit, lit_cat, push_str, starts_with_lit, string_of, trim_of};

verus! {

/// The values that were in place before optimizations were applied.
#[derive(Debug, Clone)]
pub struct Snapshot {
    /// Where the snapshot is stored.
    pub path: String,
    pub timestamp: String,
    pub entries: Vec<SnapshotEntry>,
}

/// A target, its value before the change (for a service, its state; none
/// where the file did not exist), and how it was changed. An entry without a
/// kind is read as its target says: a file for an absolute path, a sysctl
/// otherwise.
#[derive(Debug, Clone)]
pub struct SnapshotEntry {
    pub target: String,
    pub previous_value: Option<String>,
    pub kind: Option<ChangeKind>,
}

impl DeepView for SnapshotEntry {
    type V = (Seq<char>, Option<Seq<char>>, Option<ChangeKind>);

    open spec fn deep_view(&self) -> (Seq<char>, Option<Seq<char>>, Option<ChangeKind>) {
        (self.target@, self.previous_value.deep_view(), self.kind)
    }
}

/// The snapshot entry of a change: its target, its current value and its kind.
pub open spec fn entry_of(c: ChangeView) -> (Seq<char>, Option<Seq<char>>, Option<ChangeKind>) {
    (c.target, c.current_value, Some(c.kind))
}

/// The entries for all changes of `opts`, optimization by optimization, in
/// order.
pub open spec fn entries_of(opts: Seq<OptimizationView>) -> Seq<
    (Seq<char>, Option<Seq<char>>, Option<ChangeKind>),
>
    decreases opts.len(),
{
    if opts.len() == 0 {
        seq![]
    } else {
        entries_of(opts.drop_last()) + opts.last().changes.map_values(
            |c: ChangeView| entry_of(c),
        )
    }
}

/// `rel` appended to the path `base` as `PathBuf::join` does for a relative
/// `rel`: with a `/` between them unless `base` is empty or ends with one.
pub open spec fn join_path_of(base: Seq<char>, rel: Seq<char>) -> Seq<char> {
    if base.len() == 0 || base.last() == '/' {
        base + rel
    } else {
        base + "/"@ + rel
    }
}

/// Joins a relative path to a base path.
pub fn join_path(base: &Vec<char>, rel: &Vec<char>) -> (r: Vec<char>)
    ensures
        r@ == join_path_of(base@, rel@),
{
    if base.len() == 0 || base[base.len() - 1] == '/' {
        cat(base, rel)
    } else {
        let with_sep = cat(base, &chars_of("/"));
        cat(&with_sep, rel)
    }
}

/// The snapshot directory under the home directory (or `/tmp` when `HOME`
/// is unset).
pub open spec fn snapshot_dir_of(home: Option<Seq<char>>) -> Seq<char> {
    let base = match home {
        Some(h) => h,
        None => "/tmp"@,
    };
    join_path_of(base, ".local/share/tuxtune/snapshots"@)
}

/// Where snapshots are kept.
pub fn snapshot_dir(home: Option<&str>) -> (r: String)
    ensures
        r@ == snapshot_dir_of(match home {
            Some(h) => Some(h@),
            None => None,
        }),
{
    let base = match home {
        Some(h) => chars_of(h),
        None => chars_of("/tmp"),
    };
    string_of(&join_path(&base, &chars_of(".local/share/tuxtune/snapshots")))
}

/// The file a snapshot taken at `timestamp` is stored in.
pub open spec fn snapshot_path_of(dir: Seq<char>, timestamp: Seq<char>) -> Seq<char> {
    join_path_of(dir, "snapshot_"@ + timestamp + ".json"@)
}

/// Records the current value of every change of `optimizations`, to be
/// stored under `dir` as `snapshot_<timestamp>.json`.
pub fn snapshot(optimizations: &Vec<Optimization>, dir: &str, timestamp: &str) -> (r: Snapshot)
    ensures
        r.path@ == snapshot_path_of(dir@, timestamp@),
        r.timestamp@ == timestamp@,
        r.entries.deep_view() == entries_of(optimizations.deep_view()),
{
    let ghost ov = optimizations.deep_view();
    let mut entries: Vec<SnapshotEntry> = Vec::new();
    let mut i: usize = 0;
    while i < optimizations.len()
        invariant
            i <= optimizations@.len(),
            ov == optimizations.deep_view(),
            entries.deep_view() == entries_of(ov.take(i as int)),
        decreases optimizations@.len() - i,
    {
        let opt = &optimizations[i];
        let ghost cs = opt.changes.deep_view();
        let ghost before = entries.deep_view();
        proof {
            assert(ov.take(i + 1).drop_last() =~= ov.take(i as int));
            assert(ov.take(i + 1).last() == opt.deep_view());
        }
        let mut j: usize = 0;
        while j < opt.changes.len()
            invariant
                j <= opt.changes@.len(),
                cs == opt.changes.deep_view(),
                entries.deep_view() == before + cs.take(j as int).map_values(
                    |c: ChangeView| entry_of(c),
                ),
            decreases opt.changes@.len() - j,
        {
            let change = &opt.changes[j];
            let e = SnapshotEntry {
                target: change.target.clone(),
                previous_value: change.current_value.clone(),
                kind: Some(change.kind),
            };
            proof {
                assert(cs[j as int] == change.deep_view());
                assert(entries.deep_view().push(e.deep_view()) =~= before + cs.take(j + 1).map_values(
                    |c: ChangeView| entry_of(c),
                ));
            }
            entries.push(e);
            proof {
                assert(entries.deep_view() =~= before + cs.take(j + 1).map_values(
                    |c: ChangeView| entry_of(c),
                ));
            }
            j += 1;
        }
        proof {
            assert(cs.take(cs.len() as int) =~= cs);
        }
        i += 1;
    }
    proof {
        assert(ov.take(ov.len() as int) =~= ov);
    }
    let name = cat(&lit_cat("snapshot_", &chars_of(timestamp)), &chars_of(".json"));
    let path = join_path(&chars_of(dir), &name);
    Snapshot { path: string_of(&path), timestamp: string_of(&chars_of(timestamp)), entries }
}

/// One action that puts a value back.
#[derive(Debug, Clone)]
pub enum Restore {
    /// Write `value` back to the file `path`, if that file exists.
    File { path: String, value: String },
    /// Write `value` back to `path`, the file of the sysctl `key`, if it exists.
    Sysctl { key: String, path: String, value: String },
    /// Remove the file `path`, which applying created.
    RemoveFile { path: String },
    /// Run `systemctl disable name` for a service that applying enabled.
    DisableService { name: String },
}

/// The mathematical value of a `Restore`.
pub enum RestoreView {
    File { path: Seq<char>, value: Seq<char> },
    Sysctl { key: Seq<char>, path: Seq<char>, value: Seq<char> },
    RemoveFile { path: Seq<char> },
    DisableService { name: Seq<char> },
}

impl DeepView for Restore {
    type V = RestoreView;

    open spec fn deep_view(&self) -> RestoreView {
        match self {
            Restore::File { path, value } => RestoreView::File { path: path@, value: value@ },
            Restore::Sysctl { key, path, value } => RestoreView::Sysctl {
                key: key@,
                path: path@,
                value: value@,
            },
            Restore::RemoveFile { path } => RestoreView::RemoveFile { path: path@ },
            Restore::DisableService { name } => RestoreView::DisableService { name: name@ },
        }
    }
}

/// Putting back a sysctl: its previous value where it had one.
pub open spec fn sysctl_restore_of(key: Seq<char>, prev: Option<Seq<char>>) -> Option<RestoreView> {
    match prev {
        Some(v) => Some(RestoreView::Sysctl { key, path: sysctl_path_of(key), value: v }),
        None => None,
    }
}

/// Putting back a file: its previous contents, or removing it where it did
/// not exist.
pub open spec fn file_restore_of(path: Seq<char>, prev: Option<Seq<char>>) -> Option<RestoreView> {
    match prev {
        Some(v) => Some(RestoreView::File { path, value: v }),
        None => Some(RestoreView::RemoveFile { path }),
    }
}

/// What puts an entry back. A file change restores the contents or removes
/// the file; a sysctl change restores a known value; a service change
/// disables a service that was not enabled; a package change needs nothing.
/// An entry without a kind restores a known value only: to the file for an
/// absolute target, to the sysctl otherwise.
pub open spec fn restore_of(e: (Seq<char>, Option<Seq<char>>, Option<ChangeKind>)) -> Option<
    RestoreView,
> {
    match e.2 {
        Some(ChangeKind::WriteFile) => file_restore_of(e.0, e.1),
        Some(ChangeKind::SysctlSet) => sysctl_restore_of(e.0, e.1),
        Some(ChangeKind::EnableService) => match e.1 {
            Some(v) => if v == "enabled"@ {
                None
            } else {
                Some(RestoreView::DisableService { name: e.0 })
            },
            None => None,
        },
        Some(ChangeKind::InstallPackage) => None,
        None => match e.1 {
            Some(v) => if "/"@.is_prefix_of(e.0) {
                Some(RestoreView::File { path: e.0, value: v })
            } else {
                Some(RestoreView::Sysctl { key: e.0, path: sysctl_path_of(e.0), value: v })
            },
            None => None,
        },
    }
}

/// The restores for the entries of a snapshot, in order.
pub open spec fn restores_of(entries: Seq<(Seq<char>, Option<Seq<char>>, Option<ChangeKind>)>) -> Seq<
    RestoreView,
>
    decreases entries.len(),
{
    if entries.len() == 0 {
        seq![]
    } else {
        let rest = restores_of(entries.drop_last());
        match restore_of(entries.last()) {
            Some(r) => rest.push(r),
            None => rest,
        }
    }
}

/// An entry without a kind, as older snapshots hold, is put back as its
/// target says: its previous value is written to the file itself for an
/// absolute path, and otherwise to the sysctl's file under `/proc/sys`
/// (dots read as slashes) with the target as the key and the reported line
/// `  Restored: <key> = <value>`; an entry without a previous value gives
/// nothing.
pub proof fn lemma_restore_of_kindless_entry(t: Seq<char>, v: Seq<char>)
    ensures
        restore_of((t, None, None)) is None,
        "/"@.is_prefix_of(t) ==> restore_of((t, Some(v), None)) == Some(
            RestoreView::File { path: t, value: v },
        ),
        !"/"@.is_prefix_of(t) ==> restore_of((t, Some(v), None)) == Some(
            RestoreView::Sysctl {
                key: t,
                path: "/proc/sys/"@ + t.map_values(
                    |ch: char|
                        if ch == '.' {
                            '/'
                        } else {
                            ch
                        },
                ),
                value: v,
            },
        ) && restored_line_of(restore_of((t, Some(v), None))->0) == "  Restored: "@ + t + " = "@ + v,
{
    assert(t.map_values(
        |ch: char|
            if ch == '.' {
                '/'
            } else {
                ch
            },
    ) =~= crate::probe::dots_to_slashes(t));
}

/// A snapshot puts back a value where the change wrote it: for a sysctl or
/// file change with a recorded value, the restore writes that value to the
/// path its step wrote, under the same key for a sysctl. An entry for the
/// same change without its kind is put back the same way, where the change
/// is a sysctl change whose key is not an absolute path or a file change
/// whose target is.
pub proof fn lemma_restore_where_step_wrote(c: ChangeView, v: Seq<char>)
    requires
        c.current_value == Some(v),
    ensures
        step_of(c) matches StepView::WriteSysctl { key, path, value: _ } ==> restore_of(entry_of(c))
            == Some(RestoreView::Sysctl { key, path, value: v }),
        step_of(c) matches StepView::WriteFile { path, value: _ } ==> restore_of(entry_of(c)) == Some(
            RestoreView::File { path, value: v },
        ),
        (c.kind is SysctlSet && !"/"@.is_prefix_of(c.target)) || (c.kind is WriteFile
            && "/"@.is_prefix_of(c.target)) ==> restore_of((c.target, c.current_value, None))
            == restore_of(entry_of(c)),
{
}

/// The line reported for a value put back.
pub open spec fn restored_line_of(r: RestoreView) -> Seq<char> {
    match r {
        RestoreView::File { path, value: _ } => "  Restored: "@ + path,
        RestoreView::Sysctl { key, path: _, value } => "  Restored: "@ + key + " = "@ + value,
        RestoreView::RemoveFile { path } => "  Removed: "@ + path,
        RestoreView::DisableService { name } => "  Disabled: "@ + name,
    }
}

impl Restore {
    /// The line reported once the value is put back.
    pub fn restored_line(&self) -> (r: String)
        ensures
            r@ == restored_line_of(self.deep_view()),
    {
        let mut v: Vec<char>;
        match self {
            Restore::File { path, value: _ } => {
                v = chars_of("  Restored: ");
                push_str(&mut v, path.as_str());
            },
            Restore::Sysctl { key, path: _, value } => {
                v = chars_of("  Restored: ");
                push_str(&mut v, key.as_str());
                push_str(&mut v, " = ");
                push_str(&mut v, value.as_str());
            },
            Restore::RemoveFile { path } => {
                v = chars_of("  Removed: ");
                push_str(&mut v, path.as_str());
            },
            Restore::DisableService { name } => {
                v = chars_of("  Disabled: ");
                push_str(&mut v, name.as_str());
            },
        }
        string_of(&v)
    }
}

fn sysctl_restore(target: &Vec<char>, prev: &Option<String>) -> (r: Option<Restore>)
    ensures
        r.deep_view() == sysctl_restore_of(target@, prev.deep_view()),
{
    match prev {
        Some(v) => Some(
            Restore::Sysctl {
                key: string_of(target),
                path: string_of(&sysctl_path(target)),
                value: v.clone(),
            },
        ),
        None => None,
    }
}

/// What puts an entry back (see `restore_of`).
pub fn entry_restore(e: &SnapshotEntry) -> (r: Option<Restore>)
    ensures
        r.deep_view() == restore_of(e.deep_view()),
{
    let target = chars_of(e.target.as_str());
    match e.kind {
        Some(ChangeKind::WriteFile) => match &e.previous_value {
            Some(v) => Some(Restore::File { path: string_of(&target), value: v.clone() }),
            None => Some(Restore::RemoveFile { path: string_of(&target) }),
        },
        Some(ChangeKind::SysctlSet) => sysctl_restore(&target, &e.previous_value),
        Some(ChangeKind::EnableService) => match &e.previous_value {
            Some(v) => {
                if eq_lit(&chars_of(v.as_str()), "enabled") {
                    None
                } else {
                    Some(Restore::DisableService { name: string_of(&target) })
                }
            },
            None => None,
        },
        Some(ChangeKind::InstallPackage) => None,
        None => match &e.previous_value {
            Some(v) => {
                if starts_with_lit(&target, "/") {
                    Some(Restore::File { path: string_of(&target), value: v.clone() })
                } else {
                    sysctl_restore(&target, &e.previous_value)
                }
            },
            None => None,
        },
    }
}

/// The restores that roll a snapshot back, in order. They are carried out
/// in order, writes only where the file exists, stopping at the first that
/// fails.
pub fn rollback(snap: &Snapshot) -> (r: Vec<Restore>)
    ensures
        r.deep_view() == restores_of(snap.entries.deep_view()),
{
    let ghost es = snap.entries.deep_view();
    let mut r: Vec<Restore> = Vec::new();
    let mut i: usize = 0;
    while i < snap.entries.len()
        invariant
            i <= snap.entries@.len(),
            es == snap.entries.deep_view(),
            r.deep_view() == restores_of(es.take(i as int)),
        decreases snap.entries@.len() - i,
    {
        proof {
            assert(es.take(i + 1).drop_last() =~= es.take(i as int));
            assert(es.take(i + 1).last() == snap.entries@[i as int].deep_view());
        }
        match entry_restore(&snap.entries[i]) {
            Some(restore) => {
                proof {
                    assert(r.deep_view().push(restore.deep_view()) =~= restores_of(es.take(i + 1)));
                }
                r.push(restore);
            },
            None => {},
        }
        assert(r.deep_view() =~= restores_of(es.take(i + 1)));
        i += 1;
    }
    proof {
        assert(es.take(es.len() as int) =~= es);
    }
    r
}

// ---------------------------------------------------------------------------
// Rolling back undoes applying
// ---------------------------------------------------------------------------

/// What a restore does to the host when it succeeds: a write happens only
/// where the file exists; a removal removes the file; disabling a service
/// leaves it not enabled.
pub open spec fn after_restore(st: HostState, r: RestoreView) -> HostState {
    match r {
        RestoreView::File { path, value } => if st.files.dom().contains(path) {
            HostState { files: st.files.insert(path, value), enabled: st.enabled }
        } else {
            st
        },
        RestoreView::Sysctl { key: _, path, value } => if st.files.dom().contains(path) {
            HostState { files: st.files.insert(path, value), enabled: st.enabled }
        } else {
            st
        },
        RestoreView::RemoveFile { path } => HostState {
            files: st.files.remove(path),
            enabled: st.enabled,
        },
        RestoreView::DisableService { name } => HostState {
            files: st.files,
            enabled: st.enabled.remove(name),
        },
    }
}

/// The host after carrying out `restores` in order, each succeeding.
pub open spec fn after_restores(st: HostState, restores: Seq<RestoreView>) -> HostState
    decreases restores.len(),
{
    if restores.len() == 0 {
        st
    } else {
        after_restore(after_restores(st, restores.drop_last()), restores.last())
    }
}

/// All changes of `opts`, optimization by optimization, in order.
pub open spec fn changes_of(opts: Seq<OptimizationView>) -> Seq<ChangeView>
    decreases opts.len(),
{
    if opts.len() == 0 {
        seq![]
    } else {
        changes_of(opts.drop_last()) + opts.last().changes
    }
}

/// The file a sysctl or file change writes: the sysctl's file, or the target.
pub open spec fn change_path_of(c: ChangeView) -> Seq<char> {
    if c.kind is SysctlSet {
        sysctl_path_of(c.target)
    } else {
        c.target
    }
}

/// Whether a change writes a file (a sysctl's or another).
pub open spec fn writes_file(c: ChangeView) -> bool {
    c.kind is SysctlSet || c.kind is WriteFile
}

/// The change recorded the state of its target on the host `st`: for a
/// file, its contents; for a sysctl, the contents of its file trimmed (as
/// sysctl values are read); none where that file does not exist; for a
/// service, `enabled` exactly when it is enabled.
pub open spec fn recorded(st: HostState, c: ChangeView) -> bool {
    match c.kind {
        ChangeKind::SysctlSet => c.current_value == if st.files.dom().contains(change_path_of(c)) {
            Some(trim_of(st.files[change_path_of(c)]))
        } else {
            None
        },
        ChangeKind::WriteFile => c.current_value == if st.files.dom().contains(change_path_of(c)) {
            Some(st.files[change_path_of(c)])
        } else {
            None
        },
        ChangeKind::EnableService => c.current_value is Some && ((c.current_value->0 == "enabled"@)
            == st.enabled.contains(c.target)),
        ChangeKind::InstallPackage => true,
    }
}

/// One of `cs` is a sysctl change whose file is `p`.
pub open spec fn writes_sysctl_file(cs: Seq<ChangeView>, p: Seq<char>) -> bool {
    exists|i: int|
        #![trigger cs[i]]
        0 <= i < cs.len() && cs[i].kind is SysctlSet && sysctl_path_of(cs[i].target) == p
}

/// `after` is the host `st` again: the same services enabled, the same
/// files, each with its old contents, except that a file a sysctl change of
/// `cs` wrote may hold its old contents trimmed (a sysctl's value is read
/// and put back trimmed).
pub open spec fn restored_host(st: HostState, after: HostState, cs: Seq<ChangeView>) -> bool {
    &&& after.enabled == st.enabled
    &&& after.files.dom() == st.files.dom()
    &&& forall|p: Seq<char>|
        #[trigger] st.files.dom().contains(p) ==> after.files[p] == st.files[p] || (after.files[p]
            == trim_of(st.files[p]) && writes_sysctl_file(cs, p))
}

spec fn applied(st: HostState, cs: Seq<ChangeView>) -> HostState {
    after_steps(st, cs.map_values(|c: ChangeView| step_of(c)))
}

spec fn rolled_back(st: HostState, cs: Seq<ChangeView>) -> HostState {
    after_restores(st, restores_of(cs.map_values(|c: ChangeView| entry_of(c))))
}

/// Whether one of `cs` writes the file `p`.
spec fn touches(cs: Seq<ChangeView>, p: Seq<char>) -> bool
    decreases cs.len(),
{
    cs.len() > 0 && (touches(cs.drop_last(), p) || (writes_file(cs.last()) && change_path_of(
        cs.last(),
    ) == p))
}

/// Whether one of `cs` writes (and so may create) the file `p` directly.
spec fn creates(cs: Seq<ChangeView>, p: Seq<char>) -> bool
    decreases cs.len(),
{
    cs.len() > 0 && (creates(cs.drop_last(), p) || (cs.last().kind is WriteFile && cs.last().target
        == p))
}

/// Whether one of `cs` enables the service `s`.
spec fn enables(cs: Seq<ChangeView>, s: Seq<char>) -> bool
    decreases cs.len(),
{
    cs.len() > 0 && (enables(cs.drop_last(), s) || (cs.last().kind is EnableService
        && cs.last().target == s))
}

/// The snapshot entries of some optimizations are those of their changes.
proof fn lemma_entries_of_changes(opts: Seq<OptimizationView>)
    ensures
        entries_of(opts) == changes_of(opts).map_values(|c: ChangeView| entry_of(c)),
    decreases opts.len(),
{
    if opts.len() > 0 {
        lemma_entries_of_changes(opts.drop_last());
        assert(entries_of(opts) =~= changes_of(opts).map_values(|c: ChangeView| entry_of(c)));
    }
}

/// Steps never remove a file; a file stays as it was unless a change writes
/// it; a file exists afterwards only where it existed or a file change
/// wrote it; the services enabled afterwards are those before and those the
/// changes enable.
proof fn lemma_applied(st: HostState, cs: Seq<ChangeView>, p: Seq<char>, s: Seq<char>)
    ensures
        st.files.dom().contains(p) ==> applied(st, cs).files.dom().contains(p),
        !touches(cs, p) ==> applied(st, cs).files.dom().contains(p) == st.files.dom().contains(p),
        !touches(cs, p) && st.files.dom().contains(p) ==> applied(st, cs).files[p] == st.files[p],
        applied(st, cs).files.dom().contains(p) ==> st.files.dom().contains(p) || creates(cs, p),
        applied(st, cs).enabled.contains(s) == (st.enabled.contains(s) || enables(cs, s)),
    decreases cs.len(),
{
    if cs.len() > 0 {
        let cs0 = cs.drop_last();
        lemma_applied(st, cs0, p, s);
        assert(cs.map_values(|c: ChangeView| step_of(c)).drop_last() =~= cs0.map_values(
            |c: ChangeView| step_of(c),
        ));
    }
}

proof fn lemma_rolled_back_unfold(m: HostState, cs: Seq<ChangeView>)
    requires
        cs.len() > 0,
    ensures
        rolled_back(m, cs) == match restore_of(entry_of(cs.last())) {
            Some(r) => after_restore(rolled_back(m, cs.drop_last()), r),
            None => rolled_back(m, cs.drop_last()),
        },
{
    let cs0 = cs.drop_last();
    let es = cs.map_values(|c: ChangeView| entry_of(c));
    let es0 = cs0.map_values(|c: ChangeView| entry_of(c));
    assert(es.drop_last() =~= es0);
    assert(es.last() == entry_of(cs.last()));
    let rs0 = restores_of(es0);
    if let Some(r) = restore_of(entry_of(cs.last())) {
        assert(restores_of(es) == rs0.push(r));
        assert(rs0.push(r).drop_last() =~= rs0);
    }
}

/// Restores of changes to an existing file `p`, each of which recorded `a`
/// (a file change) or `b` (a sysctl change): the file stays, untouched where
/// no change wrote it, otherwise with `a`, or `b` where a sysctl change wrote it.
proof fn lemma_rolled_back_existing(
    m: HostState,
    cs: Seq<ChangeView>,
    p: Seq<char>,
    a: Seq<char>,
    b: Seq<char>,
)
    requires
        m.files.dom().contains(p),
        forall|i: int|
            0 <= i < cs.len() && writes_file(#[trigger] cs[i]) && change_path_of(cs[i]) == p
                ==> cs[i].current_value == Some(
                if cs[i].kind is SysctlSet {
                    b
                } else {
                    a
                },
            ),
    ensures
        rolled_back(m, cs).files.dom().contains(p),
        !touches(cs, p) ==> rolled_back(m, cs).files[p] == m.files[p],
        touches(cs, p) ==> rolled_back(m, cs).files[p] == a || (rolled_back(m, cs).files[p] == b
            && writes_sysctl_file(cs, p)),
    decreases cs.len(),
{
    if cs.len() > 0 {
        let cs0 = cs.drop_last();
        assert forall|i: int|
            0 <= i < cs0.len() && writes_file(#[trigger] cs0[i]) && change_path_of(cs0[i]) == p
                implies cs0[i].current_value == Some(
            if cs0[i].kind is SysctlSet {
                b
            } else {
                a
            },
        ) by {
            assert(cs0[i] == cs[i]);
        }
        lemma_rolled_back_existing(m, cs0, p, a, b);
        lemma_rolled_back_unfold(m, cs);
        let c = cs.last();
        assert(c == cs[cs.len() - 1]);
        if writes_sysctl_file(cs0, p) {
            let i = choose|i: int|
                #![trigger cs0[i]]
                0 <= i < cs0.len() && cs0[i].kind is SysctlSet && sysctl_path_of(cs0[i].target) == p;
            assert(cs[i] == cs0[i]);
        }
    }
}

/// Restores of changes to a file `p` that did not exist, each of which
/// recorded none: the file is gone exactly where a file change wrote it.
proof fn lemma_rolled_back_absent(m: HostState, cs: Seq<ChangeView>, p: Seq<char>)
    requires
        forall|i: int|
            0 <= i < cs.len() && writes_file(#[trigger] cs[i]) && change_path_of(cs[i]) == p
                ==> cs[i].current_value is None,
    ensures
        rolled_back(m, cs).files.dom().contains(p) == (m.files.dom().contains(p) && !creates(cs, p)),
        rolled_back(m, cs).files.dom().contains(p) ==> rolled_back(m, cs).files[p] == m.files[p],
    decreases cs.len(),
{
    if cs.len() > 0 {
        let cs0 = cs.drop_last();
        assert forall|i: int|
            0 <= i < cs0.len() && writes_file(#[trigger] cs0[i]) && change_path_of(cs0[i]) == p
                implies cs0[i].current_value is None by {
            assert(cs0[i] == cs[i]);
        }
        lemma_rolled_back_absent(m, cs0, p);
        lemma_rolled_back_unfold(m, cs);
        let c = cs.last();
        assert(c == cs[cs.len() - 1]);
    }
}

/// Restores of changes to the service `s`, all of which recorded whether it
/// was enabled (`was`): it stays enabled where it was, and is not enabled
/// afterwards where it was not and a change enabled it.
proof fn lemma_rolled_back_service(m: HostState, cs: Seq<ChangeView>, s: Seq<char>, was: bool)
    requires
        forall|i: int|
            0 <= i < cs.len() && (#[trigger] cs[i]).kind is EnableService && cs[i].target == s
                ==> cs[i].current_value is Some && ((cs[i].current_value->0 == "enabled"@) == was),
    ensures
        rolled_back(m, cs).enabled.contains(s) == (m.enabled.contains(s) && (was || !enables(cs, s))),
    decreases cs.len(),
{
    if cs.len() > 0 {
        let cs0 = cs.drop_last();
        assert forall|i: int|
            0 <= i < cs0.len() && (#[trigger] cs0[i]).kind is EnableService && cs0[i].target == s
                implies cs0[i].current_value is Some && ((cs0[i].current_value->0 == "enabled"@)
            == was) by {
            assert(cs0[i] == cs[i]);
        }
        lemma_rolled_back_service(m, cs0, s, was);
        lemma_rolled_back_unfold(m, cs);
        let c = cs.last();
        assert(c == cs[cs.len() - 1]);
    }
}

/// Rolling back undoes applying. Take a snapshot of `opts` on the host
/// `st`, carry out their steps and then the restores of the snapshot, each
/// succeeding: the host is as before — the same services enabled, files that
/// applying created gone, and every file with its old contents (trimmed, for
/// a file that a sysctl change wrote, as sysctl values are recorded). This
/// holds where each change recorded the state of its target on `st`.
pub proof fn lemma_rollback_undoes_apply(opts: Seq<OptimizationView>, st: HostState)
    requires
        forall|i: int|
            0 <= i < changes_of(opts).len() ==> recorded(st, #[trigger] changes_of(opts)[i]),
    ensures
        restored_host(
            st,
            after_restores(
                after_steps(st, changes_of(opts).map_values(|c: ChangeView| step_of(c))),
                restores_of(entries_of(opts)),
            ),
            changes_of(opts),
        ),
{
    let cs = changes_of(opts);
    lemma_entries_of_changes(opts);
    let m = applied(st, cs);
    let r = rolled_back(m, cs);
    assert forall|p: Seq<char>|
        #![trigger r.files.dom().contains(p)]
        #![trigger st.files.dom().contains(p)]
        r.files.dom().contains(p) == st.files.dom().contains(p) && (st.files.dom().contains(p)
            ==> r.files[p] == st.files[p] || (r.files[p] == trim_of(st.files[p])
            && writes_sysctl_file(cs, p))) by {
        lemma_applied(st, cs, p, p);
        if st.files.dom().contains(p) {
            let a = st.files[p];
            let b = trim_of(st.files[p]);
            assert forall|i: int|
                0 <= i < cs.len() && writes_file(#[trigger] cs[i]) && change_path_of(cs[i]) == p
                    implies cs[i].current_value == Some(
                if cs[i].kind is SysctlSet {
                    b
                } else {
                    a
                },
            ) by {
                assert(recorded(st, cs[i]));
            }
            lemma_rolled_back_existing(m, cs, p, a, b);
        } else {
            assert forall|i: int|
                0 <= i < cs.len() && writes_file(#[trigger] cs[i]) && change_path_of(cs[i]) == p
                    implies cs[i].current_value is None by {
                assert(recorded(st, cs[i]));
            }
            lemma_rolled_back_absent(m, cs, p);
        }
    }
    assert forall|s: Seq<char>|
        #![trigger r.enabled.contains(s)]
        #![trigger st.enabled.contains(s)]
        r.enabled.contains(s) == st.enabled.contains(s) by {
        lemma_applied(st, cs, s, s);
        let was = st.enabled.contains(s);
        assert forall|i: int|
            0 <= i < cs.len() && (#[trigger] cs[i]).kind is EnableService && cs[i].target == s
                implies cs[i].current_value is Some && ((cs[i].current_value->0 == "enabled"@)
            == was) by {
            assert(recorded(st, cs[i]));
        }
        lemma_rolled_back_service(m, cs, s, was);
    }
    assert(r.files.dom() =~= st.files.dom());
    assert(r.enabled =~= st.enabled);
}

} // verus!
