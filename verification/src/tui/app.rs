//! The state of the interactive view and how keys change it.
use vstd::prelude::*;
use crate::detect::SystemInfo;
use crate::optimize::{Change, Optimization, OptimizationView};
use crate::probe::Probe;
use crate::profile::{list_all, resolve, resolve_of, ProfileToml, ProfileView};
use crate::text::{cat, chars_of, decimal, decimal_of, lit_cat, string_of};

verus! {

/// The tabs of the view.
#[derive(Debug, Clone, Copy, PartialEq, Eq, Structural)]
pub enum Tab {
    System,
    Optimizations,
    Profiles,
}

/// The tab at position `i` of the tab bar.
pub open spec fn tab_at(i: int) -> Tab {
    if i == 0 {
        Tab::System
    } else if i == 1 {
        Tab::Optimizations
    } else {
        Tab::Profiles
    }
}

/// The title of a tab.
pub open spec fn title_of(t: Tab) -> Seq<char> {
    match t {
        Tab::System => "System"@,
        Tab::Optimizations => "Optimizations"@,
        Tab::Profiles => "Profiles"@,
    }
}

impl Tab {
    /// The number of tabs.
    pub const COUNT: usize = 3;

    /// The tab at position `i` of the tab bar (`i` below 3).
    pub fn at(i: usize) -> (r: Tab)
        requires
            i < 3,
        ensures
            r == tab_at(i as int),
    {
        if i == 0 {
            Tab::System
        } else if i == 1 {
            Tab::Optimizations
        } else {
            Tab::Profiles
        }
    }

    /// The title shown on the tab bar.
    pub fn title(&self) -> (r: &'static str)
        ensures
            r@ == title_of(*self),
    {
        match self {
            Tab::System => "System",
            Tab::Optimizations => "Optimizations",
            Tab::Profiles => "Profiles",
        }
    }
}

/// An optimization offered in the view and whether it is selected for applying.
#[derive(Debug, Clone)]
pub struct OptEntry {
    pub optimization: Optimization,
    pub enabled: bool,
}

impl DeepView for OptEntry {
    type V = (OptimizationView, bool);

    open spec fn deep_view(&self) -> (OptimizationView, bool) {
        (self.optimization.deep_view(), self.enabled)
    }
}

/// The state of the interactive view.
pub struct App {
    pub system: SystemInfo,
    pub tab: Tab,
    pub tab_index: usize,
    pub selected: usize,
    pub optimizations: Vec<OptEntry>,
    pub profile_index: usize,
    pub profiles: Vec<(String, String)>,
    pub status_message: String,
}

/// How an attempt to apply the selected optimizations went.
#[derive(Debug, Clone)]
pub enum ApplyOutcome {
    /// The snapshot could not be taken (nothing was applied); the error text.
    SnapshotFailed { error: String },
    /// The snapshot was stored at `snapshot_path`; `applied` optimizations
    /// went through and `failed` did not.
    Applied { applied: usize, failed: usize, snapshot_path: String },
}

/// The entries of a freshly resolved list: all enabled.
pub open spec fn all_enabled(opts: Seq<OptimizationView>) -> Seq<(OptimizationView, bool)> {
    opts.map_values(|o: OptimizationView| (o, true))
}

/// The tab position after moving right.
pub open spec fn next_tab_index(i: int) -> int {
    (i + 1) % 3
}

/// The tab position after moving left.
pub open spec fn prev_tab_index(i: int) -> int {
    if i == 0 {
        2
    } else {
        i - 1
    }
}

/// The last position the cursor can reach on a tab.
pub open spec fn max_selected(tab: Tab, n_optimizations: nat, n_profiles: nat) -> nat {
    match tab {
        Tab::Optimizations => if n_optimizations > 0 {
            (n_optimizations - 1) as nat
        } else {
            0
        },
        Tab::Profiles => if n_profiles > 0 {
            (n_profiles - 1) as nat
        } else {
            0
        },
        Tab::System => 0,
    }
}

/// The entries with the one at `i` switched on or off.
pub open spec fn toggled(entries: Seq<(OptimizationView, bool)>, i: int) -> Seq<
    (OptimizationView, bool),
> {
    entries.update(i, (entries[i].0, !entries[i].1))
}

/// The optimizations switched on, in order.
pub open spec fn enabled_of(entries: Seq<(OptimizationView, bool)>) -> Seq<OptimizationView>
    decreases entries.len(),
{
    if entries.len() == 0 {
        seq![]
    } else if entries.last().1 {
        enabled_of(entries.drop_last()).push(entries.last().0)
    } else {
        enabled_of(entries.drop_last())
    }
}

/// The status line after applying.
pub open spec fn apply_status_of(outcome: ApplyOutcome) -> Seq<char> {
    match outcome {
        ApplyOutcome::SnapshotFailed { error } => "Snapshot failed: "@ + error@,
        ApplyOutcome::Applied { applied, failed, snapshot_path } => "Applied "@ + decimal_of(
            applied as nat,
        ) + " optimizations ("@ + decimal_of(failed as nat) + " failed). Snapshot: "@
            + snapshot_path@,
    }
}

/// How many of the results are successes.
pub open spec fn successes(results: Seq<bool>) -> nat
    decreases results.len(),
{
    if results.len() == 0 {
        0
    } else {
        successes(results.drop_last()) + if results.last() {
            1nat
        } else {
            0nat
        }
    }
}

/// The outcome of applying optimizations after a snapshot stored at
/// `snapshot_path`: `results` holds, in order, whether each went through.
pub fn applied_outcome(results: &Vec<bool>, snapshot_path: String) -> (r: ApplyOutcome)
    ensures
        r matches ApplyOutcome::Applied { applied, failed, snapshot_path: p } && applied
            == successes(results@) && failed == results@.len() - successes(results@) && p@
            == snapshot_path@,
{
    let mut applied: usize = 0;
    let mut failed: usize = 0;
    let mut i: usize = 0;
    while i < results.len()
        invariant
            i <= results@.len(),
            applied == successes(results@.take(i as int)),
            applied + failed == i,
        decreases results@.len() - i,
    {
        assert(results@.take(i + 1).drop_last() =~= results@.take(i as int));
        if results[i] {
            applied += 1;
        } else {
            failed += 1;
        }
        i += 1;
    }
    assert(results@.take(results@.len() as int) =~= results@);
    ApplyOutcome::Applied { applied, failed, snapshot_path }
}

/// The status line shown at start.
pub open spec fn welcome_status() -> Seq<char> {
    "Press 'a' to apply, Space to toggle, Tab to switch views, 'q' to quit"@
}

/// Moving one tab right and then one left, or left and then right, comes
/// back to the same tab; three moves right go all the way round.
pub proof fn lemma_tab_round_trip(i: int)
    requires
        0 <= i < 3,
    ensures
        prev_tab_index(next_tab_index(i)) == i,
        next_tab_index(prev_tab_index(i)) == i,
        next_tab_index(next_tab_index(next_tab_index(i))) == i,
        0 <= next_tab_index(i) < 3,
        0 <= prev_tab_index(i) < 3,
{
}

/// Switching the same entry twice leaves the entries as they were; switching
/// it once changes that entry's flag and nothing else.
pub proof fn lemma_toggle_twice(entries: Seq<(OptimizationView, bool)>, i: int)
    requires
        0 <= i < entries.len(),
    ensures
        toggled(toggled(entries, i), i) == entries,
        toggled(entries, i).len() == entries.len(),
        toggled(entries, i)[i].1 == !entries[i].1,
        toggled(entries, i)[i].0 == entries[i].0,
        forall|j: int| 0 <= j < entries.len() && j != i ==> #[trigger] toggled(entries, i)[j] == entries[j],
{
    assert(toggled(toggled(entries, i), i) =~= entries);
}

/// Switching an entry off takes exactly one optimization out of what
/// applying hands out; switching it on adds exactly one.
pub proof fn lemma_toggle_changes_selection_by_one(entries: Seq<(OptimizationView, bool)>, i: int)
    requires
        0 <= i < entries.len(),
    ensures
        enabled_of(toggled(entries, i)).len() == if entries[i].1 {
            enabled_of(entries).len() - 1
        } else {
            enabled_of(entries).len() + 1int
        },
    decreases entries.len(),
{
    let t = toggled(entries, i);
    if i == entries.len() - 1 {
        assert(t.drop_last() =~= entries.drop_last());
    } else {
        lemma_toggle_changes_selection_by_one(entries.drop_last(), i);
        assert(t.drop_last() =~= toggled(entries.drop_last(), i));
        assert(t.last() == entries.last());
    }
}

/// The cursor stays on an entry of its tab: moving it up or down from a
/// position in range keeps it in range.
pub proof fn lemma_cursor_in_range(tab: Tab, n_optimizations: nat, n_profiles: nat, selected: nat)
    requires
        selected <= max_selected(tab, n_optimizations, n_profiles),
    ensures
        (if selected < max_selected(tab, n_optimizations, n_profiles) {
            selected + 1
        } else {
            selected
        }) <= max_selected(tab, n_optimizations, n_profiles),
        (if selected > 0 {
            selected - 1
        } else {
            0int
        }) <= max_selected(tab, n_optimizations, n_profiles),
{
}

/// A copy of a change.
fn clone_change(c: &Change) -> (r: Change)
    ensures
        r.deep_view() == c.deep_view(),
{
    Change {
        kind: c.kind,
        target: c.target.clone(),
        current_value: c.current_value.clone(),
        new_value: c.new_value.clone(),
    }
}

/// A copy of an optimization.
pub fn clone_optimization(o: &Optimization) -> (r: Optimization)
    ensures
        r.deep_view() == o.deep_view(),
{
    let mut changes: Vec<Change> = Vec::new();
    let mut i: usize = 0;
    while i < o.changes.len()
        invariant
            i <= o.changes@.len(),
            changes.deep_view() == o.changes.deep_view().take(i as int),
        decreases o.changes@.len() - i,
    {
        let c = clone_change(&o.changes[i]);
        proof {
            assert(changes.deep_view().push(c.deep_view()) =~= o.changes.deep_view().take(i + 1));
        }
        changes.push(c);
        proof {
            assert(changes.deep_view() =~= o.changes.deep_view().take(i + 1));
        }
        i += 1;
    }
    proof {
        assert(o.changes.deep_view().take(o.changes@.len() as int) =~= o.changes.deep_view());
    }
    Optimization {
        name: o.name.clone(),
        category: o.category,
        description: o.description.clone(),
        explanation: o.explanation.clone(),
        changes,
    }
}

/// Every optimization of `opts` as an enabled entry.
fn entries_of(opts: Vec<Optimization>) -> (r: Vec<OptEntry>)
    ensures
        r.deep_view() == all_enabled(opts.deep_view()),
{
    let ghost ov = opts.deep_view();
    let mut r: Vec<OptEntry> = Vec::new();
    for o in it: opts
        invariant
            ov == it.seq().map_values(|x: Optimization| x.deep_view()),
            r.deep_view() == all_enabled(ov.take(it.index() as int)),
    {
        proof {
            assert(r.deep_view().push((o.deep_view(), true)) =~= all_enabled(
                ov.take(it.index() + 1),
            ));
        }
        r.push(OptEntry { optimization: o, enabled: true });
    }
    proof {
        assert(ov.take(ov.len() as int) =~= ov);
    }
    r
}

impl App {
    /// The view at start: the System tab, the first profile selected and its
    /// optimizations all enabled. There must be at least one profile.
    pub fn new(system: SystemInfo, all: &Vec<(String, ProfileToml)>, probe: &Probe) -> (r: App)
        requires
            all@.len() > 0,
        ensures
            r.tab == Tab::System,
            r.tab_index == 0,
            r.selected == 0,
            r.profile_index == 0,
            r.profiles.deep_view() == all.deep_view().map_values(
                |e: (Seq<char>, ProfileView)| (e.0, e.1.description),
            ),
            r.optimizations.deep_view() == all_enabled(
                resolve_of(
                    all.deep_view()[0].0,
                    system,
                    all.deep_view(),
                    *probe,
                ),
            ),
            r.system == system,
            r.status_message@ == welcome_status(),
    {
        let profiles = list_all(all);
        assert(profiles.deep_view().len() == profiles@.len());
        assert(profiles.deep_view()[0] == (all.deep_view()[0].0, all.deep_view()[0].1.description));
        let opts = resolve(profiles[0].0.as_str(), &system, all, probe);
        App {
            system,
            tab: Tab::System,
            tab_index: 0,
            selected: 0,
            optimizations: entries_of(opts),
            profile_index: 0,
            profiles,
            status_message: string_of(
                &chars_of("Press 'a' to apply, Space to toggle, Tab to switch views, 'q' to quit"),
            ),
        }
    }

    /// Moves to the next tab (wrapping around) with the cursor at the top.
    pub fn next_tab(&mut self)
        requires
            old(self).tab_index < usize::MAX,
        ensures
            final(self).tab_index == next_tab_index(old(self).tab_index as int),
            final(self).tab == tab_at(final(self).tab_index as int),
            final(self).selected == 0,
            final(self).system == old(self).system,
            final(self).optimizations == old(self).optimizations,
            final(self).profiles == old(self).profiles,
            final(self).profile_index == old(self).profile_index,
            final(self).status_message == old(self).status_message,
    {
        self.tab_index = (self.tab_index + 1) % Tab::COUNT;
        self.tab = Tab::at(self.tab_index);
        self.selected = 0;
    }

    /// Moves to the previous tab (wrapping around) with the cursor at the top.
    pub fn prev_tab(&mut self)
        requires
            old(self).tab_index <= 3,
        ensures
            final(self).tab_index == prev_tab_index(old(self).tab_index as int),
            final(self).tab == tab_at(final(self).tab_index as int),
            final(self).selected == 0,
            final(self).system == old(self).system,
            final(self).optimizations == old(self).optimizations,
            final(self).profiles == old(self).profiles,
            final(self).profile_index == old(self).profile_index,
            final(self).status_message == old(self).status_message,
    {
        self.tab_index = if self.tab_index == 0 {
            Tab::COUNT - 1
        } else {
            self.tab_index - 1
        };
        self.tab = Tab::at(self.tab_index);
        self.selected = 0;
    }

    /// Moves the cursor up, stopping at the top.
    pub fn scroll_up(&mut self)
        ensures
            final(self).selected == if old(self).selected > 0 {
                (old(self).selected - 1) as usize
            } else {
                0
            },
            final(self).system == old(self).system,
            final(self).tab == old(self).tab,
            final(self).tab_index == old(self).tab_index,
            final(self).optimizations == old(self).optimizations,
            final(self).profiles == old(self).profiles,
            final(self).profile_index == old(self).profile_index,
            final(self).status_message == old(self).status_message,
    {
        if self.selected > 0 {
            self.selected -= 1;
        }
    }

    /// Moves the cursor down, stopping at the last entry of the tab.
    pub fn scroll_down(&mut self)
        ensures
            final(self).selected == if old(self).selected < max_selected(
                old(self).tab,
                old(self).optimizations@.len(),
                old(self).profiles@.len(),
            ) {
                (old(self).selected + 1) as usize
            } else {
                old(self).selected
            },
            final(self).system == old(self).system,
            final(self).tab == old(self).tab,
            final(self).tab_index == old(self).tab_index,
            final(self).optimizations == old(self).optimizations,
            final(self).profiles == old(self).profiles,
            final(self).profile_index == old(self).profile_index,
            final(self).status_message == old(self).status_message,
    {
        let max = match self.tab {
            Tab::Optimizations => self.optimizations.len().saturating_sub(1),
            Tab::Profiles => self.profiles.len().saturating_sub(1),
            Tab::System => 0,
        };
        if self.selected < max {
            self.selected += 1;
        }
    }

    /// Switches the optimization under the cursor on or off.
    pub fn toggle_selected(&mut self)
        ensures
            final(self).optimizations.deep_view() == if old(self).tab == Tab::Optimizations
                && old(self).selected < old(self).optimizations@.len() {
                toggled(old(self).optimizations.deep_view(), old(self).selected as int)
            } else {
                old(self).optimizations.deep_view()
            },
            final(self).optimizations@.len() == old(self).optimizations@.len(),
            final(self).system == old(self).system,
            final(self).tab == old(self).tab,
            final(self).tab_index == old(self).tab_index,
            final(self).selected == old(self).selected,
            final(self).profiles == old(self).profiles,
            final(self).profile_index == old(self).profile_index,
            final(self).status_message == old(self).status_message,
    {
        if self.tab == Tab::Optimizations && self.selected < self.optimizations.len() {
            let i = self.selected;
            let ghost before = self.optimizations.deep_view();
            self.optimizations[i].enabled = !self.optimizations[i].enabled;
            assert(self.optimizations.deep_view() =~= toggled(before, i as int));
        }
    }

    /// Starts applying: the enabled optimizations, in order, to snapshot and
    /// apply; `None`, with a status saying so, when none is enabled.
    pub fn apply_selected(&mut self) -> (r: Option<Vec<Optimization>>)
        ensures
            enabled_of(old(self).optimizations.deep_view()).len() == 0 ==> r is None
                && final(self).status_message@ == "No optimizations selected"@,
            enabled_of(old(self).optimizations.deep_view()).len() > 0 ==> (r matches Some(v)
                && v.deep_view() == enabled_of(old(self).optimizations.deep_view())
                && final(self).status_message == old(self).status_message),
            final(self).system == old(self).system,
            final(self).tab == old(self).tab,
            final(self).tab_index == old(self).tab_index,
            final(self).selected == old(self).selected,
            final(self).optimizations == old(self).optimizations,
            final(self).profiles == old(self).profiles,
            final(self).profile_index == old(self).profile_index,
    {
        let ghost ev = self.optimizations.deep_view();
        let mut enabled: Vec<Optimization> = Vec::new();
        let mut i: usize = 0;
        while i < self.optimizations.len()
            invariant
                i <= self.optimizations@.len(),
                ev == self.optimizations.deep_view(),
                enabled.deep_view() == enabled_of(ev.take(i as int)),
            decreases self.optimizations@.len() - i,
        {
            proof {
                assert(ev.take(i + 1).drop_last() =~= ev.take(i as int));
                assert(ev.take(i + 1).last() == self.optimizations@[i as int].deep_view());
            }
            if self.optimizations[i].enabled {
                let o = clone_optimization(&self.optimizations[i].optimization);
                proof {
                    assert(enabled.deep_view().push(o.deep_view()) =~= enabled_of(ev.take(i + 1)));
                }
                enabled.push(o);
                proof {
                    assert(enabled.deep_view() =~= enabled_of(ev.take(i + 1)));
                }
            }
            i += 1;
        }
        proof {
            assert(ev.take(ev.len() as int) =~= ev);
        }
        if enabled.len() == 0 {
            self.status_message = string_of(&chars_of("No optimizations selected"));
            return None;
        }
        Some(enabled)
    }

    /// Finishes applying: sets the status line to report the outcome.
    pub fn record_apply(&mut self, outcome: ApplyOutcome)
        ensures
            final(self).status_message@ == apply_status_of(outcome),
            final(self).system == old(self).system,
            final(self).tab == old(self).tab,
            final(self).tab_index == old(self).tab_index,
            final(self).selected == old(self).selected,
            final(self).optimizations == old(self).optimizations,
            final(self).profiles == old(self).profiles,
            final(self).profile_index == old(self).profile_index,
    {
        let ghost oc = outcome;
        let text = match outcome {
            ApplyOutcome::SnapshotFailed { error } => lit_cat(
                "Snapshot failed: ",
                &chars_of(error.as_str()),
            ),
            ApplyOutcome::Applied { applied, failed, snapshot_path } => {
                let a = lit_cat("Applied ", &decimal(applied as u64));
                let b = cat(&a, &chars_of(" optimizations ("));
                let c = cat(&b, &decimal(failed as u64));
                let d = cat(&c, &chars_of(" failed). Snapshot: "));
                cat(&d, &chars_of(snapshot_path.as_str()))
            },
        };
        self.status_message = string_of(&text);
    }

    /// Takes a fresh scan of the system after applying, leaving the status
    /// line as it is.
    pub fn take_scan(&mut self, system: SystemInfo)
        ensures
            final(self).system == system,
            final(self).status_message == old(self).status_message,
            final(self).tab == old(self).tab,
            final(self).tab_index == old(self).tab_index,
            final(self).selected == old(self).selected,
            final(self).optimizations == old(self).optimizations,
            final(self).profiles == old(self).profiles,
            final(self).profile_index == old(self).profile_index,
    {
        self.system = system;
    }

    /// Selects the next profile (wrapping around) and offers its
    /// optimizations, all enabled, with the cursor at the top.
    pub fn cycle_profile(&mut self, all: &Vec<(String, ProfileToml)>, probe: &Probe)
        requires
            old(self).profiles@.len() > 0,
            old(self).profile_index < usize::MAX,
        ensures
            final(self).profile_index == (old(self).profile_index + 1) % (old(
                self,
            ).profiles@.len() as int),
            final(self).optimizations.deep_view() == all_enabled(
                resolve_of(
                    old(self).profiles@[final(self).profile_index as int].0@,
                    old(self).system,
                    all.deep_view(),
                    *probe,
                ),
            ),
            final(self).selected == 0,
            final(self).status_message@ == "Profile: "@ + old(
                self,
            ).profiles@[final(self).profile_index as int].0@,
            final(self).system == old(self).system,
            final(self).tab == old(self).tab,
            final(self).tab_index == old(self).tab_index,
            final(self).profiles == old(self).profiles,
    {
        self.profile_index = (self.profile_index + 1) % self.profiles.len();
        let opts = resolve(self.profiles[self.profile_index].0.as_str(), &self.system, all, probe);
        self.optimizations = entries_of(opts);
        self.selected = 0;
        let status = lit_cat("Profile: ", &chars_of(self.profiles[self.profile_index].0.as_str()));
        self.status_message = string_of(&status);
    }

    /// Takes a fresh scan of the system.
    pub fn rescan(&mut self, system: SystemInfo)
        ensures
            final(self).system == system,
            final(self).status_message@ == "System rescanned"@,
            final(self).tab == old(self).tab,
            final(self).tab_index == old(self).tab_index,
            final(self).selected == old(self).selected,
            final(self).optimizations == old(self).optimizations,
            final(self).profiles == old(self).profiles,
            final(self).profile_index == old(self).profile_index,
    {
        self.system = system;
        self.status_message = string_of(&chars_of("System rescanned"));
    }
}

} // verus!
