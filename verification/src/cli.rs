//! The command-line vocabulary that the library understands.

use vstd::prelude::*;
use crate::sys::fsx::Disposal;
use crate::task::agents::{Agent, Scope};
use crate::task::clean::{default_list, default_targets, Target};
use crate::task::Ctx;
use crate::text::{chars_eq, chars_of};
use crate::ui::{ColorChoice, Printer};

verus! {

/// A cleaning target as accepted on the command line, or `all`.
#[derive(Debug, Clone, Copy, PartialEq, Eq, Structural)]
pub enum TargetArg {
    /// Every target except those holding data that cannot be downloaded again.
    All,
    Cache,
    ContainerCache,
    PkgCache,
    Trash,
    TrashAll,
    Logs,
    DsStore,
    Homebrew,
    Docker,
    Xcode,
    Simulators,
    IosBackups,
    Vm,
}

/// The concrete target an argument names, `None` for `all`.
pub open spec fn target_of(arg: TargetArg) -> Option<Target> {
    match arg {
        TargetArg::All => None,
        TargetArg::Cache => Some(Target::Cache),
        TargetArg::ContainerCache => Some(Target::ContainerCache),
        TargetArg::PkgCache => Some(Target::PkgCache),
        TargetArg::Trash => Some(Target::Trash),
        TargetArg::TrashAll => Some(Target::TrashAll),
        TargetArg::Logs => Some(Target::Logs),
        TargetArg::DsStore => Some(Target::DsStore),
        TargetArg::Homebrew => Some(Target::Homebrew),
        TargetArg::Docker => Some(Target::Docker),
        TargetArg::Xcode => Some(Target::Xcode),
        TargetArg::Simulators => Some(Target::Simulators),
        TargetArg::IosBackups => Some(Target::IosBackups),
        TargetArg::Vm => Some(Target::Vm),
    }
}

/// Every target the arguments name, in order, `all` spelled out.
pub open spec fn flatten_args(args: Seq<TargetArg>) -> Seq<Target>
    decreases args.len(),
{
    if args.len() == 0 {
        Seq::empty()
    } else {
        flatten_args(args.drop_last()) + match target_of(args.last()) {
            Some(t) => seq![t],
            None => default_targets(),
        }
    }
}

/// The sequence with later repetitions removed.
pub open spec fn dedup(s: Seq<Target>) -> Seq<Target>
    decreases s.len(),
{
    if s.len() == 0 {
        s
    } else {
        let d = dedup(s.drop_last());
        if d.contains(s.last()) {
            d
        } else {
            d.push(s.last())
        }
    }
}

/// Appends a target unless it is already there.
fn push_new(targets: &mut Vec<Target>, target: Target)
    ensures
        final(targets)@ == (if old(targets)@.contains(target) {
            old(targets)@
        } else {
            old(targets)@.push(target)
        }),
{
    let mut i: usize = 0;
    while i < targets.len()
        invariant
            i <= targets@.len(),
            forall|k: int| 0 <= k < i ==> targets@[k] != target,
        decreases targets@.len() - i,
    {
        if targets[i] == target {
            return;
        }
        i += 1;
    }
    targets.push(target);
}

proof fn lemma_dedup_append(s: Seq<Target>, t: Target)
    ensures
        dedup(s.push(t)) == (if dedup(s).contains(t) { dedup(s) } else { dedup(s).push(t) }),
{
    assert(s.push(t).drop_last() == s);
}

impl TargetArg {
    /// The concrete target, or `None` for `all`.
    pub fn target(self) -> (r: Option<Target>)
        ensures
            r == target_of(self),
    {
        match self {
            TargetArg::All => None,
            TargetArg::Cache => Some(Target::Cache),
            TargetArg::ContainerCache => Some(Target::ContainerCache),
            TargetArg::PkgCache => Some(Target::PkgCache),
            TargetArg::Trash => Some(Target::Trash),
            TargetArg::TrashAll => Some(Target::TrashAll),
            TargetArg::Logs => Some(Target::Logs),
            TargetArg::DsStore => Some(Target::DsStore),
            TargetArg::Homebrew => Some(Target::Homebrew),
            TargetArg::Docker => Some(Target::Docker),
            TargetArg::Xcode => Some(Target::Xcode),
            TargetArg::Simulators => Some(Target::Simulators),
            TargetArg::IosBackups => Some(Target::IosBackups),
            TargetArg::Vm => Some(Target::Vm),
        }
    }

    /// Expands the arguments into concrete targets, in order and without duplicates.
    pub fn expand(args: &[TargetArg]) -> (targets: Vec<Target>)
        ensures
            targets@ == dedup(flatten_args(args@)),
    {
        let mut targets: Vec<Target> = Vec::new();
        let mut i: usize = 0;
        while i < args.len()
            invariant
                i <= args@.len(),
                targets@ == dedup(flatten_args(args@.take(i as int))),
            decreases args@.len() - i,
        {
            let ghost before = flatten_args(args@.take(i as int));
            assert(args@.take(i + 1).drop_last() == args@.take(i as int));
            assert(args@.take(i + 1).last() == args@[i as int]);
            match args[i].target() {
                Some(target) => {
                    proof {
                        lemma_dedup_append(before, target);
                        assert(before + seq![target] == before.push(target));
                    }
                    push_new(&mut targets, target);
                },
                None => {
                    let all = default_list();
                    let mut j: usize = 0;
                    assert(before + all@.take(0) == before);
                    while j < all.len()
                        invariant
                            j <= all@.len(),
                            all@ == default_targets(),
                            targets@ == dedup(before + all@.take(j as int)),
                        decreases all@.len() - j,
                    {
                        proof {
                            lemma_dedup_append(before + all@.take(j as int), all@[j as int]);
                            assert((before + all@.take(j as int)).push(all@[j as int]) == before
                                + all@.take(j + 1));
                        }
                        push_new(&mut targets, all[j]);
                        j += 1;
                    }
                    assert(all@.take(all@.len() as int) == all@);
                },
            }
            i += 1;
        }
        assert(args@.take(args@.len() as int) == args@);
        targets
    }
}

proof fn lemma_dedup_props(s: Seq<Target>)
    ensures
        dedup(s).no_duplicates(),
        forall|t: Target| dedup(s).contains(t) <==> s.contains(t),
    decreases s.len(),
{
    if s.len() > 0 {
        let init = s.drop_last();
        let last = s.last();
        lemma_dedup_props(init);
        let d = dedup(init);
        assert(s == init.push(last));
        assert forall|t: Target| s.contains(t) <==> (init.contains(t) || t == last) by {
            if s.contains(t) {
                let k = choose|k: int| 0 <= k < s.len() && s[k] == t;
                if k < s.len() - 1 {
                    assert(init[k] == t);
                }
            }
            if init.contains(t) {
                let k = choose|k: int| 0 <= k < init.len() && init[k] == t;
                assert(s[k] == t);
            }
            if t == last {
                assert(s[s.len() - 1] == t);
            }
        }
        if !d.contains(last) {
            assert forall|t: Target| d.push(last).contains(t) <==> (d.contains(t) || t == last) by {
                if d.push(last).contains(t) {
                    let k = choose|k: int| 0 <= k < d.push(last).len() && d.push(last)[k] == t;
                    if k < d.len() {
                        assert(d[k] == t);
                    }
                }
                if d.contains(t) {
                    let k = choose|k: int| 0 <= k < d.len() && d[k] == t;
                    assert(d.push(last)[k] == t);
                }
                if t == last {
                    assert(d.push(last)[d.len() as int] == t);
                }
            }
            assert forall|i: int, j: int|
                0 <= i < d.push(last).len() && 0 <= j < d.push(last).len() && i != j implies d.push(
                last,
            )[i] != d.push(last)[j] by {
                if i < d.len() && j < d.len() {
                    assert(d.push(last)[i] == d[i]);
                    assert(d.push(last)[j] == d[j]);
                } else if i < d.len() {
                    assert(d.push(last)[i] == d[i]);
                } else if j < d.len() {
                    assert(d.push(last)[j] == d[j]);
                }
            }
        }
    }
}

/// Expansion keeps every named target, adds nothing else, and lists each
/// target once.
pub proof fn expansion_is_exact_and_duplicate_free(args: Seq<TargetArg>)
    ensures
        dedup(flatten_args(args)).no_duplicates(),
        forall|t: Target|
            dedup(flatten_args(args)).contains(t) <==> flatten_args(args).contains(t),
{
    lemma_dedup_props(flatten_args(args));
}

/// The first appearance of each target fixes its place: whatever is named
/// first comes out first.
pub proof fn expansion_keeps_the_first_target(args: Seq<TargetArg>)
    requires
        args.len() > 0,
        target_of(args[0]) is Some,
    ensures
        dedup(flatten_args(args)).len() > 0,
        dedup(flatten_args(args))[0] == target_of(args[0])->0,
    decreases args.len(),
{
    if args.len() == 1 {
        assert(args.drop_last().len() == 0);
        assert(flatten_args(args.drop_last()) == Seq::<Target>::empty());
        assert(args.last() == args[0]);
        assert(Seq::<Target>::empty() + seq![target_of(args[0])->0] =~= seq![target_of(args[0])->0]);
        let t = target_of(args[0])->0;
        assert(flatten_args(args) == seq![t]);
        assert(seq![t].drop_last() == Seq::<Target>::empty());
        assert(dedup(Seq::<Target>::empty()) == Seq::<Target>::empty());
        assert(!Seq::<Target>::empty().contains(t));
        assert(dedup(seq![t]) == Seq::<Target>::empty().push(t));
    } else {
        let init = args.drop_last();
        expansion_keeps_the_first_target(init);
        assert(init[0] == args[0]);
        let tail = match target_of(args.last()) {
            Some(t) => seq![t],
            None => default_targets(),
        };
        assert(flatten_args(args) == flatten_args(init) + tail);
        lemma_dedup_prefix(flatten_args(init), tail);
    }
}

proof fn lemma_dedup_prefix(a: Seq<Target>, b: Seq<Target>)
    requires
        dedup(a).len() > 0,
    ensures
        dedup(a + b).len() > 0,
        dedup(a + b)[0] == dedup(a)[0],
    decreases b.len(),
{
    if b.len() == 0 {
        assert(a + b == a);
    } else {
        lemma_dedup_prefix(a, b.drop_last());
        assert((a + b).drop_last() == a + b.drop_last());
    }
}

/// `all` alone is exactly the default list.
pub proof fn all_expands_to_the_defaults()
    ensures
        dedup(flatten_args(seq![TargetArg::All])) == default_targets(),
{
    let s = seq![TargetArg::All];
    assert(s.drop_last().len() == 0);
    assert(flatten_args(s.drop_last()) == Seq::<Target>::empty());
    assert(flatten_args(s) == Seq::<Target>::empty() + default_targets());
    assert(Seq::<Target>::empty() + default_targets() == default_targets());
    let d = default_targets();
    reveal_with_fuel(dedup, 11);
    assert(d.take(1).drop_last() == d.take(0));
    assert(dedup(d) == d);
}


/// The targets asked for, or the given selection when none is.
pub open spec fn resolve_spec(targets: Seq<TargetArg>, fallback: Seq<Target>) -> Seq<Target> {
    if targets.len() == 0 {
        fallback
    } else {
        dedup(flatten_args(targets))
    }
}

/// The targets asked for, or the default selection when the user gives none.
pub fn resolve(targets: &[TargetArg], fallback: &[Target]) -> (r: Vec<Target>)
    ensures
        r@ == resolve_spec(targets@, fallback@),
{
    if targets.len() == 0 {
        let mut r: Vec<Target> = Vec::new();
        let mut i: usize = 0;
        while i < fallback.len()
            invariant
                i <= fallback@.len(),
                r@ == fallback@.take(i as int),
            decreases fallback@.len() - i,
        {
            r.push(fallback[i]);
            assert(fallback@.take(i + 1) =~= fallback@.take(i as int).push(fallback@[i as int]));
            i += 1;
        }
        assert(fallback@.take(fallback@.len() as int) =~= fallback@);
        r
    } else {
        TargetArg::expand(targets)
    }
}

/// How many of `len` items a `--top` shows: all for 0, else at most `top`.
pub fn shown(len: usize, top: usize) -> (r: usize)
    ensures
        r == (if top == 0 || len <= top { len } else { top }),
{
    if top == 0 || len <= top {
        len
    } else {
        top
    }
}

/// Options valid for every subcommand.
#[derive(Debug, Clone)]
pub struct Options {
    /// Change nothing: measure and show what would be done.
    pub dry_run: bool,
    /// Answer yes to every confirmation.
    pub yes: bool,
    /// Delete for good instead of moving to the trash.
    pub purge: bool,
    /// Never touch paths matching these globs.
    pub exclude: Vec<String>,
    /// Ignore the configuration file.
    pub no_config: bool,
    /// Print warnings and errors only.
    pub quiet: bool,
    /// JSON output, for scripts.
    pub json: bool,
    /// When to colourise the output.
    pub color: ColorChoice,
}

impl Options {
    /// What a deletion does: `--purge` wins, then the configuration.
    pub fn disposal(&self, configured: Disposal) -> (r: Disposal)
        ensures
            r == (if self.purge { Disposal::Purge } else { configured }),
    {
        if self.purge {
            Disposal::Purge
        } else {
            configured
        }
    }

    /// Whether only warnings and errors reach the terminal.
    pub fn silent(&self) -> (r: bool)
        ensures
            r == (self.quiet || self.json),
    {
        self.quiet || self.json
    }

    /// The context every command runs in.
    pub fn ctx(&self, configured: Disposal, printer: Printer) -> (r: Ctx)
        ensures
            r.dry_run == self.dry_run,
            r.yes == self.yes,
            r.json == self.json,
            r.purge == self.purge,
            r.disposal == (if self.purge { Disposal::Purge } else { configured }),
            r.printer == printer,
    {
        Ctx {
            dry_run: self.dry_run,
            yes: self.yes,
            json: self.json,
            purge: self.purge,
            disposal: self.disposal(configured),
            printer,
        }
    }
}

/// Which build residue to consider.
#[derive(Debug, Clone)]
pub struct DevFilter {
    /// Keep only what has not changed for this many days.
    pub older_than: u64,
    /// Starting directory (default: the home directory).
    pub path: Option<String>,
    /// Maximum walk depth.
    pub depth: usize,
    /// Restrict to some languages (rust, node, python…).
    pub lang: Vec<String>,
}

/// Exploring files.
#[derive(Debug, Clone)]
pub enum FileCommand {
    /// The largest files.
    Large { min: u64, top: usize, path: Option<String>, depth: usize },
    /// Installers and archives downloaded and never opened.
    Downloads { older_than: u64, path: Option<String>, all: bool, clean: bool, top: usize },
    /// The build residue of local projects (read only).
    Dev { filter: DevFilter, top: usize },
    /// Delete the build residue of local projects.
    Clean { filter: DevFilter, native: bool, all: bool },
}

/// Agent selection: explicit labels, or every third-party agent.
#[derive(Debug, Clone)]
pub struct Selection {
    /// Labels to act on.
    pub labels: Vec<String>,
    /// Every third-party agent. Apple agents are never touched.
    pub all_third_party: bool,
    /// Restrict to one location.
    pub scope: Option<Scope>,
}

/// Whether an agent is in the scope asked for, if any.
pub open spec fn in_scope(a: Agent, scope: Option<Scope>) -> bool {
    match scope {
        None => true,
        Some(s) => a.scope == s,
    }
}

/// The agents listed: third-party only when asked, within the scope.
pub open spec fn listed_spec(agents: Seq<Agent>, third_party_only: bool, scope: Option<Scope>) -> Seq<int>
    decreases agents.len(),
{
    if agents.len() == 0 {
        Seq::empty()
    } else {
        let rest = listed_spec(agents.drop_last(), third_party_only, scope);
        let a = agents.last();
        if (!third_party_only || !a.apple) && in_scope(a, scope) {
            rest.push(agents.len() - 1)
        } else {
            rest
        }
    }
}

/// The positions of the agents shown, in their order.
pub fn listed(agents: &Vec<Agent>, third_party_only: bool, scope: Option<Scope>) -> (r: Vec<usize>)
    ensures
        r@.map_values(|i: usize| i as int) == listed_spec(agents@, third_party_only, scope),
{
    let mut r: Vec<usize> = Vec::new();
    let mut i: usize = 0;
    while i < agents.len()
        invariant
            i <= agents@.len(),
            r@.map_values(|k: usize| k as int) == listed_spec(agents@.take(i as int), third_party_only, scope),
        decreases agents@.len() - i,
    {
        assert(agents@.take(i + 1).drop_last() =~= agents@.take(i as int));
        let a = &agents[i];
        let wanted = match scope {
            None => true,
            Some(s) => a.scope == s,
        };
        if (!third_party_only || !a.apple) && wanted {
            let ghost before = r@;
            r.push(i);
            assert(r@.map_values(|k: usize| k as int) =~= before.map_values(|k: usize| k as int).push(i as int));
        }
        i += 1;
    }
    assert(agents@.take(agents@.len() as int) =~= agents@);
    r
}

fn first_labelled(agents: &Vec<Agent>, label: &String) -> (r: Option<usize>)
    ensures
        match r {
            Some(k) => k < agents@.len() && agents@[k as int].label@ == label@
                && forall|j: int| 0 <= j < k ==> (#[trigger] agents@[j]).label@ != label@,
            None => forall|j: int| 0 <= j < agents@.len() ==> (#[trigger] agents@[j]).label@ != label@,
        },
{
    let want = chars_of(label.as_str());
    let mut i: usize = 0;
    while i < agents.len()
        invariant
            i <= agents@.len(),
            want@ == label@,
            forall|j: int| 0 <= j < i ==> (#[trigger] agents@[j]).label@ != label@,
        decreases agents@.len() - i,
    {
        if chars_eq(chars_of(agents[i].label.as_str()).as_slice(), want.as_slice()) {
            return Some(i);
        }
        i += 1;
    }
    None
}

impl Selection {
    /// The agents selected, as positions, and the labels that named none.
    ///
    /// Every third-party agent in the scope, or, with labels, the first agent
    /// bearing each one.
    pub fn select(&self, agents: &Vec<Agent>) -> (r: (Vec<usize>, Vec<String>))
        ensures
            self.all_third_party ==> r.0@.map_values(|i: usize| i as int) == listed_spec(agents@, true, self.scope)
                && r.1@.len() == 0,
            !self.all_third_party ==> {
                &&& forall|i: int| 0 <= i < r.0@.len() ==> (#[trigger] r.0@[i]) < agents@.len()
                    && exists|k: int| 0 <= k < self.labels@.len() && agents@[r.0@[i] as int].label@ == (#[trigger] self.labels@[k])@
                &&& forall|k: int| 0 <= k < self.labels@.len() ==> (exists|j: int| 0 <= j < agents@.len()
                    && (#[trigger] agents@[j]).label@ == self.labels@[k]@) || texts_contain(r.1@, (#[trigger] self.labels@[k])@)
                &&& forall|i: int| 0 <= i < r.1@.len() ==> forall|j: int| 0 <= j < agents@.len() ==> (#[trigger] agents@[j]).label@ != (#[trigger] r.1@[i])@
            },
    {
        if self.all_third_party {
            return (listed(agents, true, self.scope), Vec::new());
        }
        let mut found: Vec<usize> = Vec::new();
        let mut unknown: Vec<String> = Vec::new();
        let mut i: usize = 0;
        while i < self.labels.len()
            invariant
                i <= self.labels@.len(),
                forall|x: int| 0 <= x < found@.len() ==> (#[trigger] found@[x]) < agents@.len()
                    && exists|k: int| 0 <= k < self.labels@.len() && agents@[found@[x] as int].label@ == (#[trigger] self.labels@[k])@,
                forall|k: int| 0 <= k < i ==> (exists|j: int| 0 <= j < agents@.len()
                    && (#[trigger] agents@[j]).label@ == self.labels@[k]@) || texts_contain(unknown@, (#[trigger] self.labels@[k])@),
                forall|x: int| 0 <= x < unknown@.len() ==> forall|j: int| 0 <= j < agents@.len() ==> (#[trigger] agents@[j]).label@ != (#[trigger] unknown@[x])@,
            decreases self.labels@.len() - i,
        {
            let ghost before = unknown@;
            match first_labelled(agents, &self.labels[i]) {
                Some(k) => {
                    found.push(k);
                },
                None => {
                    unknown.push(self.labels[i].clone());
                    proof {
                        assert(unknown@[before.len() as int]@ == self.labels@[i as int]@);
                    }
                },
            }
            proof {
                assert forall|k: int| 0 <= k < i + 1 implies (exists|j: int| 0 <= j < agents@.len()
                    && (#[trigger] agents@[j]).label@ == self.labels@[k]@) || texts_contain(unknown@, (#[trigger] self.labels@[k])@) by {
                    if k < i {
                        if texts_contain(before, self.labels@[k]@) {
                            let x = choose|x: int| 0 <= x < before.len() && before[x]@ == self.labels@[k]@;
                            assert(unknown@[x] == before[x]);
                        }
                    } else if unknown@.len() > before.len() {
                        assert(unknown@[before.len() as int]@ == self.labels@[k]@);
                    }
                }
                assert forall|x: int| 0 <= x < unknown@.len() implies forall|j: int| 0 <= j < agents@.len() ==> (#[trigger] agents@[j]).label@ != (#[trigger] unknown@[x])@ by {
                    if x < before.len() {
                        assert(unknown@[x] == before[x]);
                    }
                }
            }
            i += 1;
        }
        (found, unknown)
    }
}

/// Some text of the list is this one.
pub open spec fn texts_contain(v: Seq<String>, t: Seq<char>) -> bool {
    exists|x: int| 0 <= x < v.len() && (#[trigger] v[x])@ == t
}

/// Managing startup agents.
#[derive(Debug, Clone)]
pub enum AgentCommand {
    /// List installed agents.
    List { third_party: bool, scope: Option<Scope> },
    /// Disable third-party agents, without deleting them.
    Disable { selection: Selection },
    /// Re-enable them.
    Enable { selection: Selection },
    /// Remove them for good.
    Remove { selection: Selection },
}

/// One-off system operations.
#[derive(Debug, Clone, Copy, PartialEq, Eq, Structural)]
pub enum SysCommand {
    /// Flush the DNS cache (sudo).
    Dns,
    /// Rebuild the Spotlight index (sudo).
    Spotlight,
    /// Free inactive memory (sudo).
    Memory,
    /// Purge local Time Machine snapshots.
    Snapshots,
    /// Delete simulator devices whose runtime is gone.
    Simulators,
    /// List available macOS updates.
    Updates,
}

impl SysCommand {
    /// The question asked before the operation; listing updates changes
    /// nothing and asks none.
    pub fn question(self) -> (r: Option<&'static str>)
        ensures
            (self == SysCommand::Updates) == (r is None),
    {
        match self {
            SysCommand::Dns => Some("Vider le cache DNS ?"),
            SysCommand::Spotlight => Some("Réinitialiser l'index Spotlight ?"),
            SysCommand::Memory => Some("Libérer la mémoire inactive ?"),
            SysCommand::Snapshots => Some("Purger les instantanés Time Machine locaux ?"),
            SysCommand::Simulators => Some("Supprimer les simulateurs dont le runtime a disparu ?"),
            SysCommand::Updates => None,
        }
    }
}

} // verus!
