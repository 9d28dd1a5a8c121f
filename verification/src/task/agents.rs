//! Startup agents and daemons (`launchd`).

use vstd::prelude::*;
use crate::format::{tilde, tilde_spec};
use crate::sys::fsx::{home_join, join_spec, Disposal};
use crate::task::{texts, Ctx, Outcome, Status};
use crate::text::{chars_of, has_prefix, lines, lines_of, push_str, split, split_chars, starts_with, string_of, views};

verus! {

/// Where a `.plist` file lives.
#[derive(Debug, Clone, Copy, PartialEq, Eq, Structural)]
pub enum Scope {
    /// `~/Library/LaunchAgents`
    User,
    /// `/Library/LaunchAgents`
    System,
    /// `/Library/LaunchDaemons`
    Daemon,
}

impl Scope {
    pub const ALL: [Scope; 3] = [Scope::User, Scope::System, Scope::Daemon];

    pub fn label(self) -> (r: &'static str)
        ensures
            r@ == match self {
                Scope::User => "User LaunchAgents"@,
                Scope::System => "System LaunchAgents"@,
                Scope::Daemon => "System LaunchDaemons"@,
            },
    {
        match self {
            Scope::User => "User LaunchAgents",
            Scope::System => "System LaunchAgents",
            Scope::Daemon => "System LaunchDaemons",
        }
    }

    /// The directory of the scope, under the given home directory for the
    /// user's own agents.
    pub fn dir(self, home: &str) -> (r: String)
        ensures
            r@ == match self {
                Scope::User => join_spec(home@, "Library/LaunchAgents"@),
                Scope::System => "/Library/LaunchAgents"@,
                Scope::Daemon => "/Library/LaunchDaemons"@,
            },
    {
        match self {
            Scope::User => home_join(home, "Library/LaunchAgents"),
            Scope::System => {
                let mut r = String::new();
                push_str(&mut r, "/Library/LaunchAgents");
                r
            },
            Scope::Daemon => {
                let mut r = String::new();
                push_str(&mut r, "/Library/LaunchDaemons");
                r
            },
        }
    }

    /// System daemons and `/Library` agents need root.
    pub fn needs_root(self) -> (r: bool)
        ensures
            r == (self != Scope::User),
    {
        match self {
            Scope::User => false,
            _ => true,
        }
    }
}

/// A startup agent.
#[derive(Debug, Clone)]
pub struct Agent {
    pub label: String,
    pub path: String,
    pub scope: Scope,
    /// `true` when the package comes from Apple (never modified by this tool).
    pub apple: bool,
    /// `true` when `launchctl` reports it as loaded.
    pub loaded: bool,
}

/// Position of the last occurrence of `c`, or -1.
pub open spec fn last_index(s: Seq<char>, c: char) -> int
    decreases s.len(),
{
    if s.len() == 0 {
        -1
    } else if s.last() == c {
        s.len() - 1
    } else {
        last_index(s.drop_last(), c)
    }
}

/// `Path::file_stem`: the file name without its extension; a name whose
/// only dot leads it keeps it.
pub open spec fn file_stem_spec(path: Seq<char>) -> Seq<char> {
    let name = crate::task::ram::file_name_spec(path);
    let d = last_index(name, '.');
    if d <= 0 {
        name
    } else {
        name.take(d)
    }
}

/// The label of an agent: the stem of its `.plist` file.
pub fn label_of(path: &str) -> (r: String)
    ensures
        r@ == file_stem_spec(path@),
{
    let name = chars_of(crate::task::ram::file_name(path).as_str());
    let mut d: usize = name.len();
    assert(name@.take(d as int) =~= name@);
    while d > 0 && name[d - 1] != '.'
        invariant
            d <= name@.len(),
            last_index(name@, '.') == last_index(name@.take(d as int), '.'),
        decreases d,
    {
        assert(name@.take(d as int).drop_last() =~= name@.take(d - 1));
        d -= 1;
    }
    if d <= 1 {
        string_of(name.as_slice())
    } else {
        assert(name@.take(d as int).last() == '.');
        string_of(crate::text::slice_to_vec(name.as_slice(), 0, d - 1).as_slice())
    }
}

/// An Apple-provided agent must never be disabled nor removed.
pub fn is_apple(label: &str) -> (r: bool)
    ensures
        r == has_prefix(label@, "com.apple."@),
{
    starts_with(chars_of(label).as_slice(), chars_of("com.apple.").as_slice())
}

/// The third tab-separated field of each line after the header of
/// `launchctl list`: the labels currently loaded.
pub open spec fn loaded_spec(stdout: Seq<char>) -> Seq<Seq<char>> {
    let ls = lines(stdout);
    if ls.len() == 0 {
        Seq::empty()
    } else {
        third_fields(ls.drop_first())
    }
}

/// The third tab-separated field of each line that has one.
pub open spec fn third_fields(ls: Seq<Seq<char>>) -> Seq<Seq<char>>
    decreases ls.len(),
{
    if ls.len() == 0 {
        Seq::empty()
    } else {
        third_fields(ls.drop_last()) + (if split(ls.last(), '\t').len() > 2 {
            seq![split(ls.last(), '\t')[2]]
        } else {
            Seq::empty()
        })
    }
}

/// Labels currently loaded according to `launchctl list`.
pub fn loaded_labels(stdout: &str) -> (r: Vec<String>)
    ensures
        crate::config::string_views(r@) == loaded_spec(stdout@),
{
    let ls = lines_of(chars_of(stdout).as_slice());
    let ghost all = lines(stdout@);
    let mut r: Vec<String> = Vec::new();
    if ls.len() == 0 {
        return r;
    }
    let ghost body = all.drop_first();
    let mut i: usize = 1;
    while i < ls.len()
        invariant
            1 <= i <= ls@.len(),
            views(ls@) == all,
            body == all.drop_first(),
            crate::config::string_views(r@) == third_fields(body.take(i - 1)),
        decreases ls@.len() - i,
    {
        proof {
            assert(body.take(i as int).drop_last() =~= body.take(i - 1));
            assert(body.take(i as int).last() == ls@[i as int]@);
        }
        let fields = split_chars(ls[i].as_slice(), '\t');
        let ghost before = crate::config::string_views(r@);
        if fields.len() > 2 {
            assert(views(fields@)[2] == fields@[2]@);
            let f = string_of(fields[2].as_slice());
            r.push(f);
            assert(crate::config::string_views(r@) =~= before.push(f@));
        }
        i += 1;
    }
    assert(body.take(ls@.len() - 1) =~= body);
    r
}

fn contains_string(v: &Vec<String>, s: &str) -> (r: bool)
    ensures
        r == crate::config::string_views(v@).contains(s@),
{
    let c = chars_of(s);
    let mut i: usize = 0;
    while i < v.len()
        invariant
            i <= v@.len(),
            c@ == s@,
            forall|k: int| 0 <= k < i ==> v@[k]@ != s@,
        decreases v@.len() - i,
    {
        if crate::text::chars_eq(chars_of(v[i].as_str()).as_slice(), c.as_slice()) {
            assert(crate::config::string_views(v@)[i as int] == s@);
            return true;
        }
        i += 1;
    }
    assert forall|k: int| 0 <= k < v@.len() implies crate::config::string_views(v@)[k] != s@ by {
        assert(crate::config::string_views(v@)[k] == v@[k]@);
    }
    false
}

/// What the library reads of an agent.
pub open spec fn agent_view(a: Agent) -> (Seq<char>, Seq<char>, Scope, bool, bool) {
    (a.label@, a.path@, a.scope, a.apple, a.loaded)
}

/// The agent a `.plist` file defines, given the loaded labels.
pub open spec fn agent_of(path: Seq<char>, scope: Scope, loaded: Seq<Seq<char>>) -> (Seq<char>, Seq<char>, Scope, bool, bool) {
    let label = file_stem_spec(path);
    (label, path, scope, has_prefix(label, "com.apple."@), loaded.contains(label))
}

/// The agents of the `.plist` files of one scope.
pub open spec fn agents_of(paths: Seq<Seq<char>>, scope: Scope, loaded: Seq<Seq<char>>) -> Seq<(Seq<char>, Seq<char>, Scope, bool, bool)> {
    paths.map_values(|p: Seq<char>| agent_of(p, scope, loaded))
}

fn push_agents(out: &mut Vec<Agent>, paths: &Vec<String>, scope: Scope, loaded: &Vec<String>)
    ensures
        final(out)@.map_values(|a: Agent| agent_view(a)) == old(out)@.map_values(|a: Agent| agent_view(a))
            + agents_of(crate::config::string_views(paths@), scope, crate::config::string_views(loaded@)),
{
    let ghost base = out@.map_values(|a: Agent| agent_view(a));
    let ghost want = agents_of(crate::config::string_views(paths@), scope, crate::config::string_views(loaded@));
    let mut i: usize = 0;
    while i < paths.len()
        invariant
            i <= paths@.len(),
            want == agents_of(crate::config::string_views(paths@), scope, crate::config::string_views(loaded@)),
            out@.map_values(|a: Agent| agent_view(a)) == base + want.take(i as int),
        decreases paths@.len() - i,
    {
        let label = label_of(paths[i].as_str());
        let apple = is_apple(label.as_str());
        let is_loaded = contains_string(loaded, label.as_str());
        let a = Agent { label, path: paths[i].clone(), scope, apple, loaded: is_loaded };
        let ghost before = out@.map_values(|a: Agent| agent_view(a));
        assert(agent_view(a) == want[i as int]);
        out.push(a);
        assert(out@.map_values(|a: Agent| agent_view(a)) =~= before.push(agent_view(a)));
        assert(want.take(i + 1) =~= want.take(i as int).push(want[i as int]));
        i += 1;
    }
    assert(want.take(paths@.len() as int) =~= want);
}

/// Every visible agent, by location (user, system, daemons) then in the
/// order of each listing, marked Apple's or loaded.
/// `sorted` holds the same paths as `paths`, ordered by the label they
/// define.
pub open spec fn by_label_spec(paths: Seq<String>, sorted: Seq<String>) -> bool {
    &&& sorted.to_multiset() == paths.to_multiset()
    &&& sorted.len() == paths.len()
    &&& forall|i: int, j: int| 0 <= i < j < sorted.len()
        ==> !crate::task::journal::text_less(file_stem_spec(sorted[j]@), file_stem_spec(sorted[i]@))
}

/// The paths of `.plist` files ordered by the label each defines (its name
/// without the extension); equal labels keep their order.
pub fn by_label(paths: &Vec<String>) -> (r: Vec<String>)
    ensures
        by_label_spec(paths@, r@),
{
    let ghost all = paths@;
    let mut out: Vec<String> = Vec::new();
    let n = paths.len();
    let mut k: usize = 0;
    assert(out@ =~= all.take(0));
    while k < n
        invariant
            k <= n,
            n == all.len(),
            all == paths@,
            out@.to_multiset() == all.take(k as int).to_multiset(),
            out@.len() == k,
            forall|i: int, j: int| 0 <= i < j < out@.len()
                ==> !crate::task::journal::text_less(file_stem_spec(out@[j]@), file_stem_spec(out@[i]@)),
        decreases n - k,
    {
        let x = paths[k].clone();
        let xl = chars_of(label_of(x.as_str()).as_str());
        let mut p: usize = 0;
        while p < out.len() && !crate::task::journal::less_text(xl.as_slice(), chars_of(label_of(out[p].as_str()).as_str()).as_slice())
            invariant
                p <= out@.len(),
                xl@ == file_stem_spec(x@),
                forall|a: int| 0 <= a < p ==> !crate::task::journal::text_less(file_stem_spec(x@), file_stem_spec((#[trigger] out@[a])@)),
            decreases out@.len() - p,
        {
            p += 1;
        }
        let ghost before = out@;
        out.insert(p, x);
        proof {
            let lx = file_stem_spec(x@);
            assert(out@ == before.insert(p as int, x));
            assert(all.take(k + 1) =~= all.take(k as int).push(x));
            vstd::seq_lib::to_multiset_insert(before, p as int, x);
            vstd::seq_lib::to_multiset_build(all.take(k as int), x);
            assert forall|i: int, j: int| 0 <= i < j < out@.len()
                implies !crate::task::journal::text_less(file_stem_spec(out@[j]@), file_stem_spec(out@[i]@)) by {
                if j < p {
                    assert(out@[i] == before[i] && out@[j] == before[j]);
                } else if j == p {
                    assert(out@[i] == before[i]);
                } else if i < p {
                    assert(out@[i] == before[i] && out@[j] == before[j - 1]);
                    crate::task::journal::lemma_text_less_total(lx, file_stem_spec(before[p as int]@));
                    if j - 1 > p {
                        crate::task::journal::lemma_text_less_trans(lx, file_stem_spec(before[p as int]@), file_stem_spec(before[j - 1]@));
                    }
                    crate::task::journal::lemma_text_less_trans(file_stem_spec(before[i]@), lx, file_stem_spec(before[j - 1]@));
                } else if i == p {
                    assert(out@[j] == before[j - 1]);
                    crate::task::journal::lemma_text_less_total(lx, file_stem_spec(before[p as int]@));
                    if j - 1 > p {
                        crate::task::journal::lemma_text_less_total(file_stem_spec(before[p as int]@), file_stem_spec(before[j - 1]@));
                        crate::task::journal::lemma_text_less_trans(lx, file_stem_spec(before[p as int]@), file_stem_spec(before[j - 1]@));
                    }
                } else {
                    assert(out@[i] == before[i - 1] && out@[j] == before[j - 1]);
                }
            }
        }
        k += 1;
    }
    assert(all.take(n as int) =~= all);
    out
}

/// Every agent of the three scopes, from the `.plist` files of each, in
/// order of scope and, within a scope, of label; `launchctl list` says which
/// are loaded.
pub fn collect(user: &Vec<String>, system: &Vec<String>, daemon: &Vec<String>, launchctl_list: &str) -> (r: Vec<Agent>)
    ensures
        exists|u: Seq<String>, s: Seq<String>, d: Seq<String>|
            #[trigger] by_label_spec(user@, u) && #[trigger] by_label_spec(system@, s) && #[trigger] by_label_spec(daemon@, d)
            && ({
                let loaded = loaded_spec(launchctl_list@);
                r@.map_values(|a: Agent| agent_view(a)) == agents_of(crate::config::string_views(u), Scope::User, loaded)
                    + agents_of(crate::config::string_views(s), Scope::System, loaded)
                    + agents_of(crate::config::string_views(d), Scope::Daemon, loaded)
            }),
{
    let loaded = loaded_labels(launchctl_list);
    let u = by_label(user);
    let s = by_label(system);
    let d = by_label(daemon);
    let mut agents: Vec<Agent> = Vec::new();
    assert(agents@.map_values(|a: Agent| agent_view(a)) =~= Seq::empty());
    push_agents(&mut agents, &u, Scope::User, &loaded);
    push_agents(&mut agents, &s, Scope::System, &loaded);
    push_agents(&mut agents, &d, Scope::Daemon, &loaded);
    assert(by_label_spec(user@, u@) && by_label_spec(system@, s@) && by_label_spec(daemon@, d@));
    agents
}

/// Action that can be applied to an agent.
#[derive(Debug, Clone, Copy, PartialEq, Eq, Structural)]
pub enum Action {
    Disable,
    Enable,
    Remove,
}

impl Action {
    pub fn verb(self) -> (r: &'static str)
        ensures
            r@ == match self {
                Action::Disable => "Disable"@,
                Action::Enable => "Enable"@,
                Action::Remove => "Remove"@,
            },
    {
        match self {
            Action::Disable => "Disable",
            Action::Enable => "Enable",
            Action::Remove => "Remove",
        }
    }
}

/// The name of an action on an agent, as reports show it.
pub open spec fn action_name(action: Action, label: Seq<char>) -> Seq<char> {
    let verb = match action {
        Action::Disable => "Disable"@,
        Action::Enable => "Enable"@,
        Action::Remove => "Remove"@,
    };
    verb + " "@ + label
}

fn action_text(action: Action, label: &str) -> (r: String)
    ensures
        r@ == action_name(action, label@),
{
    let mut r = String::new();
    push_str(&mut r, action.verb());
    push_str(&mut r, " ");
    push_str(&mut r, label);
    r
}

/// The next step of an action on an agent.
pub enum AgentStep {
    /// Nothing to run; this is the outcome.
    Done(Outcome),
    /// Run `launchctl <sub> -w <plist>`, then remove the file when `dispose`
    /// says so (a removal of a file no exclusion protects), and report with
    /// `applied`.
    Launchctl { sub: &'static str, dispose: bool },
}

/// Decides an action on an agent: Apple's agents are never touched, the
/// system scopes need root, `--dry-run` only says what would be done, and a
/// definition file the exclusions protect is never removed.
pub fn apply(agent: &Agent, action: Action, ctx: &Ctx, excludes: &crate::config::Excludes, is_root: bool, home: &str) -> (r: AgentStep)
    ensures
        agent.apple ==> (r matches AgentStep::Done(o) && o.action@ == action_name(action, agent.label@)
            && o.status == Status::Skipped && texts(o.messages@)
            == seq!["Apple agent — skipped for safety"@]),
        !agent.apple && agent.scope != Scope::User && !is_root ==> (r matches AgentStep::Done(o)
            && o.action@ == action_name(action, agent.label@) && o.status == Status::Skipped
            && texts(o.messages@) == seq!["requires sudo"@]),
        !agent.apple && (agent.scope == Scope::User || is_root) && ctx.dry_run ==> (r matches AgentStep::Done(o)
            && o.action@ == action_name(action, agent.label@) && o.status == Status::Simulated
            && texts(o.messages@) == seq![tilde_spec(agent.path@, home@)]),
        !agent.apple && (agent.scope == Scope::User || is_root) && !ctx.dry_run ==> (r matches AgentStep::Launchctl { sub, dispose }
            && sub@ == (if action == Action::Enable { "load"@ } else { "unload"@ })
            && dispose == (action == Action::Remove && !crate::config::blocks_spec(excludes@, agent.path@, home@))),
{
    let name = action_text(action, agent.label.as_str());
    if agent.apple {
        return AgentStep::Done(Outcome::skipped(name.as_str(), "Apple agent — skipped for safety"));
    }
    if agent.scope.needs_root() && !is_root {
        return AgentStep::Done(Outcome::skipped(name.as_str(), "requires sudo"));
    }
    if ctx.dry_run {
        let t = tilde(agent.path.as_str(), home);
        return AgentStep::Done(Outcome::new(name.as_str(), Status::Simulated).with(t.as_str()));
    }
    let dispose = action == Action::Remove && !excludes.blocks(agent.path.as_str(), home);
    match action {
        Action::Enable => AgentStep::Launchctl { sub: "load", dispose },
        _ => AgentStep::Launchctl { sub: "unload", dispose },
    }
}

/// Reports an action once `launchctl` ran (its complaint about an already
/// (un)loaded service is noted, not fatal) and, for a removal, once the file
/// went — to the trash unless a permanent deletion was asked for — or, when
/// there was no removal to report, that the exclusions kept it.
pub fn applied(agent: &Agent, action: Action, launchctl: Result<(), String>, removal: Option<Result<(), String>>, disposal: Disposal, home: &str) -> (r: Outcome)
    ensures
        r.action@ == action_name(action, agent.label@),
        ({
            let noted = match launchctl {
                Ok(_) => Seq::<Seq<char>>::empty(),
                Err(e) => seq!["launchctl : "@ + e@],
            };
            match removal {
                Some(Err(e)) if action == Action::Remove => r.status == Status::Failed && texts(r.messages@) == seq![e@],
                Some(Ok(_)) if action == Action::Remove => r.status == Status::Succeeded && texts(r.messages@) == noted.push(
                    (if disposal == Disposal::Trash { "moved to the trash"@ } else { "removed"@ }) + ": "@ + tilde_spec(agent.path@, home@),
                ),
                None if action == Action::Remove => r.status == Status::Succeeded && texts(r.messages@) == noted.push(
                    "left alone by your exclusions: "@ + tilde_spec(agent.path@, home@),
                ),
                _ => r.status == Status::Succeeded && texts(r.messages@) == noted,
            }
        }),
{
    let name = action_text(action, agent.label.as_str());
    let mut outcome = Outcome::ok(name.as_str(), false);
    match launchctl {
        Ok(()) => {},
        Err(e) => {
            let mut line = String::new();
            push_str(&mut line, "launchctl : ");
            push_str(&mut line, e.as_str());
            outcome.push(line.as_str());
        },
    }
    if action == Action::Remove {
        match removal {
            Some(Ok(())) => {
                let mut line = String::new();
                push_str(&mut line, if disposal.is_trash() { "moved to the trash" } else { "removed" });
                push_str(&mut line, ": ");
                let t = tilde(agent.path.as_str(), home);
                push_str(&mut line, t.as_str());
                outcome.push(line.as_str());
            },
            Some(Err(e)) => {
                return Outcome::failed(name.as_str(), e.as_str());
            },
            None => {
                let mut line = String::new();
                push_str(&mut line, "left alone by your exclusions: ");
                let t = tilde(agent.path.as_str(), home);
                push_str(&mut line, t.as_str());
                outcome.push(line.as_str());
            },
        }
    }
    outcome
}

/// How many agents are Apple's.
pub open spec fn apple_count(agents: Seq<Agent>) -> nat
    decreases agents.len(),
{
    if agents.len() == 0 {
        0
    } else {
        apple_count(agents.drop_last()) + (if agents.last().apple { 1nat } else { 0nat })
    }
}

pub proof fn lemma_apple_count(agents: Seq<Agent>)
    ensures
        apple_count(agents) <= agents.len(),
    decreases agents.len(),
{
    if agents.len() > 0 {
        lemma_apple_count(agents.drop_last());
    }
}

/// Counts agents by origin: Apple's, then the others. Together they are all
/// the agents.
pub fn summary(agents: &Vec<Agent>) -> (r: (usize, usize))
    ensures
        r.0 == apple_count(agents@),
        r.0 + r.1 == agents@.len(),
{
    let mut apple: usize = 0;
    let mut i: usize = 0;
    while i < agents.len()
        invariant
            i <= agents@.len(),
            apple == apple_count(agents@.take(i as int)),
        decreases agents@.len() - i,
    {
        assert(agents@.take(i + 1).drop_last() =~= agents@.take(i as int));
        proof {
            lemma_apple_count(agents@.take(i as int));
        }
        if agents[i].apple {
            apple += 1;
        }
        i += 1;
    }
    assert(agents@.take(agents@.len() as int) =~= agents@);
    proof {
        lemma_apple_count(agents@);
    }
    (apple, agents.len() - apple)
}

} // verus!
