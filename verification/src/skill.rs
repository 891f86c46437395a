//! Installing the usage skill into the skills directories of coding agents.
//!
//! Each supported agent reads a `SKILL.md` from a directory named after the
//! skill; only the place differs.

use vstd::prelude::*;
use vstd::string::*;

use crate::config;
use crate::paths;
use crate::paths::FilePath;
use crate::text;

verus! {

/// Which agents to (un)install for. No flag set means "all of them".
#[derive(Debug, Clone, Copy)]
pub struct Targets {
    pub claude: bool,
    pub codex: bool,
    pub pi: bool,
}

/// An agent that reads skills: what it is called, and its directory in the home
/// directory.
#[derive(Debug)]
pub struct Agent {
    pub label: String,
    pub dir: String,
}

/// The contents of an [`Agent`].
pub struct AgentView {
    pub label: Seq<char>,
    pub dir: Seq<char>,
}

impl View for Agent {
    type V = AgentView;

    open spec fn view(&self) -> AgentView {
        AgentView { label: self.label@, dir: self.dir@ }
    }
}

/// The agents that [`Targets`] selects from.
#[derive(Debug)]
pub struct Agents {
    pub claude: Agent,
    pub codex: Agent,
    pub pi: Agent,
}

/// The contents of [`Agents`].
pub struct AgentsView {
    pub claude: AgentView,
    pub codex: AgentView,
    pub pi: AgentView,
}

impl View for Agents {
    type V = AgentsView;

    open spec fn view(&self) -> AgentsView {
        AgentsView { claude: self.claude@, codex: self.codex@, pi: self.pi@ }
    }
}

/// The agents that are meant: those that are set, or all if none is.
pub open spec fn resolved_of(t: Targets) -> Targets {
    if t.claude || t.codex || t.pi {
        t
    } else {
        Targets { claude: true, codex: true, pi: true }
    }
}

/// A skill file: the agent it is for, and where it is.
#[derive(Debug)]
pub struct SkillFile {
    pub label: String,
    pub path: FilePath,
}

/// The contents of a [`SkillFile`].
pub struct SkillFileView {
    pub label: Seq<char>,
    pub path: Seq<u8>,
}

impl View for SkillFile {
    type V = SkillFileView;

    open spec fn view(&self) -> SkillFileView {
        SkillFileView { label: self.label@, path: self.path@ }
    }
}

/// The contents of a list of skill files.
pub open spec fn skill_files_of(v: Seq<SkillFile>) -> Seq<SkillFileView> {
    v.map_values(|f: SkillFile| f@)
}

/// Where an agent looks for this skill, in its own directory.
pub const SKILL_FILE: &'static str = "skills/sx/SKILL.md";

/// The skill file of an agent.
pub open spec fn skill_file_of(home: Seq<u8>, a: AgentView) -> SkillFileView {
    SkillFileView {
        label: a.label,
        path: paths::under_text(paths::under_text(home, a.dir), SKILL_FILE@),
    }
}

/// The skill file of an agent if it is `wanted`, nothing otherwise.
pub open spec fn if_wanted(wanted: bool, home: Seq<u8>, a: AgentView) -> Seq<SkillFileView> {
    if wanted {
        seq![skill_file_of(home, a)]
    } else {
        Seq::empty()
    }
}

/// The skill file of each selected agent.
pub open spec fn paths_of(t: Targets, home: Seq<u8>, agents: AgentsView) -> Seq<SkillFileView> {
    if_wanted(t.claude, home, agents.claude) + if_wanted(t.codex, home, agents.codex) + if_wanted(
        t.pi,
        home,
        agents.pi,
    )
}

impl Agent {
    /// The skill file of this agent.
    fn skill_file(&self, home: &FilePath) -> (r: SkillFile)
        ensures
            r@ == skill_file_of(home@, self@),
    {
        SkillFile {
            label: self.label.clone(),
            path: home.join(self.dir.as_str()).join(SKILL_FILE),
        }
    }
}

impl Targets {
    /// The agents that are meant.
    pub fn resolved(self) -> (r: Targets)
        ensures
            r == resolved_of(self),
    {
        if self.claude || self.codex || self.pi {
            self
        } else {
            Targets { claude: true, codex: true, pi: true }
        }
    }

    /// The skill file of each selected agent.
    pub fn paths(self, home: &FilePath, agents: &Agents) -> (r: Vec<SkillFile>)
        ensures
            skill_files_of(r@) == paths_of(self, home@, agents@),
    {
        let mut out: Vec<SkillFile> = Vec::new();
        if self.claude {
            out.push(agents.claude.skill_file(home));
        }
        if self.codex {
            out.push(agents.codex.skill_file(home));
        }
        if self.pi {
            out.push(agents.pi.skill_file(home));
        }
        assert(skill_files_of(out@) =~= paths_of(self, home@, agents@));
        out
    }
}

/// The agents that the skill can be installed for, where the first is as given.
pub fn known_agents(claude: Agent) -> (r: Agents)
    ensures
        r@ == (AgentsView {
            claude: claude@,
            codex: AgentView { label: "Codex"@, dir: ".codex"@ },
            pi: AgentView { label: "Pi"@, dir: ".pi/agent"@ },
        }),
{
    Agents {
        claude,
        codex: Agent { label: text::text("Codex"), dir: text::text(".codex") },
        pi: Agent { label: text::text("Pi"), dir: text::text(".pi/agent") },
    }
}

/// One thing to do for an installation or a removal, in order.
#[derive(Debug)]
pub enum Act {
    /// Print this.
    Print { text: String },
    /// Write the skill to this file, creating its directory if needed.
    Write { path: FilePath },
    /// Remove this file, and its directory if that is then empty; print `gone`
    /// if the file could be removed, and `missing` if not.
    Remove { path: FilePath, gone: String, missing: String },
}

/// The contents of an [`Act`].
pub enum ActView {
    Print { text: Seq<char> },
    Write { path: Seq<u8> },
    Remove { path: Seq<u8>, gone: Seq<char>, missing: Seq<char> },
}

impl View for Act {
    type V = ActView;

    open spec fn view(&self) -> ActView {
        match *self {
            Act::Print { text } => ActView::Print { text: text@ },
            Act::Write { path } => ActView::Write { path: path@ },
            Act::Remove { path, gone, missing } => ActView::Remove {
                path: path@,
                gone: gone@,
                missing: missing@,
            },
        }
    }
}

/// The contents of a list of acts.
pub open spec fn acts_of(v: Seq<Act>) -> Seq<ActView> {
    v.map_values(|a: Act| a@)
}

/// The contents of a list of acts, or of the reason that there is none.
pub open spec fn acts_or_reason(r: Result<Vec<Act>, String>) -> Result<Seq<ActView>, Seq<char>> {
    match r {
        Ok(v) => Ok(acts_of(v@)),
        Err(e) => Err(e@),
    }
}

/// The installation of skill files.
pub open spec fn writing(files: Seq<SkillFileView>, dry_run: bool) -> Seq<ActView>
    decreases files.len(),
{
    if files.len() == 0 {
        Seq::empty()
    } else {
        let f = files.last();
        writing(files.drop_last(), dry_run) + if dry_run {
            seq![
                ActView::Print { text: f.label + ": would write "@ + text::lossy(f.path) + "\n"@ },
            ]
        } else {
            seq![
                ActView::Write { path: f.path },
                ActView::Print { text: f.label + ": wrote "@ + text::lossy(f.path) + "\n"@ },
            ]
        }
    }
}

/// The last line of an installation.
pub open spec fn farewell(dry_run: bool) -> Seq<char> {
    if dry_run {
        "\n(dry run — nothing written)\n"@
    } else {
        "\nRestart any running agent session to pick up the skill.\n"@
    }
}

/// The removal of one skill file.
pub open spec fn removal(f: SkillFileView) -> ActView {
    ActView::Remove {
        path: f.path,
        gone: f.label + ": removed "@ + text::lossy(f.path) + "\n"@,
        missing: f.label + ": nothing to remove ("@ + text::lossy(f.path) + ")\n"@,
    }
}

/// What `sx skill install` does, for a given `$HOME`.
pub open spec fn install_of(
    t: Targets,
    home: Option<Seq<u8>>,
    agents: AgentsView,
    dry_run: bool,
) -> Result<Seq<ActView>, Seq<char>> {
    match home {
        Some(h) => Ok(
            writing(paths_of(resolved_of(t), h, agents), dry_run).push(
                ActView::Print { text: farewell(dry_run) },
            ),
        ),
        None => Err("$HOME is not set"@),
    }
}

/// What `sx skill uninstall` does, for a given `$HOME`.
pub open spec fn uninstall_of(t: Targets, home: Option<Seq<u8>>, agents: AgentsView) -> Result<
    Seq<ActView>,
    Seq<char>,
> {
    match home {
        Some(h) => Ok(
            paths_of(resolved_of(t), h, agents).map_values(|f: SkillFileView| removal(f)),
        ),
        None => Err("$HOME is not set"@),
    }
}

/// What `sx skill install` does, for a given `$HOME`.
pub fn install(
    targets: Targets,
    home: Option<FilePath>,
    agents: &Agents,
    dry_run: bool,
) -> (r: Result<Vec<Act>, String>)
    ensures
        acts_or_reason(r) == install_of(targets, config::opt_path(home), agents@, dry_run),
{
    let home: FilePath = match home {
        Some(h) => h,
        None => {
            return Err(text::text("$HOME is not set"));
        },
    };
    let files: Vec<SkillFile> = targets.resolved().paths(&home, agents);
    let ghost all: Seq<SkillFileView> = skill_files_of(files@);
    let mut out: Vec<Act> = Vec::new();
    let mut i: usize = 0;
    assert(acts_of(out@) =~= writing(all.take(0), dry_run));
    while i < files.len()
        invariant
            i <= files@.len(),
            all == skill_files_of(files@),
            acts_of(out@) == writing(all.take(i as int), dry_run),
        decreases files@.len() - i,
    {
        let ghost done: Seq<ActView> = acts_of(out@);
        let f: &SkillFile = &files[i];
        proof {
            assert(all.take(i as int + 1).drop_last() =~= all.take(i as int));
            assert(all.take(i as int + 1).last() == f@);
        }
        let shown: String = f.path.display();
        if dry_run {
            out.push(
                Act::Print {
                    text: f.label.clone().concat(": would write ").concat(shown.as_str()).concat(
                        "\n",
                    ),
                },
            );
        } else {
            out.push(Act::Write { path: f.path.copy() });
            out.push(
                Act::Print {
                    text: f.label.clone().concat(": wrote ").concat(shown.as_str()).concat("\n"),
                },
            );
        }
        assert(acts_of(out@) =~= writing(all.take(i as int + 1), dry_run));
        i = i + 1;
    }
    assert(all.take(i as int) =~= all);
    let ghost done: Seq<ActView> = acts_of(out@);
    let last: &str = if dry_run {
        "\n(dry run — nothing written)\n"
    } else {
        "\nRestart any running agent session to pick up the skill.\n"
    };
    out.push(Act::Print { text: text::text(last) });
    assert(acts_of(out@) =~= done.push(ActView::Print { text: farewell(dry_run) }));
    Ok(out)
}

/// What `sx skill uninstall` does, for a given `$HOME`.
pub fn uninstall(targets: Targets, home: Option<FilePath>, agents: &Agents) -> (r: Result<
    Vec<Act>,
    String,
>)
    ensures
        acts_or_reason(r) == uninstall_of(targets, config::opt_path(home), agents@),
{
    let home: FilePath = match home {
        Some(h) => h,
        None => {
            return Err(text::text("$HOME is not set"));
        },
    };
    let files: Vec<SkillFile> = targets.resolved().paths(&home, agents);
    let ghost all: Seq<ActView> = skill_files_of(files@).map_values(|f: SkillFileView| removal(f));
    let mut out: Vec<Act> = Vec::new();
    let mut i: usize = 0;
    while i < files.len()
        invariant
            i <= files@.len(),
            all == skill_files_of(files@).map_values(|f: SkillFileView| removal(f)),
            acts_of(out@) == all.take(i as int),
        decreases files@.len() - i,
    {
        let ghost done: Seq<ActView> = acts_of(out@);
        let f: &SkillFile = &files[i];
        let shown: String = f.path.display();
        out.push(
            Act::Remove {
                path: f.path.copy(),
                gone: f.label.clone().concat(": removed ").concat(shown.as_str()).concat("\n"),
                missing: f.label.clone().concat(": nothing to remove (").concat(
                    shown.as_str(),
                ).concat(")\n"),
            },
        );
        proof {
            assert(acts_of(out@) =~= done.push(removal(f@)));
            assert(all.take(i as int + 1) =~= done.push(removal(f@)));
        }
        i = i + 1;
    }
    assert(all.take(i as int) =~= all);
    Ok(out)
}

/// A dry run writes and removes nothing.
pub proof fn dry_run_writes_nothing(t: Targets, home: Option<Seq<u8>>, agents: AgentsView)
    ensures
        install_of(t, home, agents, true) matches Ok(acts) ==> forall|i: int|
            0 <= i < acts.len() ==> (#[trigger] acts[i]) is Print,
{
    if let Some(h) = home {
        writing_dry_only_prints(paths_of(resolved_of(t), h, agents));
    }
}

proof fn writing_dry_only_prints(files: Seq<SkillFileView>)
    ensures
        forall|i: int|
            0 <= i < writing(files, true).len() ==> (#[trigger] writing(files, true)[i]) is Print,
    decreases files.len(),
{
    if files.len() > 0 {
        writing_dry_only_prints(files.drop_last());
    }
}

/// With no agent named, every agent is meant; otherwise exactly those named.
pub proof fn no_flag_means_all(t: Targets, home: Seq<u8>, agents: AgentsView)
    ensures
        !t.claude && !t.codex && !t.pi ==> paths_of(resolved_of(t), home, agents).len() == 3,
        t.claude || t.codex || t.pi ==> resolved_of(t) == t,
{
}

/// Whether an agent is meant: its flag is set, or none is.
pub open spec fn is_meant(t: Targets, flag: bool) -> bool {
    flag || !(t.claude || t.codex || t.pi)
}

/// The skill file of an agent in a home directory.
pub open spec fn place(home: Seq<u8>, a: AgentView) -> Seq<u8> {
    paths::under_text(paths::under_text(home, a.dir), "skills/sx/SKILL.md"@)
}

/// The file is that of an agent that is meant.
pub open spec fn is_place(t: Targets, home: Seq<u8>, agents: AgentsView, path: Seq<u8>) -> bool {
    ||| is_meant(t, t.claude) && path == place(home, agents.claude)
    ||| is_meant(t, t.codex) && path == place(home, agents.codex)
    ||| is_meant(t, t.pi) && path == place(home, agents.pi)
}

/// What an installation does for one agent: the skill is written to its file,
/// and then that is said; a dry run only says what it would write.
pub open spec fn installation(a: AgentView, home: Seq<u8>, dry_run: bool) -> Seq<ActView> {
    if dry_run {
        seq![
            ActView::Print { text: a.label + ": would write "@ + text::lossy(place(home, a)) + "\n"@ },
        ]
    } else {
        seq![
            ActView::Write { path: place(home, a) },
            ActView::Print { text: a.label + ": wrote "@ + text::lossy(place(home, a)) + "\n"@ },
        ]
    }
}

/// `acts` if `wanted`, nothing otherwise.
pub open spec fn only_if(wanted: bool, acts: Seq<ActView>) -> Seq<ActView> {
    if wanted {
        acts
    } else {
        Seq::empty()
    }
}

proof fn writing_of_both(a: Seq<SkillFileView>, b: Seq<SkillFileView>, dry_run: bool)
    ensures
        writing(a + b, dry_run) == writing(a, dry_run) + writing(b, dry_run),
    decreases b.len(),
{
    if b.len() == 0 {
        assert(a + b =~= a);
        assert(writing(a, dry_run) + writing(b, dry_run) =~= writing(a, dry_run));
    } else {
        assert((a + b).drop_last() =~= a + b.drop_last());
        writing_of_both(a, b.drop_last(), dry_run);
        assert(writing(a + b, dry_run) =~= writing(a, dry_run) + writing(b, dry_run));
    }
}

proof fn writing_if_wanted(wanted: bool, home: Seq<u8>, a: AgentView, dry_run: bool)
    ensures
        writing(if_wanted(wanted, home, a), dry_run) == only_if(
            wanted,
            installation(a, home, dry_run),
        ),
{
    let files = if_wanted(wanted, home, a);
    let none: Seq<SkillFileView> = Seq::empty();
    reveal_with_fuel(writing, 2);
    if wanted {
        assert(files.drop_last() =~= none);
        assert(writing(none, dry_run) =~= Seq::empty());
        assert(writing(files, dry_run) =~= installation(a, home, dry_run));
    } else {
        assert(writing(files, dry_run) =~= Seq::empty());
    }
}

/// An installation goes through the agents that are meant, all of them, one
/// after the other, and says at the end what to do next; without a home
/// directory nothing is done.
pub proof fn every_agent_that_is_meant_gets_the_skill(
    t: Targets,
    home: Seq<u8>,
    agents: AgentsView,
    dry_run: bool,
)
    ensures
        install_of(t, Some(home), agents, dry_run) == Ok::<Seq<ActView>, Seq<char>>(
            only_if(is_meant(t, t.claude), installation(agents.claude, home, dry_run)) + only_if(
                is_meant(t, t.codex),
                installation(agents.codex, home, dry_run),
            ) + only_if(is_meant(t, t.pi), installation(agents.pi, home, dry_run)) + seq![
                ActView::Print {
                    text: if dry_run {
                        "\n(dry run — nothing written)\n"@
                    } else {
                        "\nRestart any running agent session to pick up the skill.\n"@
                    },
                },
            ],
        ),
        install_of(t, None, agents, dry_run) == Err::<Seq<ActView>, Seq<char>>(
            "$HOME is not set"@,
        ),
        uninstall_of(t, None, agents) == Err::<Seq<ActView>, Seq<char>>("$HOME is not set"@),
{
    let m = resolved_of(t);
    let x = if_wanted(m.claude, home, agents.claude);
    let y = if_wanted(m.codex, home, agents.codex);
    let z = if_wanted(m.pi, home, agents.pi);
    writing_of_both(x + y, z, dry_run);
    writing_of_both(x, y, dry_run);
    writing_if_wanted(m.claude, home, agents.claude, dry_run);
    writing_if_wanted(m.codex, home, agents.codex, dry_run);
    writing_if_wanted(m.pi, home, agents.pi, dry_run);
    let all = writing(x + y + z, dry_run);
    let last = ActView::Print { text: farewell(dry_run) };
    assert(all.push(last) =~= all + seq![last]);
}

/// A removal removes exactly the files that an installation for the same agents
/// writes: those of the agents that are meant. Of each it says whether it was
/// there.
pub proof fn what_is_installed_is_what_is_removed(
    t: Targets,
    home: Seq<u8>,
    agents: AgentsView,
    path: Seq<u8>,
)
    ensures
        install_of(t, Some(home), agents, false) matches Ok(acts) && (acts.contains(
            ActView::Write { path },
        ) <==> is_place(t, home, agents, path)),
        uninstall_of(t, Some(home), agents) matches Ok(acts) && ((exists|i: int|
            0 <= i < acts.len() && ((#[trigger] acts[i]) matches ActView::Remove { path: p, .. } && p
                == path)) <==> is_place(t, home, agents, path)),
        uninstall_of(t, Some(home), agents) matches Ok(acts) && forall|i: int|
            0 <= i < acts.len() ==> ((#[trigger] acts[i]) matches ActView::Remove {
                path: p,
                gone,
                missing,
            } && exists|label: Seq<char>|
                {
                    &&& gone == #[trigger] (label + ": removed "@) + text::lossy(p) + "\n"@
                    &&& missing == label + ": nothing to remove ("@ + text::lossy(p) + ")\n"@
                }),
{
    every_agent_that_is_meant_gets_the_skill(t, home, agents, false);
    let w = ActView::Write { path };
    let a = only_if(is_meant(t, t.claude), installation(agents.claude, home, false));
    let b = only_if(is_meant(t, t.codex), installation(agents.codex, home, false));
    let c = only_if(is_meant(t, t.pi), installation(agents.pi, home, false));
    let acts = install_of(t, Some(home), agents, false)->Ok_0;
    let n = a.len() as int;
    let m = n + b.len();
    if is_meant(t, t.claude) {
        assert(acts[0] == a[0]);
    }
    if is_meant(t, t.codex) {
        assert(acts[n] == b[0]);
    }
    if is_meant(t, t.pi) {
        assert(acts[m] == c[0]);
    }
    if acts.contains(w) {
        let k = choose|k: int| 0 <= k < acts.len() && acts[k] == w;
        if k < n {
            assert(acts[k] == a[k]);
        } else if k < m {
            assert(acts[k] == b[k - n]);
        } else if k < m + c.len() {
            assert(acts[k] == c[k - m]);
        }
    }
    let r = resolved_of(t);
    let x = if_wanted(r.claude, home, agents.claude);
    let y = if_wanted(r.codex, home, agents.codex);
    let z = if_wanted(r.pi, home, agents.pi);
    let files = paths_of(r, home, agents);
    let gone = uninstall_of(t, Some(home), agents)->Ok_0;
    assert forall|i: int| 0 <= i < gone.len() implies #[trigger] gone[i] == removal(files[i]) by {}
    let j = x.len() as int;
    let k = j + y.len();
    if r.claude {
        assert(files[0] == x[0]);
        assert(gone[0] == removal(x[0]));
    }
    if r.codex {
        assert(files[j] == y[0]);
        assert(gone[j] == removal(y[0]));
    }
    if r.pi {
        assert(files[k] == z[0]);
        assert(gone[k] == removal(z[0]));
    }
    assert forall|i: int| 0 <= i < gone.len() implies ((#[trigger] gone[i]) matches
        ActView::Remove { path: p, gone: g, missing } && is_place(t, home, agents, p)
        && exists|label: Seq<char>|
        {
            &&& g == #[trigger] (label + ": removed "@) + text::lossy(p) + "\n"@
            &&& missing == label + ": nothing to remove ("@ + text::lossy(p) + ")\n"@
        }) by {
        let f = files[i];
        if i < j {
            assert(f == x[i]);
        } else if i < k {
            assert(f == y[i - j]);
        } else {
            assert(f == z[i - k]);
        }
        assert(removal(f)->gone == (f.label + ": removed "@) + text::lossy(f.path) + "\n"@);
    }
}

} // verus!
