//! Hooks that freeze applications before a snapshot and thaw them after it.
//!
//! Where the command before the snapshot fails, no snapshot is taken. Where the one after it
//! fails, the snapshot stays good and the failure is reported.
use crate::error::LazarusError;
use crate::snapshot::snapshotter::trim_text;
use crate::text::all_digits;
use crate::text::concat2;
use crate::text::concat3;
use crate::text::copy_text;
use crate::text::decimal;
use crate::text::decimal_string;
use crate::text::holds_text;
use crate::text::only_digits;
use crate::text::push_text;
use crate::text::texts;
use crate::text::to_chars;
use crate::text::trim;
use vstd::prelude::*;

pub mod builtins;

verus! {

/// What decides whether a hook applies to this host. All that is given must hold.
#[derive(Debug)]
pub struct HookMatch {
    /// This service is active.
    pub service: Option<String>,
    /// A process of this name runs.
    pub process: Option<String>,
    /// This path exists.
    pub path: Option<String>,
}

impl Default for HookMatch {
    fn default() -> (out: Self)
        ensures
            out.service is None,
            out.process is None,
            out.path is None,
    {
        HookMatch { service: None, process: None, path: None }
    }
}

/// The hook of one application.
#[derive(Debug)]
pub struct ApplicationHook {
    pub name: String,
    /// When the hook applies; always, where there is no rule.
    pub match_rule: Option<HookMatch>,
    /// The shell command that is run before the snapshot is taken.
    pub pre_snapshot: String,
    /// The shell command that is run afterwards.
    pub post_snapshot: String,
    /// How many seconds each command may take.
    pub timeout_secs: Option<u64>,
    /// Environment variables for the commands.
    pub env: Vec<(String, String)>,
}

impl ApplicationHook {
    /// How many seconds each command may take before it counts as failed.
    pub open spec fn seconds(self) -> u64 {
        match self.timeout_secs {
            Some(n) => n,
            None => 300,
        }
    }

    /// How many seconds each command may take before it counts as failed.
    pub fn timeout(&self) -> (out: u64)
        ensures
            out == self.seconds(),
    {
        match self.timeout_secs {
            Some(n) => n,
            None => 300,
        }
    }
}

/// On which side of the snapshot a command is run.
#[derive(Debug, Clone, Copy, PartialEq, Eq, Structural)]
pub enum HookPhase {
    Pre,
    Post,
}

/// What came of a command.
#[derive(Debug)]
pub struct HookOutcome {
    pub hook: String,
    pub phase: HookPhase,
    pub success: bool,
    pub stdout: String,
    pub stderr: String,
    pub exit_code: Option<i32>,
}

/// What came of all commands.
#[derive(Debug)]
pub struct HookReport {
    pub outcomes: Vec<HookOutcome>,
}

impl Default for HookReport {
    fn default() -> (out: Self)
        ensures
            out.outcomes@.len() == 0,
    {
        HookReport { outcomes: Vec::new() }
    }
}

/// The failures of one side.
pub open spec fn failures(outcomes: Seq<HookOutcome>, phase: HookPhase) -> Seq<HookOutcome>
    decreases outcomes.len(),
{
    if outcomes.len() == 0 {
        Seq::empty()
    } else {
        let front = failures(outcomes.drop_last(), phase);
        if outcomes.last().phase == phase && !outcomes.last().success {
            front.push(outcomes.last())
        } else {
            front
        }
    }
}

/// The outcomes behind a list of references.
pub open spec fn outcomes_of(list: Seq<&HookOutcome>) -> Seq<HookOutcome> {
    Seq::new(list.len(), |i: int| *list[i])
}

impl HookReport {
    fn failed(&self, phase: HookPhase) -> (out: Vec<&HookOutcome>)
        ensures
            outcomes_of(out@) == failures(self.outcomes@, phase),
    {
        let mut out: Vec<&HookOutcome> = Vec::new();
        let mut i: usize = 0;
        assert(self.outcomes@.take(0) =~= Seq::<HookOutcome>::empty());
        assert(outcomes_of(out@) =~= Seq::<HookOutcome>::empty());
        while i < self.outcomes.len()
            invariant
                i <= self.outcomes@.len(),
                outcomes_of(out@) == failures(self.outcomes@.take(i as int), phase),
            decreases self.outcomes@.len() - i,
        {
            let o = &self.outcomes[i];
            assert(self.outcomes@.take(i as int + 1).drop_last() =~= self.outcomes@.take(i as int));
            if o.phase == phase && !o.success {
                let ghost before = outcomes_of(out@);
                out.push(o);
                assert(outcomes_of(out@) =~= before.push(*o));
            }
            i += 1;
        }
        assert(self.outcomes@.take(i as int) =~= self.outcomes@);
        out
    }

    /// The commands that failed before the snapshot.
    pub fn pre_failures(&self) -> (out: Vec<&HookOutcome>)
        ensures
            outcomes_of(out@) == failures(self.outcomes@, HookPhase::Pre),
    {
        self.failed(HookPhase::Pre)
    }

    /// The commands that failed after the snapshot.
    pub fn post_failures(&self) -> (out: Vec<&HookOutcome>)
        ensures
            outcomes_of(out@) == failures(self.outcomes@, HookPhase::Post),
    {
        self.failed(HookPhase::Post)
    }
}

// --- Which hooks apply ---------------------------------------------------------------------

/// What was found on the host: the active services, the running processes and the existing paths
/// among those that the rules ask for.
#[derive(Debug)]
pub struct HostFacts {
    pub services: Vec<String>,
    pub processes: Vec<String>,
    pub paths: Vec<String>,
}

/// Whether a rule asks for nothing, or for something that is in the list.
pub open spec fn met(wanted: Option<String>, found: Seq<String>) -> bool {
    wanted matches Some(name) ==> texts(found).contains(name@)
}

/// Whether all that a rule asks for was found.
pub open spec fn rule_holds(rule: HookMatch, host: HostFacts) -> bool {
    &&& met(rule.service, host.services@)
    &&& met(rule.process, host.processes@)
    &&& met(rule.path, host.paths@)
}

/// Whether a hook applies.
pub open spec fn hook_applies(hook: ApplicationHook, host: HostFacts) -> bool {
    match hook.match_rule {
        None => true,
        Some(rule) => rule_holds(rule, host),
    }
}

fn is_met(wanted: &Option<String>, found: &Vec<String>) -> (yes: bool)
    ensures
        yes == met(*wanted, found@),
{
    match wanted {
        None => true,
        Some(name) => holds_text(found, name.as_str()),
    }
}

/// Whether all that a rule asks for was found.
pub fn rule_matches(rule: &HookMatch, host: &HostFacts) -> (yes: bool)
    ensures
        yes == rule_holds(*rule, *host),
{
    is_met(&rule.service, &host.services) && is_met(&rule.process, &host.processes) && is_met(
        &rule.path,
        &host.paths,
    )
}

/// The names of the running processes, from the entries of the process directory: those whose
/// name is a number carry the name of a process.
pub open spec fn process_names(entries: Seq<(String, String)>) -> Seq<Seq<char>>
    decreases entries.len(),
{
    if entries.len() == 0 {
        Seq::empty()
    } else {
        let front = process_names(entries.drop_last());
        let e = entries.last();
        if all_digits(e.0@) {
            front.push(trim(e.1@))
        } else {
            front
        }
    }
}

/// The names of the running processes, from the entries of the process directory and the command
/// name that each holds.
pub fn running_processes(entries: &Vec<(String, String)>) -> (out: Vec<String>)
    ensures
        texts(out@) == process_names(entries@),
{
    let mut out: Vec<String> = Vec::new();
    let mut i: usize = 0;
    assert(entries@.take(0) =~= Seq::<(String, String)>::empty());
    assert(texts(out@) =~= Seq::<Seq<char>>::empty());
    while i < entries.len()
        invariant
            i <= entries@.len(),
            texts(out@) == process_names(entries@.take(i as int)),
        decreases entries@.len() - i,
    {
        assert(entries@.take(i as int + 1).drop_last() =~= entries@.take(i as int));
        let e = &entries[i];
        if only_digits(to_chars(e.0.as_str()).as_slice()) {
            let name = trim_text(e.1.as_str());
            push_text(&mut out, name.as_str());
        }
        i += 1;
    }
    assert(entries@.take(i as int) =~= entries@);
    out
}

// --- Running hooks -------------------------------------------------------------------------

/// The hooks that apply, in order.
pub open spec fn applying(hooks: Seq<ApplicationHook>, host: HostFacts) -> Seq<ApplicationHook>
    decreases hooks.len(),
{
    if hooks.len() == 0 {
        Seq::empty()
    } else {
        let front = applying(hooks.drop_last(), host);
        if hook_applies(hooks.last(), host) {
            front.push(hooks.last())
        } else {
            front
        }
    }
}

/// The hooks behind a list of references.
pub open spec fn hooks_of(list: Seq<&ApplicationHook>) -> Seq<ApplicationHook> {
    Seq::new(list.len(), |i: int| *list[i])
}

/// The command of a hook for one side of the snapshot.
pub open spec fn command_of(hook: ApplicationHook, phase: HookPhase) -> Seq<char> {
    match phase {
        HookPhase::Pre => hook.pre_snapshot@,
        HookPhase::Post => hook.post_snapshot@,
    }
}

/// A command that has to be run through the shell.
#[derive(Debug)]
pub struct HookCommand {
    pub hook: String,
    pub command: String,
    pub env: Vec<(String, String)>,
    /// How many seconds the command may take.
    pub timeout_secs: u64,
}

/// The names and values of environment variables.
pub open spec fn env_texts(env: Seq<(String, String)>) -> Seq<(Seq<char>, Seq<char>)> {
    Seq::new(env.len(), |i: int| (env[i].0@, env[i].1@))
}

/// Whether a command is the one of a hook.
pub open spec fn command_matches(c: HookCommand, hook: ApplicationHook, phase: HookPhase) -> bool {
    &&& c.hook@ == hook.name@
    &&& c.command@ == command_of(hook, phase)
    &&& env_texts(c.env@) == env_texts(hook.env@)
    &&& c.timeout_secs == hook.seconds()
}

/// How a command ended: it could not be started, it took longer than it may, or it ran to its
/// end.
#[derive(Debug)]
pub enum CommandResult {
    NotStarted(String),
    TimedOut,
    Finished { success: bool, stdout: String, stderr: String, exit_code: Option<i32> },
}

/// Whether an outcome records how a command ended. One that took longer than it may has failed.
pub open spec fn records(
    o: HookOutcome,
    command: HookCommand,
    phase: HookPhase,
    result: CommandResult,
) -> bool {
    &&& o.hook@ == command.hook@
    &&& o.phase == phase
    &&& match result {
        CommandResult::NotStarted(e) => {
            &&& !o.success
            &&& o.stdout@ == Seq::<char>::empty()
            &&& o.stderr@ == "failed to launch hook command: "@ + e@
            &&& o.exit_code is None
        },
        CommandResult::TimedOut => {
            &&& !o.success
            &&& o.stdout@ == Seq::<char>::empty()
            &&& o.stderr@ == "hook command took longer than "@ + decimal(
                command.timeout_secs as nat,
            ) + " second(s)"@
            &&& o.exit_code is None
        },
        CommandResult::Finished { success, stdout, stderr, exit_code } => {
            &&& o.success == success
            &&& o.stdout@ == stdout@
            &&& o.stderr@ == stderr@
            &&& o.exit_code == exit_code
        },
    }
}

fn outcome(command: &HookCommand, phase: HookPhase, result: CommandResult) -> (out: HookOutcome)
    ensures
        records(out, *command, phase, result),
{
    let hook = command.hook.as_str();
    match result {
        CommandResult::NotStarted(e) => HookOutcome {
            hook: copy_text(hook),
            phase,
            success: false,
            stdout: String::new(),
            stderr: concat2("failed to launch hook command: ", e.as_str()),
            exit_code: None,
        },
        CommandResult::TimedOut => HookOutcome {
            hook: copy_text(hook),
            phase,
            success: false,
            stdout: String::new(),
            stderr: concat3(
                "hook command took longer than ",
                decimal_string(command.timeout_secs).as_str(),
                " second(s)",
            ),
            exit_code: None,
        },
        CommandResult::Finished { success, stdout, stderr, exit_code } => HookOutcome {
            hook: copy_text(hook),
            phase,
            success,
            stdout,
            stderr,
            exit_code,
        },
    }
}

/// The commands of one side of the snapshot that are still to be run.
pub struct HookRun {
    pub phase: HookPhase,
    pub queue: Vec<HookCommand>,
}

/// Whether the commands of a run are those of the hooks that apply.
pub open spec fn runs(run: HookRun, hooks: Seq<ApplicationHook>, phase: HookPhase) -> bool {
    &&& run.phase == phase
    &&& run.queue@.len() == hooks.len()
    &&& forall|i: int|
        0 <= i < hooks.len() ==> command_matches(#[trigger] run.queue@[i], hooks[i], phase)
}

impl HookRun {
    /// The next command, until all have been run.
    pub fn next_command(&self) -> (out: Option<&HookCommand>)
        ensures
            out is Some <==> self.queue@.len() > 0,
            out matches Some(c) ==> *c == self.queue@[0],
    {
        if self.queue.len() == 0 {
            None
        } else {
            Some(&self.queue[0])
        }
    }

    /// Records how the next command ended. A failure before the snapshot ends the run with an
    /// error; one after it is only recorded.
    pub fn record(&mut self, result: CommandResult, report: &mut HookReport) -> (out: Result<
        (),
        LazarusError,
    >)
        requires
            old(self).queue@.len() > 0,
        ensures
            final(self).phase == old(self).phase,
            final(report).outcomes@.len() == old(report).outcomes@.len() + 1,
            final(report).outcomes@.drop_last() == old(report).outcomes@,
            records(
                final(report).outcomes@.last(),
                old(self).queue@[0],
                old(self).phase,
                result,
            ),
            out is Ok <==> old(self).phase == HookPhase::Post
                || final(report).outcomes@.last().success,
            match out {
                Ok(_) => final(self).queue@ == old(self).queue@.drop_first(),
                Err(e) => {
                    &&& final(self).queue@.len() == 0
                    &&& e is Storage
                    &&& e.detail() == "pre-snapshot hook `"@ + old(self).queue@[0].hook@
                        + "` failed"@
                },
            },
    {
        let command = self.queue.remove(0);
        assert(self.queue@ =~= old(self).queue@.drop_first());
        let o = outcome(&command, self.phase, result);
        let failed = !o.success;
        report.outcomes.push(o);
        assert(report.outcomes@.drop_last() =~= old(report).outcomes@);
        if self.phase == HookPhase::Pre && failed {
            self.queue = Vec::new();
            return Err(
                LazarusError::Storage(
                    concat3("pre-snapshot hook `", command.hook.as_str(), "` failed"),
                ),
            );
        }
        Ok(())
    }
}

/// A list of hooks.
#[derive(Debug)]
pub struct HookRunner {
    hooks: Vec<ApplicationHook>,
}

impl HookRunner {
    pub closed spec fn list(&self) -> Seq<ApplicationHook> {
        self.hooks@
    }

    pub fn new() -> (out: Self)
        ensures
            out.list() == Seq::<ApplicationHook>::empty(),
    {
        HookRunner { hooks: Vec::new() }
    }

    /// A runner for the given hooks.
    pub fn with_hooks(hooks: Vec<ApplicationHook>) -> (out: Self)
        ensures
            out.list() == hooks@,
    {
        HookRunner { hooks }
    }

    /// Adds a hook at the end.
    pub fn push(&mut self, hook: ApplicationHook)
        ensures
            final(self).list() == old(self).list().push(hook),
    {
        self.hooks.push(hook);
    }

    /// The hooks.
    pub fn hooks(&self) -> (out: &[ApplicationHook])
        ensures
            out@ == self.list(),
    {
        self.hooks.as_slice()
    }

    /// The hooks that apply to the host.
    pub fn applicable(&self, host: &HostFacts) -> (out: Vec<&ApplicationHook>)
        ensures
            hooks_of(out@) == applying(self.list(), *host),
    {
        let mut out: Vec<&ApplicationHook> = Vec::new();
        let mut i: usize = 0;
        assert(self.hooks@.take(0) =~= Seq::<ApplicationHook>::empty());
        assert(hooks_of(out@) =~= Seq::<ApplicationHook>::empty());
        while i < self.hooks.len()
            invariant
                i <= self.hooks@.len(),
                hooks_of(out@) == applying(self.hooks@.take(i as int), *host),
            decreases self.hooks@.len() - i,
        {
            assert(self.hooks@.take(i as int + 1).drop_last() =~= self.hooks@.take(i as int));
            let h = &self.hooks[i];
            let applies = match &h.match_rule {
                None => true,
                Some(rule) => rule_matches(rule, host),
            };
            if applies {
                let ghost before = hooks_of(out@);
                out.push(h);
                assert(hooks_of(out@) =~= before.push(*h));
            }
            i += 1;
        }
        assert(self.hooks@.take(i as int) =~= self.hooks@);
        out
    }

    fn start(&self, phase: HookPhase, host: &HostFacts) -> (out: HookRun)
        ensures
            runs(out, applying(self.list(), *host), phase),
    {
        let hooks = self.applicable(host);
        let ghost all = applying(self.list(), *host);
        let mut queue: Vec<HookCommand> = Vec::new();
        let mut i: usize = 0;
        while i < hooks.len()
            invariant
                i <= hooks@.len(),
                hooks_of(hooks@) == all,
                queue@.len() == i,
                forall|k: int|
                    0 <= k < i ==> command_matches(#[trigger] queue@[k], all[k], phase),
            decreases hooks@.len() - i,
        {
            let h = hooks[i];
            assert(all[i as int] == *h);
            let command = match phase {
                HookPhase::Pre => copy_text(h.pre_snapshot.as_str()),
                HookPhase::Post => copy_text(h.post_snapshot.as_str()),
            };
            queue.push(
                HookCommand {
                    hook: copy_text(h.name.as_str()),
                    command,
                    env: copy_env(&h.env),
                    timeout_secs: h.timeout(),
                },
            );
            i += 1;
        }
        HookRun { phase, queue }
    }

    /// Starts to run the commands before the snapshot.
    pub fn run_pre(&self, host: &HostFacts) -> (out: HookRun)
        ensures
            runs(out, applying(self.list(), *host), HookPhase::Pre),
    {
        self.start(HookPhase::Pre, host)
    }

    /// Starts to run the commands after the snapshot.
    pub fn run_post(&self, host: &HostFacts) -> (out: HookRun)
        ensures
            runs(out, applying(self.list(), *host), HookPhase::Post),
    {
        self.start(HookPhase::Post, host)
    }
}

fn copy_env(env: &Vec<(String, String)>) -> (out: Vec<(String, String)>)
    ensures
        env_texts(out@) == env_texts(env@),
{
    let mut out: Vec<(String, String)> = Vec::new();
    let mut i: usize = 0;
    while i < env.len()
        invariant
            i <= env@.len(),
            out@.len() == i,
            forall|k: int|
                0 <= k < i ==> (#[trigger] out@[k]).0@ == env@[k].0@ && out@[k].1@ == env@[k].1@,
        decreases env@.len() - i,
    {
        let e = &env[i];
        out.push((copy_text(e.0.as_str()), copy_text(e.1.as_str())));
        i += 1;
    }
    assert(env_texts(out@) =~= env_texts(env@));
    out
}

/// The hooks that apply are among the given ones, and every one that applies is there.
pub proof fn applying_exact(hooks: Seq<ApplicationHook>, host: HostFacts, hook: ApplicationHook)
    ensures
        applying(hooks, host).contains(hook) <==> hooks.contains(hook) && hook_applies(hook, host),
    decreases hooks.len(),
{
    if hooks.len() > 0 {
        let front = hooks.drop_last();
        let last = hooks.last();
        applying_exact(front, host, hook);
        let all = applying(hooks, host);
        let some = applying(front, host);
        if all.contains(hook) {
            let i = choose|i: int| 0 <= i < all.len() && all[i] == hook;
            if i < some.len() {
                assert(some[i] == hook);
                let j = choose|j: int| 0 <= j < front.len() && front[j] == hook;
                assert(hooks[j] == hook);
            } else {
                assert(hooks[hooks.len() - 1] == hook);
            }
        }
        if hooks.contains(hook) && hook_applies(hook, host) {
            let j = choose|j: int| 0 <= j < hooks.len() && hooks[j] == hook;
            if j < front.len() {
                assert(front[j] == hook);
                let i = choose|i: int| 0 <= i < some.len() && some[i] == hook;
                assert(all[i] == hook);
            } else {
                assert(all[all.len() - 1] == hook);
            }
        }
    }
}

/// A hook with a rule applies only where all that the rule names was found; a hook without a rule
/// always applies.
pub proof fn rules_need_all_they_name(hook: ApplicationHook, host: HostFacts)
    ensures
        hook.match_rule is None ==> hook_applies(hook, host),
        hook.match_rule matches Some(rule) ==> {
            &&& rule.service matches Some(s) ==> (hook_applies(hook, host) ==> exists|i: int|
                0 <= i < host.services@.len() && (#[trigger] host.services@[i])@ == s@)
            &&& rule.process matches Some(s) ==> (hook_applies(hook, host) ==> exists|i: int|
                0 <= i < host.processes@.len() && (#[trigger] host.processes@[i])@ == s@)
            &&& rule.path matches Some(s) ==> (hook_applies(hook, host) ==> exists|i: int|
                0 <= i < host.paths@.len() && (#[trigger] host.paths@[i])@ == s@)
            &&& (rule.service is None || exists|i: int|
                0 <= i < host.services@.len() && (#[trigger] host.services@[i])@
                    == rule.service->0@) && (rule.process is None || exists|i: int|
                0 <= i < host.processes@.len() && (#[trigger] host.processes@[i])@
                    == rule.process->0@) && (rule.path is None || exists|i: int|
                0 <= i < host.paths@.len() && (#[trigger] host.paths@[i])@ == rule.path->0@)
                ==> hook_applies(hook, host)
        },
{
    if let Some(rule) = hook.match_rule {
        found_is_met(rule.service, host.services@);
        found_is_met(rule.process, host.processes@);
        found_is_met(rule.path, host.paths@);
    }
}

proof fn found_is_met(wanted: Option<String>, found: Seq<String>)
    ensures
        wanted is None ==> met(wanted, found),
        wanted matches Some(s) ==> (met(wanted, found) <==> exists|i: int|
            0 <= i < found.len() && (#[trigger] found[i])@ == s@),
{
    if let Some(s) = wanted {
        if exists|i: int| 0 <= i < found.len() && (#[trigger] found[i])@ == s@ {
            let i = choose|i: int| 0 <= i < found.len() && (#[trigger] found[i])@ == s@;
            assert(texts(found)[i] == s@);
        }
        if texts(found).contains(s@) {
            let i = choose|i: int| 0 <= i < texts(found).len() && texts(found)[i] == s@;
            assert(found[i]@ == s@);
        }
    }
}

/// The commands before the snapshot are the freezing ones, and those after it the thawing ones of
/// the same hooks in the same order, each with the time that its hook allows: 300 seconds where it
/// says nothing.
pub proof fn freezing_runs_before_and_thawing_after(
    pre: HookRun,
    post: HookRun,
    hooks: Seq<ApplicationHook>,
)
    requires
        runs(pre, hooks, HookPhase::Pre),
        runs(post, hooks, HookPhase::Post),
    ensures
        pre.phase == HookPhase::Pre,
        post.phase == HookPhase::Post,
        pre.queue@.len() == hooks.len(),
        post.queue@.len() == hooks.len(),
        forall|i: int|
            0 <= i < hooks.len() ==> {
                &&& (#[trigger] pre.queue@[i]).hook@ == hooks[i].name@
                &&& pre.queue@[i].command@ == hooks[i].pre_snapshot@
                &&& same_variables(pre.queue@[i].env@, hooks[i].env@)
                &&& hooks[i].timeout_secs matches Some(n) ==> pre.queue@[i].timeout_secs == n
                &&& hooks[i].timeout_secs is None ==> pre.queue@[i].timeout_secs == 300
            },
        forall|i: int|
            0 <= i < hooks.len() ==> {
                &&& (#[trigger] post.queue@[i]).hook@ == hooks[i].name@
                &&& post.queue@[i].command@ == hooks[i].post_snapshot@
                &&& same_variables(post.queue@[i].env@, hooks[i].env@)
                &&& hooks[i].timeout_secs matches Some(n) ==> post.queue@[i].timeout_secs == n
                &&& hooks[i].timeout_secs is None ==> post.queue@[i].timeout_secs == 300
            },
{
    assert forall|i: int| 0 <= i < hooks.len() implies same_variables(
        (#[trigger] pre.queue@[i]).env@,
        hooks[i].env@,
    ) by {
        assert(command_matches(pre.queue@[i], hooks[i], HookPhase::Pre));
        equal_texts_are_variables(pre.queue@[i].env@, hooks[i].env@);
    }
    assert forall|i: int| 0 <= i < hooks.len() implies same_variables(
        (#[trigger] post.queue@[i]).env@,
        hooks[i].env@,
    ) by {
        assert(command_matches(post.queue@[i], hooks[i], HookPhase::Post));
        equal_texts_are_variables(post.queue@[i].env@, hooks[i].env@);
    }
}

/// Whether two lists give the same variables the same values.
pub open spec fn same_variables(a: Seq<(String, String)>, b: Seq<(String, String)>) -> bool {
    &&& a.len() == b.len()
    &&& forall|k: int| 0 <= k < a.len() ==> (#[trigger] a[k]).0@ == b[k].0@ && a[k].1@ == b[k].1@
}

proof fn equal_texts_are_variables(a: Seq<(String, String)>, b: Seq<(String, String)>)
    requires
        env_texts(a) == env_texts(b),
    ensures
        same_variables(a, b),
{
    assert(env_texts(a).len() == a.len());
    assert(env_texts(b).len() == b.len());
    assert forall|k: int| 0 <= k < a.len() implies (#[trigger] a[k]).0@ == b[k].0@ && a[k].1@
        == b[k].1@ by {
        assert(env_texts(a)[k] == (a[k].0@, a[k].1@));
        assert(env_texts(b)[k] == (b[k].0@, b[k].1@));
    }
}

/// An outcome is a success only where its command ran to its end and succeeded.
pub proof fn only_good_ends_are_successes(
    o: HookOutcome,
    command: HookCommand,
    phase: HookPhase,
    result: CommandResult,
)
    requires
        records(o, command, phase, result),
    ensures
        o.phase == phase,
        o.hook@ == command.hook@,
        o.success <==> (result matches CommandResult::Finished { success, .. } && success),
{
}

/// The failures of one side are exactly its outcomes without success.
pub proof fn failures_are_exact(outcomes: Seq<HookOutcome>, phase: HookPhase, o: HookOutcome)
    ensures
        failures(outcomes, phase).contains(o) <==> outcomes.contains(o) && o.phase == phase
            && !o.success,
    decreases outcomes.len(),
{
    if outcomes.len() > 0 {
        let front = outcomes.drop_last();
        let last = outcomes.last();
        failures_are_exact(front, phase, o);
        let all = failures(outcomes, phase);
        let some = failures(front, phase);
        if all.contains(o) {
            let i = choose|i: int| 0 <= i < all.len() && all[i] == o;
            if i < some.len() {
                assert(some[i] == o);
                let j = choose|j: int| 0 <= j < front.len() && front[j] == o;
                assert(outcomes[j] == o);
            } else {
                assert(outcomes[outcomes.len() - 1] == o);
            }
        }
        if outcomes.contains(o) && o.phase == phase && !o.success {
            let j = choose|j: int| 0 <= j < outcomes.len() && outcomes[j] == o;
            if j < front.len() {
                assert(front[j] == o);
                let i = choose|i: int| 0 <= i < some.len() && some[i] == o;
                assert(all[i] == o);
            } else {
                assert(all[all.len() - 1] == o);
            }
        }
    }
}

/// The processes are the entries of the process directory whose name is a number, by the command
/// name that each holds.
pub proof fn numbered_entries_are_processes(
    entries: Seq<(String, String)>,
    entry: (String, String),
)
    ensures
        process_names(Seq::empty()).len() == 0,
        (forall|i: int| 0 <= i < entry.0@.len() ==> '0' <= #[trigger] entry.0@[i] <= '9')
            ==> process_names(entries.push(entry)) == process_names(entries).push(trim(entry.1@)),
        !(forall|i: int| 0 <= i < entry.0@.len() ==> '0' <= #[trigger] entry.0@[i] <= '9')
            ==> process_names(entries.push(entry)) == process_names(entries),
{
    assert(entries.push(entry).drop_last() =~= entries);
}

} // verus!
