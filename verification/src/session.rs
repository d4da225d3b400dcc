//! Work on the host, step by step.
//!
//! A [`Session`] holds the steps of one operation. It says what to do next; whoever runs it does
//! that and reports what came of it. All decisions lie here: which command follows which, what
//! is passed over, and what ends the operation with an error.

use crate::failure::{copy_result, result_view, Failure, FailureView};
use crate::listing::{find_leftovers, leftover_chains};
use crate::text::{
    characters, concat, contains, decode_lossy, lemma_concat_push, lossy_text, nth_word, occurs,
    option_text, push_word, texts, word,
};
use vstd::prelude::*;

verus! {

// ---------------------------------------------------------------------------
// Commands, actions and replies
// ---------------------------------------------------------------------------

/// A program and its arguments.
pub struct Invocation {
    pub program: String,
    pub args: Vec<String>,
}

/// A command, and what its failure means for the operation.
pub struct Command {
    pub invocation: Invocation,
    /// Where this is set, the operation ends with it if the command could not be run.
    pub on_unrun: Option<String>,
    /// Where this is set, the operation ends with it and the error output if the command
    /// reported failure.
    pub on_reject: Option<String>,
}

/// One step of an operation.
pub enum Step {
    /// Run a command.
    Run(Command),
    /// Run a check; run the command unless the check succeeds. Where the check could not be run
    /// at all, `even_if_unrun` tells whether the command is run.
    Unless { check: Invocation, even_if_unrun: bool, otherwise: Command },
    /// Write `1` into a switch of the kernel, after loading its module where it is not there.
    EnableSwitch { path: String },
    /// Make the addresses of services routable.
    EnsureRoute,
    /// Remove the endpoint chains that are tracked, and track them no more.
    PurgeTracked { program: String },
    /// Remove the endpoint chains that the listing of the NAT table shows.
    PurgeLeftovers { program: String },
    /// Run a program on the given input.
    Feed { invocation: Invocation, input: String },
}

/// What is to be done next.
pub enum Action {
    /// Run the program and collect its output.
    Run(Invocation),
    /// Look whether the path exists. Success means that it does.
    Probe(String),
    /// Write the contents into the file.
    Write { path: String, contents: String },
    /// Hand over the tracked chains, and track them no more.
    TakeTracked,
    /// Run the program with the text as its input and collect its output.
    Feed { invocation: Invocation, input: String },
    /// Nothing: the operation is over.
    Finish(Result<(), Failure>),
}

/// What came of an action, as the host reports it.
pub enum Outcome {
    /// It could not be started.
    Unrun { cause: String },
    /// It was started, but its input could not be written.
    Unfed { cause: String },
    /// It was started, but its end could not be awaited.
    Unawaited { cause: String },
    /// It came to its end.
    Ran { success: bool, stdout: Vec<u8>, stderr: Vec<u8> },
    /// These chains were handed over.
    Handed { chains: Vec<String> },
}

/// What came of an action, with output in text form.
pub enum Reply {
    Unrun { cause: String },
    Unfed { cause: String },
    Unawaited { cause: String },
    /// `silent` tells that there was no output at all.
    Ran { success: bool, silent: bool, stdout: String, stderr: String },
    Handed { chains: Vec<String> },
}

// ---------------------------------------------------------------------------
// Content
// ---------------------------------------------------------------------------

/// The content of an [`Invocation`].
pub struct InvocationView {
    pub program: Seq<char>,
    pub args: Seq<Seq<char>>,
}

/// The content of a [`Command`].
pub struct CommandView {
    pub invocation: InvocationView,
    pub on_unrun: Option<Seq<char>>,
    pub on_reject: Option<Seq<char>>,
}

/// The content of a [`Step`].
pub enum StepView {
    Run(CommandView),
    Unless { check: InvocationView, even_if_unrun: bool, otherwise: CommandView },
    EnableSwitch { path: Seq<char> },
    EnsureRoute,
    PurgeTracked { program: Seq<char> },
    PurgeLeftovers { program: Seq<char> },
    Feed { invocation: InvocationView, input: Seq<char> },
}

/// The content of an [`Action`].
pub enum ActionView {
    Run(InvocationView),
    Probe(Seq<char>),
    Write { path: Seq<char>, contents: Seq<char> },
    TakeTracked,
    Feed { invocation: InvocationView, input: Seq<char> },
    Finish(Result<(), FailureView>),
}

/// The content of a [`Reply`].
pub enum ReplyView {
    Unrun { cause: Seq<char> },
    Unfed { cause: Seq<char> },
    Unawaited { cause: Seq<char> },
    Ran { success: bool, silent: bool, stdout: Seq<char>, stderr: Seq<char> },
    Handed { chains: Seq<Seq<char>> },
}

impl View for Invocation {
    type V = InvocationView;

    open spec fn view(&self) -> InvocationView {
        InvocationView { program: self.program@, args: texts(self.args@) }
    }
}

impl View for Command {
    type V = CommandView;

    open spec fn view(&self) -> CommandView {
        CommandView {
            invocation: self.invocation@,
            on_unrun: option_text(self.on_unrun),
            on_reject: option_text(self.on_reject),
        }
    }
}

impl View for Step {
    type V = StepView;

    open spec fn view(&self) -> StepView {
        match self {
            Step::Run(command) => StepView::Run(command@),
            Step::Unless { check, even_if_unrun, otherwise } => StepView::Unless {
                check: check@,
                even_if_unrun: *even_if_unrun,
                otherwise: otherwise@,
            },
            Step::EnableSwitch { path } => StepView::EnableSwitch { path: path@ },
            Step::EnsureRoute => StepView::EnsureRoute,
            Step::PurgeTracked { program } => StepView::PurgeTracked { program: program@ },
            Step::PurgeLeftovers { program } => StepView::PurgeLeftovers { program: program@ },
            Step::Feed { invocation, input } => StepView::Feed {
                invocation: invocation@,
                input: input@,
            },
        }
    }
}

impl View for Action {
    type V = ActionView;

    open spec fn view(&self) -> ActionView {
        match self {
            Action::Run(invocation) => ActionView::Run(invocation@),
            Action::Probe(path) => ActionView::Probe(path@),
            Action::Write { path, contents } => ActionView::Write {
                path: path@,
                contents: contents@,
            },
            Action::TakeTracked => ActionView::TakeTracked,
            Action::Feed { invocation, input } => ActionView::Feed {
                invocation: invocation@,
                input: input@,
            },
            Action::Finish(result) => ActionView::Finish(result_view(*result)),
        }
    }
}

impl View for Reply {
    type V = ReplyView;

    open spec fn view(&self) -> ReplyView {
        match self {
            Reply::Unrun { cause } => ReplyView::Unrun { cause: cause@ },
            Reply::Unfed { cause } => ReplyView::Unfed { cause: cause@ },
            Reply::Unawaited { cause } => ReplyView::Unawaited { cause: cause@ },
            Reply::Ran { success, silent, stdout, stderr } => ReplyView::Ran {
                success: *success,
                silent: *silent,
                stdout: stdout@,
                stderr: stderr@,
            },
            Reply::Handed { chains } => ReplyView::Handed { chains: texts(chains@) },
        }
    }
}

/// What a list of steps holds.
pub open spec fn step_views(steps: Seq<Step>) -> Seq<StepView> {
    steps.map_values(|s: Step| s@)
}

impl ReplyView {
    /// Whether the action succeeded.
    pub open spec fn succeeded(self) -> bool {
        self matches ReplyView::Ran { success, .. } && success
    }

    /// The error output of a command that reported failure, unless it only says that the chain
    /// to be made is there already.
    pub open spec fn complaint(self) -> Option<Seq<char>> {
        match self {
            ReplyView::Ran { success, stderr, .. } => if !success && !occurs(
                stderr,
                "Chain already exists"@,
            ) {
                Some(stderr)
            } else {
                None
            },
            _ => None,
        }
    }
}

/// What the host reports, with output in text form.
pub open spec fn decoded(outcome: Outcome) -> ReplyView {
    match outcome {
        Outcome::Unrun { cause } => ReplyView::Unrun { cause: cause@ },
        Outcome::Unfed { cause } => ReplyView::Unfed { cause: cause@ },
        Outcome::Unawaited { cause } => ReplyView::Unawaited { cause: cause@ },
        Outcome::Ran { success, stdout, stderr } => ReplyView::Ran {
            success,
            silent: stdout@.len() == 0,
            stdout: lossy_text(stdout@),
            stderr: lossy_text(stderr@),
        },
        Outcome::Handed { chains } => ReplyView::Handed { chains: texts(chains@) },
    }
}

impl Outcome {
    /// Puts the output into text form.
    pub fn decode(self) -> (reply: Reply)
        ensures
            reply@ == decoded(self),
    {
        match self {
            Outcome::Unrun { cause } => Reply::Unrun { cause },
            Outcome::Unfed { cause } => Reply::Unfed { cause },
            Outcome::Unawaited { cause } => Reply::Unawaited { cause },
            Outcome::Ran { success, stdout, stderr } => Reply::Ran {
                success,
                silent: stdout.len() == 0,
                stdout: decode_lossy(stdout.as_slice()),
                stderr: decode_lossy(stderr.as_slice()),
            },
            Outcome::Handed { chains } => Reply::Handed { chains },
        }
    }
}

impl Reply {
    /// Whether the action succeeded.
    pub fn succeeded(&self) -> (yes: bool)
        ensures
            yes == self@.succeeded(),
    {
        match self {
            Reply::Ran { success, .. } => *success,
            _ => false,
        }
    }

    /// The error output of a command that reported failure and had not just found the chain to
    /// be made there already.
    pub fn complaint(&self) -> (text: Option<&str>)
        ensures
            match text {
                Some(t) => self@.complaint() == Some(t@),
                None => self@.complaint() is None,
            },
    {
        match self {
            Reply::Ran { success, stderr, .. } => if !*success && !contains(
                stderr.as_str(),
                "Chain already exists",
            ) {
                Some(stderr.as_str())
            } else {
                None
            },
            _ => None,
        }
    }
}

// ---------------------------------------------------------------------------
// Fixed commands
// ---------------------------------------------------------------------------

/// A command whose failure is passed over.
pub open spec fn best_effort(program: Seq<char>, args: Seq<Seq<char>>) -> StepView {
    StepView::Run(
        CommandView {
            invocation: InvocationView { program, args },
            on_unrun: None,
            on_reject: None,
        },
    )
}

/// Empty a chain of the NAT table, then remove it; failures are passed over.
pub open spec fn purge_chain(program: Seq<char>, chain: Seq<char>) -> Seq<StepView> {
    seq![
        best_effort(program, seq!["-t"@, "nat"@, "-F"@, chain]),
        best_effort(program, seq!["-t"@, "nat"@, "-X"@, chain]),
    ]
}

/// Empty and remove the first `n` chains.
pub open spec fn purge_chains(program: Seq<char>, chains: Seq<Seq<char>>, n: nat) -> Seq<StepView> {
    concat(Seq::new(n, |i: int| purge_chain(program, chains[i])))
}

/// The listing of the NAT table.
pub open spec fn nat_listing(program: Seq<char>) -> InvocationView {
    InvocationView { program, args: seq!["-t"@, "nat"@, "-L"@, "-n"@] }
}

/// The kernel module that the switches belong to.
pub open spec fn load_module() -> InvocationView {
    InvocationView { program: "modprobe"@, args: seq!["br_netfilter"@] }
}

/// The routes to a network.
pub open spec fn route_query(network: Seq<char>) -> InvocationView {
    InvocationView { program: "ip"@, args: seq!["route"@, "show"@, network] }
}

/// A route to the addresses of services over an interface.
pub open spec fn route_addition(interface: Seq<char>) -> InvocationView {
    InvocationView {
        program: "ip"@,
        args: seq!["route"@, "add"@, "10.96.0.0/12"@, "dev"@, interface],
    }
}

/// An invocation with these words.
pub fn invocation(program: &str, words: &[&str]) -> (i: Invocation)
    ensures
        i@ == (InvocationView { program: program@, args: words@.map_values(|w: &str| w@) }),
{
    let mut args: Vec<String> = Vec::new();
    let mut k: usize = 0;
    let ghost all = words@.map_values(|w: &str| w@);
    while k < words.len()
        invariant
            k <= words.len(),
            all == words@.map_values(|w: &str| w@),
            texts(args@) == all.take(k as int),
        decreases words.len() - k,
    {
        push_word(&mut args, words[k]);
        k += 1;
        assert(all.take(k as int) =~= all.take(k - 1).push(all[k - 1]));
    }
    assert(all.take(k as int) =~= all);
    Invocation { program: program.to_string(), args }
}

/// A step that runs a command and passes over its failure.
pub fn try_step(invocation: Invocation) -> (step: Step)
    ensures
        step@ == best_effort(invocation@.program, invocation@.args),
{
    Step::Run(Command { invocation, on_unrun: None, on_reject: None })
}

/// Appends a step.
pub fn push_step(steps: &mut Vec<Step>, step: Step)
    ensures
        step_views(final(steps)@) == step_views(old(steps)@).push(step@),
{
    let ghost view = step@;
    steps.push(step);
    assert(step_views(steps@) =~= step_views(old(steps)@).push(view));
}

/// The steps that empty and remove chains.
pub fn purge_steps(program: &str, chains: &Vec<String>) -> (steps: Vec<Step>)
    ensures
        step_views(steps@) == purge_chains(program@, texts(chains@), chains@.len()),
{
    let mut steps: Vec<Step> = Vec::new();
    let ghost names = texts(chains@);
    let mut i: usize = 0;
    assert(step_views(steps@) =~= purge_chains(program@, names, 0));
    while i < chains.len()
        invariant
            i <= chains.len(),
            names == texts(chains@),
            step_views(steps@) == purge_chains(program@, names, i as nat),
        decreases chains.len() - i,
    {
        let ghost before = step_views(steps@);
        let chain = chains[i].as_str();
        let flush = invocation(program, &["-t", "nat", "-F", chain]);
        let delete = invocation(program, &["-t", "nat", "-X", chain]);
        assert(flush@.args =~= seq!["-t"@, "nat"@, "-F"@, chain@]);
        assert(delete@.args =~= seq!["-t"@, "nat"@, "-X"@, chain@]);
        push_step(&mut steps, try_step(flush));
        push_step(&mut steps, try_step(delete));
        proof {
            let f = |k: int| purge_chain(program@, names[k]);
            assert(step_views(steps@) =~= before + f(i as int));
            assert(Seq::new(i as nat, f).push(f(i as int)) =~= Seq::new((i + 1) as nat, f));
            lemma_concat_push(Seq::new(i as nat, f), f(i as int));
        }
        i += 1;
    }
    steps
}

// ---------------------------------------------------------------------------
// Sessions
// ---------------------------------------------------------------------------

/// What a session waits for.
enum Stage {
    Ready,
    Running { on_unrun: Option<String>, on_reject: Option<String> },
    Checking { even_if_unrun: bool, otherwise: Command },
    Probing { path: String },
    Loading { path: String },
    Reprobing { path: String },
    Writing,
    Routing,
    Bridging,
    Taking { program: String },
    Listing { program: String },
    Feeding,
    Ended(Result<(), Failure>),
}

/// What a session waits for.
pub enum StageView {
    /// To be started.
    Ready,
    /// The end of a command.
    Running { on_unrun: Option<Seq<char>>, on_reject: Option<Seq<char>> },
    /// The end of a check.
    Checking { even_if_unrun: bool, otherwise: CommandView },
    /// Whether the switch is there.
    Probing { path: Seq<char> },
    /// The end of loading the module.
    Loading { path: Seq<char> },
    /// Whether the switch is there now.
    Reprobing { path: Seq<char> },
    /// The end of writing.
    Writing,
    /// The routes to the addresses of services.
    Routing,
    /// The routes to the network of the containers.
    Bridging,
    /// The tracked chains.
    Taking { program: Seq<char> },
    /// The listing of the NAT table.
    Listing { program: Seq<char> },
    /// The end of a program that was given input.
    Feeding,
    /// Nothing more.
    Ended(Result<(), FailureView>),
}

/// The content of a [`Session`].
pub struct SessionView {
    pub stage: StageView,
    pub steps: Seq<StepView>,
}

/// An operation under way.
pub struct Session {
    stage: Stage,
    steps: Vec<Step>,
}

impl View for Stage {
    type V = StageView;

    closed spec fn view(&self) -> StageView {
        match self {
            Stage::Ready => StageView::Ready,
            Stage::Running { on_unrun, on_reject } => StageView::Running {
                on_unrun: option_text(*on_unrun),
                on_reject: option_text(*on_reject),
            },
            Stage::Checking { even_if_unrun, otherwise } => StageView::Checking {
                even_if_unrun: *even_if_unrun,
                otherwise: otherwise@,
            },
            Stage::Probing { path } => StageView::Probing { path: path@ },
            Stage::Loading { path } => StageView::Loading { path: path@ },
            Stage::Reprobing { path } => StageView::Reprobing { path: path@ },
            Stage::Writing => StageView::Writing,
            Stage::Routing => StageView::Routing,
            Stage::Bridging => StageView::Bridging,
            Stage::Taking { program } => StageView::Taking { program: program@ },
            Stage::Listing { program } => StageView::Listing { program: program@ },
            Stage::Feeding => StageView::Feeding,
            Stage::Ended(result) => StageView::Ended(result_view(*result)),
        }
    }
}

impl View for Session {
    type V = SessionView;

    closed spec fn view(&self) -> SessionView {
        SessionView { stage: self.stage@, steps: step_views(self.steps@) }
    }
}

/// A session that waits, and what it waits for.
pub open spec fn waiting(stage: StageView, steps: Seq<StepView>, action: ActionView) -> (
    SessionView,
    ActionView,
) {
    (SessionView { stage, steps }, action)
}

/// A session that has come to its end.
pub open spec fn ended(result: Result<(), FailureView>, steps: Seq<StepView>) -> (
    SessionView,
    ActionView,
) {
    waiting(StageView::Ended(result), steps, ActionView::Finish(result))
}

/// A session that waits for the end of a command.
pub open spec fn running(command: CommandView, steps: Seq<StepView>) -> (SessionView, ActionView) {
    waiting(
        StageView::Running { on_unrun: command.on_unrun, on_reject: command.on_reject },
        steps,
        ActionView::Run(command.invocation),
    )
}

/// How a session takes up its next step, or ends well where there is none.
pub open spec fn begun(steps: Seq<StepView>) -> (SessionView, ActionView) {
    if steps.len() == 0 {
        ended(Ok(()), steps)
    } else {
        let rest = steps.drop_first();
        match steps[0] {
            StepView::Run(command) => running(command, rest),
            StepView::Unless { check, even_if_unrun, otherwise } => waiting(
                StageView::Checking { even_if_unrun, otherwise },
                rest,
                ActionView::Run(check),
            ),
            StepView::EnableSwitch { path } => waiting(
                StageView::Probing { path },
                rest,
                ActionView::Probe(path),
            ),
            StepView::EnsureRoute => waiting(
                StageView::Routing,
                rest,
                ActionView::Run(route_query("10.96.0.0/12"@)),
            ),
            StepView::PurgeTracked { program } => waiting(
                StageView::Taking { program },
                rest,
                ActionView::TakeTracked,
            ),
            StepView::PurgeLeftovers { program } => waiting(
                StageView::Listing { program },
                rest,
                ActionView::Run(nat_listing(program)),
            ),
            StepView::Feed { invocation, input } => waiting(
                StageView::Feeding,
                rest,
                ActionView::Feed { invocation, input },
            ),
        }
    }
}

/// The error that an unsuccessful command means, if it means one: that it could not be run, or
/// that it was rejected, with its error output.
pub open spec fn failure_of(
    on_unrun: Option<Seq<char>>,
    on_reject: Option<Seq<char>>,
    reply: ReplyView,
) -> Option<FailureView> {
    match reply {
        ReplyView::Ran { success, stderr, .. } => match on_reject {
            Some(text) => if success {
                None
            } else {
                Some(FailureView { context: text + stderr, cause: None })
            },
            None => None,
        },
        ReplyView::Unrun { cause } | ReplyView::Unfed { cause } | ReplyView::Unawaited { cause } => {
            match on_unrun {
                Some(context) => Some(FailureView { context, cause: Some(cause) }),
                None => None,
            }
        },
        ReplyView::Handed { .. } => None,
    }
}

/// The error that restoring a table ended with, if it did.
pub open spec fn feed_failure(reply: ReplyView) -> Option<FailureView> {
    match reply {
        ReplyView::Unrun { cause } => Some(
            FailureView { context: "Failed to spawn iptables-restore"@, cause: Some(cause) },
        ),
        ReplyView::Unfed { cause } => Some(
            FailureView {
                context: "Failed to write to iptables-restore stdin"@,
                cause: Some(cause),
            },
        ),
        ReplyView::Unawaited { cause } => Some(
            FailureView { context: "Failed to wait for iptables-restore"@, cause: Some(cause) },
        ),
        ReplyView::Ran { success, stderr, .. } => if success {
            None
        } else {
            Some(FailureView { context: "iptables-restore failed: "@ + stderr, cause: None })
        },
        ReplyView::Handed { .. } => Some(
            FailureView { context: "Failed to wait for iptables-restore"@, cause: None },
        ),
    }
}

/// Whether the routes to a network are known, and there are some.
pub open spec fn shows_output(reply: ReplyView) -> bool {
    reply matches ReplyView::Ran { silent, .. } && !silent
}

/// The interface that the routes to a network name: the third word.
pub open spec fn named_interface(reply: ReplyView) -> Option<Seq<char>> {
    match reply {
        ReplyView::Ran { stdout, .. } => nth_word(stdout, 0, 2),
        _ => None,
    }
}

/// How a session goes on after a reply.
pub open spec fn next(s: SessionView, reply: ReplyView) -> (SessionView, ActionView) {
    match s.stage {
        StageView::Ready => begun(s.steps),
        StageView::Running { on_unrun, on_reject } => match failure_of(
            on_unrun,
            on_reject,
            reply,
        ) {
            Some(failure) => ended(Err(failure), s.steps),
            None => begun(s.steps),
        },
        StageView::Checking { even_if_unrun, otherwise } => if reply.succeeded() || (reply !is Ran
            && !even_if_unrun) {
            begun(s.steps)
        } else {
            running(otherwise, s.steps)
        },
        StageView::Probing { path } => if reply.succeeded() {
            waiting(
                StageView::Writing,
                s.steps,
                ActionView::Write { path, contents: "1"@ },
            )
        } else {
            waiting(StageView::Loading { path }, s.steps, ActionView::Run(load_module()))
        },
        StageView::Loading { path } => waiting(
            StageView::Reprobing { path },
            s.steps,
            ActionView::Probe(path),
        ),
        StageView::Reprobing { path } => if reply.succeeded() {
            waiting(
                StageView::Writing,
                s.steps,
                ActionView::Write { path, contents: "1"@ },
            )
        } else {
            begun(s.steps)
        },
        StageView::Writing => begun(s.steps),
        StageView::Routing => if shows_output(reply) {
            begun(s.steps)
        } else {
            waiting(
                StageView::Bridging,
                s.steps,
                ActionView::Run(route_query("172.18.0.0/16"@)),
            )
        },
        StageView::Bridging => match named_interface(reply) {
            Some(interface) => running(
                CommandView {
                    invocation: route_addition(interface),
                    on_unrun: None,
                    on_reject: None,
                },
                s.steps,
            ),
            None => begun(s.steps),
        },
        StageView::Taking { program } => match reply {
            ReplyView::Handed { chains } => begun(
                purge_chains(program, chains, chains.len()) + s.steps,
            ),
            _ => begun(s.steps),
        },
        StageView::Listing { program } => match reply {
            ReplyView::Ran { stdout, .. } => {
                let chains = leftover_chains(stdout);
                begun(purge_chains(program, chains, chains.len()) + s.steps)
            },
            _ => begun(s.steps),
        },
        StageView::Feeding => match feed_failure(reply) {
            Some(failure) => ended(Err(failure), s.steps),
            None => begun(s.steps),
        },
        StageView::Ended(result) => (s, ActionView::Finish(result)),
    }
}

fn find_failure(on_unrun: Option<String>, on_reject: Option<String>, reply: Reply) -> (failure:
    Option<Failure>)
    ensures
        match failure {
            Some(f) => failure_of(option_text(on_unrun), option_text(on_reject), reply@) == Some(
                f@,
            ),
            None => failure_of(option_text(on_unrun), option_text(on_reject), reply@) is None,
        },
{
    match reply {
        Reply::Ran { success, silent, stdout, stderr } => match on_reject {
            Some(text) => if success {
                None
            } else {
                Some(Failure { context: text.concat(stderr.as_str()), cause: None })
            },
            None => None,
        },
        Reply::Unrun { cause } | Reply::Unfed { cause } | Reply::Unawaited { cause } => match on_unrun {
            Some(context) => Some(Failure { context, cause: Some(cause) }),
            None => None,
        },
        Reply::Handed { chains } => None,
    }
}

fn find_feed_failure(reply: Reply) -> (failure: Option<Failure>)
    ensures
        match failure {
            Some(f) => feed_failure(reply@) == Some(f@),
            None => feed_failure(reply@) is None,
        },
{
    match reply {
        Reply::Unrun { cause } => Some(
            Failure {
                context: "Failed to spawn iptables-restore".to_string(),
                cause: Some(cause),
            },
        ),
        Reply::Unfed { cause } => Some(
            Failure {
                context: "Failed to write to iptables-restore stdin".to_string(),
                cause: Some(cause),
            },
        ),
        Reply::Unawaited { cause } => Some(
            Failure {
                context: "Failed to wait for iptables-restore".to_string(),
                cause: Some(cause),
            },
        ),
        Reply::Ran { success, silent, stdout, stderr } => if success {
            None
        } else {
            Some(
                Failure {
                    context: "iptables-restore failed: ".to_string().concat(stderr.as_str()),
                    cause: None,
                },
            )
        },
        Reply::Handed { chains } => Some(
            Failure { context: "Failed to wait for iptables-restore".to_string(), cause: None },
        ),
    }
}

impl Session {
    /// An operation that consists of the given steps.
    pub fn new(steps: Vec<Step>) -> (session: Session)
        ensures
            session@ == (SessionView { stage: StageView::Ready, steps: step_views(steps@) }),
    {
        Session { stage: Stage::Ready, steps }
    }

    fn end(&mut self, result: Result<(), Failure>) -> (action: Action)
        ensures
            (final(self)@, action@) == ended(result_view(result), old(self)@.steps),
    {
        let copy = copy_result(&result);
        self.stage = Stage::Ended(result);
        Action::Finish(copy)
    }

    fn run(&mut self, command: Command) -> (action: Action)
        ensures
            (final(self)@, action@) == running(command@, old(self)@.steps),
    {
        self.stage = Stage::Running { on_unrun: command.on_unrun, on_reject: command.on_reject };
        Action::Run(command.invocation)
    }

    fn begin(&mut self) -> (action: Action)
        ensures
            (final(self)@, action@) == begun(old(self)@.steps),
    {
        if self.steps.len() == 0 {
            return self.end(Ok(()));
        }
        let ghost before = self.steps@;
        let step = self.steps.remove(0);
        assert(step_views(self.steps@) =~= step_views(before).drop_first());
        assert(step@ == step_views(before)[0]);
        match step {
            Step::Run(command) => self.run(command),
            Step::Unless { check, even_if_unrun, otherwise } => {
                self.stage = Stage::Checking { even_if_unrun, otherwise };
                Action::Run(check)
            },
            Step::EnableSwitch { path } => {
                let probed = path.clone();
                self.stage = Stage::Probing { path };
                Action::Probe(probed)
            },
            Step::EnsureRoute => {
                self.stage = Stage::Routing;
                let query = invocation("ip", &["route", "show", "10.96.0.0/12"]);
                assert(query@.args =~= route_query("10.96.0.0/12"@).args);
                Action::Run(query)
            },
            Step::PurgeTracked { program } => {
                self.stage = Stage::Taking { program };
                Action::TakeTracked
            },
            Step::PurgeLeftovers { program } => {
                let listing = invocation(program.as_str(), &["-t", "nat", "-L", "-n"]);
                assert(listing@.args =~= nat_listing(program@).args);
                self.stage = Stage::Listing { program };
                Action::Run(listing)
            },
            Step::Feed { invocation, input } => {
                self.stage = Stage::Feeding;
                Action::Feed { invocation, input }
            },
        }
    }

    fn insert_purges(&mut self, program: &str, chains: &Vec<String>)
        ensures
            final(self)@.stage == old(self)@.stage,
            final(self)@.steps == purge_chains(program@, texts(chains@), chains@.len())
                + old(self)@.steps,
    {
        let mut steps = purge_steps(program, chains);
        let mut rest: Vec<Step> = Vec::new();
        std::mem::swap(&mut rest, &mut self.steps);
        let ghost tail = rest@;
        let ghost front = steps@;
        steps.append(&mut rest);
        assert(step_views(steps@) =~= step_views(front) + step_views(tail));
        self.steps = steps;
    }

    /// Starts the operation and says what to do first.
    pub fn start(&mut self) -> (action: Action)
        ensures
            (final(self)@, action@) == begun(old(self)@.steps),
    {
        self.begin()
    }

    /// Takes what came of the last action and says what to do next.
    pub fn advance(&mut self, outcome: Outcome) -> (action: Action)
        ensures
            (final(self)@, action@) == next(old(self)@, decoded(outcome)),
    {
        self.react(outcome.decode())
    }

    /// Takes what came of the last action, with output in text form, and says what to do next.
    pub fn react(&mut self, reply: Reply) -> (action: Action)
        ensures
            (final(self)@, action@) == next(old(self)@, reply@),
    {
        let mut stage = Stage::Ready;
        std::mem::swap(&mut stage, &mut self.stage);
        match stage {
            Stage::Ready => self.begin(),
            Stage::Running { on_unrun, on_reject } => match find_failure(
                on_unrun,
                on_reject,
                reply,
            ) {
                Some(failure) => self.end(Err(failure)),
                None => self.begin(),
            },
            Stage::Checking { even_if_unrun, otherwise } => {
                let ran = match reply {
                    Reply::Ran { .. } => true,
                    _ => false,
                };
                if reply.succeeded() || (!ran && !even_if_unrun) {
                    self.begin()
                } else {
                    self.run(otherwise)
                }
            },
            Stage::Probing { path } => {
                if reply.succeeded() {
                    self.stage = Stage::Writing;
                    Action::Write { path, contents: "1".to_string() }
                } else {
                    self.stage = Stage::Loading { path };
                    let load = invocation("modprobe", &["br_netfilter"]);
                    assert(load@.args =~= load_module().args);
                    Action::Run(load)
                }
            },
            Stage::Loading { path } => {
                let probed = path.clone();
                self.stage = Stage::Reprobing { path };
                Action::Probe(probed)
            },
            Stage::Reprobing { path } => {
                if reply.succeeded() {
                    self.stage = Stage::Writing;
                    Action::Write { path, contents: "1".to_string() }
                } else {
                    self.begin()
                }
            },
            Stage::Writing => self.begin(),
            Stage::Routing => {
                let known = match reply {
                    Reply::Ran { silent, .. } => !silent,
                    _ => false,
                };
                if known {
                    self.begin()
                } else {
                    self.stage = Stage::Bridging;
                    let query = invocation("ip", &["route", "show", "172.18.0.0/16"]);
                    assert(query@.args =~= route_query("172.18.0.0/16"@).args);
                    Action::Run(query)
                }
            },
            Stage::Bridging => {
                let interface = match reply {
                    Reply::Ran { success, silent, stdout, stderr } => word(
                        &characters(stdout.as_str()),
                        0,
                        2,
                    ),
                    _ => None,
                };
                match interface {
                    Some(name) => {
                        let addition = invocation(
                            "ip",
                            &["route", "add", "10.96.0.0/12", "dev", name.as_str()],
                        );
                        assert(addition@.args =~= route_addition(name@).args);
                        self.run(
                            Command { invocation: addition, on_unrun: None, on_reject: None },
                        )
                    },
                    None => self.begin(),
                }
            },
            Stage::Taking { program } => {
                match reply {
                    Reply::Handed { chains } => {
                        self.insert_purges(program.as_str(), &chains);
                        self.begin()
                    },
                    _ => self.begin(),
                }
            },
            Stage::Listing { program } => {
                match reply {
                    Reply::Ran { success, silent, stdout, stderr } => {
                        let chains = find_leftovers(stdout.as_str());
                        self.insert_purges(program.as_str(), &chains);
                        self.begin()
                    },
                    _ => self.begin(),
                }
            },
            Stage::Feeding => match find_feed_failure(reply) {
                Some(failure) => self.end(Err(failure)),
                None => self.begin(),
            },
            Stage::Ended(result) => {
                let copy = copy_result(&result);
                self.stage = Stage::Ended(result);
                Action::Finish(copy)
            },
        }
    }
}

} // verus!
