//! How a repository gets into a workspace: which commands to run, in what order, and what to do
//! about those that fail.
//!
//! A `Script` says what comes next. Whoever carries it out does so one step at a time: performs
//! what stands first, tells `step` how it went, and goes on with the script that `step` returns.
use vstd::prelude::*;

use crate::remote;

verus! {

/// Where a command runs.
#[derive(Debug, Clone, Copy, PartialEq, Eq, Structural)]
pub enum Place {
    /// In the source repository.
    Source,
    /// In the directory of the workspace that is being set up.
    Target,
    /// Wherever we are.
    Here,
}

/// What a command that fails means.
#[derive(Debug)]
pub enum OnFailure {
    /// The end, with this message.
    Stop(String),
    /// A warning, and on with the rest.
    Warn(String),
    /// Nothing.
    Ignore,
}

/// A command to run.
#[derive(Debug)]
pub struct Task {
    pub program: String,
    pub args: Vec<String>,
    pub place: Place,
    /// What to say before it runs.
    pub announce: Option<String>,
    /// What to say where it cannot be started.
    pub not_started: String,
    pub on_failure: OnFailure,
}

/// Something to find out.
#[derive(Debug, Clone, Copy, PartialEq, Eq, Structural)]
pub enum Question {
    /// Is the source repository there?
    SourceExists,
    /// Does jj manage it?
    SourceHasJj,
    /// Does the bookmark exist in this repository?
    LocalBookmark(Place),
    /// Does the bookmark exist at its `origin`?
    RemoteBookmark(Place),
    /// Does the new clone have submodules?
    HasSubmodules,
}

/// What is still to be done.
#[derive(Debug)]
pub enum Script {
    Done,
    /// Create the directory that the source repository is to stand in.
    MakeParent(Box<Script>),
    /// Run a command.
    Run(Task, Box<Script>),
    /// Find something out, and go on accordingly: the first where it is so, else the second.
    Ask(Question, Box<Script>, Box<Script>),
}

/// The content of an `OnFailure`.
pub enum OnFailureView {
    Stop(Seq<char>),
    Warn(Seq<char>),
    Ignore,
}

/// The content of a `Task`.
pub struct TaskView {
    pub program: Seq<char>,
    pub args: Seq<Seq<char>>,
    pub place: Place,
    pub announce: Option<Seq<char>>,
    pub not_started: Seq<char>,
    pub on_failure: OnFailureView,
}

/// The content of a `Script`.
pub enum ScriptView {
    Done,
    MakeParent(Box<ScriptView>),
    Run(TaskView, Box<ScriptView>),
    Ask(Question, Box<ScriptView>, Box<ScriptView>),
}

impl DeepView for OnFailure {
    type V = OnFailureView;

    open spec fn deep_view(&self) -> OnFailureView {
        match self {
            OnFailure::Stop(msg) => OnFailureView::Stop(msg@),
            OnFailure::Warn(msg) => OnFailureView::Warn(msg@),
            OnFailure::Ignore => OnFailureView::Ignore,
        }
    }
}

impl DeepView for Task {
    type V = TaskView;

    open spec fn deep_view(&self) -> TaskView {
        TaskView {
            program: self.program@,
            args: self.args.deep_view(),
            place: self.place,
            announce: self.announce.deep_view(),
            not_started: self.not_started@,
            on_failure: self.on_failure.deep_view(),
        }
    }
}

/// The content of a script.
pub open spec fn content(s: Script) -> ScriptView
    decreases s,
{
    match s {
        Script::Done => ScriptView::Done,
        Script::MakeParent(rest) => ScriptView::MakeParent(Box::new(content(*rest))),
        Script::Run(task, rest) => ScriptView::Run(task.deep_view(), Box::new(content(*rest))),
        Script::Ask(q, yes, no) => ScriptView::Ask(
            q,
            Box::new(content(*yes)),
            Box::new(content(*no)),
        ),
    }
}

// ---------------------------------------------------------------------------------------------
// Carrying out a script

/// How a command went.
#[derive(Debug, Clone, Copy, PartialEq, Eq, Structural)]
pub enum Outcome {
    NotStarted,
    Failed,
    Succeeded,
}

/// What happened.
#[derive(Debug, Clone, Copy, PartialEq, Eq, Structural)]
pub enum Event {
    /// The directory was created.
    Made,
    /// The command was run.
    Ran(Outcome),
    /// It is so, or it is not.
    Answered(bool),
}

/// What to do next.
#[derive(Debug)]
pub enum Step {
    /// Go on with this, after saying the warning.
    Go(Script, Option<String>),
    /// Stop, with this message.
    Stop(String),
}

/// The content of a `Step`.
pub enum StepView {
    Go(ScriptView, Option<Seq<char>>),
    Stop(Seq<char>),
}

impl DeepView for Step {
    type V = StepView;

    open spec fn deep_view(&self) -> StepView {
        match self {
            Step::Go(s, w) => StepView::Go(content(*s), w.deep_view()),
            Step::Stop(msg) => StepView::Stop(msg@),
        }
    }
}

/// Whether the event is about what stands first in the script.
pub open spec fn fits(s: ScriptView, e: Event) -> bool {
    match s {
        ScriptView::Done => false,
        ScriptView::MakeParent(_) => e is Made,
        ScriptView::Run(_, _) => e is Ran,
        ScriptView::Ask(_, _, _) => e is Answered,
    }
}

/// What to do next, given what happened.
pub open spec fn after(s: ScriptView, e: Event) -> StepView {
    match (s, e) {
        (ScriptView::MakeParent(rest), _) => StepView::Go(*rest, None),
        (ScriptView::Ask(_, yes, no), Event::Answered(b)) => StepView::Go(
            if b {
                *yes
            } else {
                *no
            },
            None,
        ),
        (ScriptView::Run(task, rest), Event::Ran(Outcome::Succeeded)) => StepView::Go(*rest, None),
        (ScriptView::Run(task, rest), Event::Ran(Outcome::NotStarted)) => StepView::Stop(
            task.not_started,
        ),
        (ScriptView::Run(task, rest), Event::Ran(Outcome::Failed)) => match task.on_failure {
            OnFailureView::Stop(msg) => StepView::Stop(msg),
            OnFailureView::Warn(msg) => StepView::Go(*rest, Some(msg)),
            OnFailureView::Ignore => StepView::Go(*rest, None),
        },
        _ => StepView::Go(s, None),
    }
}

/// What to do next, given what happened to what stands first in the script.
pub fn step(script: Script, event: Event) -> (out: Step)
    requires
        fits(content(script), event),
    ensures
        out.deep_view() == after(content(script), event),
{
    match script {
        Script::Done => Step::Go(Script::Done, None),
        Script::MakeParent(rest) => Step::Go(*rest, None),
        Script::Ask(q, yes, no) => match event {
            Event::Answered(true) => Step::Go(*yes, None),
            _ => Step::Go(*no, None),
        },
        Script::Run(task, rest) => match event {
            Event::Ran(Outcome::Succeeded) => Step::Go(*rest, None),
            Event::Ran(Outcome::NotStarted) => Step::Stop(task.not_started),
            _ => match task.on_failure {
                OnFailure::Stop(msg) => Step::Stop(msg),
                OnFailure::Warn(msg) => Step::Go(*rest, Some(msg)),
                OnFailure::Ignore => Step::Go(*rest, None),
            },
        },
    }
}

/// What comes of a script: the commands that are run, and the message that it stops with, if it
/// does.
pub struct Course {
    pub ran: Seq<TaskView>,
    pub stopped: Option<Seq<char>>,
}

/// What comes of a script where `facts` answers the questions and `exits` says how each command
/// goes.
pub open spec fn course(
    s: ScriptView,
    facts: spec_fn(Question) -> bool,
    exits: spec_fn(TaskView) -> Outcome,
) -> Course
    decreases s,
{
    match s {
        ScriptView::Done => Course { ran: seq![], stopped: None },
        ScriptView::MakeParent(rest) => course(*rest, facts, exits),
        ScriptView::Ask(q, yes, no) => if facts(q) {
            course(*yes, facts, exits)
        } else {
            course(*no, facts, exits)
        },
        ScriptView::Run(task, rest) => match after(s, Event::Ran(exits(task))) {
            StepView::Stop(msg) => Course { ran: seq![task], stopped: Some(msg) },
            StepView::Go(_, _) => {
                let c = course(*rest, facts, exits);
                Course { ran: seq![task] + c.ran, stopped: c.stopped }
            },
        },
    }
}

/// The commands of a script that all succeed.
pub open spec fn commands(s: ScriptView, facts: spec_fn(Question) -> bool) -> Seq<TaskView>
    decreases s,
{
    match s {
        ScriptView::Done => seq![],
        ScriptView::MakeParent(rest) => commands(*rest, facts),
        ScriptView::Ask(q, yes, no) => if facts(q) {
            commands(*yes, facts)
        } else {
            commands(*no, facts)
        },
        ScriptView::Run(task, rest) => seq![task] + commands(*rest, facts),
    }
}

/// Whether a command that went like this stops the script.
pub open spec fn stops(task: TaskView, o: Outcome) -> bool {
    o == Outcome::NotStarted || (o == Outcome::Failed && task.on_failure is Stop)
}

/// The commands that are run are the first ones of those that would be if all went well. A script
/// that does not stop has run them all, and none was one to stop for; one that stops does so at
/// the first command that is one to stop for, and runs nothing behind it.
pub proof fn law_course(
    s: ScriptView,
    facts: spec_fn(Question) -> bool,
    exits: spec_fn(TaskView) -> Outcome,
)
    ensures
        ({
            let c = course(s, facts, exits);
            let all = commands(s, facts);
            &&& c.ran.is_prefix_of(all)
            &&& c.stopped is None ==> c.ran == all && forall|i: int|
                0 <= i < all.len() ==> !stops(#[trigger] all[i], exits(all[i]))
            &&& c.stopped is Some ==> c.ran.len() > 0 && stops(c.ran.last(), exits(c.ran.last()))
                && forall|i: int|
                0 <= i < c.ran.len() - 1 ==> !stops(#[trigger] c.ran[i], exits(c.ran[i]))
        }),
    decreases s,
{
    let c = course(s, facts, exits);
    let all = commands(s, facts);
    match s {
        ScriptView::Done => {},
        ScriptView::MakeParent(rest) => {
            law_course(*rest, facts, exits);
        },
        ScriptView::Ask(q, yes, no) => {
            law_course(*yes, facts, exits);
            law_course(*no, facts, exits);
        },
        ScriptView::Run(task, rest) => {
            law_course(*rest, facts, exits);
            let d = course(*rest, facts, exits);
            let more = commands(*rest, facts);
            if stops(task, exits(task)) {
                assert(c.ran =~= all.take(1));
            } else {
                assert(c.ran == seq![task] + d.ran);
                assert(c.ran =~= all.take(c.ran.len() as int)) by {
                    assert(d.ran =~= more.take(d.ran.len() as int));
                }
                if c.stopped is None {
                    assert forall|i: int| 0 <= i < all.len() implies !stops(
                        #[trigger] all[i],
                        exits(all[i]),
                    ) by {
                        if i > 0 {
                            assert(all[i] == more[i - 1]);
                        }
                    }
                } else {
                    assert(c.ran.last() == d.ran.last());
                    assert forall|i: int| 0 <= i < c.ran.len() - 1 implies !stops(
                        #[trigger] c.ran[i],
                        exits(c.ran[i]),
                    ) by {
                        if i > 0 {
                            assert(c.ran[i] == d.ran[i - 1]);
                        }
                    }
                }
            }
        },
    }
}

// ---------------------------------------------------------------------------------------------
// The commands

/// A command of jj that has to succeed.
pub open spec fn jj_task(
    args: Seq<Seq<char>>,
    place: Place,
    announce: Option<Seq<char>>,
    not_started: Seq<char>,
    failed: Seq<char>,
) -> TaskView {
    TaskView {
        program: "jj"@,
        args,
        place,
        announce,
        not_started,
        on_failure: OnFailureView::Stop(failed),
    }
}

fn jj(
    args: Vec<String>,
    place: Place,
    announce: Option<String>,
    not_started: &str,
    failed: String,
) -> (out: Task)
    ensures
        out.deep_view() == jj_task(
            args.deep_view(),
            place,
            announce.deep_view(),
            not_started@,
            failed@,
        ),
{
    Task {
        program: "jj".to_owned(),
        args,
        place,
        announce,
        not_started: not_started.to_owned(),
        on_failure: OnFailure::Stop(failed),
    }
}

/// `before`, `middle` and `behind` in one.
fn phrase(before: &str, middle: &str, behind: &str) -> (out: String)
    ensures
        out@ == before@ + middle@ + behind@,
{
    let mut out = before.to_owned();
    out.append(middle);
    out.append(behind);
    out
}

/// Gives an existing repository to jj.
pub open spec fn init_task() -> TaskView {
    jj_task(
        seq!["git"@, "init"@, "--colocate"@],
        Place::Source,
        Some("Initializing jj in existing git repo..."@),
        "Failed to run jj git init --colocate"@,
        "jj git init --colocate failed"@,
    )
}

/// Brings the source repository up to date.
pub open spec fn fetch_task() -> TaskView {
    jj_task(
        seq!["git"@, "fetch"@, "--all-remotes"@],
        Place::Source,
        Some("Source repo exists, fetching latest..."@),
        "Failed to run jj git fetch"@,
        "jj git fetch failed"@,
    )
}

/// Clones `url` to `to`, after saying `announce`.
pub open spec fn clone_task(url: Seq<char>, to: Seq<char>, announce: Seq<char>) -> TaskView {
    jj_task(
        seq!["git"@, "clone"@, "--colocate"@, url, to],
        Place::Here,
        Some(announce),
        "Failed to run jj git clone"@,
        "jj git clone failed"@,
    )
}

/// Adds a workspace for `branch` to the source repository, at `target`.
pub open spec fn add_task(branch: Seq<char>, target: Seq<char>) -> TaskView {
    jj_task(
        seq!["workspace"@, "add"@, "--name"@, remote::workspace_name(branch), target],
        Place::Source,
        None,
        "Failed to run jj workspace add"@,
        "jj workspace add failed"@,
    )
}

/// Goes to the bookmark `branch`.
pub open spec fn go_task(branch: Seq<char>) -> TaskView {
    jj_task(
        seq!["new"@, branch],
        Place::Target,
        None,
        "Failed to run jj new"@,
        "jj new "@ + branch + " failed"@,
    )
}

/// Goes to the trunk, after saying `announce`.
pub open spec fn trunk_task(announce: Option<Seq<char>>) -> TaskView {
    jj_task(
        seq!["new"@, "trunk()"@],
        Place::Target,
        announce,
        "Failed to run jj new trunk()"@,
        "jj new trunk() failed"@,
    )
}

/// Creates the bookmark `branch`.
pub open spec fn create_task(branch: Seq<char>) -> TaskView {
    jj_task(
        seq!["bookmark"@, "create"@, branch],
        Place::Target,
        None,
        "Failed to create bookmark"@,
        "jj bookmark create "@ + branch + " failed"@,
    )
}

/// Tracks the bookmark `branch` of `origin`.
pub open spec fn track_task(branch: Seq<char>, on_failure: OnFailureView) -> TaskView {
    TaskView {
        program: "jj"@,
        args: seq!["bookmark"@, "track"@, branch + "@origin"@],
        place: Place::Target,
        announce: None,
        not_started: "Failed to track remote bookmark"@,
        on_failure,
    }
}

/// Sets up the submodules.
pub open spec fn submodule_task() -> TaskView {
    TaskView {
        program: "git"@,
        args: seq!["submodule"@, "update"@, "--init"@, "--recursive"@],
        place: Place::Target,
        announce: Some("Initializing submodules..."@),
        not_started: "Failed to init submodules"@,
        on_failure: OnFailureView::Warn("Warning: submodule initialization failed"@),
    }
}

fn go(branch: &str) -> (out: Task)
    ensures
        out.deep_view() == go_task(branch@),
{
    let args = vec!["new".to_owned(), branch.to_owned()];
    assert(args.deep_view() =~= seq!["new"@, branch@]);
    jj(args, Place::Target, None, "Failed to run jj new", phrase("jj new ", branch, " failed"))
}

fn trunk(announce: Option<String>) -> (out: Task)
    ensures
        out.deep_view() == trunk_task(announce.deep_view()),
{
    let args = vec!["new".to_owned(), "trunk()".to_owned()];
    assert(args.deep_view() =~= seq!["new"@, "trunk()"@]);
    jj(
        args,
        Place::Target,
        announce,
        "Failed to run jj new trunk()",
        "jj new trunk() failed".to_owned(),
    )
}

fn create(branch: &str) -> (out: Task)
    ensures
        out.deep_view() == create_task(branch@),
{
    let args = vec!["bookmark".to_owned(), "create".to_owned(), branch.to_owned()];
    assert(args.deep_view() =~= seq!["bookmark"@, "create"@, branch@]);
    jj(
        args,
        Place::Target,
        None,
        "Failed to create bookmark",
        phrase("jj bookmark create ", branch, " failed"),
    )
}

fn track(branch: &str, on_failure: OnFailure) -> (out: Task)
    ensures
        out.deep_view() == track_task(branch@, on_failure.deep_view()),
{
    let mut name = branch.to_owned();
    name.append("@origin");
    let args = vec!["bookmark".to_owned(), "track".to_owned(), name];
    assert(args.deep_view() =~= seq!["bookmark"@, "track"@, branch@ + "@origin"@]);
    Task {
        program: "jj".to_owned(),
        args,
        place: Place::Target,
        announce: None,
        not_started: "Failed to track remote bookmark".to_owned(),
        on_failure,
    }
}

fn clone_to(url: String, to: &str, announce: String) -> (out: Task)
    ensures
        out.deep_view() == clone_task(url@, to@, announce@),
{
    let args = vec![
        "git".to_owned(),
        "clone".to_owned(),
        "--colocate".to_owned(),
        url,
        to.to_owned(),
    ];
    assert(args.deep_view() =~= seq!["git"@, "clone"@, "--colocate"@, url@, to@]);
    jj(
        args,
        Place::Here,
        Some(announce),
        "Failed to run jj git clone",
        "jj git clone failed".to_owned(),
    )
}

// ---------------------------------------------------------------------------------------------
// The scripts

/// A script that ends with this command.
pub open spec fn last(task: TaskView) -> ScriptView {
    ScriptView::Run(task, Box::new(ScriptView::Done))
}

/// A command, and then the rest.
pub open spec fn first(task: TaskView, rest: ScriptView) -> ScriptView {
    ScriptView::Run(task, Box::new(rest))
}

/// What is asked, and what follows.
pub open spec fn ask(q: Question, yes: ScriptView, no: ScriptView) -> ScriptView {
    ScriptView::Ask(q, Box::new(yes), Box::new(no))
}

/// What is said before the source repository is cloned.
pub open spec fn cloning(url: Seq<char>, source: Seq<char>) -> Seq<char> {
    "Cloning "@ + url + " to "@ + source + "..."@
}

/// How the source repository is made sure of: one that is there is given to jj where it is not
/// yet, and brought up to date; one that is not is cloned.
pub open spec fn source_script(
    namespace: Seq<char>,
    repo: Seq<char>,
    source: Seq<char>,
) -> ScriptView {
    let url = remote::clone_url(namespace, repo);
    ask(
        Question::SourceExists,
        ask(
            Question::SourceHasJj,
            last(fetch_task()),
            first(init_task(), last(fetch_task())),
        ),
        ScriptView::MakeParent(Box::new(last(clone_task(url, source, cloning(url, source))))),
    )
}

fn init() -> (out: Task)
    ensures
        out.deep_view() == init_task(),
{
    let args = vec!["git".to_owned(), "init".to_owned(), "--colocate".to_owned()];
    assert(args.deep_view() =~= seq!["git"@, "init"@, "--colocate"@]);
    jj(
        args,
        Place::Source,
        Some("Initializing jj in existing git repo...".to_owned()),
        "Failed to run jj git init --colocate",
        "jj git init --colocate failed".to_owned(),
    )
}

fn fetch() -> (out: Task)
    ensures
        out.deep_view() == fetch_task(),
{
    let args = vec!["git".to_owned(), "fetch".to_owned(), "--all-remotes".to_owned()];
    assert(args.deep_view() =~= seq!["git"@, "fetch"@, "--all-remotes"@]);
    jj(
        args,
        Place::Source,
        Some("Source repo exists, fetching latest...".to_owned()),
        "Failed to run jj git fetch",
        "jj git fetch failed".to_owned(),
    )
}

fn run(task: Task, rest: Script) -> (out: Script)
    ensures
        content(out) == first(task.deep_view(), content(rest)),
{
    Script::Run(task, Box::new(rest))
}

fn inquire(q: Question, yes: Script, no: Script) -> (out: Script)
    ensures
        content(out) == ask(q, content(yes), content(no)),
{
    Script::Ask(q, Box::new(yes), Box::new(no))
}

/// How to make sure of the source repository of `namespace/repo`, which is to stand at `source`.
pub fn ensure_source_repo(namespace: &str, repo: &str, source: &str) -> (out: Script)
    ensures
        content(out) == source_script(namespace@, repo@, source@),
{
    let url = remote::ssh_url(namespace, repo);
    let mut announce = "Cloning ".to_owned();
    announce.append(url.as_str());
    announce.append(" to ");
    announce.append(source);
    announce.append("...");
    let here = inquire(
        Question::SourceHasJj,
        run(fetch(), Script::Done),
        run(init(), run(fetch(), Script::Done)),
    );
    let clone = run(clone_to(url, source, announce), Script::Done);
    inquire(Question::SourceExists, here, Script::MakeParent(Box::new(clone)))
}

/// How a clone of `namespace/repo` begins: nothing is done where the target is there already, and
/// else the source repository is made sure of. What follows is `do_deep_clone` or `do_workspace`.
pub fn cmd_clone(
    namespace: &str,
    repo: &str,
    source: &str,
    target: &str,
    target_exists: bool,
) -> (out: Result<Script, String>)
    ensures
        match out {
            Ok(script) => !target_exists && content(script) == source_script(
                namespace@,
                repo@,
                source@,
            ),
            Err(msg) => target_exists && msg@ == "Target directory already exists: "@ + target@,
        },
{
    if target_exists {
        let mut msg = "Target directory already exists: ".to_owned();
        msg.append(target);
        return Err(msg);
    }
    Ok(ensure_source_repo(namespace, repo, source))
}

/// How a bookmark that exists nowhere is created, on top of the trunk.
pub open spec fn create_script(branch: Seq<char>, announce: Option<Seq<char>>) -> ScriptView {
    first(trunk_task(announce), last(create_task(branch)))
}

/// What a failure to track a bookmark means for a workspace.
pub open spec fn track_or_stop() -> OnFailureView {
    OnFailureView::Stop("jj bookmark track failed"@)
}

/// How a workspace for `branch` is set up at `target`. Both questions about the bookmark are asked
/// in any case.
pub open spec fn workspace_script(branch: Seq<char>, target: Seq<char>) -> ScriptView {
    first(
        add_task(branch, target),
        ask(
            Question::LocalBookmark(Place::Source),
            ask(
                Question::RemoteBookmark(Place::Source),
                last(go_task(branch)),
                last(go_task(branch)),
            ),
            ask(
                Question::RemoteBookmark(Place::Source),
                first(track_task(branch, track_or_stop()), last(go_task(branch))),
                create_script(branch, None),
            ),
        ),
    )
}

fn add_workspace(branch: &str, target: &str) -> (out: Task)
    ensures
        out.deep_view() == add_task(branch@, target@),
{
    let args = vec![
        "workspace".to_owned(),
        "add".to_owned(),
        "--name".to_owned(),
        remote::sanitize_workspace_name(branch),
        target.to_owned(),
    ];
    assert(args.deep_view() =~= seq![
        "workspace"@,
        "add"@,
        "--name"@,
        remote::workspace_name(branch@),
        target@,
    ]);
    jj(
        args,
        Place::Source,
        None,
        "Failed to run jj workspace add",
        "jj workspace add failed".to_owned(),
    )
}

/// How to set up a workspace of the source repository for `branch` at `target`: it is added, and
/// taken to the bookmark; one that is only at `origin` is tracked first, and one that exists
/// nowhere is created on top of the trunk.
pub fn do_workspace(branch: &str, target: &str) -> (out: Script)
    ensures
        content(out) == workspace_script(branch@, target@),
{
    let stop = OnFailure::Stop("jj bookmark track failed".to_owned());
    let here = inquire(
        Question::RemoteBookmark(Place::Source),
        run(go(branch), Script::Done),
        run(go(branch), Script::Done),
    );
    let elsewhere = inquire(
        Question::RemoteBookmark(Place::Source),
        run(track(branch, stop), run(go(branch), Script::Done)),
        run(trunk(None), run(create(branch), Script::Done)),
    );
    run(
        add_workspace(branch, target),
        inquire(Question::LocalBookmark(Place::Source), here, elsewhere),
    )
}

/// What is said before a full clone.
pub open spec fn deep_cloning(url: Seq<char>, target: Seq<char>) -> Seq<char> {
    "Deep cloning "@ + url + " to "@ + target + "..."@
}

/// What is said before a bookmark is created in a full clone.
pub open spec fn creating(branch: Seq<char>) -> Seq<char> {
    "Bookmark '"@ + branch + "' doesn't exist, creating new bookmark..."@
}

/// How a full clone ends: with its submodules, if it has any.
pub open spec fn submodule_script() -> ScriptView {
    ask(Question::HasSubmodules, last(submodule_task()), ScriptView::Done)
}

/// How a full clone of `url` for `branch` is set up at `target`.
pub open spec fn deep_script(url: Seq<char>, branch: Seq<char>, target: Seq<char>) -> ScriptView {
    first(
        clone_task(url, target, deep_cloning(url, target)),
        ask(
            Question::LocalBookmark(Place::Target),
            ask(
                Question::RemoteBookmark(Place::Target),
                first(go_task(branch), submodule_script()),
                first(go_task(branch), submodule_script()),
            ),
            ask(
                Question::RemoteBookmark(Place::Target),
                first(
                    track_task(branch, OnFailureView::Ignore),
                    first(go_task(branch), submodule_script()),
                ),
                first(
                    trunk_task(Some(creating(branch))),
                    first(create_task(branch), submodule_script()),
                ),
            ),
        ),
    )
}

fn submodules() -> (out: Script)
    ensures
        content(out) == submodule_script(),
{
    let args = vec![
        "submodule".to_owned(),
        "update".to_owned(),
        "--init".to_owned(),
        "--recursive".to_owned(),
    ];
    assert(args.deep_view() =~= seq!["submodule"@, "update"@, "--init"@, "--recursive"@]);
    let task = Task {
        program: "git".to_owned(),
        args,
        place: Place::Target,
        announce: Some("Initializing submodules...".to_owned()),
        not_started: "Failed to init submodules".to_owned(),
        on_failure: OnFailure::Warn("Warning: submodule initialization failed".to_owned()),
    };
    assert(task.deep_view() == submodule_task());
    inquire(Question::HasSubmodules, run(task, Script::Done), Script::Done)
}

fn go_and_submodules(branch: &str) -> (out: Script)
    ensures
        content(out) == first(go_task(branch@), submodule_script()),
{
    run(go(branch), submodules())
}

/// How to set up a full clone of `url` for `branch` at `target`: it is cloned and taken to the
/// bookmark; one that is only at `origin` is tracked first, whether that works or not, and one
/// that exists nowhere is created on top of the trunk. Submodules, which jj does not handle, are
/// set up by git.
pub fn do_deep_clone(url: &str, branch: &str, target: &str) -> (out: Script)
    ensures
        content(out) == deep_script(url@, branch@, target@),
{
    let mut announce = "Deep cloning ".to_owned();
    announce.append(url);
    announce.append(" to ");
    announce.append(target);
    announce.append("...");
    let say = phrase("Bookmark '", branch, "' doesn't exist, creating new bookmark...");
    let here = inquire(
        Question::RemoteBookmark(Place::Target),
        go_and_submodules(branch),
        go_and_submodules(branch),
    );
    let elsewhere = inquire(
        Question::RemoteBookmark(Place::Target),
        run(track(branch, OnFailure::Ignore), go_and_submodules(branch)),
        run(trunk(Some(say)), run(create(branch), submodules())),
    );
    run(
        clone_to(url.to_owned(), target, announce),
        inquire(Question::LocalBookmark(Place::Target), here, elsewhere),
    )
}

// ---------------------------------------------------------------------------------------------
// What the scripts do

/// The source repository is cloned exactly where it is not there, and given to jj exactly where
/// it is there without jj.
pub proof fn law_source_commands(
    namespace: Seq<char>,
    repo: Seq<char>,
    source: Seq<char>,
    facts: spec_fn(Question) -> bool,
)
    ensures
        commands(source_script(namespace, repo, source), facts) == (if !facts(
            Question::SourceExists,
        ) {
            let url = remote::clone_url(namespace, repo);
            seq![clone_task(url, source, cloning(url, source))]
        } else if facts(Question::SourceHasJj) {
            seq![fetch_task()]
        } else {
            seq![init_task(), fetch_task()]
        }),
{
    reveal_with_fuel(commands, 6);
    let url = remote::clone_url(namespace, repo);
    let c = clone_task(url, source, cloning(url, source));
    assert(seq![c] + Seq::<TaskView>::empty() =~= seq![c]);
    assert(seq![fetch_task()] + Seq::<TaskView>::empty() =~= seq![fetch_task()]);
    assert(seq![init_task()] + seq![fetch_task()] =~= seq![init_task(), fetch_task()]);
}

/// A workspace is added first; then it goes to the bookmark where there is one, tracking it first
/// where it is only at `origin`, and to the trunk, with a new bookmark, where there is none.
pub proof fn law_workspace_commands(
    branch: Seq<char>,
    target: Seq<char>,
    facts: spec_fn(Question) -> bool,
)
    ensures
        commands(workspace_script(branch, target), facts) == seq![add_task(branch, target)] + (
        if facts(Question::LocalBookmark(Place::Source)) {
            seq![go_task(branch)]
        } else if facts(Question::RemoteBookmark(Place::Source)) {
            seq![track_task(branch, track_or_stop()), go_task(branch)]
        } else {
            seq![trunk_task(None), create_task(branch)]
        }),
{
    reveal_with_fuel(commands, 6);
    let t = track_task(branch, track_or_stop());
    assert(seq![go_task(branch)] + Seq::<TaskView>::empty() =~= seq![go_task(branch)]);
    assert(seq![t] + seq![go_task(branch)] =~= seq![t, go_task(branch)]);
    assert(seq![create_task(branch)] + Seq::<TaskView>::empty() =~= seq![create_task(branch)]);
    assert(seq![trunk_task(None)] + seq![create_task(branch)] =~= seq![
        trunk_task(None),
        create_task(branch),
    ]);
}

/// A full clone goes to the bookmark in the same way, and sets up the submodules where it has any.
pub proof fn law_deep_commands(
    url: Seq<char>,
    branch: Seq<char>,
    target: Seq<char>,
    facts: spec_fn(Question) -> bool,
)
    ensures
        commands(deep_script(url, branch, target), facts) == seq![
            clone_task(url, target, deep_cloning(url, target)),
        ] + (if facts(Question::LocalBookmark(Place::Target)) {
            seq![go_task(branch)]
        } else if facts(Question::RemoteBookmark(Place::Target)) {
            seq![track_task(branch, OnFailureView::Ignore), go_task(branch)]
        } else {
            seq![trunk_task(Some(creating(branch))), create_task(branch)]
        }) + (if facts(Question::HasSubmodules) {
            seq![submodule_task()]
        } else {
            seq![]
        }),
{
    reveal_with_fuel(commands, 8);
    let c = clone_task(url, target, deep_cloning(url, target));
    let t = track_task(branch, OnFailureView::Ignore);
    let n = trunk_task(Some(creating(branch)));
    let sub = if facts(Question::HasSubmodules) {
        seq![submodule_task()]
    } else {
        Seq::<TaskView>::empty()
    };
    assert(commands(submodule_script(), facts) =~= sub);
    let go = seq![go_task(branch)] + sub;
    assert(seq![c] + go =~= seq![c] + seq![go_task(branch)] + sub);
    assert(seq![c] + (seq![t] + go) =~= seq![c] + seq![t, go_task(branch)] + sub);
    assert(seq![c] + (seq![n] + (seq![create_task(branch)] + sub)) =~= seq![c] + seq![
        n,
        create_task(branch),
    ] + sub);
}

// ---------------------------------------------------------------------------------------------
// What the scripts come to

/// What follows an event: an answer picks its branch; a directory that was made, and a command that
/// succeeded, lead on without a word; a command that could not be started ends all, with what the
/// task has to say of that; and one that failed ends all, is warned of or is passed over, as the
/// task says.
pub proof fn law_after(task: TaskView, q: Question, yes: ScriptView, no: ScriptView)
    ensures
        after(first(task, yes), Event::Ran(Outcome::Succeeded)) == StepView::Go(yes, None),
        after(first(task, yes), Event::Ran(Outcome::NotStarted)) == StepView::Stop(task.not_started),
        match task.on_failure {
            OnFailureView::Stop(msg) => after(first(task, yes), Event::Ran(Outcome::Failed))
                == StepView::Stop(msg),
            OnFailureView::Warn(msg) => after(first(task, yes), Event::Ran(Outcome::Failed))
                == StepView::Go(yes, Some(msg)),
            OnFailureView::Ignore => after(first(task, yes), Event::Ran(Outcome::Failed))
                == StepView::Go(yes, None),
        },
        after(ask(q, yes, no), Event::Answered(true)) == StepView::Go(yes, None),
        after(ask(q, yes, no), Event::Answered(false)) == StepView::Go(no, None),
        after(ScriptView::MakeParent(Box::new(yes)), Event::Made) == StepView::Go(yes, None),
{
}

/// Where the source repository is not there, it is cloned to its place from GitHub by namespace and
/// name; otherwise it is fetched, after jj has been set up in it where it was not. All of this is
/// jj's work, in the source repository if it is there, and no failure is passed over.
pub proof fn law_source_is_up_to_date(
    namespace: Seq<char>,
    repo: Seq<char>,
    source: Seq<char>,
    facts: spec_fn(Question) -> bool,
)
    ensures
        ({
            let cs = commands(source_script(namespace, repo, source), facts);
            let there = facts(Question::SourceExists);
            let has_jj = facts(Question::SourceHasJj);
            &&& !there ==> cs.len() == 1 && cs[0].args == seq![
                "git"@,
                "clone"@,
                "--colocate"@,
                "git@github.com:"@ + namespace + "/"@ + repo + ".git"@,
                source,
            ]
            &&& there ==> cs.len() == (if has_jj {
                1nat
            } else {
                2nat
            })
            &&& there ==> cs.last().args == seq!["git"@, "fetch"@, "--all-remotes"@]
            &&& there && !has_jj ==> cs[0].args == seq!["git"@, "init"@, "--colocate"@]
            &&& forall|k: int|
                0 <= k < cs.len() ==> (#[trigger] cs[k]).program == "jj"@ && cs[k].on_failure is Stop
                    && cs[k].announce is Some && (there ==> cs[k].place == Place::Source)
        }),
{
    law_source_commands(namespace, repo, source, facts);
}

/// A workspace is added to the source repository, and then stands on the bookmark: on the one that
/// exists, tracked first where it exists at the remote only, or on one that is created on top of the
/// trunk. All of this is jj's work, in the new workspace but for the first command, and no failure is
/// passed over.
pub proof fn law_workspace_is_on_the_bookmark(
    branch: Seq<char>,
    target: Seq<char>,
    facts: spec_fn(Question) -> bool,
)
    ensures
        ({
            let cs = commands(workspace_script(branch, target), facts);
            let here = facts(Question::LocalBookmark(Place::Source));
            let there = facts(Question::RemoteBookmark(Place::Source));
            &&& cs.len() == (if here {
                2nat
            } else {
                3nat
            })
            &&& cs[0].args == seq![
                "workspace"@,
                "add"@,
                "--name"@,
                remote::workspace_name(branch),
                target,
            ]
            &&& cs[0].place == Place::Source
            &&& here || there ==> cs.last().args == seq!["new"@, branch]
            &&& !here && there ==> cs[1].args == seq!["bookmark"@, "track"@, branch + "@origin"@]
            &&& !here && !there ==> cs[1].args == seq!["new"@, "trunk()"@] && cs[2].args == seq![
                "bookmark"@,
                "create"@,
                branch,
            ]
            &&& forall|k: int|
                0 <= k < cs.len() ==> (#[trigger] cs[k]).program == "jj"@ && cs[k].on_failure is Stop
                    && (k > 0 ==> cs[k].place == Place::Target)
        }),
{
    law_workspace_commands(branch, target, facts);
}

/// A deep clone is made from the URL, and then stands on the bookmark in the same way; a failure to
/// track it is passed over. Behind that, submodules are set up where there are any, with a warning
/// where that fails.
pub proof fn law_deep_clone_is_on_the_bookmark(
    url: Seq<char>,
    branch: Seq<char>,
    target: Seq<char>,
    facts: spec_fn(Question) -> bool,
)
    ensures
        ({
            let all = commands(deep_script(url, branch, target), facts);
            let here = facts(Question::LocalBookmark(Place::Target));
            let there = facts(Question::RemoteBookmark(Place::Target));
            let subs = facts(Question::HasSubmodules);
            let n: int = if here {
                2
            } else {
                3
            };
            let cs = all.take(n);
            &&& all.len() == n + (if subs {
                1int
            } else {
                0int
            })
            &&& cs[0].args == seq!["git"@, "clone"@, "--colocate"@, url, target]
            &&& here || there ==> cs.last().args == seq!["new"@, branch]
            &&& !here && there ==> cs[1].args == seq!["bookmark"@, "track"@, branch + "@origin"@]
                && cs[1].on_failure is Ignore
            &&& !here && !there ==> cs[1].args == seq!["new"@, "trunk()"@] && cs[2].args == seq![
                "bookmark"@,
                "create"@,
                branch,
            ]
            &&& forall|k: int|
                0 <= k < n ==> (#[trigger] cs[k]).program == "jj"@ && (cs[k].on_failure is Stop || (k
                    == 1 && !here && there)) && (k > 0 ==> cs[k].place == Place::Target)
            &&& subs ==> {
                let t = all.last();
                &&& t.program == "git"@ && t.place == Place::Target && t.on_failure is Warn
                &&& t.args == seq!["submodule"@, "update"@, "--init"@, "--recursive"@]
            }
        }),
{
    law_deep_commands(url, branch, target, facts);
}

/// What is said along the way: a clone names the URL and the place, in this order; a deep clone says
/// where it has to create the bookmark; a workspace is set up without a word.
pub proof fn law_what_is_announced(
    namespace: Seq<char>,
    repo: Seq<char>,
    url: Seq<char>,
    branch: Seq<char>,
    target: Seq<char>,
    facts: spec_fn(Question) -> bool,
)
    ensures
        !facts(Question::SourceExists) ==> commands(
            source_script(namespace, repo, target),
            facts,
        )[0].announce == Some(
            "Cloning "@ + remote::clone_url(namespace, repo) + " to "@ + target + "..."@,
        ),
        commands(deep_script(url, branch, target), facts)[0].announce == Some(
            "Deep cloning "@ + url + " to "@ + target + "..."@,
        ),
        !facts(Question::LocalBookmark(Place::Target)) && !facts(
            Question::RemoteBookmark(Place::Target),
        ) ==> commands(deep_script(url, branch, target), facts)[1].announce == Some(
            "Bookmark '"@ + branch + "' doesn't exist, creating new bookmark..."@,
        ),
        forall|k: int|
            0 <= k < commands(workspace_script(branch, target), facts).len() ==> (
            #[trigger] commands(workspace_script(branch, target), facts)[k]).announce is None,
{
    law_source_commands(namespace, repo, target, facts);
    law_deep_commands(url, branch, target, facts);
    law_workspace_commands(branch, target, facts);
}

/// What is said where going to a branch, or creating its bookmark, fails: which branch it was.
pub proof fn law_failure_names_the_branch(
    branch: Seq<char>,
    target: Seq<char>,
    facts: spec_fn(Question) -> bool,
)
    ensures
        ({
            let cs = commands(workspace_script(branch, target), facts);
            let here = facts(Question::LocalBookmark(Place::Source));
            let there = facts(Question::RemoteBookmark(Place::Source));
            &&& here || there ==> cs.last().on_failure == OnFailureView::Stop(
                "jj new "@ + branch + " failed"@,
            )
            &&& !here && !there ==> cs.last().on_failure == OnFailureView::Stop(
                "jj bookmark create "@ + branch + " failed"@,
            )
        }),
{
    law_workspace_commands(branch, target, facts);
}

} // verus!
