use branch::checkout::{
    cmd_clone, do_deep_clone, do_workspace, ensure_source_repo, step, Event, OnFailure, Outcome, Place,
    Question, Script, Step, Task,
};

/// Carries out a script; returns the commands with their places, the warnings, and how it ended.
fn play(
    mut script: Script,
    facts: &dyn Fn(Question) -> bool,
    exits: &dyn Fn(&Task) -> Outcome,
) -> (Vec<String>, Vec<String>, Result<(), String>) {
    let mut ran = Vec::new();
    let mut warnings = Vec::new();
    loop {
        let event = match &script {
            Script::Done => return (ran, warnings, Ok(())),
            Script::MakeParent(_) => {
                ran.push("mkdir".to_string());
                Event::Made
            }
            Script::Ask(q, _, _) => Event::Answered(facts(*q)),
            Script::Run(task, _) => {
                let place = match task.place {
                    Place::Source => "source",
                    Place::Target => "target",
                    Place::Here => "here",
                };
                ran.push(format!("{place}: {} {}", task.program, task.args.join(" ")));
                Event::Ran(exits(task))
            }
        };
        match step(script, event) {
            Step::Go(next, warning) => {
                warnings.extend(warning);
                script = next;
            }
            Step::Stop(msg) => return (ran, warnings, Err(msg)),
        }
    }
}

fn well(_: &Task) -> Outcome {
    Outcome::Succeeded
}

#[test]
fn source_that_is_missing_is_cloned() {
    let script = ensure_source_repo("ns", "repo", "/s/ns/repo");
    let (ran, _, end) = play(script, &|_| false, &well);
    assert_eq!(
        ran,
        ["mkdir", "here: jj git clone --colocate git@github.com:ns/repo.git /s/ns/repo"]
    );
    assert_eq!(end, Ok(()));
}

#[test]
fn source_without_jj_is_initialized() {
    let script = ensure_source_repo("ns", "repo", "/s/ns/repo");
    let (ran, _, _) = play(script, &|q| q == Question::SourceExists, &well);
    assert_eq!(
        ran,
        ["source: jj git init --colocate", "source: jj git fetch --all-remotes"]
    );
}

#[test]
fn source_with_jj_is_fetched() {
    let script = ensure_source_repo("ns", "repo", "/s/ns/repo");
    let (ran, _, end) = play(script, &|_| true, &|_| Outcome::Failed);
    assert_eq!(ran, ["source: jj git fetch --all-remotes"]);
    assert_eq!(end, Err("jj git fetch failed".to_string()));
}

#[test]
fn workspace_on_a_local_bookmark() {
    let script = do_workspace("a/b", "/t/repo");
    let (ran, _, end) = play(script, &|q| matches!(q, Question::LocalBookmark(Place::Source)), &well);
    assert_eq!(
        ran,
        ["source: jj workspace add --name a_b /t/repo", "target: jj new a/b"]
    );
    assert_eq!(end, Ok(()));
}

#[test]
fn workspace_on_a_remote_bookmark() {
    let only_remote = |q| matches!(q, Question::RemoteBookmark(Place::Source));
    let (ran, _, end) = play(do_workspace("a/b", "/t/repo"), &only_remote, &well);
    assert_eq!(
        ran,
        [
            "source: jj workspace add --name a_b /t/repo",
            "target: jj bookmark track a/b@origin",
            "target: jj new a/b"
        ]
    );
    assert_eq!(end, Ok(()));
    let (ran, _, end) = play(do_workspace("a/b", "/t/repo"), &only_remote, &|t| {
        if t.args[1] == "track" {
            Outcome::Failed
        } else {
            Outcome::Succeeded
        }
    });
    assert_eq!(ran.len(), 2);
    assert_eq!(end, Err("jj bookmark track failed".to_string()));
}

#[test]
fn workspace_on_a_new_bookmark() {
    let (ran, _, end) = play(do_workspace("a/b", "/t/repo"), &|_| false, &well);
    assert_eq!(
        ran,
        [
            "source: jj workspace add --name a_b /t/repo",
            "target: jj new trunk()",
            "target: jj bookmark create a/b"
        ]
    );
    assert_eq!(end, Ok(()));
}

#[test]
fn workspace_failures() {
    let end = |which: usize, outcome: Outcome, facts: &dyn Fn(Question) -> bool| {
        let count = std::cell::Cell::new(0);
        play(do_workspace("b", "/t"), facts, &|_| {
            count.set(count.get() + 1);
            if count.get() == which {
                outcome
            } else {
                Outcome::Succeeded
            }
        })
        .2
        .unwrap_err()
    };
    assert_eq!(end(1, Outcome::Failed, &|_| true), "jj workspace add failed");
    assert_eq!(end(1, Outcome::NotStarted, &|_| true), "Failed to run jj workspace add");
    assert_eq!(end(2, Outcome::Failed, &|_| true), "jj new b failed");
    assert_eq!(end(2, Outcome::NotStarted, &|_| true), "Failed to run jj new");
    assert_eq!(end(2, Outcome::Failed, &|_| false), "jj new trunk() failed");
    assert_eq!(end(3, Outcome::Failed, &|_| false), "jj bookmark create b failed");
    assert_eq!(end(3, Outcome::NotStarted, &|_| false), "Failed to create bookmark");
}

#[test]
fn deep_clone_with_submodules() {
    let (ran, warnings, end) = play(
        do_deep_clone("url", "b", "/t/repo"),
        &|q| matches!(q, Question::RemoteBookmark(Place::Target) | Question::HasSubmodules),
        &|t| {
            if t.args[1] == "track" || t.program == "git" {
                Outcome::Failed
            } else {
                Outcome::Succeeded
            }
        },
    );
    assert_eq!(
        ran,
        [
            "here: jj git clone --colocate url /t/repo",
            "target: jj bookmark track b@origin",
            "target: jj new b",
            "target: git submodule update --init --recursive"
        ]
    );
    assert_eq!(warnings, ["Warning: submodule initialization failed"]);
    assert_eq!(end, Ok(()));
}

#[test]
fn deep_clone_of_a_new_bookmark() {
    let (ran, warnings, end) = play(do_deep_clone("url", "b", "/t/repo"), &|_| false, &well);
    assert_eq!(
        ran,
        [
            "here: jj git clone --colocate url /t/repo",
            "target: jj new trunk()",
            "target: jj bookmark create b"
        ]
    );
    assert!(warnings.is_empty());
    assert_eq!(end, Ok(()));
}

#[test]
fn tracking_in_a_deep_clone_has_to_start() {
    let (ran, _, end) = play(
        do_deep_clone("url", "b", "/t/repo"),
        &|q| matches!(q, Question::RemoteBookmark(Place::Target)),
        &|t| {
            if t.args[1] == "track" {
                Outcome::NotStarted
            } else {
                Outcome::Succeeded
            }
        },
    );
    assert_eq!(ran.len(), 2);
    assert_eq!(end, Err("Failed to track remote bookmark".to_string()));
}

#[test]
fn announcements() {
    match ensure_source_repo("n", "r", "/s") {
        Script::Ask(_, yes, no) => {
            match *no {
                Script::MakeParent(rest) => match *rest {
                    Script::Run(task, _) => assert_eq!(
                        task.announce.as_deref(),
                        Some("Cloning git@github.com:n/r.git to /s...")
                    ),
                    _ => panic!("no clone"),
                },
                _ => panic!("no parent"),
            }
            match *yes {
                Script::Ask(_, _, init) => match *init {
                    Script::Run(task, _) => {
                        assert_eq!(
                            task.announce.as_deref(),
                            Some("Initializing jj in existing git repo...")
                        );
                        assert!(matches!(task.on_failure, OnFailure::Stop(m) if m == "jj git init --colocate failed"));
                    }
                    _ => panic!("no init"),
                },
                _ => panic!("no question"),
            }
        }
        _ => panic!("no question"),
    }
    match do_deep_clone("u", "b", "/t") {
        Script::Run(task, _) => {
            assert_eq!(task.announce.as_deref(), Some("Deep cloning u to /t..."));
            assert_eq!(task.not_started, "Failed to run jj git clone");
        }
        _ => panic!("no clone"),
    }
}

#[test]
fn clone_begins_only_without_a_target() {
    assert_eq!(
        cmd_clone("ns", "repo", "/s", "/t/repo", true).unwrap_err(),
        "Target directory already exists: /t/repo"
    );
    let script = cmd_clone("ns", "repo", "/s", "/t/repo", false).unwrap();
    let (ran, _, end) = play(script, &|_| true, &well);
    assert_eq!(ran, ["source: jj git fetch --all-remotes"]);
    assert_eq!(end, Ok(()));
}
