//! Finding the `branch.toml` that counts, and giving one to directories that lack it.
use vstd::prelude::*;

use crate::config;
use crate::config::BranchConfig;
use crate::config::ConfigErrorView;
use crate::discovery;
use crate::text;

verus! {

/// Which directory the branch is taken from: the nearest one, from here upwards, that has a
/// `branch.toml`. `present` says so of this directory, its parent, and so on up to the root.
pub fn find_branch_toml(present: &Vec<bool>) -> (out: Option<usize>)
    ensures
        match out {
            Some(i) => i < present.len() && present@[i as int] && forall|j: int|
                0 <= j < i ==> !#[trigger] present@[j],
            None => forall|j: int| 0 <= j < present.len() ==> !#[trigger] present@[j],
        },
{
    let mut i: usize = 0;
    while i < present.len()
        invariant
            i <= present.len(),
            forall|j: int| 0 <= j < i ==> !#[trigger] present@[j],
        decreases present.len() - i,
    {
        if present[i] {
            return Some(i);
        }
        i += 1;
    }
    None
}

// ---------------------------------------------------------------------------------------------
// Which directories lack one

/// A directory and what it holds.
#[derive(Debug)]
pub struct Tree<P> {
    pub path: P,
    pub children: Vec<Node<P>>,
}

/// An entry of a directory.
#[derive(Debug)]
pub struct Node<P> {
    pub name: String,
    pub is_dir: bool,
    /// Whether it holds a `.git`.
    pub has_git: bool,
    /// Whether it holds a `.jj`.
    pub has_jj: bool,
    /// What it holds besides; nothing where it need not be looked into.
    pub tree: Tree<P>,
}

/// Whether an entry is a repository.
pub open spec fn is_repo<P>(n: Node<P>) -> bool {
    discovery::entered(n.name@, n.is_dir) && (n.has_git || n.has_jj)
}

/// Whether the search goes on below an entry: it does not go into repositories.
pub open spec fn is_plain_dir<P>(n: Node<P>) -> bool {
    discovery::entered(n.name@, n.is_dir) && !n.has_git && !n.has_jj
}

/// Whether the search goes on below an entry.
pub fn descends(name: &str, is_dir: bool, has_git: bool, has_jj: bool) -> (b: bool)
    ensures
        b == (discovery::entered(name@, is_dir) && !has_git && !has_jj),
        b ==> is_dir && (name@.len() == 0 || name@[0] != '.'),
{
    discovery::enters(name, is_dir) && !has_git && !has_jj
}

/// The name of what is called `name` in the directory `rel` below the root.
pub open spec fn below(rel: Seq<char>, name: Seq<char>) -> Seq<char> {
    if rel.len() == 0 {
        name
    } else {
        rel + "/"@ + name
    }
}

/// The directories that hold repositories, at and below a directory that is called `rel` below
/// the root: each with its name there, which is the name of its branch. The root itself has no
/// name and is left out.
pub open spec fn branch_dirs<P>(tree: Tree<P>, rel: Seq<char>) -> Seq<(P, Seq<char>)>
    decreases tree, tree.children@.len() + 1,
{
    dirs_below(tree, rel, tree.children@.len())
}

/// The same, as far as the first `n` entries of the directory show.
pub open spec fn dirs_below<P>(tree: Tree<P>, rel: Seq<char>, n: nat) -> Seq<(P, Seq<char>)>
    decreases tree, n,
    when n <= tree.children@.len()
{
    if n == 0 {
        seq![]
    } else {
        let before = dirs_below(tree, rel, (n - 1) as nat);
        let c = tree.children@[n - 1];
        if is_repo(c) {
            if rel.len() == 0 || exists|j: int| 0 <= j < n - 1 && is_repo(#[trigger] tree.children@[j]) {
                before
            } else {
                before.push((tree.path, rel))
            }
        } else if is_plain_dir(c) {
            before + branch_dirs(c.tree, below(rel, c.name@))
        } else {
            before
        }
    }
}

fn gather<P>(tree: Tree<P>, rel: &str, out: &mut Vec<(P, String)>)
    ensures
        results(final(out)@) == results(old(out)@) + branch_dirs(tree, rel@),
    decreases tree,
{
    let ghost t = tree;
    let ghost start = results(out@);
    let Tree { path, children } = tree;
    let named = !text::is_empty(rel);
    // The directory itself, until it is listed.
    let mut own: Option<P> = Some(path);
    assert(results(out@) =~= start + dirs_below(t, rel@, 0));
    for child in it: children
        invariant
            t == tree,
            it.seq() == t.children@,
            named == (rel@.len() > 0),
            own == (if named && exists|j: int|
                0 <= j < it.index() && is_repo(#[trigger] t.children@[j]) {
                None
            } else {
                Some(t.path)
            }),
            results(out@) =~= start + dirs_below(t, rel@, it.index() as nat),
    {
        let ghost n = it.index() as int;
        let ghost before = results(out@);
        assert(child == t.children@[n]);
        if discovery::enters(child.name.as_str(), child.is_dir) {
            if child.has_git || child.has_jj {
                assert(is_repo(t.children@[n]));
                if named {
                    if let Some(p) = own {
                        let name = rel.to_owned();
                        out.push((p, name));
                        assert(results(out@) =~= before.push((t.path, rel@)));
                    }
                    own = None;
                }
            } else {
                let name = if named {
                    let mut name = rel.to_owned();
                    name.append("/");
                    name.append(child.name.as_str());
                    name
                } else {
                    child.name
                };
                assert(name@ =~= below(rel@, t.children@[n].name@));
                gather(child.tree, name.as_str(), out);
            }
        }
    }
}

/// The content of a list of directories with their names.
pub open spec fn results<P>(v: Seq<(P, String)>) -> Seq<(P, Seq<char>)> {
    v.map_values(|x: (P, String)| (x.0, x.1@))
}

/// The directories below the root that hold repositories, each with the name of its branch: its
/// path below the root. Hidden directories are passed over.
pub fn find_branch_dirs<P>(tree: Tree<P>) -> (out: Vec<(P, String)>)
    ensures
        results(out@) == branch_dirs(tree, seq![]),
{
    let mut out: Vec<(P, String)> = Vec::new();
    proof {
        reveal_strlit("");
        assert(""@ =~= seq![]);
        assert(results(out@) =~= seq![]);
    }
    gather(tree, "", &mut out);
    assert(seq![] + branch_dirs(tree, seq![]) =~= branch_dirs(tree, seq![]));
    out
}

/// Every branch that is found has a name.
pub proof fn law_branches_are_named<P>(tree: Tree<P>, rel: Seq<char>, i: int)
    requires
        0 <= i < branch_dirs(tree, rel).len(),
    ensures
        branch_dirs(tree, rel)[i].1.len() > 0,
    decreases tree, tree.children@.len() + 1,
{
    lemma_dirs_named(tree, rel, tree.children@.len(), i);
}

proof fn lemma_dirs_named<P>(tree: Tree<P>, rel: Seq<char>, n: nat, i: int)
    requires
        n <= tree.children@.len(),
        0 <= i < dirs_below(tree, rel, n).len(),
    ensures
        dirs_below(tree, rel, n)[i].1.len() > 0,
    decreases tree, n,
{
    if n > 0 {
        let before = dirs_below(tree, rel, (n - 1) as nat);
        let c = tree.children@[n - 1];
        if i < before.len() {
            lemma_dirs_named(tree, rel, (n - 1) as nat, i);
        } else if is_plain_dir(c) {
            law_branches_are_named(c.tree, below(rel, c.name@), i - before.len());
        }
    }
}

/// The directory that `path` leads to, with its name below the root: at each step it names an
/// entry below which the search goes on.
pub open spec fn dir_at<P>(tree: Tree<P>, rel: Seq<char>, path: Seq<int>) -> Option<
    (Tree<P>, Seq<char>),
>
    decreases path.len(),
{
    if path.len() == 0 {
        Some((tree, rel))
    } else {
        let i = path[0];
        if 0 <= i < tree.children@.len() && is_plain_dir(tree.children@[i]) {
            let c = tree.children@[i];
            dir_at(c.tree, below(rel, c.name@), path.drop_first())
        } else {
            None
        }
    }
}

/// Whether a directory holds a repository.
pub open spec fn holds_repo<P>(tree: Tree<P>) -> bool {
    exists|j: int| 0 <= j < tree.children@.len() && is_repo(#[trigger] tree.children@[j])
}

/// Every directory that can be reached, has a name and holds a repository is found.
pub proof fn law_branch_dirs_are_found<P>(
    tree: Tree<P>,
    rel: Seq<char>,
    path: Seq<int>,
    dir: Tree<P>,
    name: Seq<char>,
)
    requires
        dir_at(tree, rel, path) == Some((dir, name)),
        name.len() > 0,
        holds_repo(dir),
    ensures
        branch_dirs(tree, rel).contains((dir.path, name)),
    decreases path.len(),
{
    let n = tree.children@.len();
    if path.len() == 0 {
        lemma_own_dir(tree, rel, n);
    } else {
        let i = path[0];
        let c = tree.children@[i];
        law_branch_dirs_are_found(c.tree, below(rel, c.name@), path.drop_first(), dir, name);
        lemma_dirs_of_child(tree, rel, n, i, (dir.path, name));
    }
}

proof fn lemma_own_dir<P>(tree: Tree<P>, rel: Seq<char>, n: nat)
    requires
        n <= tree.children@.len(),
        rel.len() > 0,
        exists|j: int| 0 <= j < n && is_repo(#[trigger] tree.children@[j]),
    ensures
        dirs_below(tree, rel, n).contains((tree.path, rel)),
    decreases n,
{
    let before = dirs_below(tree, rel, (n - 1) as nat);
    let all = dirs_below(tree, rel, n);
    if exists|j: int| 0 <= j < n - 1 && is_repo(#[trigger] tree.children@[j]) {
        lemma_own_dir(tree, rel, (n - 1) as nat);
        let k = choose|k: int| 0 <= k < before.len() && before[k] == (tree.path, rel);
        assert(all[k] == (tree.path, rel));
    } else {
        let j = choose|j: int| 0 <= j < n && is_repo(#[trigger] tree.children@[j]);
        assert(j == n - 1);
        assert(all[before.len() as int] == (tree.path, rel));
    }
}

proof fn lemma_dirs_of_child<P>(
    tree: Tree<P>,
    rel: Seq<char>,
    n: nat,
    i: int,
    x: (P, Seq<char>),
)
    requires
        n <= tree.children@.len(),
        0 <= i < n,
        is_plain_dir(tree.children@[i]),
        branch_dirs(tree.children@[i].tree, below(rel, tree.children@[i].name@)).contains(x),
    ensures
        dirs_below(tree, rel, n).contains(x),
    decreases n,
{
    let before = dirs_below(tree, rel, (n - 1) as nat);
    let all = dirs_below(tree, rel, n);
    if i == n - 1 {
        let own = branch_dirs(tree.children@[i].tree, below(rel, tree.children@[i].name@));
        let k = choose|k: int| 0 <= k < own.len() && own[k] == x;
        assert(all[before.len() + k] == x);
    } else {
        lemma_dirs_of_child(tree, rel, (n - 1) as nat, i, x);
        let k = choose|k: int| 0 <= k < before.len() && before[k] == x;
        assert(all[k] == x);
    }
}

/// Every directory that is found can be reached and holds a repository; the path is returned.
pub proof fn law_found_dirs_hold_repos<P>(tree: Tree<P>, rel: Seq<char>, i: int) -> (path: Seq<int>)
    requires
        0 <= i < branch_dirs(tree, rel).len(),
    ensures
        dir_at(tree, rel, path) matches Some((dir, name)) && holds_repo(dir) && branch_dirs(
            tree,
            rel,
        )[i] == (dir.path, name),
    decreases tree, tree.children@.len() + 1,
{
    lemma_found_below_hold_repos(tree, rel, tree.children@.len(), i)
}

proof fn lemma_found_below_hold_repos<P>(tree: Tree<P>, rel: Seq<char>, n: nat, i: int) -> (path:
    Seq<int>)
    requires
        n <= tree.children@.len(),
        0 <= i < dirs_below(tree, rel, n).len(),
    ensures
        dir_at(tree, rel, path) matches Some((dir, name)) && holds_repo(dir) && dirs_below(
            tree,
            rel,
            n,
        )[i] == (dir.path, name),
    decreases tree, n,
{
    let before = dirs_below(tree, rel, (n - 1) as nat);
    let c = tree.children@[n - 1];
    if i < before.len() {
        lemma_found_below_hold_repos(tree, rel, (n - 1) as nat, i)
    } else if is_repo(c) {
        assert(holds_repo(tree));
        seq![]
    } else {
        let rest = law_found_dirs_hold_repos(c.tree, below(rel, c.name@), i - before.len());
        let path = seq![n - 1] + rest;
        assert(path.drop_first() =~= rest);
        path
    }
}

/// Whether names in the tree are like those of a file system: none is empty or holds a slash, and
/// no two entries of a directory share one.
pub open spec fn well_named<P>(tree: Tree<P>) -> bool
    decreases tree,
{
    let c = tree.children@;
    &&& forall|i: int|
        0 <= i < c.len() ==> (#[trigger] c[i]).name@.len() > 0 && !c[i].name@.contains('/')
    &&& forall|i: int, j: int|
        0 <= i < j < c.len() ==> (#[trigger] c[i]).name@ != (#[trigger] c[j]).name@
    &&& forall|i: int| 0 <= i < c.len() ==> well_named((#[trigger] c[i]).tree)
}

/// The names that lead from the root to the directories found, in their order; `steps` lead to
/// the directory that `tree` is.
spec fn found_steps<P>(tree: Tree<P>, steps: Seq<Seq<char>>) -> Seq<Seq<Seq<char>>>
    decreases tree, tree.children@.len() + 1,
{
    steps_below(tree, steps, tree.children@.len())
}

spec fn steps_below<P>(tree: Tree<P>, steps: Seq<Seq<char>>, n: nat) -> Seq<Seq<Seq<char>>>
    decreases tree, n,
    when n <= tree.children@.len()
{
    if n == 0 {
        seq![]
    } else {
        let before = steps_below(tree, steps, (n - 1) as nat);
        let c = tree.children@[n - 1];
        if is_repo(c) {
            if steps.len() == 0 || exists|j: int|
                0 <= j < n - 1 && is_repo(#[trigger] tree.children@[j]) {
                before
            } else {
                before.push(steps)
            }
        } else if is_plain_dir(c) {
            before + found_steps(c.tree, steps.push(c.name@))
        } else {
            before
        }
    }
}

/// Whether all steps are names of a file system.
spec fn are_names(steps: Seq<Seq<char>>) -> bool {
    forall|i: int|
        0 <= i < steps.len() ==> (#[trigger] steps[i]).len() > 0 && !steps[i].contains('/')
}

proof fn lemma_joined_steps(steps: Seq<Seq<char>>, name: Seq<char>)
    requires
        are_names(steps),
        name.len() > 0,
    ensures
        text::joined(steps, seq!['/']).len() == 0 <==> steps.len() == 0,
        text::joined(steps.push(name), seq!['/']) == below(text::joined(steps, seq!['/']), name),
    decreases steps.len(),
{
    reveal_strlit("/");
    assert("/"@ =~= seq!['/']);
    assert(steps.push(name).drop_last() =~= steps);
    if steps.len() == 1 {
        assert(steps[0].len() > 0);
    } else if steps.len() > 1 {
        assert(steps[steps.len() - 1].len() > 0);
    }
}

/// The directories found are called by the names that lead to them.
proof fn lemma_called_by_steps<P>(tree: Tree<P>, steps: Seq<Seq<char>>)
    requires
        well_named(tree),
        are_names(steps),
    ensures
        ({
            let dirs = branch_dirs(tree, text::joined(steps, seq!['/']));
            let found = found_steps(tree, steps);
            &&& dirs.len() == found.len()
            &&& forall|i: int|
                0 <= i < found.len() ==> dirs[i].1 == text::joined(#[trigger] found[i], seq!['/'])
                    && are_names(found[i])
        }),
    decreases tree, tree.children@.len() + 1,
{
    lemma_called_below(tree, steps, tree.children@.len());
}

proof fn lemma_called_below<P>(tree: Tree<P>, steps: Seq<Seq<char>>, n: nat)
    requires
        well_named(tree),
        are_names(steps),
        n <= tree.children@.len(),
    ensures
        ({
            let dirs = dirs_below(tree, text::joined(steps, seq!['/']), n);
            let found = steps_below(tree, steps, n);
            &&& dirs.len() == found.len()
            &&& forall|i: int|
                0 <= i < found.len() ==> dirs[i].1 == text::joined(#[trigger] found[i], seq!['/'])
                    && are_names(found[i])
        }),
    decreases tree, n,
{
    if n > 0 {
        let c = tree.children@[n - 1];
        let rel = text::joined(steps, seq!['/']);
        lemma_called_below(tree, steps, (n - 1) as nat);
        lemma_joined_steps(steps, c.name@);
        if is_plain_dir(c) {
            let more = steps.push(c.name@);
            assert(are_names(more)) by {
                assert forall|i: int| 0 <= i < more.len() implies (#[trigger] more[i]).len() > 0
                    && !more[i].contains('/') by {
                    if i < steps.len() {
                        assert(more[i] == steps[i]);
                    }
                }
            }
            lemma_called_by_steps(c.tree, more);
            let before = steps_below(tree, steps, (n - 1) as nat);
            let own = found_steps(c.tree, more);
            let found = steps_below(tree, steps, n);
            assert forall|i: int| 0 <= i < found.len() implies dirs_below(tree, rel, n)[i].1
                == text::joined(#[trigger] found[i], seq!['/']) && are_names(found[i]) by {
                if i < before.len() {
                    assert(found[i] == before[i]);
                } else {
                    assert(found[i] == own[i - before.len()]);
                }
            }
        }
    }
}

/// What is known of the steps found below a directory: they go on from `steps`, and those that go
/// further pass through one of the first `n` entries.
spec fn pass_through<P>(tree: Tree<P>, steps: Seq<Seq<char>>, n: int, e: Seq<Seq<char>>) -> bool {
    &&& steps.len() <= e.len()
    &&& e.take(steps.len() as int) == steps
    &&& e.len() == steps.len() ==> exists|j: int|
        0 <= j < n && is_repo(#[trigger] tree.children@[j])
    &&& e.len() > steps.len() ==> exists|j: int|
        0 <= j < n && (#[trigger] tree.children@[j]).name@ == e[steps.len() as int]
}

proof fn lemma_steps_distinct<P>(tree: Tree<P>, steps: Seq<Seq<char>>)
    requires
        well_named(tree),
    ensures
        found_steps(tree, steps).no_duplicates(),
        forall|i: int|
            0 <= i < found_steps(tree, steps).len() ==> steps.len() <= (#[trigger] found_steps(
                tree,
                steps,
            )[i]).len() && found_steps(tree, steps)[i].take(steps.len() as int) == steps,
    decreases tree, tree.children@.len() + 1,
{
    let n = tree.children@.len();
    lemma_steps_below_distinct(tree, steps, n);
    assert forall|i: int| 0 <= i < found_steps(tree, steps).len() implies steps.len() <= (
    #[trigger] found_steps(tree, steps)[i]).len() && found_steps(tree, steps)[i].take(
        steps.len() as int,
    ) == steps by {
        assert(pass_through(tree, steps, n as int, steps_below(tree, steps, n)[i]));
    }
}

proof fn lemma_steps_below_distinct<P>(tree: Tree<P>, steps: Seq<Seq<char>>, n: nat)
    requires
        well_named(tree),
        n <= tree.children@.len(),
    ensures
        steps_below(tree, steps, n).no_duplicates(),
        forall|i: int|
            0 <= i < steps_below(tree, steps, n).len() ==> pass_through(
                tree,
                steps,
                n as int,
                #[trigger] steps_below(tree, steps, n)[i],
            ),
    decreases tree, n,
{
    if n > 0 {
        let c = tree.children@[n - 1];
        let before = steps_below(tree, steps, (n - 1) as nat);
        let all = steps_below(tree, steps, n);
        lemma_steps_below_distinct(tree, steps, (n - 1) as nat);
        assert forall|i: int| 0 <= i < before.len() implies pass_through(
            tree,
            steps,
            n as int,
            #[trigger] before[i],
        ) by {
            assert(pass_through(tree, steps, n - 1, before[i]));
        }
        if is_repo(c) {
            if all.len() > before.len() {
                assert(steps.take(steps.len() as int) =~= steps);
                assert(pass_through(tree, steps, n as int, steps));
                assert forall|i: int| 0 <= i < before.len() implies before[i] != steps by {
                    assert(pass_through(tree, steps, n - 1, before[i]));
                }
            }
        } else if is_plain_dir(c) {
            let more = steps.push(c.name@);
            let own = found_steps(c.tree, more);
            lemma_steps_distinct(c.tree, more);
            assert forall|i: int| 0 <= i < own.len() implies pass_through(
                tree,
                steps,
                n as int,
                #[trigger] own[i],
            ) && own[i].len() > steps.len() && own[i][steps.len() as int] == c.name@ by {
                let e = own[i];
                assert(e.take(more.len() as int) == more);
                assert(e.take(steps.len() as int) =~= steps) by {
                    assert forall|k: int| 0 <= k < steps.len() implies e[k] == steps[k] by {
                        assert(e.take(more.len() as int)[k] == more[k]);
                    }
                }
                assert(e[steps.len() as int] == e.take(more.len() as int)[steps.len() as int]);
                assert(tree.children@[n - 1].name@ == e[steps.len() as int]);
            }
            assert forall|i: int, j: int|
                0 <= i < before.len() && 0 <= j < own.len() implies before[i] != own[j] by {
                assert(pass_through(tree, steps, n - 1, before[i]));
                if before[i] == own[j] {
                    let k = choose|k: int|
                        0 <= k < n - 1 && (#[trigger] tree.children@[k]).name@
                            == before[i][steps.len() as int];
                    assert(tree.children@[k].name@ != tree.children@[n - 1].name@);
                }
            }
            assert forall|i: int, j: int| 0 <= i < j < all.len() implies all[i] != all[j] by {
                if j < before.len() {
                    assert(all[i] == before[i] && all[j] == before[j]);
                } else if i < before.len() {
                    assert(all[i] == before[i] && all[j] == own[j - before.len()]);
                } else {
                    assert(all[i] == own[i - before.len()] && all[j] == own[j - before.len()]);
                }
            }
            assert forall|i: int| 0 <= i < all.len() implies pass_through(
                tree,
                steps,
                n as int,
                #[trigger] all[i],
            ) by {
                if i < before.len() {
                    assert(all[i] == before[i]);
                } else {
                    assert(all[i] == own[i - before.len()]);
                }
            }
        }
    }
}

/// No branch is found twice.
pub proof fn law_branches_are_found_once<P>(tree: Tree<P>, i: int, j: int)
    requires
        well_named(tree),
        0 <= i < j < branch_dirs(tree, seq![]).len(),
    ensures
        branch_dirs(tree, seq![])[i].1 != branch_dirs(tree, seq![])[j].1,
{
    let none = Seq::<Seq<char>>::empty();
    let found = found_steps(tree, none);
    let dirs = branch_dirs(tree, seq![]);
    assert(text::joined(none, seq!['/']) =~= seq![]);
    lemma_called_by_steps(tree, none);
    lemma_steps_distinct(tree, none);
    assert(dirs[i].1 == text::joined(found[i], seq!['/']) && are_names(found[i]));
    assert(dirs[j].1 == text::joined(found[j], seq!['/']) && are_names(found[j]));
    if dirs[i].1 == dirs[j].1 {
        law_branches_are_named(tree, seq![], i);
        assert(found[i].len() > 0 && found[j].len() > 0);
        text::law_joined_is_split(found[i], '/');
        text::law_joined_is_split(found[j], '/');
        assert(found[i] == found[j]);
    }
}

// ---------------------------------------------------------------------------------------------
// Giving them one

/// What to do about a directory.
#[derive(Debug)]
pub enum Migration {
    /// Only say this.
    Say(String),
    /// Write this content, then say this.
    Write(String, String),
    /// Its name cannot be written (see `config::countable_quotes`).
    Unwritable,
}

/// What is said of a directory that has a `branch.toml`.
pub open spec fn skip_text(name: Seq<char>) -> Seq<char> {
    "[skip] "@ + name + " (branch.toml already exists)"@
}

/// What is said of a directory that would get one.
pub open spec fn preview_text(name: Seq<char>, toml_path: Seq<char>) -> Seq<char> {
    "[would create] "@ + name + " -> "@ + toml_path
}

/// What is said of a directory that got one.
pub open spec fn created_text(name: Seq<char>, toml_path: Seq<char>) -> Seq<char> {
    "[created] "@ + name + " -> "@ + toml_path
}

/// What to do about the directory of the branch `name`, whose `branch.toml` is or is to be at
/// `toml_path`: one that exists is left alone, and in a dry run none is written. What is written
/// names the branch.
pub fn cmd_migrate(name: &str, toml_path: &str, exists: bool, dry_run: bool) -> (out: Migration)
    ensures
        match out {
            Migration::Say(msg) => {
                ||| exists && msg@ == skip_text(name@)
                ||| !exists && dry_run && msg@ == preview_text(name@, toml_path@)
            },
            Migration::Write(content, msg) => {
                &&& !exists && !dry_run && config::countable_quotes(name@)
                &&& content@ == config::toml_entry("branch"@, name@)
                &&& config::config_in(content@) == Ok::<Seq<char>, ConfigErrorView>(name@)
                &&& msg@ == created_text(name@, toml_path@)
            },
            Migration::Unwritable => !exists && !dry_run && !config::countable_quotes(name@),
        },
{
    if exists {
        let mut msg = "[skip] ".to_owned();
        msg.append(name);
        msg.append(" (branch.toml already exists)");
        return Migration::Say(msg);
    }
    if dry_run {
        let mut msg = "[would create] ".to_owned();
        msg.append(name);
        msg.append(" -> ");
        msg.append(toml_path);
        return Migration::Say(msg);
    }
    if !config::quotes_are_countable(name) {
        return Migration::Unwritable;
    }
    let config = BranchConfig { branch: name.to_owned() };
    match config::branch_toml(&config) {
        Ok(content) => {
            let mut msg = "[created] ".to_owned();
            msg.append(name);
            msg.append(" -> ");
            msg.append(toml_path);
            Migration::Write(content, msg)
        },
        Err(_) => Migration::Unwritable,
    }
}

/// What one more entry of a directory adds. A hidden one, or one that is no directory, adds nothing.
/// A directory without a repository adds the branch directories below it, under its name. The first
/// repository adds the directory that holds it, under the name that led there, unless that is the
/// root.
pub proof fn law_entry_by_entry<P>(tree: Tree<P>, rel: Seq<char>, n: nat)
    requires
        0 < n <= tree.children@.len(),
    ensures
        ({
            let c = tree.children@[n - 1];
            let visible = c.is_dir && (c.name@.len() == 0 || c.name@[0] != '.');
            let before = dirs_below(tree, rel, (n - 1) as nat);
            let now = dirs_below(tree, rel, n);
            let met = exists|j: int|
                0 <= j < n - 1 && (#[trigger] tree.children@[j]).is_dir && (
                tree.children@[j].name@.len() == 0 || tree.children@[j].name@[0] != '.') && (
                tree.children@[j].has_git || tree.children@[j].has_jj);
            &&& !visible ==> now == before
            &&& visible && !c.has_git && !c.has_jj && rel.len() == 0 ==> now == before + branch_dirs(
                c.tree,
                c.name@,
            )
            &&& visible && !c.has_git && !c.has_jj && rel.len() > 0 ==> now == before + branch_dirs(
                c.tree,
                rel + seq!['/'] + c.name@,
            )
            &&& visible && (c.has_git || c.has_jj) && (rel.len() == 0 || met) ==> now == before
            &&& visible && (c.has_git || c.has_jj) && rel.len() > 0 && !met ==> now == before.push(
                (tree.path, rel),
            )
        }),
        dirs_below(tree, rel, 0).len() == 0,
        branch_dirs(tree, rel) == dirs_below(tree, rel, tree.children@.len()),
{
    assert("/"@ =~= seq!['/']) by {
        reveal_strlit("/");
    }
    let met = exists|j: int|
        0 <= j < n - 1 && (#[trigger] tree.children@[j]).is_dir && (tree.children@[j].name@.len()
            == 0 || tree.children@[j].name@[0] != '.') && (tree.children@[j].has_git
            || tree.children@[j].has_jj);
    let found = exists|j: int| 0 <= j < n - 1 && is_repo(#[trigger] tree.children@[j]);
    if met {
        let j = choose|j: int|
            0 <= j < n - 1 && (#[trigger] tree.children@[j]).is_dir && (
            tree.children@[j].name@.len() == 0 || tree.children@[j].name@[0] != '.') && (
            tree.children@[j].has_git || tree.children@[j].has_jj);
        assert(is_repo(tree.children@[j]));
    }
    if found {
        let j = choose|j: int| 0 <= j < n - 1 && is_repo(#[trigger] tree.children@[j]);
        assert(tree.children@[j].is_dir);
    }
    assert(met == found);
}

/// What is said of a directory starts with what is done about it, and names the directory; where a
/// file is written, or would be, it ends in the file's path.
pub proof fn law_what_is_said(name: Seq<char>, toml_path: Seq<char>)
    ensures
        ("[skip] "@ + name).is_prefix_of(skip_text(name)),
        ("[would create] "@ + name).is_prefix_of(preview_text(name, toml_path)),
        ("[created] "@ + name).is_prefix_of(created_text(name, toml_path)),
        (" -> "@ + toml_path).is_suffix_of(preview_text(name, toml_path)),
        (" -> "@ + toml_path).is_suffix_of(created_text(name, toml_path)),
{
    let end = " (branch.toml already exists)"@;
    text::law_prefix_and_suffix(skip_text(name), "[skip] "@ + name, end);
    lemma_said("[would create] "@, name, toml_path);
    lemma_said("[created] "@, name, toml_path);
}

proof fn lemma_said(what: Seq<char>, name: Seq<char>, toml_path: Seq<char>)
    ensures
        (what + name).is_prefix_of(what + name + " -> "@ + toml_path),
        (" -> "@ + toml_path).is_suffix_of(what + name + " -> "@ + toml_path),
{
    let a = what + name;
    let b = " -> "@ + toml_path;
    assert(a + " -> "@ + toml_path =~= a + b);
    text::law_prefix_and_suffix(a + b, a, b);
    text::law_prefix_and_suffix(a + b, b, a);
}

} // verus!
