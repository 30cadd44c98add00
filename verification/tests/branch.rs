use std::collections::{BTreeMap, BTreeSet};

use canopy::cli::{run, Cli, Command};
use canopy::object::ObjectId;
use canopy::session::{Action, Event};

/// A commit of the in-memory repository.
#[derive(Clone)]
struct Commit {
    parents: Vec<String>,
    files: BTreeMap<String, String>,
}

/// What a reference holds.
#[derive(Clone)]
enum Target {
    Direct(String),
    Symbolic(String),
}

/// A small repository that answers the workflow's operations the way Git does
/// for the histories these tests build.
struct Repo {
    commits: BTreeMap<String, Commit>,
    trees: BTreeMap<String, BTreeMap<String, String>>,
    refs: BTreeMap<String, Target>,
    head: String,
    next_id: u64,
    current_ref: Option<String>,
    held_object: Option<String>,
    merged: Option<BTreeMap<String, String>>,
    tracking: BTreeMap<String, String>,
}

/// What a run of the command printed, and whether it succeeded.
struct Outcome {
    success: bool,
    stdout: String,
    stderr: String,
}

impl Repo {
    fn new() -> Self {
        let mut repo = Repo {
            commits: BTreeMap::new(),
            trees: BTreeMap::new(),
            refs: BTreeMap::new(),
            head: "refs/heads/main".to_owned(),
            next_id: 1,
            current_ref: None,
            held_object: None,
            merged: None,
            tracking: BTreeMap::new(),
        };
        let base = repo.commit(&[], &[("story.txt", "base\n")]);
        repo.set_branch("main", &base);
        repo
    }

    fn fresh_id(&mut self) -> String {
        let id = format!("{:040x}", self.next_id * 7919);
        self.next_id += 1;
        id
    }

    fn commit(&mut self, parents: &[&str], changes: &[(&str, &str)]) -> String {
        let mut files = match parents.first() {
            Some(p) => self.commits[*p].files.clone(),
            None => BTreeMap::new(),
        };
        for (path, contents) in changes {
            files.insert((*path).to_owned(), (*contents).to_owned());
        }
        let id = self.fresh_id();
        let parents = parents.iter().map(|p| (*p).to_owned()).collect();
        self.commits.insert(id.clone(), Commit { parents, files });
        id
    }

    fn set_branch(&mut self, name: &str, commit: &str) {
        self.refs.insert(format!("refs/heads/{name}"), Target::Direct(commit.to_owned()));
    }

    fn branch_commit(&self, name: &str) -> String {
        self.peel(&format!("refs/heads/{name}")).expect("branch exists")
    }

    /// The sample history: `linear` grows twice from `main`; `other`,
    /// `feature-a`, `feature-b` and `feature-c` each add one commit to `main`.
    fn sample() -> Self {
        let mut repo = Repo::new();
        let main = repo.branch_commit("main");
        let one = repo.commit(&[&main], &[("story.txt", "feature one\n")]);
        repo.set_branch("linear-1", &one);
        let two = repo.commit(&[&one], &[("story.txt", "feature two\n")]);
        repo.set_branch("linear-2", &two);
        repo.set_branch("linear", &two);
        let other = repo.commit(&[&main], &[("other.txt", "other\n")]);
        repo.set_branch("other", &other);
        let a = repo.commit(&[&main], &[("story.txt", "feature a\n")]);
        repo.set_branch("feature-a", &a);
        let b = repo.commit(&[&main], &[("story.txt", "feature b\n")]);
        repo.set_branch("feature-b", &b);
        let c = repo.commit(&[&main], &[("extra.txt", "feature c\n")]);
        repo.set_branch("feature-c", &c);
        repo
    }

    fn peel(&self, name: &str) -> Option<String> {
        match self.refs.get(name)? {
            Target::Direct(id) => Some(id.clone()),
            Target::Symbolic(to) => self.peel(to),
        }
    }

    fn rev_parse(&self, spec: &str) -> Option<String> {
        if self.commits.contains_key(spec) {
            return Some(spec.to_owned());
        }
        if spec == "HEAD" {
            return self.peel(&self.head);
        }
        self.peel(spec)
            .or_else(|| self.peel(&format!("refs/heads/{spec}")))
            .or_else(|| self.peel(&format!("refs/tags/{spec}")))
    }

    fn ancestors(&self, id: &str) -> BTreeSet<String> {
        let mut seen = BTreeSet::new();
        let mut todo = vec![id.to_owned()];
        while let Some(c) = todo.pop() {
            if seen.insert(c.clone()) {
                todo.extend(self.commits[&c].parents.iter().cloned());
            }
        }
        seen
    }

    fn merge_base(&self, left: &str, right: &str) -> Option<String> {
        let a = self.ancestors(left);
        let b = self.ancestors(right);
        let common: Vec<String> = a.intersection(&b).cloned().collect();
        common
            .iter()
            .find(|c| !common.iter().any(|d| d != *c && self.ancestors(d).contains(*c)))
            .cloned()
    }

    fn perform(&mut self, action: &Action) -> Event {
        match action {
            Action::ReadCurrentDir | Action::DiscoverRepository | Action::PrepareMergeOptions => {
                Event::Done
            }
            Action::LoadObject => Event::Done,
            Action::FindReference { name, must_exist } => {
                if self.refs.contains_key(name.as_str()) {
                    self.current_ref = Some(name.clone());
                    Event::Found
                } else if *must_exist {
                    Event::Failed(format!("reference {name} not found"))
                } else {
                    Event::Missing
                }
            }
            Action::FollowReference => {
                let name = self.current_ref.clone().expect("current reference");
                match self.refs[&name].clone() {
                    Target::Symbolic(to) => {
                        self.current_ref = Some(to);
                        Event::Found
                    }
                    Target::Direct(_) => Event::Missing,
                }
            }
            Action::PeelReference => {
                let name = self.current_ref.clone().expect("current reference");
                match self.peel(&name) {
                    Some(id) => Event::Peeled(name, ObjectId::from_hex(id)),
                    None => Event::Failed("dangling reference".to_owned()),
                }
            }
            Action::FindHeadReference => {
                if self.refs.contains_key(&self.head) {
                    self.current_ref = Some(self.head.clone());
                    Event::Found
                } else {
                    Event::Missing
                }
            }
            Action::TrackingReferenceName => {
                let name = self.current_ref.clone().expect("current reference");
                match self.tracking.get(&name) {
                    Some(upstream) => Event::Named(upstream.clone()),
                    None => Event::Missing,
                }
            }
            Action::HeadName => Event::Named(self.head.clone()),
            Action::RevParse { spec } => match self.rev_parse(spec) {
                Some(id) => {
                    self.held_object = Some(id);
                    Event::Done
                }
                None => Event::Failed(format!("revspec {spec:?} did not resolve")),
            },
            Action::PeelToCommit => {
                Event::Commit(ObjectId::from_hex(self.held_object.clone().expect("held object")))
            }
            Action::MergeBase { left, right } => match self.merge_base(&left.hex, &right.hex) {
                Some(base) => Event::Commit(ObjectId::from_hex(base)),
                None => Event::Missing,
            },
            Action::MergeCommits { ours, theirs, .. } => {
                let base = self.merge_base(&ours.hex, &theirs.hex);
                let empty = BTreeMap::new();
                let base_files = match &base {
                    Some(b) => &self.commits[b].files,
                    None => &empty,
                };
                let our_files = &self.commits[&ours.hex].files;
                let their_files = &self.commits[&theirs.hex].files;
                let paths: BTreeSet<&String> =
                    base_files.keys().chain(our_files.keys()).chain(their_files.keys()).collect();
                let mut merged = BTreeMap::new();
                let mut conflicted = false;
                for path in paths {
                    let b = base_files.get(path);
                    let o = our_files.get(path);
                    let t = their_files.get(path);
                    let pick = if o == t {
                        o
                    } else if o == b {
                        t
                    } else if t == b {
                        o
                    } else {
                        conflicted = true;
                        o
                    };
                    if let Some(contents) = pick {
                        merged.insert(path.clone(), contents.clone());
                    }
                }
                self.merged = Some(merged);
                Event::Merged(conflicted)
            }
            Action::WriteMergedTree => {
                let id = self.fresh_id();
                self.trees.insert(id.clone(), self.merged.take().expect("merge outcome"));
                Event::Tree(ObjectId::from_hex(id))
            }
            Action::WriteMergeCommit { tree, first_parent, second_parent, .. } => {
                let files = self.trees[&tree.hex].clone();
                let id = self.fresh_id();
                let parents = vec![first_parent.hex.clone(), second_parent.hex.clone()];
                self.commits.insert(id.clone(), Commit { parents, files });
                Event::Commit(ObjectId::from_hex(id))
            }
            Action::UpdateReference { name, commit, must_not_exist, .. } => {
                if *must_not_exist && self.refs.contains_key(name.as_str()) {
                    Event::Failed(format!("reference {name} already exists"))
                } else {
                    self.refs.insert(name.clone(), Target::Direct(commit.hex.clone()));
                    Event::Done
                }
            }
            Action::Finish(_) => panic!("nothing to perform"),
        }
    }

    /// Runs `canopy branch` with the given arguments against this repository.
    fn canopy(&mut self, args: &[&str]) -> Outcome {
        assert_eq!(args[0], "branch");
        let mut force = false;
        let mut base = None;
        let mut positional = Vec::new();
        let mut k = 1;
        while k < args.len() {
            match args[k] {
                "--force" => force = true,
                "--base" => {
                    k += 1;
                    base = Some(args[k].to_owned());
                }
                other => positional.push(other.to_owned()),
            }
            k += 1;
        }
        let target_branch = positional.remove(0);
        let cli = Cli { command: Command::Branch { force, base, target_branch, tips: positional } };
        let (mut session, mut out) = run(cli);
        let mut stdout = String::new();
        loop {
            for note in &out.notes {
                stdout.push_str(&note.render());
                stdout.push('\n');
            }
            if let Action::Finish(result) = &out.action {
                return match result {
                    Ok(()) => Outcome { success: true, stdout, stderr: String::new() },
                    Err(e) => Outcome {
                        success: false,
                        stdout,
                        stderr: format!("error: {}\n", e.message()),
                    },
                };
            }
            let event = self.perform(&out.action);
            assert!(session.accepts(&event));
            out = session.step(event);
        }
    }

    fn assert_branch_exists(&self, branch: &str) {
        assert!(self.refs.contains_key(&format!("refs/heads/{branch}")));
    }

    fn assert_branch_file(&self, branch: &str, path: &str, expected: &str) {
        let commit = self.branch_commit(branch);
        assert_eq!(self.commits[&commit].files.get(path).map(String::as_str), Some(expected));
    }
}

#[test]
fn creates_branch_and_deduplicates_ancestor_tips() {
    let mut repo = Repo::sample();
    let feature_one = repo.rev_parse("linear-1").expect("linear-1");
    let feature_two = repo.rev_parse("linear-2").expect("linear-2");

    let output = repo.canopy(&["branch", "integration", &feature_one, &feature_two, "other"]);
    assert!(output.success, "{}", output.stderr);

    let stdout = output.stdout;
    assert!(stdout.contains("detected default branch: refs/heads/main"));
    assert!(stdout.contains("deduplicated tips:"));
    let dedup_section = stdout
        .split("deduplicated tips:\n")
        .nth(1)
        .and_then(|section| section.split("attempting merge:").next())
        .expect("dedup section");
    assert!(!dedup_section.contains(&format!("  {} ->", feature_one)));
    assert!(dedup_section.contains(&format!("  {} ->", feature_two)));
    assert!(stdout.contains("final branch creation: created integration ->"));
    repo.assert_branch_exists("integration");
    repo.assert_branch_file("integration", "story.txt", "feature two\n");
    repo.assert_branch_file("integration", "other.txt", "other\n");
}

#[test]
fn accepts_mixed_commit_sha_and_branch_name_inputs() {
    let mut repo = Repo::sample();
    let linear_tip = repo.rev_parse("linear-2").expect("linear-2");

    let output = repo.canopy(&["branch", "integration", &linear_tip, "other"]);
    assert!(output.success, "{}", output.stderr);

    let stdout = output.stdout;
    assert!(stdout.contains(&format!("  {} ->", linear_tip)));
    assert!(stdout.contains("  other ->"));
    repo.assert_branch_exists("integration");
    repo.assert_branch_file("integration", "story.txt", "feature two\n");
    repo.assert_branch_file("integration", "other.txt", "other\n");
}

#[test]
fn skips_conflicting_tip_and_continues() {
    let mut repo = Repo::sample();

    let output = repo.canopy(&["branch", "integration", "feature-a", "feature-b", "feature-c"]);
    assert!(output.success, "{}", output.stderr);

    let stdout = output.stdout;
    assert!(stdout.contains("successful merge: feature-a"));
    assert!(stdout.contains("failed merge due to conflicts: feature-b"));
    assert!(stdout.contains("successful merge: feature-c"));
    repo.assert_branch_exists("integration");
    repo.assert_branch_file("integration", "story.txt", "feature a\n");
    repo.assert_branch_file("integration", "extra.txt", "feature c\n");
}

#[test]
fn refuses_existing_target_without_force() {
    let mut repo = Repo::sample();
    let main = repo.branch_commit("main");
    repo.set_branch("integration", &main);

    let output = repo.canopy(&["branch", "integration", "HEAD"]);
    assert!(!output.success);

    let stderr = output.stderr;
    assert!(stderr.contains("already exists"));
}

#[test]
fn updates_existing_target_with_force() {
    let mut repo = Repo::sample();
    let main = repo.branch_commit("main");
    repo.set_branch("integration", &main);

    let output = repo.canopy(&["branch", "--force", "integration", "linear"]);
    assert!(output.success, "{}", output.stderr);

    let stdout = output.stdout;
    assert!(stdout.contains("final branch update: replaced integration ->"));
    repo.assert_branch_exists("integration");
    repo.assert_branch_file("integration", "story.txt", "feature two\n");
}

/// Steps the workflow by hand, answering each operation from the repository, and
/// returns every action asked for with the notes rendered so far.
fn drive(repo: &mut Repo, cli: Cli) -> (Vec<String>, Vec<Action>) {
    let (mut session, mut out) = run(cli);
    let mut lines = Vec::new();
    let mut actions = Vec::new();
    loop {
        for note in &out.notes {
            lines.push(note.render());
        }
        let finished = matches!(out.action, Action::Finish(_));
        let event = if finished { None } else { Some(repo.perform(&out.action)) };
        actions.push(out.action);
        match event {
            None => return (lines, actions),
            Some(event) => {
                assert!(session.accepts(&event));
                out = session.step(event);
            }
        }
    }
}

fn branch_cli(force: bool, base: Option<&str>, target: &str, tips: &[&str]) -> Cli {
    Cli {
        command: Command::Branch {
            force,
            base: base.map(str::to_owned),
            target_branch: target.to_owned(),
            tips: tips.iter().map(|t| (*t).to_owned()).collect(),
        },
    }
}

#[test]
fn explicit_base_is_reported_and_used() {
    let mut repo = Repo::sample();
    let output = repo.canopy(&["branch", "--base", "feature-a", "integration", "other"]);
    assert!(output.success, "{}", output.stderr);
    assert!(output.stdout.starts_with("selected base: feature-a\ntarget branch: integration\n"));
    assert!(!output.stdout.contains("detected default branch"));
    repo.assert_branch_file("integration", "story.txt", "feature a\n");
    repo.assert_branch_file("integration", "other.txt", "other\n");
}

#[test]
fn full_report_of_a_clean_run() {
    let mut repo = Repo::sample();
    let other = repo.rev_parse("other").expect("other");
    let output = repo.canopy(&["branch", "integration", "other"]);
    assert!(output.success, "{}", output.stderr);
    let merged = repo.branch_commit("integration");
    let expected = format!(
        "detected default branch: refs/heads/main\n\
         target branch: integration\n\
         resolved tips:\n  other -> {other}\n\
         deduplicated tips:\n  other -> {other}\n\
         attempting merge: other ({other})\n\
         successful merge: other -> {merged}\n\
         successful merges:\n  other -> {other}\n\
         final branch creation: created integration -> {merged}\n"
    );
    assert_eq!(output.stdout, expected);
    let commit = &repo.commits[&merged];
    assert_eq!(commit.parents, vec![repo.branch_commit("main"), other]);
}

#[test]
fn conflicts_are_listed_after_the_merges() {
    let mut repo = Repo::sample();
    let b = repo.rev_parse("feature-b").expect("feature-b");
    let output = repo.canopy(&["branch", "integration", "feature-a", "feature-b"]);
    assert!(output.success, "{}", output.stderr);
    assert!(output
        .stdout
        .contains(&format!("failed merges due to conflicts:\n  feature-b -> {b}\n")));
    assert!(output.stdout.contains("successful merges:\n  feature-a -> "));
}

#[test]
fn default_branch_from_symbolic_origin_head() {
    let mut repo = Repo::sample();
    let other = repo.branch_commit("other");
    repo.refs.insert("refs/remotes/origin/main".to_owned(), Target::Direct(other));
    repo.refs.insert(
        "refs/remotes/origin/HEAD".to_owned(),
        Target::Symbolic("refs/remotes/origin/main".to_owned()),
    );
    let output = repo.canopy(&["branch", "integration", "feature-c"]);
    assert!(output.success, "{}", output.stderr);
    assert!(output.stdout.contains("detected default branch: refs/remotes/origin/main\n"));
    repo.assert_branch_file("integration", "other.txt", "other\n");
    repo.assert_branch_file("integration", "extra.txt", "feature c\n");
}

#[test]
fn default_branch_from_direct_origin_head() {
    let mut repo = Repo::sample();
    let a = repo.branch_commit("feature-a");
    repo.refs.insert("refs/remotes/origin/HEAD".to_owned(), Target::Direct(a));
    let output = repo.canopy(&["branch", "integration", "feature-c"]);
    assert!(output.success, "{}", output.stderr);
    assert!(output.stdout.contains("detected default branch: refs/remotes/origin/HEAD\n"));
    repo.assert_branch_file("integration", "story.txt", "feature a\n");
}

#[test]
fn no_default_branch_without_head() {
    let mut repo = Repo::sample();
    repo.head = "refs/heads/unborn".to_owned();
    let output = repo.canopy(&["branch", "integration", "feature-c"]);
    assert!(!output.success);
    assert!(output.stdout.is_empty());
    assert_eq!(
        output.stderr,
        "error: failed to open current branch: reference refs/heads/unborn not found\n"
    );
}

#[test]
fn no_tips_is_refused_before_anything_else() {
    let mut repo = Repo::sample();
    let (lines, actions) = drive(&mut repo, branch_cli(false, None, "integration", &[]));
    assert!(lines.is_empty());
    assert_eq!(actions.len(), 1);
    match &actions[0] {
        Action::Finish(Err(e)) => assert_eq!(e.message(), "at least one tip is required"),
        other => panic!("unexpected {other:?}"),
    }
}

#[test]
fn existing_target_error_names_the_branch() {
    let mut repo = Repo::sample();
    let main = repo.branch_commit("main");
    repo.set_branch("integration", &main);
    let output = repo.canopy(&["branch", "integration", "other"]);
    assert!(!output.success);
    assert!(output.stdout.is_empty());
    assert_eq!(
        output.stderr,
        "error: target branch 'integration' already exists; re-run with --force to replace it\n"
    );
    assert_eq!(repo.branch_commit("integration"), main);
}

#[test]
fn unknown_tip_stops_with_its_name() {
    let mut repo = Repo::sample();
    let output = repo.canopy(&["branch", "integration", "other", "nope"]);
    assert!(!output.success);
    assert!(output
        .stderr
        .starts_with("error: failed to resolve tip 'nope': revspec \"nope\" did not resolve"));
    assert!(!repo.refs.contains_key("refs/heads/integration"));
}

#[test]
fn repeated_tip_is_merged_once() {
    let mut repo = Repo::sample();
    let other = repo.rev_parse("other").expect("other");
    let output = repo.canopy(&["branch", "integration", "other", &other]);
    assert!(output.success, "{}", output.stderr);
    let dedup = output.stdout.split("deduplicated tips:\n").nth(1).expect("dedup");
    let dedup = dedup.split("attempting merge:").next().expect("section");
    assert_eq!(dedup, format!("  {other} -> {other}\n"));
    assert_eq!(output.stdout.matches("attempting merge:").count(), 1);
}

#[test]
fn operations_carry_messages_and_guards() {
    let mut repo = Repo::sample();
    let (_, actions) = drive(&mut repo, branch_cli(false, None, "integration", &["feature-a"]));
    let message = actions.iter().find_map(|a| match a {
        Action::WriteMergeCommit { message, .. } => Some(message.clone()),
        _ => None,
    });
    assert_eq!(message.as_deref(), Some("Merge feature-a into integration"));
    let update = actions.iter().find_map(|a| match a {
        Action::UpdateReference { name, must_not_exist, log_message, .. } => {
            Some((name.clone(), *must_not_exist, log_message.clone()))
        }
        _ => None,
    });
    assert_eq!(
        update,
        Some(("refs/heads/integration".to_owned(), true, "canopy branch integration".to_owned()))
    );

    let mut repo = Repo::sample();
    let (_, actions) = drive(&mut repo, branch_cli(true, None, "integration", &["feature-a"]));
    assert!(actions
        .iter()
        .any(|a| matches!(a, Action::UpdateReference { must_not_exist: false, .. })));
}

#[test]
fn failed_ancestry_search_keeps_both_tips() {
    let mut repo = Repo::sample();
    let (mut session, mut out) = run(branch_cli(false, None, "integration", &["linear-1", "linear-2"]));
    let mut lines = Vec::new();
    loop {
        for note in &out.notes {
            lines.push(note.render());
        }
        let event = match &out.action {
            Action::Finish(_) => break,
            Action::MergeBase { .. } => Event::Failed("graph walk failed".to_owned()),
            other => repo.perform(other),
        };
        assert!(session.accepts(&event));
        out = session.step(event);
    }
    let start = lines.iter().position(|l| l == "deduplicated tips:").expect("dedup");
    let kept: Vec<&String> = lines[start + 1..].iter().take_while(|l| l.starts_with("  ")).collect();
    assert_eq!(kept.len(), 2);
}

#[test]
fn mismatched_events_are_not_accepted() {
    let (session, out) = run(branch_cli(false, None, "integration", &["other"]));
    assert!(matches!(out.action, Action::ReadCurrentDir));
    assert!(session.accepts(&Event::Done));
    assert!(session.accepts(&Event::Failed("x".to_owned())));
    assert!(!session.accepts(&Event::Found));
    assert!(!session.accepts(&Event::Merged(false)));
    assert!(!session.is_finished());
}

#[test]
fn default_branch_from_tracking_branch() {
    let mut repo = Repo::sample();
    let a = repo.branch_commit("feature-a");
    repo.refs.insert("refs/remotes/upstream/main".to_owned(), Target::Direct(a));
    repo.tracking.insert("refs/heads/main".to_owned(), "refs/remotes/upstream/main".to_owned());
    let output = repo.canopy(&["branch", "integration", "other"]);
    assert!(output.success, "{}", output.stderr);
    assert!(output.stdout.starts_with("detected default branch: refs/remotes/upstream/main\n"));
    repo.assert_branch_file("integration", "story.txt", "feature a\n");
    repo.assert_branch_file("integration", "other.txt", "other\n");
}

#[test]
fn missing_tracking_branch_is_an_error() {
    let mut repo = Repo::sample();
    repo.tracking.insert("refs/heads/main".to_owned(), "refs/remotes/gone/main".to_owned());
    let output = repo.canopy(&["branch", "integration", "other"]);
    assert!(!output.success);
    assert_eq!(
        output.stderr,
        "error: failed to open tracking branch: reference refs/remotes/gone/main not found\n"
    );
}

#[test]
fn merge_commits_chain_from_the_base() {
    let mut repo = Repo::sample();
    let main = repo.branch_commit("main");
    let a = repo.rev_parse("feature-a").expect("feature-a");
    let c = repo.rev_parse("feature-c").expect("feature-c");
    let (_, actions) = drive(&mut repo, branch_cli(false, None, "integration", &["feature-a", "feature-c"]));
    let writes: Vec<(String, String, String)> = actions
        .iter()
        .filter_map(|x| match x {
            Action::WriteMergeCommit { message, first_parent, second_parent, .. } => {
                Some((message.clone(), first_parent.hex.clone(), second_parent.hex.clone()))
            }
            _ => None,
        })
        .collect();
    assert_eq!(writes.len(), 2);
    assert_eq!(writes[0], ("Merge feature-a into integration".to_owned(), main.clone(), a.clone()));
    let first = repo.commits.iter().find(|(_, m)| m.parents == vec![main.clone(), a.clone()]).expect("first").0.clone();
    assert_eq!(writes[1], ("Merge feature-c into integration".to_owned(), first.clone(), c.clone()));
    let integration = repo.branch_commit("integration");
    assert_eq!(repo.commits[&integration].parents, vec![first, c]);
}

#[test]
fn nothing_merged_sets_the_target_to_the_base() {
    let mut repo = Repo::sample();
    let a = repo.branch_commit("feature-a");
    let output = repo.canopy(&["branch", "--base", "feature-a", "integration", "feature-b"]);
    assert!(output.success, "{}", output.stderr);
    assert!(output.stdout.contains("failed merge due to conflicts: feature-b"));
    assert!(!output.stdout.contains("successful merges:"));
    assert_eq!(repo.branch_commit("integration"), a);
}

#[test]
fn searches_are_at_most_one_per_ordered_pair() {
    let mut repo = Repo::sample();
    let (_, actions) =
        drive(&mut repo, branch_cli(false, None, "integration", &["linear-1", "linear-2", "other"]));
    let searches = actions.iter().filter(|a| matches!(a, Action::MergeBase { .. })).count();
    assert_eq!(searches, 6);

    let mut repo = Repo::sample();
    let (_, actions) =
        drive(&mut repo, branch_cli(false, None, "integration", &["other", "other", "feature-a"]));
    let searches = actions.iter().filter(|a| matches!(a, Action::MergeBase { .. })).count();
    assert_eq!(searches, 4);
}

#[test]
fn errors_leave_every_reference_alone() {
    let mut repo = Repo::sample();
    let before: Vec<String> = repo.refs.keys().cloned().collect();
    let heads: Vec<Option<String>> = before.iter().map(|r| repo.peel(r)).collect();
    let output = repo.canopy(&["branch", "integration", "other", "missing-tip"]);
    assert!(!output.success);
    let after: Vec<String> = repo.refs.keys().cloned().collect();
    assert_eq!(before, after);
    let heads_after: Vec<Option<String>> = after.iter().map(|r| repo.peel(r)).collect();
    assert_eq!(heads, heads_after);
}

#[test]
fn only_the_target_reference_is_written() {
    let mut repo = Repo::sample();
    let before: Vec<(String, Option<String>)> =
        repo.refs.keys().map(|r| (r.clone(), repo.peel(r))).collect();
    let output = repo.canopy(&["branch", "integration", "feature-a", "other"]);
    assert!(output.success, "{}", output.stderr);
    assert_eq!(repo.refs.len(), before.len() + 1);
    for (name, target) in before {
        assert_eq!(repo.peel(&name), target, "{name} moved");
    }
    assert!(repo.refs.contains_key("refs/heads/integration"));
}

#[test]
fn force_without_existing_target_reports_creation() {
    let mut repo = Repo::sample();
    let output = repo.canopy(&["branch", "--force", "integration", "other"]);
    assert!(output.success, "{}", output.stderr);
    assert!(output.stdout.contains("final branch creation: created integration ->"));
}

#[test]
fn each_merge_is_made_into_the_reached_commit() {
    let mut repo = Repo::sample();
    let main = repo.branch_commit("main");
    let a = repo.rev_parse("feature-a").expect("feature-a");
    let b = repo.rev_parse("feature-b").expect("feature-b");
    let c = repo.rev_parse("feature-c").expect("feature-c");
    let (_, actions) =
        drive(&mut repo, branch_cli(false, None, "integration", &["feature-a", "feature-b", "feature-c"]));
    let merges: Vec<(String, String)> = actions
        .iter()
        .filter_map(|x| match x {
            Action::MergeCommits { ours, theirs, allow_missing_merge_base } => {
                assert!(*allow_missing_merge_base);
                Some((ours.hex.clone(), theirs.hex.clone()))
            }
            _ => None,
        })
        .collect();
    let first = repo.commits.iter().find(|(_, m)| m.parents == vec![main.clone(), a.clone()]).expect("first").0.clone();
    assert_eq!(merges, vec![(main.clone(), a.clone()), (first.clone(), b), (first.clone(), c.clone())]);
    let integration = repo.branch_commit("integration");
    assert_eq!(repo.commits[&integration].parents, vec![first, c]);
}

#[test]
fn merge_commits_carry_the_written_trees() {
    let mut repo = Repo::sample();
    let (_, actions) = drive(&mut repo, branch_cli(false, None, "integration", &["feature-a", "feature-c"]));
    let mut written = 0;
    for (k, action) in actions.iter().enumerate() {
        if let Action::WriteMergeCommit { tree, .. } = action {
            assert!(matches!(actions[k - 1], Action::WriteMergedTree));
            assert!(repo.trees.contains_key(&tree.hex));
            written += 1;
        }
    }
    assert_eq!(written, 2);
    let integration = repo.branch_commit("integration");
    assert_eq!(repo.commits[&integration].files.get("story.txt").map(String::as_str), Some("feature a\n"));
    assert_eq!(repo.commits[&integration].files.get("extra.txt").map(String::as_str), Some("feature c\n"));
}

#[test]
fn nothing_is_written_before_merging() {
    let mut repo = Repo::sample();
    let (_, actions) = drive(&mut repo, branch_cli(true, None, "integration", &["linear-1", "linear-2", "other"]));
    let first_merge = actions.iter().position(|a| matches!(a, Action::PrepareMergeOptions)).expect("merging");
    for action in &actions[..first_merge] {
        assert!(!matches!(
            action,
            Action::WriteMergedTree | Action::WriteMergeCommit { .. } | Action::UpdateReference { .. }
        ));
    }
}
