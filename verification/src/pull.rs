//! Taking over the changes of a session that goes on.

use crate::paths::{is_absolute, join_path, path_is_absolute, path_join};
use crate::session::{change_kind, changes, kind_of, Change, ChangeView};
use crate::text::{cat2, cat3, cat4, decimal, decimal_text, str_option};
use vstd::prelude::*;
use vstd::string::*;

verus! {

#[derive(Clone, Copy, PartialEq, Eq, Structural, Debug)]
pub struct PullOptions {
    pub auto_yes: bool,
    pub auto_no: bool,
    pub dry_run: bool,
    pub json: bool,
}

#[derive(Clone, Copy, PartialEq, Eq, Structural, Debug)]
pub enum ReviewDecision {
    Apply,
    Decline,
    Prompt,
}

pub open spec fn decided(auto_yes: bool, auto_no: bool, stdin_is_tty: bool) -> Option<
    ReviewDecision,
> {
    if auto_yes {
        Some(ReviewDecision::Apply)
    } else if auto_no {
        Some(ReviewDecision::Decline)
    } else if stdin_is_tty {
        Some(ReviewDecision::Prompt)
    } else {
        None
    }
}

/// Who decides about the changes: a standing answer, or the user at the
/// terminal.
pub fn decide_review(auto_yes: bool, auto_no: bool, stdin_is_tty: bool) -> (r: Result<
    ReviewDecision,
    String,
>)
    ensures
        (match r {
            Ok(decision) => decided(auto_yes, auto_no, stdin_is_tty) == Some(decision),
            Err(message) => decided(auto_yes, auto_no, stdin_is_tty) is None && message@
                == "stdin is not interactive; pass --yes or --no"@,
        }),
{
    if auto_yes {
        Ok(ReviewDecision::Apply)
    } else if auto_no {
        Ok(ReviewDecision::Decline)
    } else if stdin_is_tty {
        Ok(ReviewDecision::Prompt)
    } else {
        Err("stdin is not interactive; pass --yes or --no".to_owned())
    }
}

/// What is done about the changes that were found: nothing where there are
/// none or on a dry run, else what is decided. A report in JSON cannot stand
/// beside a question.
pub open spec fn step_of(options: PullOptions, changed: nat, stdin_is_tty: bool) -> Result<
    ReviewDecision,
    Seq<char>,
> {
    if changed == 0 || options.dry_run {
        Ok(ReviewDecision::Decline)
    } else {
        match decided(options.auto_yes, options.auto_no, stdin_is_tty) {
            None => Err("stdin is not interactive; pass --yes or --no"@),
            Some(decision) => if decision == ReviewDecision::Prompt && options.json {
                Err("--json cannot prompt for confirmation; pass --yes or --no"@)
            } else {
                Ok(decision)
            },
        }
    }
}

pub fn pull_step(options: PullOptions, changed: usize, stdin_is_tty: bool) -> (r: Result<
    ReviewDecision,
    String,
>)
    ensures
        (match step_of(options, changed as nat, stdin_is_tty) {
            Ok(decision) => r == Ok::<ReviewDecision, String>(decision),
            Err(message) => r is Err && r->Err_0@ == message,
        }),
{
    if changed == 0 || options.dry_run {
        return Ok(ReviewDecision::Decline);
    }
    match decide_review(options.auto_yes, options.auto_no, stdin_is_tty) {
        Ok(decision) => if decision == ReviewDecision::Prompt && options.json {
            Err("--json cannot prompt for confirmation; pass --yes or --no".to_owned())
        } else {
            Ok(decision)
        },
        Err(message) => Err(message),
    }
}

/// A dry run applies nothing and asks nothing, whatever else is asked for.
/// Without a standing yes and without a terminal nothing is applied, and
/// with a JSON report nothing is asked.
pub proof fn lemma_unasked_pulls_need_a_flag(
    options: PullOptions,
    changed: nat,
    stdin_is_tty: bool,
)
    ensures
        ({
            let step = step_of(options, changed, stdin_is_tty);
            &&& options.dry_run ==> step == Ok::<ReviewDecision, Seq<char>>(ReviewDecision::Decline)
            &&& step == Ok::<ReviewDecision, Seq<char>>(ReviewDecision::Apply) ==> options.auto_yes
            &&& step == Ok::<ReviewDecision, Seq<char>>(ReviewDecision::Prompt) ==> stdin_is_tty
                && !options.json
        }),
{
}

/// Whether the changes are listed before anything else: not in a JSON report.
pub fn lists_changes(options: PullOptions, changed: usize) -> (r: bool)
    ensures
        r == (!options.json && changed > 0),
{
    !options.json && changed > 0
}

/// What has to be a directory for a pull, and what is said where it is not.
pub enum Target {
    /// The session's repository.
    Repository(String),
    /// Another directory, which is looked up first.
    Elsewhere(String),
}

pub open spec fn wanted_target(
    repo_path: Seq<char>,
    override_path: Option<Seq<char>>,
    cwd: Seq<char>,
) -> Seq<char> {
    match override_path {
        None => repo_path,
        Some(path) => if path_is_absolute(path) {
            path
        } else {
            path_join(cwd, path)
        },
    }
}

/// The directory that a pull goes into: the session's repository, unless
/// another one is named, from the current directory on.
pub fn pull_target(repo_path: &str, override_path: Option<&str>, cwd: &str) -> (r: Target)
    ensures
        ({
            let path = wanted_target(repo_path@, str_option(override_path), cwd@);
            match r {
                Target::Repository(target) => override_path is None && target@ == path,
                Target::Elsewhere(target) => override_path is Some && target@ == path,
            }
        }),
{
    match override_path {
        None => Target::Repository(repo_path.to_owned()),
        Some(path) => if is_absolute(path) {
            Target::Elsewhere(path.to_owned())
        } else {
            Target::Elsewhere(join_path(cwd, path))
        },
    }
}

/// Judges a target. `resolved` is where another directory really is, as far
/// as it can be reached; `is_directory` speaks of that place.
pub fn check_target(target: Target, resolved: Option<String>, is_directory: bool) -> (r: Result<
    String,
    String,
>)
    ensures
        (match target {
            Target::Repository(path) => match r {
                Ok(place) => is_directory && place@ == path@,
                Err(message) => !is_directory && message@ == "repository "@ + path@
                    + " no longer exists"@,
            },
            Target::Elsewhere(path) => match resolved {
                None => r is Err && r->Err_0@ == "cannot access "@ + path@,
                Some(found) => match r {
                    Ok(place) => is_directory && place@ == found@,
                    Err(message) => !is_directory && message@ == found@ + " is not a directory"@,
                },
            },
        }),
{
    match target {
        Target::Repository(path) => if is_directory {
            Ok(path)
        } else {
            Err(cat3("repository ", path.as_str(), " no longer exists"))
        },
        Target::Elsewhere(path) => match resolved {
            None => Err(cat2("cannot access ", path.as_str())),
            Some(found) => if is_directory {
                Ok(found)
            } else {
                Err(cat2(found.as_str(), " is not a directory"))
            },
        },
    }
}

/// The complaint about a session without a workspace.
pub fn check_workspace(sandbox: &str, is_directory: bool) -> (r: Result<(), String>)
    ensures
        r is Ok <==> is_directory,
        r matches Err(message) ==> message@ == "session workspace "@ + sandbox@
            + " no longer exists"@,
{
    if is_directory {
        Ok(())
    } else {
        Err(cat3("session workspace ", sandbox, " no longer exists"))
    }
}

/// A changed path and the sides that have it.
pub struct Sighting {
    pub path: String,
    pub in_target: bool,
    pub in_sandbox: bool,
}

/// What a pull found and did.
pub struct PullReport {
    pub session: String,
    pub target: String,
    pub applied: bool,
    pub changed: Vec<Change>,
}

pub open spec fn sighted(list: Seq<Sighting>) -> Seq<ChangeView> {
    Seq::new(
        list.len(),
        |i: int|
            ChangeView {
                path: list[i].path@,
                kind: kind_of(list[i].in_target, list[i].in_sandbox),
            },
    )
}

/// Puts a report together: every changed path with its kind.
pub fn build_pull_report(
    session: &str,
    target: &str,
    changed: &Vec<Sighting>,
    applied: bool,
) -> (r: PullReport)
    ensures
        r.session@ == session@,
        r.target@ == target@,
        r.applied == applied,
        changes(r.changed@) == sighted(changed@),
{
    let mut list: Vec<Change> = Vec::new();
    let mut i: usize = 0;
    assert(changes(list@) =~= sighted(changed@).take(0));
    while i < changed.len()
        invariant
            i <= changed@.len(),
            changes(list@) == sighted(changed@).take(i as int),
        decreases changed@.len() - i,
    {
        let item = &changed[i];
        let change = Change {
            path: item.path.clone(),
            kind: change_kind(item.in_target, item.in_sandbox),
        };
        let ghost before = list@;
        list.push(change);
        assert(changes(list@) =~= changes(before).push(change@));
        assert(changes(list@) =~= sighted(changed@).take(i + 1));
        i += 1;
    }
    assert(sighted(changed@).take(i as int) =~= sighted(changed@));
    PullReport { session: session.to_owned(), target: target.to_owned(), applied, changed: list }
}

pub open spec fn outcome_text(
    applied: bool,
    changed: nat,
    dry_run: bool,
    target: Seq<char>,
) -> Seq<char> {
    if applied {
        "pulled "@ + decimal_text(changed) + " files into "@ + target
    } else if changed == 0 {
        "no changes to pull"@
    } else if dry_run {
        "dry run: nothing applied"@
    } else {
        "no changes applied"@
    }
}

/// The last line of a pull.
pub fn pull_outcome(applied: bool, changed: usize, dry_run: bool, target: &str) -> (r: String)
    ensures
        r@ == outcome_text(applied, changed as nat, dry_run, target@),
{
    if applied {
        let number = decimal(changed as u64);
        cat4("pulled ", number.as_str(), " files into ", target)
    } else if changed == 0 {
        "no changes to pull".to_owned()
    } else if dry_run {
        "dry run: nothing applied".to_owned()
    } else {
        "no changes applied".to_owned()
    }
}

} // verus!
