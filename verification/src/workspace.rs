//! Filling the workspace of a session: which way is taken, and what git says
//! about files that are not in its last commit.

use crate::paths::{any_matches, join_path, matches_any, path_join};
use crate::platform::{decode_lossy, lossy_text};
use crate::sandbox::{entries, usable, Entry, EntryView, Kind};
use crate::text::{
    cat2, cat3, debug_of, debug_text, lemma_texts_push, pieces, same_text, str_option, texts, trim,
    trimmed, views, CharSet,
};
use vstd::prelude::*;
use vstd::string::*;

verus! {

/// Where the object database of the repository is mounted in the container.
pub const CONTAINER_GIT_OBJECTS: &'static str = "/pithos/git-objects";

/// The ways to fill a workspace.
#[derive(Clone, Copy, PartialEq, Eq, Structural, Debug)]
pub enum CopyStrategy {
    /// Every file is a copy-on-write clone.
    Reflink,
    /// A git clone that shares the repository's objects.
    Worktree,
    /// Every file is copied.
    Copy,
}

/// How single files are copied.
#[derive(Clone, Copy, PartialEq, Eq, Structural, Debug)]
pub enum CopyMethod {
    Reflink,
    Copy,
}

impl CopyStrategy {
    pub open spec fn label_text(self) -> Seq<char> {
        match self {
            CopyStrategy::Reflink => "reflink"@,
            CopyStrategy::Worktree => "worktree"@,
            CopyStrategy::Copy => "copy"@,
        }
    }

    pub fn label(self) -> (r: &'static str)
        ensures
            r@ == self.label_text(),
    {
        match self {
            CopyStrategy::Reflink => "reflink",
            CopyStrategy::Worktree => "worktree",
            CopyStrategy::Copy => "copy",
        }
    }

    /// How files are copied while a workspace of this kind is applied.
    pub fn copy_method(self) -> (r: CopyMethod)
        ensures
            r == (if self == CopyStrategy::Copy {
                CopyMethod::Copy
            } else {
                CopyMethod::Reflink
            }),
    {
        match self {
            CopyStrategy::Reflink => CopyMethod::Reflink,
            CopyStrategy::Worktree => CopyMethod::Reflink,
            CopyStrategy::Copy => CopyMethod::Copy,
        }
    }

    /// The strategy that a label names.
    pub open spec fn labelled(label: Seq<char>) -> Option<CopyStrategy> {
        if label == "reflink"@ {
            Some(CopyStrategy::Reflink)
        } else if label == "worktree"@ {
            Some(CopyStrategy::Worktree)
        } else if label == "copy"@ {
            Some(CopyStrategy::Copy)
        } else {
            None
        }
    }

    pub fn from_label(label: &str) -> (r: Result<CopyStrategy, String>)
        ensures
            (match r {
                Ok(strategy) => CopyStrategy::labelled(label@) == Some(strategy),
                Err(message) => CopyStrategy::labelled(label@) is None && message@
                    == "invalid copy_strategy "@ + debug_text(label@)
                    + "; expected auto, reflink, worktree or copy"@,
            }),
    {
        if same_text(label, "reflink") {
            Ok(CopyStrategy::Reflink)
        } else if same_text(label, "worktree") {
            Ok(CopyStrategy::Worktree)
        } else if same_text(label, "copy") {
            Ok(CopyStrategy::Copy)
        } else {
            let quoted = debug_of(label);
            Err(
                cat3(
                    "invalid copy_strategy ",
                    quoted.as_str(),
                    "; expected auto, reflink, worktree or copy",
                ),
            )
        }
    }
}

/// The label of a strategy names that strategy.
pub proof fn lemma_label_names_strategy(strategy: CopyStrategy)
    ensures
        CopyStrategy::labelled(strategy.label_text()) == Some(strategy),
{
    reveal_strlit("reflink");
    reveal_strlit("worktree");
    reveal_strlit("copy");
    assert("worktree"@.len() == 8 && "reflink"@.len() == 7 && "copy"@.len() == 4);
}

/// Reads the configured strategy. None is forced where none is configured,
/// or where detection is asked for.
pub fn parse_override(value: Option<&str>) -> (r: Result<Option<CopyStrategy>, String>)
    ensures
        (match str_option(value) {
            None => r == Ok::<Option<CopyStrategy>, String>(None),
            Some(label) => if label == "auto"@ {
                r == Ok::<Option<CopyStrategy>, String>(None)
            } else {
                match CopyStrategy::labelled(label) {
                    Some(strategy) => r == Ok::<Option<CopyStrategy>, String>(Some(strategy)),
                    None => r is Err && r->Err_0@ == "invalid copy_strategy "@ + debug_text(label)
                        + "; expected auto, reflink, worktree or copy"@,
                }
            },
        }),
{
    match value {
        None => Ok(None),
        Some(label) => if same_text(label, "auto") {
            Ok(None)
        } else {
            match CopyStrategy::from_label(label) {
                Ok(strategy) => Ok(Some(strategy)),
                Err(message) => Err(message),
            }
        },
    }
}

/// The cheapest way that the platform has: clones where the file system makes
/// them, else a shared clone where the repository allows one, else a copy.
pub open spec fn detected(reflink_supported: bool, worktree_eligible: bool) -> CopyStrategy {
    if reflink_supported {
        CopyStrategy::Reflink
    } else if worktree_eligible {
        CopyStrategy::Worktree
    } else {
        CopyStrategy::Copy
    }
}

pub fn detect(reflink_supported: bool, worktree_eligible: bool) -> (r: CopyStrategy)
    ensures
        r == detected(reflink_supported, worktree_eligible),
{
    if reflink_supported {
        CopyStrategy::Reflink
    } else if worktree_eligible {
        CopyStrategy::Worktree
    } else {
        CopyStrategy::Copy
    }
}

/// The strategy to begin with: the forced one, else the detected one, else a
/// copy where detection failed.
pub fn requested(forced: Option<CopyStrategy>, found: Option<CopyStrategy>) -> (r: CopyStrategy)
    ensures
        r == (match forced {
            Some(strategy) => strategy,
            None => match found {
                Some(strategy) => strategy,
                None => CopyStrategy::Copy,
            },
        }),
{
    match forced {
        Some(strategy) => strategy,
        None => match found {
            Some(strategy) => strategy,
            None => CopyStrategy::Copy,
        },
    }
}

/// The volume through which a shared clone reaches the repository's objects.
pub fn worktree_volume_arg(repository: &str, strategy: CopyStrategy) -> (r: Option<String>)
    ensures
        (match r {
            Some(volume) => strategy == CopyStrategy::Worktree && volume@ == path_join(
                path_join(repository@, ".git"@),
                "objects"@,
            ) + (":"@ + CONTAINER_GIT_OBJECTS@ + ":ro,Z"@),
            None => strategy != CopyStrategy::Worktree,
        }),
{
    match strategy {
        CopyStrategy::Worktree => {
            let git = join_path(repository, ".git");
            let objects = join_path(git.as_str(), "objects");
            let mount = cat3(":", CONTAINER_GIT_OBJECTS, ":ro,Z");
            Some(cat2(objects.as_str(), mount.as_str()))
        },
        _ => None,
    }
}

/// What git answered, or why it could not be asked.
pub struct GitAnswer {
    pub success: bool,
    pub stdout: Vec<u8>,
    pub stderr: Vec<u8>,
}

/// Why a repository cannot back a shared clone.
pub open spec fn ineligible(submodules: bool, head: Result<GitAnswer, String>) -> Option<
    Seq<char>,
> {
    if submodules {
        Some("worktree strategy requested but repository contains submodules"@)
    } else {
        match head {
            Ok(answer) => if answer.success {
                None
            } else {
                Some(
                    "worktree strategy requested but HEAD is not resolvable: "@ + trimmed(
                        lossy_text(answer.stderr@),
                        CharSet::WhiteSpace,
                    ),
                )
            },
            Err(error) => Some(
                "worktree strategy requested but git is unavailable: "@ + error@,
            ),
        }
    }
}

pub fn require_worktree_eligible(submodules: bool, head: &Result<GitAnswer, String>) -> (r: Result<
    (),
    String,
>)
    ensures
        (match r {
            Ok(_) => ineligible(submodules, *head) is None,
            Err(message) => ineligible(submodules, *head) == Some(message@),
        }),
{
    if submodules {
        return Err("worktree strategy requested but repository contains submodules".to_owned());
    }
    match head {
        Ok(answer) => if answer.success {
            Ok(())
        } else {
            let text = decode_lossy(answer.stderr.as_slice());
            let reason = trim(text.as_str());
            Err(
                cat2(
                    "worktree strategy requested but HEAD is not resolvable: ",
                    reason.as_str(),
                ),
            )
        },
        Err(error) => Err(
            cat2("worktree strategy requested but git is unavailable: ", error.as_str()),
        ),
    }
}

/// Whether the repository can back a shared clone: it has a commit and no
/// submodules.
pub fn worktree_eligible(submodules: bool, head: &Result<GitAnswer, String>) -> (r: bool)
    ensures
        r == (ineligible(submodules, *head) is None),
{
    require_worktree_eligible(submodules, head).is_ok()
}

/// Why a forced strategy cannot be used.
pub fn ensure_strategy_supported(
    strategy: CopyStrategy,
    reflink_supported: bool,
    submodules: bool,
    head: &Result<GitAnswer, String>,
) -> (r: Result<(), String>)
    ensures
        (match strategy {
            CopyStrategy::Reflink => if reflink_supported {
                r is Ok
            } else {
                r is Err && r->Err_0@
                    == "reflink strategy requested but filesystem does not support reflink clones"@
            },
            CopyStrategy::Worktree => match r {
                Ok(_) => ineligible(submodules, *head) is None,
                Err(message) => ineligible(submodules, *head) == Some(message@),
            },
            CopyStrategy::Copy => r is Ok,
        }),
{
    match strategy {
        CopyStrategy::Reflink => if reflink_supported {
            Ok(())
        } else {
            Err(
                "reflink strategy requested but filesystem does not support reflink clones".to_owned(),
            )
        },
        CopyStrategy::Worktree => require_worktree_eligible(submodules, head),
        CopyStrategy::Copy => Ok(()),
    }
}

/// The next thing to do while a workspace is filled.
#[derive(Clone, Copy, PartialEq, Eq, Structural, Debug)]
pub enum Fill {
    /// Make a shared clone.
    CloneWorktree,
    /// Copy the tree file by file.
    CopyTree(CopyMethod),
    /// Empty the workspace, then copy the tree file by file.
    ClearAndCopy,
    /// The workspace is filled, in this way.
    Filled(CopyStrategy),
    /// The last step failed, and there is no other way.
    Failed,
}

impl Fill {
    /// What a file-by-file copy is called while it goes on.
    pub fn copy_label(self) -> (r: Option<&'static str>)
        ensures
            str_option(r) == (match self {
                Fill::CopyTree(CopyMethod::Reflink) => Some("reflink copy"@),
                Fill::CopyTree(CopyMethod::Copy) | Fill::ClearAndCopy => Some("plain copy"@),
                _ => None,
            }),
    {
        match self {
            Fill::CopyTree(CopyMethod::Reflink) => Some("reflink copy"),
            Fill::CopyTree(CopyMethod::Copy) => Some("plain copy"),
            Fill::ClearAndCopy => Some("plain copy"),
            _ => None,
        }
    }
}

/// The first step for a strategy.
pub open spec fn begun(strategy: CopyStrategy) -> Fill {
    match strategy {
        CopyStrategy::Worktree => Fill::CloneWorktree,
        CopyStrategy::Reflink => Fill::CopyTree(CopyMethod::Reflink),
        CopyStrategy::Copy => Fill::CopyTree(CopyMethod::Copy),
    }
}

/// What follows a step. A shared clone that fails falls back to a copy,
/// unless it was forced.
pub open spec fn followed(step: Fill, succeeded: bool, forced: bool) -> Fill {
    match step {
        Fill::CloneWorktree => if succeeded {
            Fill::Filled(CopyStrategy::Worktree)
        } else if forced {
            Fill::Failed
        } else {
            Fill::ClearAndCopy
        },
        Fill::CopyTree(CopyMethod::Reflink) => if succeeded {
            Fill::Filled(CopyStrategy::Reflink)
        } else {
            Fill::Failed
        },
        Fill::CopyTree(CopyMethod::Copy) => if succeeded {
            Fill::Filled(CopyStrategy::Copy)
        } else {
            Fill::Failed
        },
        Fill::ClearAndCopy => if succeeded {
            Fill::Filled(CopyStrategy::Copy)
        } else {
            Fill::Failed
        },
        Fill::Filled(strategy) => Fill::Filled(strategy),
        Fill::Failed => Fill::Failed,
    }
}

pub fn begin_fill(strategy: CopyStrategy) -> (r: Fill)
    ensures
        r == begun(strategy),
{
    match strategy {
        CopyStrategy::Worktree => Fill::CloneWorktree,
        CopyStrategy::Reflink => Fill::CopyTree(CopyMethod::Reflink),
        CopyStrategy::Copy => Fill::CopyTree(CopyMethod::Copy),
    }
}

pub fn next_fill(step: Fill, succeeded: bool, forced: bool) -> (r: Fill)
    ensures
        r == followed(step, succeeded, forced),
{
    match step {
        Fill::CloneWorktree => if succeeded {
            Fill::Filled(CopyStrategy::Worktree)
        } else if forced {
            Fill::Failed
        } else {
            Fill::ClearAndCopy
        },
        Fill::CopyTree(method) => if succeeded {
            match method {
                CopyMethod::Reflink => Fill::Filled(CopyStrategy::Reflink),
                CopyMethod::Copy => Fill::Filled(CopyStrategy::Copy),
            }
        } else {
            Fill::Failed
        },
        Fill::ClearAndCopy => if succeeded {
            Fill::Filled(CopyStrategy::Copy)
        } else {
            Fill::Failed
        },
        Fill::Filled(strategy) => Fill::Filled(strategy),
        Fill::Failed => Fill::Failed,
    }
}

/// A forced strategy is used or the session fails; whatever is used was asked
/// for, or is a copy that stands in for a shared clone; and two steps always
/// decide.
pub proof fn lemma_fill(strategy: CopyStrategy, forced: bool, first: bool, second: bool)
    ensures
        ({
            let one = followed(begun(strategy), first, forced);
            let two = followed(one, second, forced);
            &&& two is Filled || two is Failed
            &&& two matches Fill::Filled(used) ==> used == strategy || (!forced && strategy
                == CopyStrategy::Worktree && used == CopyStrategy::Copy)
            &&& first ==> one == Fill::Filled(strategy)
            &&& !forced && strategy == CopyStrategy::Worktree && !first && second ==> two
                == Fill::Filled(CopyStrategy::Copy)
        }),
{
}

/// What the workspace's object store is pointed at.
pub fn alternates_text() -> (r: String)
    ensures
        r@ == CONTAINER_GIT_OBJECTS@ + "\n"@,
{
    cat2(CONTAINER_GIT_OBJECTS, "\n")
}

/// The git arguments of a shared clone.
pub fn clone_args(source: &str, sandbox: &str) -> (r: Vec<String>)
    ensures
        texts(r@) == seq![
            "clone"@,
            "--quiet"@,
            "--shared"@,
            "--no-checkout"@,
            source@,
            sandbox@,
        ],
{
    let r = vec![
        "clone".to_owned(),
        "--quiet".to_owned(),
        "--shared".to_owned(),
        "--no-checkout".to_owned(),
        source.to_owned(),
        sandbox.to_owned(),
    ];
    assert(texts(r@) =~= seq![
        "clone"@,
        "--quiet"@,
        "--shared"@,
        "--no-checkout"@,
        source@,
        sandbox@,
    ]);
    r
}

/// The commit that a repository is at, from what git answered.
pub fn head_commit(answer: &GitAnswer) -> (r: Result<String, String>)
    ensures
        ({
            let commit = trimmed(lossy_text(answer.stdout@), CharSet::WhiteSpace);
            match r {
                Ok(text) => answer.success && commit.len() > 0 && text@ == commit,
                Err(message) => if answer.success {
                    commit.len() == 0 && message@ == "HEAD did not resolve to a commit"@
                } else {
                    message@ == "could not resolve HEAD: "@ + trimmed(
                        lossy_text(answer.stderr@),
                        CharSet::WhiteSpace,
                    )
                },
            }
        }),
{
    if !answer.success {
        let text = decode_lossy(answer.stderr.as_slice());
        let reason = trim(text.as_str());
        return Err(cat2("could not resolve HEAD: ", reason.as_str()));
    }
    let text = decode_lossy(answer.stdout.as_slice());
    let commit = trim(text.as_str());
    if commit.as_str().is_empty() {
        return Err("HEAD did not resolve to a commit".to_owned());
    }
    Ok(commit)
}

/// The pieces of `bytes` between the separators.
fn split_bytes(bytes: &[u8], separator: u8) -> (r: Vec<Vec<u8>>)
    ensures
        views(r@) == pieces(bytes@, separator),
{
    let mut done: Vec<Vec<u8>> = Vec::new();
    let mut current: Vec<u8> = Vec::new();
    let ghost all = bytes@;
    let mut i: usize = 0;
    proof {
        assert(all.take(0) =~= Seq::empty());
        assert(views(done@).push(current@) =~= pieces(all.take(0), separator));
    }
    while i < bytes.len()
        invariant
            i <= bytes@.len(),
            all == bytes@,
            views(done@).push(current@) == pieces(all.take(i as int), separator),
        decreases bytes@.len() - i,
    {
        let byte = bytes[i];
        let ghost before = pieces(all.take(i as int), separator);
        proof {
            assert(all.take(i + 1).drop_last() =~= all.take(i as int));
            assert(all.take(i + 1).last() == byte);
            assert(before.drop_last() =~= views(done@));
            assert(before.last() == current@);
        }
        if byte == separator {
            let ghost closed = done@;
            done.push(current);
            assert(views(done@) =~= views(closed).push(current@));
            current = Vec::new();
        } else {
            current.push(byte);
        }
        i += 1;
        assert(views(done@).push(current@) =~= pieces(all.take(i as int), separator));
    }
    assert(all.take(i as int) =~= all);
    let ghost closed = done@;
    done.push(current);
    assert(views(done@) =~= views(closed).push(current@));
    done
}

/// How far the reading of a status is: the paths so far, and whether the next
/// entry is the old path of a rename.
pub struct StatusSoFar {
    pub paths: Seq<Seq<char>>,
    pub old_path_next: bool,
}

/// The paths in the entries of a status. An entry is two letters, a space and
/// a path; that of a rename or a copy is followed by the old path.
pub open spec fn status_read(list: Seq<Seq<u8>>) -> StatusSoFar
    decreases list.len(),
{
    if list.len() == 0 {
        StatusSoFar { paths: Seq::empty(), old_path_next: false }
    } else {
        let before = status_read(list.drop_last());
        let entry = list.last();
        if entry.len() == 0 {
            before
        } else if before.old_path_next {
            StatusSoFar { paths: before.paths.push(lossy_text(entry)), old_path_next: false }
        } else {
            StatusSoFar {
                paths: before.paths.push(lossy_text(entry.skip(3))),
                old_path_next: entry[0] == 'R' as u8 || entry[0] == 'C' as u8,
            }
        }
    }
}

/// Every entry that begins with letters is long enough to have them.
pub open spec fn status_sound(list: Seq<Seq<u8>>) -> bool
    decreases list.len(),
{
    list.len() == 0 || {
        &&& status_sound(list.drop_last())
        &&& list.last().len() == 0 || status_read(list.drop_last()).old_path_next
            || list.last().len() >= 3
    }
}

fn tail_of(entry: &Vec<u8>, from: usize) -> (r: Vec<u8>)
    requires
        from <= entry@.len(),
    ensures
        r@ == entry@.skip(from as int),
{
    let mut out: Vec<u8> = Vec::new();
    let mut i: usize = from;
    assert(out@ =~= entry@.subrange(from as int, from as int));
    while i < entry.len()
        invariant
            from <= i <= entry@.len(),
            out@ == entry@.subrange(from as int, i as int),
        decreases entry@.len() - i,
    {
        out.push(entry[i]);
        i += 1;
        assert(out@ =~= entry@.subrange(from as int, i as int));
    }
    assert(out@ =~= entry@.skip(from as int));
    out
}

/// Reads the entries of a status, or says that it is no status that git
/// prints.
fn read_status(list: &Vec<Vec<u8>>) -> (r: Option<Vec<String>>)
    ensures
        (match r {
            Some(paths) => status_sound(views(list@)) && texts(paths@) == status_read(
                views(list@),
            ).paths,
            None => !status_sound(views(list@)),
        }),
{
    let ghost all = views(list@);
    let mut paths: Vec<String> = Vec::new();
    let mut old_path_next = false;
    let mut i: usize = 0;
    assert(all.take(0) =~= Seq::empty());
    assert(texts(paths@) =~= Seq::empty());
    while i < list.len()
        invariant
            i <= list@.len(),
            all == views(list@),
            status_sound(all.take(i as int)),
            texts(paths@) == status_read(all.take(i as int)).paths,
            old_path_next == status_read(all.take(i as int)).old_path_next,
        decreases list@.len() - i,
    {
        broadcast use lemma_texts_push;

        let entry = &list[i];
        proof {
            assert(all.take(i + 1).drop_last() =~= all.take(i as int));
            assert(all.take(i + 1).last() == entry@);
        }
        if entry.len() > 0 {
            if old_path_next {
                old_path_next = false;
                paths.push(decode_lossy(entry.as_slice()));
            } else {
                if entry.len() < 3 {
                    proof {
                        lemma_unsound_stays(all, i + 1);
                    }
                    return None;
                }
                old_path_next = entry[0] == 82 || entry[0] == 67;
                let tail = tail_of(entry, 3);
                paths.push(decode_lossy(tail.as_slice()));
            }
        }
        i += 1;
    }
    assert(all.take(i as int) =~= all);
    Some(paths)
}

proof fn lemma_unsound_stays(list: Seq<Seq<u8>>, n: int)
    requires
        0 <= n <= list.len(),
        !status_sound(list.take(n)),
    ensures
        !status_sound(list),
    decreases list.len() - n,
{
    if n == list.len() {
        assert(list.take(n) =~= list);
    } else {
        assert(list.take(n + 1).drop_last() =~= list.take(n));
        lemma_unsound_stays(list, n + 1);
    }
}

/// The outcome of asking git for changed paths.
pub enum Dirty {
    Paths(Vec<String>),
    /// Git failed, with this message.
    Refused(String),
    /// Git printed what is no status.
    Garbled,
}

/// The paths that differ from the last commit, with the old paths of renames,
/// from what `git status` answered.
pub fn dirty_worktree_paths(answer: &GitAnswer) -> (r: Dirty)
    ensures
        ({
            let list = pieces(answer.stdout@, 0u8);
            match r {
                Dirty::Paths(paths) => answer.success && status_sound(list) && texts(paths@)
                    == status_read(list).paths,
                Dirty::Refused(message) => !answer.success && message@ == "git status failed: "@
                    + trimmed(lossy_text(answer.stderr@), CharSet::WhiteSpace),
                Dirty::Garbled => answer.success && !status_sound(list),
            }
        }),
{
    if !answer.success {
        let text = decode_lossy(answer.stderr.as_slice());
        let reason = trim(text.as_str());
        return Dirty::Refused(cat2("git status failed: ", reason.as_str()));
    }
    let list = split_bytes(answer.stdout.as_slice(), 0);
    match read_status(&list) {
        Some(paths) => Dirty::Paths(paths),
        None => Dirty::Garbled,
    }
}

/// What is done in the workspace for a path that differs from the commit.
#[derive(Clone, Copy, PartialEq, Eq, Structural, Debug)]
pub enum Overlay {
    Copy,
    Remove,
    Leave,
}

/// A path that the repository has is copied; one that it lacks goes from the
/// workspace.
pub open spec fn overlay_for(in_source: bool, in_sandbox: bool) -> Overlay {
    if in_source {
        Overlay::Copy
    } else if in_sandbox {
        Overlay::Remove
    } else {
        Overlay::Leave
    }
}

pub fn overlay(in_source: bool, in_sandbox: bool) -> (r: Overlay)
    ensures
        r == overlay_for(in_source, in_sandbox),
{
    if in_source {
        Overlay::Copy
    } else if in_sandbox {
        Overlay::Remove
    } else {
        Overlay::Leave
    }
}

/// A set of files after the paths in `paths` were treated in turn: `source`
/// is what the repository holds, `sandbox` what the workspace held before.
pub open spec fn overlaid<C>(
    source: Map<Seq<char>, C>,
    sandbox: Map<Seq<char>, C>,
    paths: Seq<Seq<char>>,
) -> Map<Seq<char>, C>
    decreases paths.len(),
{
    if paths.len() == 0 {
        sandbox
    } else {
        let before = overlaid(source, sandbox, paths.drop_last());
        let path = paths.last();
        match overlay_for(source.contains_key(path), before.contains_key(path)) {
            Overlay::Copy => before.insert(path, source[path]),
            Overlay::Remove => before.remove(path),
            Overlay::Leave => before,
        }
    }
}

/// A fresh checkout becomes what the user left, deleted files included, where
/// the listed paths are all those in which the two differ.
pub proof fn lemma_overlay_restores<C>(
    source: Map<Seq<char>, C>,
    checkout: Map<Seq<char>, C>,
    paths: Seq<Seq<char>>,
)
    requires
        forall|path: Seq<char>|
            !paths.contains(path) ==> (#[trigger] source.contains_key(path)
                <==> checkout.contains_key(path)) && (source.contains_key(path) ==> source[path]
                == checkout[path]),
    ensures
        overlaid(source, checkout, paths) == source,
{
    assert forall|path: Seq<char>|
        (#[trigger] overlaid(source, checkout, paths).contains_key(path) <==> source.contains_key(
            path,
        )) && (source.contains_key(path) ==> overlaid(source, checkout, paths)[path]
            == source[path]) by {
        lemma_overlaid_at(source, checkout, paths, path);
    }
    assert(overlaid(source, checkout, paths) =~= source);
}

proof fn lemma_overlaid_at<C>(
    source: Map<Seq<char>, C>,
    checkout: Map<Seq<char>, C>,
    paths: Seq<Seq<char>>,
    path: Seq<char>,
)
    ensures
        ({
            let expected = if paths.contains(path) {
                source
            } else {
                checkout
            };
            let found = overlaid(source, checkout, paths);
            &&& found.contains_key(path) <==> expected.contains_key(path)
            &&& expected.contains_key(path) ==> found[path] == expected[path]
        }),
    decreases paths.len(),
{
    if paths.len() > 0 {
        let front = paths.drop_last();
        lemma_overlaid_at(source, checkout, front, path);
        assert(paths[paths.len() - 1] == paths.last());
        if front.contains(path) {
            let i = choose|i: int| 0 <= i < front.len() && front[i] == path;
            assert(paths[i] == path);
        }
        if paths.contains(path) && path != paths.last() {
            let i = choose|i: int| 0 <= i < paths.len() && paths[i] == path;
            assert(front[i] == path);
        }
    }
}

pub open spec fn ascii_space(byte: u8) -> bool {
    byte == 9 || byte == 10 || byte == 12 || byte == 13 || byte == 32
}

pub open spec fn without_spaces_at_end(bytes: Seq<u8>) -> Seq<u8>
    decreases bytes.len(),
{
    if bytes.len() > 0 && ascii_space(bytes.last()) {
        without_spaces_at_end(bytes.drop_last())
    } else {
        bytes
    }
}

fn strip_spaces_at_end(bytes: &Vec<u8>) -> (r: Vec<u8>)
    ensures
        r@ == without_spaces_at_end(bytes@),
{
    let mut out = tail_of(bytes, 0);
    assert(out@ =~= bytes@);
    while out.len() > 0
        invariant
            without_spaces_at_end(out@) == without_spaces_at_end(bytes@),
        decreases out@.len(),
    {
        let last = out[out.len() - 1];
        let space = last == 9 || last == 10 || last == 12 || last == 13 || last == 32;
        if !space {
            return out;
        }
        out.pop();
    }
    out
}

/// A path that git does not track.
pub struct Untracked {
    pub path: String,
    /// A repository of its own, listed as a whole.
    pub is_directory: bool,
}

pub struct UntrackedView {
    pub path: Seq<char>,
    pub is_directory: bool,
}

impl View for Untracked {
    type V = UntrackedView;

    open spec fn view(&self) -> UntrackedView {
        UntrackedView { path: self.path@, is_directory: self.is_directory }
    }
}

pub open spec fn untracked_views(list: Seq<Untracked>) -> Seq<UntrackedView> {
    Seq::new(list.len(), |i: int| list[i]@)
}

/// The entries of a listing that are not empty.
pub open spec fn untracked_read(list: Seq<Seq<u8>>) -> Seq<UntrackedView>
    decreases list.len(),
{
    if list.len() == 0 {
        Seq::empty()
    } else {
        let before = untracked_read(list.drop_last());
        let entry = list.last();
        if entry.len() == 0 {
            before
        } else {
            before.push(
                UntrackedView {
                    path: lossy_text(without_spaces_at_end(entry)),
                    is_directory: entry.last() == '/' as u8,
                },
            )
        }
    }
}

/// The paths that git does not track, from what `git ls-files` answered.
pub fn untracked_paths(answer: &GitAnswer) -> (r: Result<Vec<Untracked>, String>)
    ensures
        (match r {
            Ok(list) => answer.success && untracked_views(list@) == untracked_read(
                pieces(answer.stdout@, 0u8),
            ),
            Err(message) => !answer.success && message@ == "git ls-files failed: "@ + trimmed(
                lossy_text(answer.stderr@),
                CharSet::WhiteSpace,
            ),
        }),
{
    if !answer.success {
        let text = decode_lossy(answer.stderr.as_slice());
        let reason = trim(text.as_str());
        return Err(cat2("git ls-files failed: ", reason.as_str()));
    }
    let list = split_bytes(answer.stdout.as_slice(), 0);
    let ghost all = views(list@);
    let mut out: Vec<Untracked> = Vec::new();
    let mut i: usize = 0;
    assert(all.take(0) =~= Seq::empty());
    assert(untracked_views(out@) =~= Seq::empty());
    while i < list.len()
        invariant
            i <= list@.len(),
            all == views(list@),
            untracked_views(out@) == untracked_read(all.take(i as int)),
        decreases list@.len() - i,
    {
        let entry = &list[i];
        proof {
            assert(all.take(i + 1).drop_last() =~= all.take(i as int));
            assert(all.take(i + 1).last() == entry@);
        }
        let ghost before = out@;
        if entry.len() > 0 {
            let stripped = strip_spaces_at_end(entry);
            let item = Untracked {
                path: decode_lossy(stripped.as_slice()),
                is_directory: entry[entry.len() - 1] == 47,
            };
            out.push(item);
            assert(untracked_views(out@) =~= untracked_views(before).push(item@));
        }
        i += 1;
    }
    assert(all.take(i as int) =~= all);
    Ok(out)
}

/// Whether an untracked path comes along.
pub fn comes_along(path: &str, ignore: &[String]) -> (r: bool)
    requires
        usable(texts(ignore@)),
    ensures
        r == !any_matches(path@, texts(ignore@)),
{
    !matches_any(path, ignore)
}

/// The children of an untracked directory: those of one kind.
pub open spec fn children(
    dir: Seq<char>,
    list: Seq<EntryView>,
    directories: bool,
) -> Seq<Seq<char>>
    decreases list.len(),
{
    if list.len() == 0 {
        Seq::empty()
    } else {
        let before = children(dir, list.drop_last(), directories);
        if directories == (list.last().kind == Kind::Directory) {
            before.push(path_join(dir, list.last().name))
        } else {
            before
        }
    }
}

/// The paths of the files and the directories in an untracked directory. A
/// file comes along with its directory, whatever the patterns say of it.
pub fn untracked_level(dir: &str, list: &Vec<Entry>) -> (r: (Vec<String>, Vec<String>))
    ensures
        texts(r.0@) == children(dir@, entries(list@), false),
        texts(r.1@) == children(dir@, entries(list@), true),
{
    let ghost all = entries(list@);
    let mut files: Vec<String> = Vec::new();
    let mut directories: Vec<String> = Vec::new();
    let mut i: usize = 0;
    assert(all.take(0) =~= Seq::empty());
    assert(texts(files@) =~= Seq::empty());
    assert(texts(directories@) =~= Seq::empty());
    while i < list.len()
        invariant
            i <= list@.len(),
            all == entries(list@),
            texts(files@) == children(dir@, all.take(i as int), false),
            texts(directories@) == children(dir@, all.take(i as int), true),
        decreases list@.len() - i,
    {
        broadcast use lemma_texts_push;

        proof {
            assert(all.take(i + 1).drop_last() =~= all.take(i as int));
            assert(all.take(i + 1).last() == list@[i as int]@);
        }
        let child = join_path(dir, list[i].name.as_str());
        if list[i].kind == Kind::Directory {
            directories.push(child);
        } else {
            files.push(child);
        }
        i += 1;
    }
    assert(all.take(i as int) =~= all);
    (files, directories)
}

} // verus!
