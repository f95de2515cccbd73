//! The end of a session: what changed, how it is shown, and what the user
//! answers.

use crate::config::Config;
use crate::platform::{decode_lossy, lossy_text, null_device};
use crate::text::{
    cat2, cat3, cat4, cat5, chars_of, decimal, decimal_text, has_prefix, join, joined, lines,
    lines_of, replace_part, replaced_part, same_text, starts_with, str_option, text_of, text_option,
    texts, trim, trimmed, CharSet,
};
use vstd::prelude::*;
use vstd::string::*;

verus! {

#[derive(Clone, Copy, PartialEq, Eq, Structural, Debug)]
pub enum ChangeKind {
    Added,
    Modified,
    Deleted,
}

pub open spec fn kind_of(in_source: bool, in_sandbox: bool) -> ChangeKind {
    if in_source && !in_sandbox {
        ChangeKind::Deleted
    } else if !in_source && in_sandbox {
        ChangeKind::Added
    } else {
        ChangeKind::Modified
    }
}

/// What happened to a changed path, from the sides that have it.
pub fn change_kind(in_source: bool, in_sandbox: bool) -> (r: ChangeKind)
    ensures
        r == kind_of(in_source, in_sandbox),
{
    match (in_source, in_sandbox) {
        (true, false) => ChangeKind::Deleted,
        (false, true) => ChangeKind::Added,
        _ => ChangeKind::Modified,
    }
}

/// A changed path.
pub struct Change {
    pub path: String,
    pub kind: ChangeKind,
}

pub struct ChangeView {
    pub path: Seq<char>,
    pub kind: ChangeKind,
}

impl View for Change {
    type V = ChangeView;

    open spec fn view(&self) -> ChangeView {
        ChangeView { path: self.path@, kind: self.kind }
    }
}

pub open spec fn changes(list: Seq<Change>) -> Seq<ChangeView> {
    Seq::new(list.len(), |i: int| list[i]@)
}

/// How many of the changes are of one kind.
pub open spec fn count_of(list: Seq<ChangeView>, kind: ChangeKind) -> nat
    decreases list.len(),
{
    if list.len() == 0 {
        0
    } else {
        count_of(list.drop_last(), kind) + (if list.last().kind == kind {
            1nat
        } else {
            0
        })
    }
}

/// How many changes there are of each kind: added, modified and deleted.
pub fn change_counts(list: &Vec<Change>) -> (r: (usize, usize, usize))
    ensures
        r.0 == count_of(changes(list@), ChangeKind::Added),
        r.1 == count_of(changes(list@), ChangeKind::Modified),
        r.2 == count_of(changes(list@), ChangeKind::Deleted),
        r.0 + r.1 + r.2 == list@.len(),
{
    let ghost all = changes(list@);
    let mut added: usize = 0;
    let mut modified: usize = 0;
    let mut deleted: usize = 0;
    let mut i: usize = 0;
    assert(all.take(0) =~= Seq::empty());
    while i < list.len()
        invariant
            i <= list@.len(),
            all == changes(list@),
            added == count_of(all.take(i as int), ChangeKind::Added),
            modified == count_of(all.take(i as int), ChangeKind::Modified),
            deleted == count_of(all.take(i as int), ChangeKind::Deleted),
            added + modified + deleted == i,
        decreases list@.len() - i,
    {
        proof {
            assert(all.take(i + 1).drop_last() =~= all.take(i as int));
            assert(all.take(i + 1).last() == list@[i as int]@);
        }
        match list[i].kind {
            ChangeKind::Added => {
                added += 1;
            },
            ChangeKind::Modified => {
                modified += 1;
            },
            ChangeKind::Deleted => {
                deleted += 1;
            },
        }
        i += 1;
    }
    assert(all.take(i as int) =~= all);
    (added, modified, deleted)
}

/// A piece of a report. One that speaks of a change has the change's kind,
/// which gives it its colour.
pub struct Piece {
    pub text: String,
    pub kind: Option<ChangeKind>,
}

pub struct PieceView {
    pub text: Seq<char>,
    pub kind: Option<ChangeKind>,
}

impl View for Piece {
    type V = PieceView;

    open spec fn view(&self) -> PieceView {
        PieceView { text: self.text@, kind: self.kind }
    }
}

pub open spec fn report(list: Seq<Piece>) -> Seq<PieceView> {
    Seq::new(list.len(), |i: int| list[i]@)
}

pub open spec fn bare(text: Seq<char>) -> PieceView {
    PieceView { text, kind: None }
}

pub open spec fn coloured(text: Seq<char>, kind: ChangeKind) -> PieceView {
    PieceView { text, kind: Some(kind) }
}

fn push_piece(list: &mut Vec<Piece>, text: String, kind: Option<ChangeKind>)
    ensures
        report(final(list)@) == report(old(list)@).push(PieceView { text: text@, kind }),
{
    let ghost before = list@;
    list.push(Piece { text, kind });
    assert(report(list@) =~= report(before).push(PieceView { text: text@, kind }));
}

/// The part of a breakdown that counts one kind of change; none where there
/// is no such change.
pub open spec fn count_part(count: nat, word: Seq<char>, kind: ChangeKind) -> Seq<PieceView> {
    if count > 0 {
        seq![coloured(decimal_text(count) + word, kind)]
    } else {
        Seq::empty()
    }
}

/// The parts with commas between them.
pub open spec fn with_commas(parts: Seq<PieceView>) -> Seq<PieceView>
    decreases parts.len(),
{
    if parts.len() <= 1 {
        parts
    } else {
        with_commas(parts.drop_last()).push(bare(", "@)).push(parts.last())
    }
}

pub open spec fn count_parts(list: Seq<ChangeView>) -> Seq<PieceView> {
    count_part(count_of(list, ChangeKind::Added), " added"@, ChangeKind::Added) + count_part(
        count_of(list, ChangeKind::Modified),
        " modified"@,
        ChangeKind::Modified,
    ) + count_part(count_of(list, ChangeKind::Deleted), " deleted"@, ChangeKind::Deleted)
}

/// How many changes there are of which kinds, in brackets.
pub open spec fn breakdown(list: Seq<ChangeView>) -> Seq<PieceView> {
    if count_parts(list).len() == 0 {
        Seq::empty()
    } else {
        seq![bare(" ("@)] + with_commas(count_parts(list)) + seq![bare(")"@)]
    }
}

/// One line for each path.
pub open spec fn listing(list: Seq<ChangeView>) -> Seq<PieceView>
    decreases list.len(),
{
    if list.len() == 0 {
        Seq::empty()
    } else {
        listing(list.drop_last()).push(coloured("  "@ + list.last().path, list.last().kind)).push(
            bare("\n"@),
        )
    }
}

pub open spec fn headline(count: nat) -> Seq<char> {
    decimal_text(count) + (if count == 1 {
        " file changed"@
    } else {
        " files changed"@
    })
}

/// The summary of a list of changes: how many there are, the first twenty of
/// them, and how many more.
pub open spec fn summary(list: Seq<ChangeView>) -> Seq<PieceView> {
    let shown: int = if list.len() > 20 {
        20
    } else {
        list.len() as int
    };
    seq![bare(headline(list.len()))] + breakdown(list) + seq![bare("\n"@)] + listing(
        list.take(shown),
    ) + (if list.len() > 20 {
        seq![bare("  ... and "@ + decimal_text((list.len() - 20) as nat) + " more\n"@)]
    } else {
        Seq::empty()
    })
}

fn push_count(parts: &mut Vec<Piece>, count: usize, word: &str, kind: ChangeKind)
    ensures
        report(final(parts)@) == report(old(parts)@) + count_part(count as nat, word@, kind),
{
    let ghost start = report(parts@);
    if count > 0 {
        let number = decimal(count as u64);
        let text = cat2(number.as_str(), word);
        push_piece(parts, text, Some(kind));
        assert(report(parts@) =~= start + count_part(count as nat, word@, kind));
    } else {
        assert(start + count_part(count as nat, word@, kind) =~= start);
    }
}

fn push_breakdown(out: &mut Vec<Piece>, list: &Vec<Change>)
    ensures
        report(final(out)@) == report(old(out)@) + breakdown(changes(list@)),
{
    let ghost all = changes(list@);
    let ghost start = report(out@);
    let (added, modified, deleted) = change_counts(list);
    let mut parts: Vec<Piece> = Vec::new();
    assert(report(parts@) =~= Seq::empty());
    push_count(&mut parts, added, " added", ChangeKind::Added);
    push_count(&mut parts, modified, " modified", ChangeKind::Modified);
    push_count(&mut parts, deleted, " deleted", ChangeKind::Deleted);
    let ghost wanted = count_parts(all);
    assert(report(parts@) =~= wanted);
    if parts.len() == 0 {
        assert(start + breakdown(all) =~= start);
        return ;
    }
    push_piece(out, " (".to_owned(), None);
    let ghost opened = report(out@);
    let mut i: usize = 0;
    assert(with_commas(wanted.take(0)) =~= Seq::empty());
    assert(opened + Seq::<PieceView>::empty() =~= opened);
    while i < parts.len()
        invariant
            i <= parts@.len(),
            report(parts@) == wanted,
            report(out@) == opened + with_commas(wanted.take(i as int)),
        decreases parts@.len() - i,
    {
        let ghost so_far = with_commas(wanted.take(i as int));
        proof {
            assert(wanted.take(i + 1).drop_last() =~= wanted.take(i as int));
            assert(wanted.take(i + 1).last() == wanted[i as int]);
            assert(wanted[i as int] == parts@[i as int]@);
            if i == 0 {
                assert(wanted.take(1) =~= seq![wanted[0]]);
                assert(wanted.take(0) =~= Seq::empty());
            }
        }
        if i > 0 {
            push_piece(out, ", ".to_owned(), None);
        }
        push_piece(out, parts[i].text.clone(), parts[i].kind);
        assert(report(out@) =~= opened + with_commas(wanted.take(i + 1)));
        i += 1;
    }
    assert(wanted.take(i as int) =~= wanted);
    push_piece(out, ")".to_owned(), None);
    assert(report(out@) =~= start + breakdown(all));
}

/// Reports a list of changes.
pub fn summarize(list: &Vec<Change>) -> (r: Vec<Piece>)
    ensures
        report(r@) == summary(changes(list@)),
{
    let ghost all = changes(list@);
    let mut out: Vec<Piece> = Vec::new();
    let noun = if list.len() == 1 {
        " file changed"
    } else {
        " files changed"
    };
    let number = decimal(list.len() as u64);
    let first = cat2(number.as_str(), noun);
    push_piece(&mut out, first, None);
    assert(report(out@) =~= seq![bare(headline(all.len()))]);
    push_breakdown(&mut out, list);
    push_piece(&mut out, "\n".to_owned(), None);
    let ghost start = report(out@);
    assert(start =~= seq![bare(headline(all.len()))] + breakdown(all) + seq![bare("\n"@)]);
    let shown: usize = if list.len() > 20 {
        20
    } else {
        list.len()
    };
    let mut i: usize = 0;
    assert(all.take(0) =~= Seq::empty());
    assert(start + Seq::<PieceView>::empty() =~= start);
    while i < shown
        invariant
            i <= shown <= list@.len(),
            all == changes(list@),
            report(out@) == start + listing(all.take(i as int)),
        decreases shown - i,
    {
        proof {
            assert(all.take(i + 1).drop_last() =~= all.take(i as int));
            assert(all.take(i + 1).last() == list@[i as int]@);
        }
        let line = cat2("  ", list[i].path.as_str());
        push_piece(&mut out, line, Some(list[i].kind));
        push_piece(&mut out, "\n".to_owned(), None);
        assert(report(out@) =~= start + listing(all.take(i + 1)));
        i += 1;
    }
    if list.len() > 20 {
        let rest = decimal((list.len() - 20) as u64);
        let line = cat3("  ... and ", rest.as_str(), " more\n");
        push_piece(&mut out, line, None);
    }
    assert(report(out@) =~= summary(all));
    out
}

/// The question that is put to the user.
pub fn question() -> (r: &'static str)
    ensures
        r@ == "Apply changes to the host repository? [y]es [v]iew diff [n]o: "@,
{
    "Apply changes to the host repository? [y]es [v]iew diff [n]o: "
}

/// What the user wants.
#[derive(Clone, Copy, PartialEq, Eq, Structural, Debug)]
pub enum Answer {
    Apply,
    Discard,
    View,
    /// Not understood: the question is put again.
    Again,
}

/// An ASCII capital as a small letter; any other character as it is.
pub open spec fn small(c: char) -> char {
    if 'A' <= c <= 'Z' {
        (c as u32 + 32) as char
    } else {
        c
    }
}

pub open spec fn in_small_letters(text: Seq<char>) -> Seq<char> {
    text.map_values(|c: char| small(c))
}

fn to_small_letters(text: &str) -> (r: String)
    ensures
        r@ == in_small_letters(text@),
{
    let chars = chars_of(text);
    let mut out: Vec<char> = Vec::new();
    let mut i: usize = 0;
    while i < chars.len()
        invariant
            i <= chars@.len(),
            out@ == in_small_letters(chars@.take(i as int)),
        decreases chars@.len() - i,
    {
        let c = chars[i];
        let ghost before = out@;
        if 'A' <= c && c <= 'Z' {
            out.push((c as u8 + 32) as char);
        } else {
            out.push(c);
        }
        assert(out@ == before.push(small(c)));
        assert(out@ =~= in_small_letters(chars@.take(i + 1)));
        i += 1;
    }
    assert(chars@.take(i as int) =~= chars@);
    text_of(&out)
}

pub open spec fn understood(line: Seq<char>) -> Answer {
    let word = in_small_letters(trimmed(line, CharSet::WhiteSpace));
    if word == "y"@ || word == "yes"@ {
        Answer::Apply
    } else if word.len() == 0 || word == "n"@ || word == "no"@ {
        Answer::Discard
    } else if word == "v"@ || word == "view"@ {
        Answer::View
    } else {
        Answer::Again
    }
}

/// Reads an answer, whatever its case. No answer is a no.
pub fn review_answer(line: &str) -> (r: Answer)
    ensures
        r == understood(line@),
{
    let bare_line = trim(line);
    let word = to_small_letters(bare_line.as_str());
    if same_text(word.as_str(), "y") || same_text(word.as_str(), "yes") {
        Answer::Apply
    } else if word.as_str().is_empty() || same_text(word.as_str(), "n") || same_text(
        word.as_str(),
        "no",
    ) {
        Answer::Discard
    } else if same_text(word.as_str(), "v") || same_text(word.as_str(), "view") {
        Answer::View
    } else {
        Answer::Again
    }
}

/// The viewer for the changes, where one is set and there is a repository to
/// make a view of. Without one the differences are printed.
pub fn viewer_for(diff_viewer: Option<&str>, is_repository: bool) -> (r: Option<&str>)
    ensures
        r == (if is_repository {
            diff_viewer
        } else {
            None
        }),
{
    if is_repository {
        diff_viewer
    } else {
        None
    }
}

/// The command that opens a viewer on a directory.
pub fn viewer_command(viewer: &str, directory: &str) -> (r: String)
    ensures
        r@ == replaced_part(viewer@, "{dir}"@, directory@),
{
    proof {
        reveal_strlit("{dir}");
    }
    replace_part(viewer, "{dir}", directory)
}

/// The git arguments that bundle a branch.
pub fn bundle_args(bundle: &str, branch: &str) -> (r: Vec<String>)
    ensures
        texts(r@) == seq!["bundle"@, "create"@, bundle@, branch@],
{
    let r = vec!["bundle".to_owned(), "create".to_owned(), bundle.to_owned(), branch.to_owned()];
    assert(texts(r@) =~= seq!["bundle"@, "create"@, bundle@, branch@]);
    r
}

/// The branch that is bundled, from what `git rev-parse` printed.
pub fn current_branch(stdout: &[u8]) -> (r: Result<String, String>)
    ensures
        ({
            let branch = trimmed(lossy_text(stdout@), CharSet::WhiteSpace);
            match r {
                Ok(name) => branch.len() > 0 && branch != "HEAD"@ && name@ == branch,
                Err(message) => (branch.len() == 0 || branch == "HEAD"@) && message@
                    == "cannot bundle a detached HEAD"@,
            }
        }),
{
    let text = decode_lossy(stdout);
    let branch = trim(text.as_str());
    if branch.as_str().is_empty() || same_text(branch.as_str(), "HEAD") {
        return Err("cannot bundle a detached HEAD".to_owned());
    }
    Ok(branch)
}

/// What a failed git command is reported as.
pub fn git_failure(args: &[String], stderr: &[u8]) -> (r: String)
    ensures
        r@ == "git "@ + joined(texts(args@), " "@) + " failed: "@ + trimmed(
            lossy_text(stderr@),
            CharSet::WhiteSpace,
        ),
{
    let text = decode_lossy(stderr);
    let reason = trim(text.as_str());
    let command = join(args, " ");
    cat4("git ", command.as_str(), " failed: ", reason.as_str())
}

/// The lines that are not empty.
pub open spec fn filled(list: Seq<Seq<char>>) -> Seq<Seq<char>>
    decreases list.len(),
{
    if list.len() == 0 {
        Seq::empty()
    } else if list.last().len() > 0 {
        filled(list.drop_last()).push(list.last())
    } else {
        filled(list.drop_last())
    }
}

/// The remotes of a repository, from what `git remote` printed.
pub fn remotes_of(stdout: &[u8]) -> (r: Vec<String>)
    ensures
        texts(r@) == filled(lines_of(lossy_text(stdout@))),
{
    let text = decode_lossy(stdout);
    let list = lines(text.as_str());
    let ghost all = texts(list@);
    let mut out: Vec<String> = Vec::new();
    let mut i: usize = 0;
    assert(all.take(0) =~= Seq::empty());
    assert(texts(out@) =~= Seq::empty());
    while i < list.len()
        invariant
            i <= list@.len(),
            all == texts(list@),
            texts(out@) == filled(all.take(i as int)),
        decreases list@.len() - i,
    {
        proof {
            assert(all.take(i + 1).drop_last() =~= all.take(i as int));
            assert(all.take(i + 1).last() == list@[i as int]@);
        }
        let ghost before = out@;
        if !list[i].as_str().is_empty() {
            out.push(list[i].clone());
            assert(texts(out@) =~= texts(before).push(list@[i as int]@));
        }
        i += 1;
    }
    assert(all.take(i as int) =~= all);
    out
}

/// The git arguments that remove a remote.
pub fn remove_remote_args(name: &str) -> (r: Vec<String>)
    ensures
        texts(r@) == seq!["remote"@, "remove"@, name@],
{
    let r = vec!["remote".to_owned(), "remove".to_owned(), name.to_owned()];
    assert(texts(r@) =~= seq!["remote"@, "remove"@, name@]);
    r
}

/// The paths that a session leaves alone on the host.
pub fn unmanaged(config: &Config) -> (r: Vec<String>)
    ensures
        texts(r@) == texts(config.ephemeral@) + texts(config.ignore@),
{
    let mut r: Vec<String> = Vec::new();
    assert(texts(r@) =~= Seq::empty());
    crate::podman::push_all(&mut r, config.ephemeral.as_slice());
    crate::podman::push_all(&mut r, config.ignore.as_slice());
    assert(texts(r@) =~= texts(config.ephemeral@) + texts(config.ignore@));
    r
}

/// What one side has at a changed path.
pub enum Side {
    Absent,
    Directory,
    /// A symbolic link, with where it leads if that could be read.
    Link(Option<String>),
    Other,
}

impl Side {
    pub open spec fn leads_to(self) -> Option<Seq<char>> {
        match self {
            Side::Link(target) => text_option(target),
            _ => None,
        }
    }

    fn target(&self) -> (r: Option<&str>)
        ensures
            str_option(r) == self.leads_to(),
    {
        match self {
            Side::Link(Some(target)) => Some(target.as_str()),
            _ => None,
        }
    }

    fn is_absent(&self) -> (r: bool)
        ensures
            r == (self is Absent),
    {
        match self {
            Side::Absent => true,
            _ => false,
        }
    }

    fn is_directory(&self) -> (r: bool)
        ensures
            r == (self is Directory),
    {
        match self {
            Side::Directory => true,
            _ => false,
        }
    }

    fn is_link(&self) -> (r: bool)
        ensures
            r == (self is Link),
    {
        match self {
            Side::Link(_) => true,
            _ => false,
        }
    }
}

/// Whether two sides are compared line by line: neither is a directory or a
/// link.
pub fn needs_diff(source: &Side, sandbox: &Side) -> (r: bool)
    ensures
        r == !(source is Directory || sandbox is Directory || source is Link || sandbox is Link),
{
    !(source.is_directory() || sandbox.is_directory() || source.is_link() || sandbox.is_link())
}

/// The two files that are compared: a missing one is stood for by nothing.
pub fn diff_sides(
    windows: bool,
    in_source: bool,
    in_sandbox: bool,
    source: &str,
    sandbox: &str,
) -> (r: (String, String))
    ensures
        ({
            let nothing = if windows {
                "NUL"@
            } else {
                "/dev/null"@
            };
            if in_source && in_sandbox {
                r.0@ == source@ && r.1@ == sandbox@
            } else if in_source {
                r.0@ == source@ && r.1@ == nothing
            } else {
                r.0@ == nothing && r.1@ == sandbox@
            }
        }),
{
    if in_source && in_sandbox {
        (source.to_owned(), sandbox.to_owned())
    } else if in_source {
        (source.to_owned(), null_device(windows))
    } else {
        (null_device(windows), sandbox.to_owned())
    }
}

/// The git arguments that compare two files.
pub fn diff_args(left: &str, right: &str) -> (r: Vec<String>)
    ensures
        texts(r@) == seq!["diff"@, "--no-index"@, "--no-color"@, "--"@, left@, right@],
{
    let r = vec![
        "diff".to_owned(),
        "--no-index".to_owned(),
        "--no-color".to_owned(),
        "--".to_owned(),
        left.to_owned(),
        right.to_owned(),
    ];
    assert(texts(r@) =~= seq!["diff"@, "--no-index"@, "--no-color"@, "--"@, left@, right@]);
    r
}

/// What git found. It ends with 0 or 1 where it could compare the files.
pub fn diff_found(code: Option<i32>, stdout: &[u8]) -> (r: Option<String>)
    ensures
        (match r {
            Some(text) => (code == Some(0i32) || code == Some(1i32)) && text@ == lossy_text(
                stdout@,
            ),
            None => code != Some(0i32) && code != Some(1i32),
        }),
{
    match code {
        Some(number) if number == 0 || number == 1 => Some(decode_lossy(stdout)),
        _ => None,
    }
}

/// A line of a diff whose header names the file by its path in the
/// repository.
pub open spec fn clean_line(line: Seq<char>, path: Seq<char>) -> Seq<char> {
    if has_prefix(line, "diff --git "@) {
        "diff --git a/"@ + path + " b/"@ + path + "\n"@
    } else if has_prefix(line, "--- "@) && !has_prefix(line, "--- /dev/null"@) {
        "--- a/"@ + path + "\n"@
    } else if has_prefix(line, "+++ "@) && !has_prefix(line, "+++ /dev/null"@) {
        "+++ b/"@ + path + "\n"@
    } else {
        line + "\n"@
    }
}

pub open spec fn clean_lines(list: Seq<Seq<char>>, path: Seq<char>) -> Seq<char>
    decreases list.len(),
{
    if list.len() == 0 {
        Seq::empty()
    } else {
        clean_lines(list.drop_last(), path) + clean_line(list.last(), path)
    }
}

fn cleaned_line(line: &str, path: &str) -> (r: String)
    ensures
        r@ == clean_line(line@, path@),
{
    if starts_with(line, "diff --git ") {
        cat5("diff --git a/", path, " b/", path, "\n")
    } else if starts_with(line, "--- ") && !starts_with(line, "--- /dev/null") {
        cat3("--- a/", path, "\n")
    } else if starts_with(line, "+++ ") && !starts_with(line, "+++ /dev/null") {
        cat3("+++ b/", path, "\n")
    } else {
        cat2(line, "\n")
    }
}

/// Replaces the places of the two compared files in the headers of a diff by
/// the file's path in the repository. A missing side stays `/dev/null`.
pub fn clean_headers(diff: &str, path: &str) -> (r: String)
    ensures
        r@ == clean_lines(lines_of(diff@), path@),
{
    let list = lines(diff);
    let ghost all = texts(list@);
    let mut out = String::new();
    let mut i: usize = 0;
    assert(all.take(0) =~= Seq::empty());
    assert(out@ =~= Seq::empty());
    while i < list.len()
        invariant
            i <= list@.len(),
            all == texts(list@),
            out@ == clean_lines(all.take(i as int), path@),
        decreases list@.len() - i,
    {
        proof {
            assert(all.take(i + 1).drop_last() =~= all.take(i as int));
            assert(all.take(i + 1).last() == list@[i as int]@);
        }
        let line = cleaned_line(list[i].as_str(), path);
        out.append(line.as_str());
        i += 1;
    }
    assert(all.take(i as int) =~= all);
    out
}

/// How one changed path is shown: in a line where a directory or a link is
/// involved or git has nothing to say, else as git's diff.
pub open spec fn shown(
    path: Seq<char>,
    source: Side,
    sandbox: Side,
    diff: Option<Seq<char>>,
) -> PieceView {
    if source is Directory && sandbox is Directory {
        coloured("  changed directory: "@ + path + "\n"@, ChangeKind::Modified)
    } else if source is Directory {
        coloured("  removed directory: "@ + path + "\n"@, ChangeKind::Deleted)
    } else if sandbox is Directory {
        coloured("  added directory: "@ + path + "\n"@, ChangeKind::Added)
    } else if source is Link || sandbox is Link {
        match (source.leads_to(), sandbox.leads_to()) {
            (Some(old_target), Some(new_target)) => coloured(
                "  symlink changed: "@ + path + " ("@ + old_target + " -> "@ + new_target
                    + ")\n"@,
                ChangeKind::Modified,
            ),
            (Some(old_target), None) => coloured(
                "  removed symlink: "@ + path + " (-> "@ + old_target + ")\n"@,
                ChangeKind::Deleted,
            ),
            (None, Some(new_target)) => coloured(
                "  added symlink: "@ + path + " (-> "@ + new_target + ")\n"@,
                ChangeKind::Added,
            ),
            (None, None) => coloured("  symlink changed: "@ + path + "\n"@, ChangeKind::Modified),
        }
    } else {
        match diff {
            Some(text) => bare(clean_lines(lines_of(text), path)),
            None => coloured(
                "  "@ + path + ": diff unavailable\n"@,
                kind_of(!(source is Absent), !(sandbox is Absent)),
            ),
        }
    }
}

/// Shows one changed path.
pub fn show_change(path: &str, source: &Side, sandbox: &Side, diff: Option<&str>) -> (r: Piece)
    ensures
        r@ == shown(path@, *source, *sandbox, str_option(diff)),
{
    if source.is_directory() || sandbox.is_directory() {
        if source.is_directory() && sandbox.is_directory() {
            let text = cat3("  changed directory: ", path, "\n");
            Piece { text, kind: Some(ChangeKind::Modified) }
        } else if source.is_directory() {
            let text = cat3("  removed directory: ", path, "\n");
            Piece { text, kind: Some(ChangeKind::Deleted) }
        } else {
            let text = cat3("  added directory: ", path, "\n");
            Piece { text, kind: Some(ChangeKind::Added) }
        }
    } else if source.is_link() || sandbox.is_link() {
        match (source.target(), sandbox.target()) {
            (Some(old_target), Some(new_target)) => {
                let places = cat5(" (", old_target, " -> ", new_target, ")\n");
                let text = cat3("  symlink changed: ", path, places.as_str());
                assert(text@ =~= "  symlink changed: "@ + path@ + " ("@ + old_target@ + " -> "@
                    + new_target@ + ")\n"@);
                Piece { text, kind: Some(ChangeKind::Modified) }
            },
            (Some(old_target), None) => {
                let text = cat5("  removed symlink: ", path, " (-> ", old_target, ")\n");
                Piece { text, kind: Some(ChangeKind::Deleted) }
            },
            (None, Some(new_target)) => {
                let text = cat5("  added symlink: ", path, " (-> ", new_target, ")\n");
                Piece { text, kind: Some(ChangeKind::Added) }
            },
            (None, None) => {
                let text = cat3("  symlink changed: ", path, "\n");
                Piece { text, kind: Some(ChangeKind::Modified) }
            },
        }
    } else {
        match diff {
            Some(found) => Piece { text: clean_headers(found, path), kind: None },
            None => {
                let text = cat3("  ", path, ": diff unavailable\n");
                Piece { text, kind: Some(change_kind(!source.is_absent(), !sandbox.is_absent())) }
            },
        }
    }
}

/// A changed path with what the two sides have there, and git's diff where
/// there is one.
pub struct Compared {
    pub path: String,
    pub source: Side,
    pub sandbox: Side,
    pub diff: Option<String>,
}

pub open spec fn differences(list: Seq<Compared>) -> Seq<PieceView> {
    Seq::new(
        list.len(),
        |i: int| shown(list[i].path@, list[i].source, list[i].sandbox, text_option(list[i].diff)),
    )
}

/// Shows every changed path in turn.
pub fn render_diff(list: &Vec<Compared>) -> (r: Vec<Piece>)
    ensures
        report(r@) == differences(list@),
{
    let mut out: Vec<Piece> = Vec::new();
    let mut i: usize = 0;
    assert(report(out@) =~= differences(list@).take(0));
    while i < list.len()
        invariant
            i <= list@.len(),
            report(out@) == differences(list@).take(i as int),
        decreases list@.len() - i,
    {
        let item = &list[i];
        let diff = match &item.diff {
            Some(text) => Some(text.as_str()),
            None => None,
        };
        let piece = show_change(item.path.as_str(), &item.source, &item.sandbox, diff);
        let ghost before = out@;
        out.push(piece);
        assert(report(out@) =~= report(before).push(piece@));
        assert(report(out@) =~= differences(list@).take(i + 1));
        i += 1;
    }
    assert(differences(list@).take(i as int) =~= differences(list@));
    out
}

} // verus!
