//! Snapshots of a workspace: what was where, and what must have changed
//! since, judged by metadata before any content is read.

use crate::order::{
    is_sorted_unique, lemma_first_with_rank, lemma_text_rank_injective, sorted_unique,
    strictly_ordered, text_before, text_rank, with_rank, Ranked,
};
use crate::paths::{
    ends_in, excluded, file_stem, first_of_its_place, has_extension, has_place, is_excluded,
    join_path, path_join, path_rank, paths_in_order, sort_paths, stem_of,
};
use crate::registry::dashed;
use crate::sandbox::{same_look, usable, Kind, LookView};
use crate::text::{
    cat2, chars_of, decimal, decimal_text, lemma_texts_push, lists, same_text, str_option, text_of,
    text_option, texts,
};
use vstd::prelude::*;
use vstd::string::*;

verus! {

/// The version of the snapshot files.
pub const SNAPSHOT_VERSION: u32 = 1;

/// What the file system says about an entry, without following links.
pub struct Facts {
    pub kind: Kind,
    pub length: u64,
    /// When it was last changed, in nanoseconds since the epoch.
    pub mtime_nanos: Option<u128>,
    pub mode: Option<u32>,
    /// Where it leads, if it is a link that could be read.
    pub link_target: Option<String>,
}

/// What a snapshot keeps of an entry.
pub struct FileMeta {
    pub is_dir: bool,
    pub is_symlink: bool,
    pub size: u64,
    pub mtime_nanos: Option<u128>,
    pub mode: Option<u32>,
    pub symlink_target: Option<String>,
}

pub struct FileMetaView {
    pub is_dir: bool,
    pub is_symlink: bool,
    pub size: u64,
    pub mtime_nanos: Option<u128>,
    pub mode: Option<u32>,
    pub symlink_target: Option<Seq<char>>,
}

impl View for FileMeta {
    type V = FileMetaView;

    open spec fn view(&self) -> FileMetaView {
        FileMetaView {
            is_dir: self.is_dir,
            is_symlink: self.is_symlink,
            size: self.size,
            mtime_nanos: self.mtime_nanos,
            mode: self.mode,
            symlink_target: text_option(self.symlink_target),
        }
    }
}

/// A directory and a link have no size of their own, and only a link leads
/// anywhere.
pub open spec fn meta_view(facts: Facts) -> FileMetaView {
    FileMetaView {
        is_dir: facts.kind == Kind::Directory,
        is_symlink: facts.kind == Kind::Link,
        size: if facts.kind == Kind::Directory || facts.kind == Kind::Link {
            0
        } else {
            facts.length
        },
        mtime_nanos: facts.mtime_nanos,
        mode: facts.mode,
        symlink_target: if facts.kind == Kind::Link {
            text_option(facts.link_target)
        } else {
            None
        },
    }
}

fn copy_option(text: &Option<String>) -> (r: Option<String>)
    ensures
        text_option(r) == text_option(*text),
{
    match text {
        Some(text) => Some(text.clone()),
        None => None,
    }
}

pub fn meta_of(facts: &Facts) -> (r: FileMeta)
    ensures
        r@ == meta_view(*facts),
{
    let is_dir = facts.kind == Kind::Directory;
    let is_symlink = facts.kind == Kind::Link;
    let symlink_target = if is_symlink {
        copy_option(&facts.link_target)
    } else {
        None
    };
    let size: u64 = if is_dir || is_symlink {
        0
    } else {
        facts.length
    };
    FileMeta {
        is_dir,
        is_symlink,
        size,
        mtime_nanos: facts.mtime_nanos,
        mode: facts.mode,
        symlink_target,
    }
}

/// A path with what is known of it.
pub struct Captured {
    pub path: String,
    pub meta: FileMeta,
}

impl Ranked for Captured {
    open spec fn rank(&self) -> Seq<int> {
        text_rank(self.path@)
    }

    fn precedes(&self, other: &Self) -> (r: bool) {
        text_before(self.path.as_str(), other.path.as_str())
    }
}

pub struct CapturedView {
    pub path: Seq<char>,
    pub meta: FileMetaView,
}

impl View for Captured {
    type V = CapturedView;

    open spec fn view(&self) -> CapturedView {
        CapturedView { path: self.path@, meta: self.meta@ }
    }
}

pub open spec fn captures(list: Seq<Captured>) -> Seq<CapturedView> {
    Seq::new(list.len(), |i: int| list[i]@)
}

/// The directory listing that a capture reads: the names with the facts.
pub struct Listed {
    pub name: String,
    pub facts: Facts,
}

/// The entries of `dir` that take part, with what is known of them.
pub open spec fn kept_metas(
    dir: Seq<char>,
    list: Seq<Listed>,
    unmanaged: Seq<Seq<char>>,
) -> Seq<CapturedView>
    decreases list.len(),
{
    if list.len() == 0 {
        Seq::empty()
    } else {
        let before = kept_metas(dir, list.drop_last(), unmanaged);
        let child = path_join(dir, list.last().name@);
        if excluded(child, unmanaged) {
            before
        } else {
            before.push(CapturedView { path: child, meta: meta_view(list.last().facts) })
        }
    }
}

/// The directories of `dir` that take part.
pub open spec fn deeper(
    dir: Seq<char>,
    list: Seq<Listed>,
    unmanaged: Seq<Seq<char>>,
) -> Seq<Seq<char>>
    decreases list.len(),
{
    if list.len() == 0 {
        Seq::empty()
    } else {
        let before = deeper(dir, list.drop_last(), unmanaged);
        let child = path_join(dir, list.last().name@);
        if excluded(child, unmanaged) || list.last().facts.kind != Kind::Directory {
            before
        } else {
            before.push(child)
        }
    }
}

/// A capture under way: what was recorded, and which directories are still to
/// be read.
pub struct Capture {
    pub pending: Vec<String>,
    pub entries: Vec<Captured>,
}

impl Capture {
    /// A capture that starts at the root.
    pub fn start() -> (r: Capture)
        ensures
            texts(r.pending@) == seq![""@],
            r.entries@.len() == 0,
    {
        let capture = Capture { pending: vec!["".to_owned()], entries: Vec::new() };
        assert(texts(capture.pending@) =~= seq![""@]);
        capture
    }

    /// The directory to read next, the latest found first. One that is gone
    /// meanwhile is passed over: nothing is recorded of it.
    pub fn next(&mut self) -> (r: Option<String>)
        ensures
            final(self).entries == old(self).entries,
            (match r {
                Some(dir) => texts(old(self).pending@) == texts(final(self).pending@).push(dir@),
                None => old(self).pending@.len() == 0 && final(self).pending@.len() == 0,
            }),
    {
        let ghost before = self.pending@;
        let next = self.pending.pop();
        proof {
            if before.len() > 0 {
                assert(texts(before) =~= texts(self.pending@).push(before.last()@));
            }
        }
        next
    }

    /// Takes in the entries of `dir`.
    pub fn record(&mut self, dir: &str, list: &Vec<Listed>, unmanaged: &[String])
        requires
            usable(texts(unmanaged@)),
        ensures
            captures(final(self).entries@) == captures(old(self).entries@) + kept_metas(
                dir@,
                list@,
                texts(unmanaged@),
            ),
            texts(final(self).pending@) == texts(old(self).pending@) + deeper(
                dir@,
                list@,
                texts(unmanaged@),
            ),
    {
        let ghost recorded = captures(self.entries@);
        let ghost pending = texts(self.pending@);
        let ghost patterns = texts(unmanaged@);
        let mut i: usize = 0;
        assert(list@.take(0) =~= Seq::empty());
        assert(recorded + Seq::<CapturedView>::empty() =~= recorded);
        assert(pending + Seq::<Seq<char>>::empty() =~= pending);
        while i < list.len()
            invariant
                i <= list@.len(),
                patterns == texts(unmanaged@),
                usable(patterns),
                captures(self.entries@) == recorded + kept_metas(
                    dir@,
                    list@.take(i as int),
                    patterns,
                ),
                texts(self.pending@) == pending + deeper(dir@, list@.take(i as int), patterns),
            decreases list@.len() - i,
        {
            broadcast use lemma_texts_push;

            proof {
                assert(list@.take(i + 1).drop_last() =~= list@.take(i as int));
                assert(list@.take(i + 1).last() == list@[i as int]);
            }
            let ghost metas = kept_metas(dir@, list@.take(i as int), patterns);
            let ghost dirs = deeper(dir@, list@.take(i as int), patterns);
            let ghost before = self.entries@;
            let child = join_path(dir, list[i].name.as_str());
            if !is_excluded(child.as_str(), unmanaged) {
                if list[i].facts.kind == Kind::Directory {
                    self.pending.push(child.clone());
                    assert((pending + dirs).push(child@) =~= pending + dirs.push(child@));
                }
                let item = Captured { path: child, meta: meta_of(&list[i].facts) };
                self.entries.push(item);
                assert(captures(self.entries@) =~= captures(before).push(item@));
                assert((recorded + metas).push(item@) =~= recorded + metas.push(item@));
            }
            i += 1;
        }
        assert(list@.take(i as int) =~= list@);
    }

    /// The recorded entries in the order of their paths. Of two records of
    /// one path the later counts.
    pub fn finish(self) -> (r: Vec<Captured>)
        ensures
            is_sorted_unique(self.entries@.reverse(), r@),
    {
        let mut rest = self.entries;
        let ghost all = rest@;
        let mut turned: Vec<Captured> = Vec::new();
        while rest.len() > 0
            invariant
                rest@.len() + turned@.len() == all.len(),
                rest@ == all.take(rest@.len() as int),
                forall|i: int|
                    0 <= i < turned@.len() ==> turned@[i] == #[trigger] all.reverse()[i],
            decreases rest@.len(),
        {
            let ghost before = rest@;
            let last = rest.pop();
            if let Some(item) = last {
                assert(item == before[before.len() - 1]);
                turned.push(item);
                assert(rest@ =~= all.take(rest@.len() as int));
            }
        }
        assert(turned@ =~= all.reverse());
        sorted_unique(turned)
    }
}

/// What is recorded of `path`.
pub open spec fn meta_at(list: Seq<Captured>, path: Seq<char>) -> Option<FileMetaView>
    decreases list.len(),
{
    if list.len() == 0 {
        None
    } else if list[0].path@ == path {
        Some(list[0].meta@)
    } else {
        meta_at(list.skip(1), path)
    }
}

fn find_meta<'a>(list: &'a Vec<Captured>, path: &String) -> (r: Option<&'a FileMeta>)
    ensures
        (match r {
            Some(meta) => meta_at(list@, path@) == Some(meta@),
            None => meta_at(list@, path@) is None,
        }),
{
    let mut i: usize = 0;
    assert(list@.skip(0) =~= list@);
    while i < list.len()
        invariant
            i <= list@.len(),
            meta_at(list@, path@) == meta_at(list@.skip(i as int), path@),
        decreases list@.len() - i,
    {
        assert(list@.skip(i as int).skip(1) =~= list@.skip(i + 1));
        if list[i].path == *path {
            return Some(&list[i].meta);
        }
        i += 1;
    }
    None
}

fn same_option(first: &Option<String>, second: &Option<String>) -> (r: bool)
    ensures
        r == (text_option(*first) == text_option(*second)),
{
    match (first, second) {
        (Some(a), Some(b)) => *a == *b,
        (None, None) => true,
        _ => false,
    }
}

fn same_meta(first: &FileMeta, second: &FileMeta) -> (r: bool)
    ensures
        r == (first@ == second@),
{
    first.is_dir == second.is_dir && first.is_symlink == second.is_symlink && first.size
        == second.size && same_time(first.mtime_nanos, second.mtime_nanos) && same_mode(
        first.mode,
        second.mode,
    ) && same_option(&first.symlink_target, &second.symlink_target)
}

fn same_time(first: Option<u128>, second: Option<u128>) -> (r: bool)
    ensures
        r == (first == second),
{
    match (first, second) {
        (Some(a), Some(b)) => a == b,
        (None, None) => true,
        _ => false,
    }
}

fn same_mode(first: Option<u32>, second: Option<u32>) -> (r: bool)
    ensures
        r == (first == second),
{
    match (first, second) {
        (Some(a), Some(b)) => a == b,
        (None, None) => true,
        _ => false,
    }
}

/// A path whose record differs between two captures. That a directory was
/// touched does not count.
pub open spec fn differs(old_list: Seq<Captured>, new_list: Seq<Captured>, path: Seq<char>) -> bool {
    match (meta_at(old_list, path), meta_at(new_list, path)) {
        (Some(first), Some(second)) => !(first.is_dir && second.is_dir) && first != second,
        (None, None) => false,
        _ => true,
    }
}

pub open spec fn paths_of(list: Seq<Captured>) -> Seq<Seq<char>> {
    Seq::new(list.len(), |i: int| list[i].path@)
}

/// What is recorded of a path is recorded somewhere in the list.
pub proof fn lemma_meta_at_listed(list: Seq<Captured>, path: Seq<char>)
    requires
        meta_at(list, path) is Some,
    ensures
        exists|i: int|
            0 <= i < list.len() && (#[trigger] list[i]).path@ == path && Some(list[i].meta@)
                == meta_at(list, path),
    decreases list.len(),
{
    if list[0].path@ != path {
        let rest = list.skip(1);
        lemma_meta_at_listed(rest, path);
        let i = choose|i: int|
            0 <= i < rest.len() && (#[trigger] rest[i]).path@ == path && Some(rest[i].meta@)
                == meta_at(rest, path);
        assert(list[i + 1] == rest[i]);
    }
}

/// A path is recorded exactly where the list has it.
pub proof fn lemma_meta_at_iff_listed(list: Seq<Captured>, path: Seq<char>)
    ensures
        meta_at(list, path) is Some <==> paths_of(list).contains(path),
    decreases list.len(),
{
    let all = paths_of(list);
    if list.len() > 0 {
        assert(all[0] == list[0].path@);
        lemma_meta_at_iff_listed(list.skip(1), path);
        assert(paths_of(list.skip(1)) =~= all.skip(1));
        if all.contains(path) && list[0].path@ != path {
            let i = choose|i: int| 0 <= i < all.len() && all[i] == path;
            assert(all.skip(1)[i - 1] == path);
        }
        if all.skip(1).contains(path) {
            let i = choose|i: int| 0 <= i < all.skip(1).len() && all.skip(1)[i] == path;
            assert(all[i + 1] == path);
        }
    }
}

/// The paths that differ between two captures, in order, each once.
pub fn diff_maps(old_list: &Vec<Captured>, new_list: &Vec<Captured>) -> (r: Vec<String>)
    ensures
        strictly_ordered(r@),
        forall|path: Seq<char>| #[trigger]
            texts(r@).contains(path) <==> differs(old_list@, new_list@, path),
{
    let mut changed: Vec<String> = Vec::new();
    let mut i: usize = 0;
    while i < old_list.len()
        invariant
            i <= old_list@.len(),
            forall|path: Seq<char>| #[trigger]
                texts(changed@).contains(path) ==> differs(old_list@, new_list@, path),
            forall|j: int|
                0 <= j < i && differs(old_list@, new_list@, (#[trigger] old_list@[j]).path@)
                    ==> texts(changed@).contains(old_list@[j].path@),
        decreases old_list@.len() - i,
    {
        let path = &old_list[i].path;
        proof {
            assert(paths_of(old_list@)[i as int] == path@);
            lemma_meta_at_iff_listed(old_list@, path@);
        }
        let mut different = true;
        if let Some(first) = find_meta(old_list, path) {
            if let Some(second) = find_meta(new_list, path) {
                different = !(first.is_dir && second.is_dir) && !same_meta(first, second);
            }
        }
        assert(different == differs(old_list@, new_list@, path@));
        if different {
            let ghost before = changed@;
            changed.push(path.clone());
            proof {
                lemma_pushed(before, *path);
            }
        }
        i += 1;
    }
    let mut i: usize = 0;
    while i < new_list.len()
        invariant
            i <= new_list@.len(),
            forall|path: Seq<char>| #[trigger]
                texts(changed@).contains(path) ==> differs(old_list@, new_list@, path),
            forall|j: int|
                0 <= j < old_list@.len() && differs(
                    old_list@,
                    new_list@,
                    (#[trigger] old_list@[j]).path@,
                ) ==> texts(changed@).contains(old_list@[j].path@),
            forall|j: int|
                0 <= j < i && meta_at(old_list@, (#[trigger] new_list@[j]).path@) is None ==> texts(
                    changed@,
                ).contains(new_list@[j].path@),
        decreases new_list@.len() - i,
    {
        let path = &new_list[i].path;
        proof {
            assert(paths_of(new_list@)[i as int] == path@);
            lemma_meta_at_iff_listed(new_list@, path@);
        }
        if find_meta(old_list, path).is_none() {
            let ghost before = changed@;
            changed.push(path.clone());
            proof {
                lemma_pushed(before, *path);
            }
        }
        i += 1;
    }
    let ghost all = changed@;
    let r = sorted_unique(changed);
    proof {
        assert forall|path: Seq<char>| #[trigger] texts(r@).contains(path) <==> differs(
            old_list@,
            new_list@,
            path,
        ) by {
            lemma_meta_at_iff_listed(old_list@, path);
            lemma_meta_at_iff_listed(new_list@, path);
            lemma_unique_texts(all, r@, path);
            if differs(old_list@, new_list@, path) {
                if meta_at(old_list@, path) is Some {
                    let j = choose|j: int|
                        0 <= j < paths_of(old_list@).len() && paths_of(old_list@)[j] == path;
                    assert(old_list@[j].path@ == path);
                } else {
                    let j = choose|j: int|
                        0 <= j < paths_of(new_list@).len() && paths_of(new_list@)[j] == path;
                    assert(new_list@[j].path@ == path);
                }
            }
        }
    }
    r
}

proof fn lemma_pushed(before: Seq<String>, item: String)
    ensures
        forall|path: Seq<char>| #[trigger]
            texts(before.push(item)).contains(path) <==> texts(before).contains(path) || path
                == item@,
{
    let after = texts(before.push(item));
    assert forall|path: Seq<char>| #[trigger] after.contains(path) <==> texts(before).contains(path)
        || path == item@ by {
        if texts(before).contains(path) {
            let i = choose|i: int| 0 <= i < texts(before).len() && texts(before)[i] == path;
            assert(after[i] == path);
        }
        if path == item@ {
            assert(after[before.len() as int] == path);
        }
        if after.contains(path) && path != item@ {
            let i = choose|i: int| 0 <= i < after.len() && after[i] == path;
            assert(texts(before)[i] == path);
        }
    }
}

proof fn lemma_unique_texts(all: Seq<String>, unique: Seq<String>, path: Seq<char>)
    requires
        is_sorted_unique(all, unique),
    ensures
        texts(unique).contains(path) <==> texts(all).contains(path),
{
    if texts(unique).contains(path) {
        let i = choose|i: int| 0 <= i < texts(unique).len() && texts(unique)[i] == path;
        let rank = unique[i].rank();
        lemma_first_with_rank(all, rank);
        let j = choose|j: int|
            0 <= j < all.len() && #[trigger] all[j] == with_rank(all, rank)[0] && all[j].rank()
                == rank && forall|k: int| 0 <= k < j ==> (#[trigger] all[k]).rank() != rank;
        assert(texts(all)[j] == path);
    }
    if texts(all).contains(path) {
        let j = choose|j: int| 0 <= j < texts(all).len() && texts(all)[j] == path;
        assert(all[j]@ == path);
        let i = choose|i: int|
            0 <= i < unique.len() && (#[trigger] unique[i]).rank() == all[j].rank();
        lemma_text_rank_injective(unique[i]@, path);
        assert(texts(unique)[i] == path);
    }
}

/// What metadata tells of a path that both sides have.
#[derive(Clone, Copy, PartialEq, Eq, Structural)]
pub enum Judgement {
    Same,
    Changed,
    /// Only the contents can tell.
    Unsure,
}

pub open spec fn judged(repo: FileMetaView, sandbox: FileMetaView) -> Judgement {
    if repo.is_dir && sandbox.is_dir {
        Judgement::Same
    } else if repo.is_symlink || sandbox.is_symlink {
        if repo.symlink_target != sandbox.symlink_target {
            Judgement::Changed
        } else {
            Judgement::Same
        }
    } else if repo.is_dir != sandbox.is_dir || repo.size != sandbox.size {
        Judgement::Changed
    } else if repo.mtime_nanos != sandbox.mtime_nanos {
        Judgement::Unsure
    } else {
        Judgement::Same
    }
}

/// Judges a path by its metadata on both sides.
pub fn judge(repo: &FileMeta, sandbox: &FileMeta) -> (r: Judgement)
    ensures
        r == judged(repo@, sandbox@),
{
    if repo.is_dir && sandbox.is_dir {
        Judgement::Same
    } else if repo.is_symlink || sandbox.is_symlink {
        if same_option(&repo.symlink_target, &sandbox.symlink_target) {
            Judgement::Same
        } else {
            Judgement::Changed
        }
    } else if repo.is_dir != sandbox.is_dir || repo.size != sandbox.size {
        Judgement::Changed
    } else if !same_time(repo.mtime_nanos, sandbox.mtime_nanos) {
        Judgement::Unsure
    } else {
        Judgement::Same
    }
}

/// What metadata tells of a path: a path that one side lacks has changed.
pub open spec fn judgement_at(
    repo: Seq<Captured>,
    sandbox: Seq<Captured>,
    path: Seq<char>,
) -> Judgement {
    match (meta_at(repo, path), meta_at(sandbox, path)) {
        (Some(first), Some(second)) => judged(first, second),
        (None, None) => Judgement::Same,
        _ => Judgement::Changed,
    }
}

/// The paths that have changed for certain, and those whose contents have to
/// be compared.
pub struct Comparison {
    pub changed: Vec<String>,
    pub unsure: Vec<String>,
}

/// Compares two captures by their metadata.
pub fn compare_captures(repo: &Vec<Captured>, sandbox: &Vec<Captured>) -> (r: Comparison)
    ensures
        forall|path: Seq<char>| #[trigger]
            texts(r.changed@).contains(path) <==> judgement_at(repo@, sandbox@, path)
                == Judgement::Changed,
        forall|path: Seq<char>| #[trigger]
            texts(r.unsure@).contains(path) <==> judgement_at(repo@, sandbox@, path)
                == Judgement::Unsure,
{
    let mut changed: Vec<String> = Vec::new();
    let mut unsure: Vec<String> = Vec::new();
    let mut i: usize = 0;
    while i < repo.len()
        invariant
            i <= repo@.len(),
            forall|path: Seq<char>| #[trigger]
                texts(changed@).contains(path) ==> judgement_at(repo@, sandbox@, path)
                    == Judgement::Changed,
            forall|path: Seq<char>| #[trigger]
                texts(unsure@).contains(path) ==> judgement_at(repo@, sandbox@, path)
                    == Judgement::Unsure,
            forall|j: int|
                0 <= j < i && judgement_at(repo@, sandbox@, (#[trigger] repo@[j]).path@)
                    == Judgement::Changed ==> texts(changed@).contains(repo@[j].path@),
            forall|j: int|
                0 <= j < i && judgement_at(repo@, sandbox@, (#[trigger] repo@[j]).path@)
                    == Judgement::Unsure ==> texts(unsure@).contains(repo@[j].path@),
        decreases repo@.len() - i,
    {
        let path = &repo[i].path;
        proof {
            assert(paths_of(repo@)[i as int] == path@);
            lemma_meta_at_iff_listed(repo@, path@);
        }
        let mut judgement = Judgement::Changed;
        if let Some(first) = find_meta(repo, path) {
            if let Some(second) = find_meta(sandbox, path) {
                judgement = judge(first, second);
            }
        }
        assert(judgement == judgement_at(repo@, sandbox@, path@));
        match judgement {
            Judgement::Same => {},
            Judgement::Changed => {
                let ghost before = changed@;
                changed.push(path.clone());
                proof {
                    lemma_pushed(before, *path);
                }
            },
            Judgement::Unsure => {
                let ghost before = unsure@;
                unsure.push(path.clone());
                proof {
                    lemma_pushed(before, *path);
                }
            },
        }
        i += 1;
    }
    let mut i: usize = 0;
    while i < sandbox.len()
        invariant
            i <= sandbox@.len(),
            forall|path: Seq<char>| #[trigger]
                texts(changed@).contains(path) ==> judgement_at(repo@, sandbox@, path)
                    == Judgement::Changed,
            forall|path: Seq<char>| #[trigger]
                texts(unsure@).contains(path) ==> judgement_at(repo@, sandbox@, path)
                    == Judgement::Unsure,
            forall|j: int|
                0 <= j < repo@.len() && judgement_at(repo@, sandbox@, (#[trigger] repo@[j]).path@)
                    == Judgement::Changed ==> texts(changed@).contains(repo@[j].path@),
            forall|j: int|
                0 <= j < repo@.len() && judgement_at(repo@, sandbox@, (#[trigger] repo@[j]).path@)
                    == Judgement::Unsure ==> texts(unsure@).contains(repo@[j].path@),
            forall|j: int|
                0 <= j < i && meta_at(repo@, (#[trigger] sandbox@[j]).path@) is None ==> texts(
                    changed@,
                ).contains(sandbox@[j].path@),
        decreases sandbox@.len() - i,
    {
        let path = &sandbox[i].path;
        proof {
            assert(paths_of(sandbox@)[i as int] == path@);
            lemma_meta_at_iff_listed(sandbox@, path@);
        }
        if find_meta(repo, path).is_none() {
            let ghost before = changed@;
            changed.push(path.clone());
            proof {
                lemma_pushed(before, *path);
            }
        }
        i += 1;
    }
    proof {
        assert forall|path: Seq<char>|
            judgement_at(repo@, sandbox@, path) == Judgement::Changed implies #[trigger] texts(
            changed@,
        ).contains(path) by {
            lemma_meta_at_iff_listed(repo@, path);
            lemma_meta_at_iff_listed(sandbox@, path);
            if meta_at(repo@, path) is Some {
                let j = choose|j: int|
                    0 <= j < paths_of(repo@).len() && paths_of(repo@)[j] == path;
                assert(repo@[j].path@ == path);
            } else {
                let j = choose|j: int|
                    0 <= j < paths_of(sandbox@).len() && paths_of(sandbox@)[j] == path;
                assert(sandbox@[j].path@ == path);
            }
        }
        assert forall|path: Seq<char>|
            judgement_at(repo@, sandbox@, path) == Judgement::Unsure implies #[trigger] texts(
            unsure@,
        ).contains(path) by {
            lemma_meta_at_iff_listed(repo@, path);
            let j = choose|j: int| 0 <= j < paths_of(repo@).len() && paths_of(repo@)[j] == path;
            assert(repo@[j].path@ == path);
        }
    }
    Comparison { changed, unsure }
}

/// The paths of `unsure` whose contents turned out to differ.
pub open spec fn found_different(unsure: Seq<Seq<char>>, same: Seq<bool>) -> Seq<Seq<char>>
    decreases unsure.len(),
{
    if unsure.len() == 0 {
        Seq::empty()
    } else {
        let before = found_different(unsure.drop_last(), same);
        if same[unsure.len() - 1] {
            before
        } else {
            before.push(unsure.last())
        }
    }
}

impl Comparison {
    /// The changed paths in order, each once; `same` tells of each unsure
    /// path whether the contents are the same.
    pub fn finish(self, same: &[bool]) -> (r: Vec<String>)
        requires
            same@.len() == self.unsure@.len(),
        ensures
            paths_in_order(
                texts(self.changed@) + found_different(texts(self.unsure@), same@),
                texts(r@),
            ),
    {
        let ghost start = texts(self.changed@);
        let ghost all = texts(self.unsure@);
        let mut changed = self.changed;
        let unsure = self.unsure;
        let mut i: usize = 0;
        assert(all.take(0) =~= Seq::empty());
        assert(start + Seq::<Seq<char>>::empty() =~= start);
        while i < unsure.len()
            invariant
                i <= unsure@.len(),
                same@.len() == unsure@.len(),
                all == texts(unsure@),
                texts(changed@) == start + found_different(all.take(i as int), same@),
            decreases unsure@.len() - i,
        {
            broadcast use lemma_texts_push;

            proof {
                assert(all.take(i + 1).drop_last() =~= all.take(i as int));
                assert(all.take(i + 1).last() == unsure@[i as int]@);
            }
            let ghost so_far = found_different(all.take(i as int), same@);
            if !same[i] {
                changed.push(unsure[i].clone());
                assert((start + so_far).push(all[i as int]) =~= start + so_far.push(
                    all[i as int],
                ));
            }
            i += 1;
        }
        assert(all.take(i as int) =~= all);
        sort_paths(changed)
    }
}

/// A record describes what a look at the path shows.
pub open spec fn describes(meta: FileMetaView, look: LookView) -> bool {
    match look {
        LookView::Directory => meta.is_dir && !meta.is_symlink && meta.symlink_target is None,
        LookView::Link(target) => !meta.is_dir && meta.is_symlink && meta.symlink_target == Some(
            target,
        ),
        LookView::File(content) => !meta.is_dir && !meta.is_symlink && meta.symlink_target is None
            && meta.size == content.len(),
        _ => false,
    }
}

/// Judging by metadata finds what looking at both sides finds, as long as a
/// file that keeps its size and its time keeps its contents.
pub proof fn lemma_judgement_agrees_with_look(
    repo: FileMetaView,
    sandbox: FileMetaView,
    first: LookView,
    second: LookView,
)
    requires
        describes(repo, first),
        describes(sandbox, second),
        first is File && second is File && repo.size == sandbox.size && repo.mtime_nanos
            == sandbox.mtime_nanos ==> first == second,
    ensures
        judged(repo, sandbox) == Judgement::Same ==> same_look(first, second),
        judged(repo, sandbox) == Judgement::Changed ==> !same_look(first, second),
        judged(repo, sandbox) == Judgement::Unsure ==> (same_look(first, second) <==> first
            == second),
{
}

/// What looks at one side show is what was captured of it.
pub open spec fn captured_as(list: Seq<Captured>, looks: spec_fn(Seq<char>) -> LookView) -> bool {
    forall|path: Seq<char>|
        match #[trigger] meta_at(list, path) {
            Some(meta) => describes(meta, looks(path)),
            None => looks(path) is Missing,
        }
}

/// The search by metadata and the search by contents find the same changes:
/// a path is reported exactly where the two sides look different there. A
/// file that keeps its size and its time must have kept its contents, and
/// `same` must say of each unsure path whether the sides are equal.
pub proof fn lemma_metadata_finds_the_changes(
    repo: Seq<Captured>,
    sandbox: Seq<Captured>,
    first: spec_fn(Seq<char>) -> LookView,
    second: spec_fn(Seq<char>) -> LookView,
    changed: Seq<Seq<char>>,
    unsure: Seq<Seq<char>>,
    same: Seq<bool>,
    reported: Seq<Seq<char>>,
)
    requires
        captured_as(repo, first),
        captured_as(sandbox, second),
        forall|path: Seq<char>|
            match (#[trigger] meta_at(repo, path), meta_at(sandbox, path)) {
                (Some(ours), Some(theirs)) => first(path) is File && second(path) is File
                    && ours.size == theirs.size && ours.mtime_nanos == theirs.mtime_nanos ==> first(
                    path,
                ) == second(path),
                _ => true,
            },
        forall|path: Seq<char>| #[trigger]
            changed.contains(path) <==> judgement_at(repo, sandbox, path) == Judgement::Changed,
        forall|path: Seq<char>| #[trigger]
            unsure.contains(path) <==> judgement_at(repo, sandbox, path) == Judgement::Unsure,
        same.len() == unsure.len(),
        forall|i: int|
            0 <= i < unsure.len() ==> (#[trigger] same[i] <==> first(unsure[i]) == second(
                unsure[i],
            )),
        paths_in_order(changed + found_different(unsure, same), reported),
    ensures
        forall|i: int|
            0 <= i < reported.len() ==> !same_look(
                first(#[trigger] reported[i]),
                second(reported[i]),
            ),
        forall|path: Seq<char>|
            !same_look(first(path), second(path)) ==> #[trigger] has_place(
                reported,
                path_rank(path),
            ),
{
    let different = found_different(unsure, same);
    let list = changed + different;
    assert forall|path: Seq<char>| list.contains(path) <==> !same_look(
        first(path),
        second(path),
    ) by {
        lemma_found_different(unsure, same, path);
        match (meta_at(repo, path), meta_at(sandbox, path)) {
            (Some(ours), Some(theirs)) => {
                lemma_judgement_agrees_with_look(ours, theirs, first(path), second(path));
            },
            _ => {},
        }
        if changed.contains(path) {
            let i = choose|i: int| 0 <= i < changed.len() && changed[i] == path;
            assert(list[i] == path);
        }
        if different.contains(path) {
            let i = choose|i: int| 0 <= i < different.len() && different[i] == path;
            assert(list[changed.len() + i] == path);
            let k = choose|k: int| 0 <= k < unsure.len() && unsure[k] == path && !same[k];
            assert(unsure.contains(unsure[k]));
        }
        if list.contains(path) {
            let i = choose|i: int| 0 <= i < list.len() && list[i] == path;
            if i < changed.len() {
                assert(changed[i] == path);
            } else {
                assert(different[i - changed.len()] == path);
            }
        }
        if unsure.contains(path) && first(path) != second(path) {
            let k = choose|k: int| 0 <= k < unsure.len() && unsure[k] == path;
            assert(!same[k]);
        }
    }
    assert forall|i: int| 0 <= i < reported.len() implies !same_look(
        first(#[trigger] reported[i]),
        second(reported[i]),
    ) by {
        assert(first_of_its_place(list, reported[i]));
        assert(list.contains(reported[i]));
    }
    assert forall|path: Seq<char>|
        !same_look(first(path), second(path)) implies #[trigger] has_place(
        reported,
        path_rank(path),
    ) by {
        assert(list.contains(path));
        let j = choose|j: int| 0 <= j < list.len() && list[j] == path;
        assert(has_place(reported, path_rank(list[j])));
    }
}

proof fn lemma_found_different(unsure: Seq<Seq<char>>, same: Seq<bool>, path: Seq<char>)
    requires
        same.len() >= unsure.len(),
    ensures
        found_different(unsure, same).contains(path) <==> exists|k: int|
            0 <= k < unsure.len() && #[trigger] unsure[k] == path && !same[k],
    decreases unsure.len(),
{
    if unsure.len() > 0 {
        let front = unsure.drop_last();
        let before = found_different(front, same);
        let all = found_different(unsure, same);
        lemma_found_different(front, same, path);
        let last = unsure.len() - 1;
        if before.contains(path) {
            let k = choose|k: int| 0 <= k < front.len() && front[k] == path && !same[k];
            assert(unsure[k] == path && !same[k]);
            let i = choose|i: int| 0 <= i < before.len() && before[i] == path;
            assert(all[i] == path);
        }
        if !same[last] {
            assert(all[before.len() as int] == unsure[last]);
        }
        if all.contains(path) && !before.contains(path) {
            let i = choose|i: int| 0 <= i < all.len() && all[i] == path;
            if i < before.len() {
                assert(before[i] == path);
            }
            assert(unsure[last] == path && !same[last]);
        }
        if exists|k: int| 0 <= k < unsure.len() && #[trigger] unsure[k] == path && !same[k] {
            let k = choose|k: int|
                0 <= k < unsure.len() && #[trigger] unsure[k] == path && !same[k];
            if k < last {
                assert(front[k] == path && !same[k]);
            }
        }
    }
}

/// How often `text` occurs in `list`.
pub open spec fn occurrences(list: Seq<Seq<char>>, text: Seq<char>) -> nat
    decreases list.len(),
{
    if list.len() == 0 {
        0
    } else {
        occurrences(list.drop_last(), text) + (if list.last() == text {
            1nat
        } else {
            0nat
        })
    }
}

proof fn lemma_occurs_iff_contained(list: Seq<Seq<char>>, text: Seq<char>)
    ensures
        occurrences(list, text) > 0 <==> list.contains(text),
        occurrences(list, text) <= list.len(),
    decreases list.len(),
{
    if list.len() > 0 {
        let front = list.drop_last();
        lemma_occurs_iff_contained(front, text);
        assert(list[list.len() - 1] == list.last());
        if front.contains(text) {
            let i = choose|i: int| 0 <= i < front.len() && front[i] == text;
            assert(list[i] == text);
        }
        if list.contains(text) && list.last() != text {
            let i = choose|i: int| 0 <= i < list.len() && list[i] == text;
            assert(front[i] == text);
        }
    }
}

fn count(list: &[String], text: &String) -> (r: usize)
    ensures
        r == occurrences(texts(list@), text@),
{
    let ghost all = texts(list@);
    let mut n: usize = 0;
    let mut i: usize = 0;
    assert(all.take(0) =~= Seq::empty());
    while i < list.len()
        invariant
            i <= list@.len(),
            all == texts(list@),
            n <= i,
            n == occurrences(all.take(i as int), text@),
        decreases list@.len() - i,
    {
        proof {
            assert(all.take(i + 1).drop_last() =~= all.take(i as int));
            assert(all.take(i + 1).last() == list@[i as int]@);
        }
        if list[i] == *text {
            n += 1;
        }
        i += 1;
    }
    assert(all.take(i as int) =~= all);
    n
}

/// Two lists hold the same texts, each as often, in whatever order.
pub open spec fn same_texts(first: Seq<Seq<char>>, second: Seq<Seq<char>>) -> bool {
    forall|text: Seq<char>| #[trigger] occurrences(first, text) == occurrences(second, text)
}

fn counts_agree(first: &[String], second: &[String]) -> (r: bool)
    ensures
        r == (forall|i: int|
            0 <= i < first@.len() ==> occurrences(texts(first@), (#[trigger] first@[i])@)
                == occurrences(texts(second@), first@[i]@)),
{
    let mut i: usize = 0;
    while i < first.len()
        invariant
            i <= first@.len(),
            forall|j: int|
                0 <= j < i ==> occurrences(texts(first@), (#[trigger] first@[j])@) == occurrences(
                    texts(second@),
                    first@[j]@,
                ),
        decreases first@.len() - i,
    {
        if count(first, &first[i]) != count(second, &first[i]) {
            return false;
        }
        i += 1;
    }
    true
}

fn hold_same_texts(first: &[String], second: &[String]) -> (r: bool)
    ensures
        r == same_texts(texts(first@), texts(second@)),
{
    let ghost a = texts(first@);
    let ghost b = texts(second@);
    let r = counts_agree(first, second) && counts_agree(second, first);
    proof {
        if r {
            assert forall|text: Seq<char>| #[trigger] occurrences(a, text) == occurrences(
                b,
                text,
            ) by {
                lemma_occurs_iff_contained(a, text);
                lemma_occurs_iff_contained(b, text);
                if a.contains(text) {
                    let i = choose|i: int| 0 <= i < a.len() && a[i] == text;
                    assert(first@[i]@ == text);
                } else if b.contains(text) {
                    let i = choose|i: int| 0 <= i < b.len() && b[i] == text;
                    assert(second@[i]@ == text);
                }
            }
        }
    }
    r
}

/// A snapshot of a session's workspace.
pub struct Snapshot {
    pub version: u32,
    pub session_id: String,
    /// When it was taken, in seconds since the epoch.
    pub created_at: u64,
    pub unmanaged: Vec<String>,
    pub strategy: Option<String>,
    pub entries: Vec<Captured>,
}

impl Snapshot {
    /// A snapshot of `entries`.
    pub fn new(
        session_id: String,
        created_at: u64,
        unmanaged: Vec<String>,
        strategy: Option<String>,
        entries: Vec<Captured>,
    ) -> (r: Snapshot)
        ensures
            r.version == SNAPSHOT_VERSION,
            r.session_id == session_id,
            r.created_at == created_at,
            r.unmanaged == unmanaged,
            r.strategy == strategy,
            r.entries == entries,
    {
        Snapshot { version: SNAPSHOT_VERSION, session_id, created_at, unmanaged, strategy, entries }
    }
}

/// A snapshot fits a session that leaves the same paths alone and was filled
/// in the same way.
pub open spec fn fits(
    snapshot: Snapshot,
    unmanaged: Seq<Seq<char>>,
    strategy: Option<Seq<char>>,
) -> bool {
    same_texts(texts(snapshot.unmanaged@), unmanaged) && text_option(snapshot.strategy) == strategy
}

pub fn is_snapshot_valid(snapshot: &Snapshot, unmanaged: &[String], strategy: Option<&str>) -> (r:
    bool)
    ensures
        r == fits(*snapshot, texts(unmanaged@), str_option(strategy)),
{
    if !hold_same_texts(snapshot.unmanaged.as_slice(), unmanaged) {
        return false;
    }
    match (&snapshot.strategy, strategy) {
        (Some(left), Some(right)) => same_text(left.as_str(), right),
        (None, None) => true,
        _ => false,
    }
}

/// Whether a stored snapshot can speed up the search for changes.
pub fn snapshot_usable(
    stored: &Option<Snapshot>,
    unmanaged: &[String],
    strategy: Option<&str>,
) -> (r: bool)
    ensures
        r == (stored is Some && stored->Some_0.version == SNAPSHOT_VERSION && fits(
            stored->Some_0,
            texts(unmanaged@),
            str_option(strategy),
        )),
{
    match stored {
        Some(snapshot) => snapshot.version == SNAPSHOT_VERSION && is_snapshot_valid(
            snapshot,
            unmanaged,
            strategy,
        ),
        None => false,
    }
}

/// A session id that can be a file name.
pub fn sanitize_id(id: &str) -> (r: String)
    ensures
        r@ == dashed(id@),
{
    let chars = chars_of(id);
    let mut clean: Vec<char> = Vec::new();
    let mut i: usize = 0;
    assert(clean@ =~= dashed(id@).take(0));
    while i < chars.len()
        invariant
            chars@ == id@,
            i <= chars@.len(),
            clean@ == dashed(id@).take(i as int),
        decreases chars@.len() - i,
    {
        let c = chars[i];
        let fits = ('a' <= c && c <= 'z') || ('A' <= c && c <= 'Z') || ('0' <= c && c <= '9') || c
            == '-' || c == '_' || c == '.';
        clean.push(
            if fits {
                c
            } else {
                '-'
            },
        );
        i += 1;
        assert(clean@ =~= dashed(id@).take(i as int));
    }
    assert(dashed(id@).take(i as int) =~= dashed(id@));
    text_of(&clean)
}

/// The directory of the snapshots, below the one of the workspaces.
pub fn manifest_dir(base: &str) -> (r: String)
    ensures
        r@ == path_join(base@, "manifests"@),
{
    join_path(base, "manifests")
}

/// The file of a session's snapshot.
pub fn manifest_path(base: &str, session_id: &str) -> (r: String)
    ensures
        r@ == path_join(path_join(base@, "manifests"@), dashed(session_id@) + ".json"@),
{
    let dir = manifest_dir(base);
    let safe = sanitize_id(session_id);
    let name = cat2(safe.as_str(), ".json");
    join_path(dir.as_str(), name.as_str())
}

/// The ending under which a snapshot is written before it is moved into
/// place.
pub fn temporary_ending(process: u32, sequence: u64, now: u64) -> (r: String)
    ensures
        r@ == "tmp-"@ + decimal_text(process as nat) + "-"@ + decimal_text(sequence as nat) + "-"@
            + decimal_text(now as nat),
{
    let mut out = "tmp-".to_owned();
    out.append(decimal(process as u64).as_str());
    out.append("-");
    out.append(decimal(sequence).as_str());
    out.append("-");
    out.append(decimal(now).as_str());
    out
}

/// Whether a snapshot file is swept: no live session owns it, and it is more
/// than an hour old.
pub fn manifest_is_stale(path: &str, live_ids: &[String], age_seconds: u64) -> (r: bool)
    ensures
        r == (has_extension(path@, "json"@) && !texts(live_ids@).contains(
            (match stem_of(path@) {
                Some(stem) => stem,
                None => Seq::empty(),
            }),
        ) && age_seconds > 3600),
{
    if !ends_in(path, "json") {
        return false;
    }
    let stem = match file_stem(path) {
        Some(stem) => stem,
        None => String::new(),
    };
    !lists(live_ids, stem.as_str()) && age_seconds > 3600
}

} // verus!
