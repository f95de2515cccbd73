//! How a workspace is filled and compared: what git reports is read back, and
//! what metadata tells is no more than it can tell.

use super::copying::{left_alone};
use crate::paths::{path_join};
use crate::platform::lossy_text;
use crate::sandbox::{EntryView, Kind};
use crate::snapshot::{
    deeper, differs, fits, found_different, judged, kept_metas, meta_at, meta_view, occurrences,
    same_texts, Captured, CapturedView, Facts, FileMetaView, Judgement, Listed, Snapshot,
};
use crate::text::{text_option, texts};
use crate::workspace::{
    ascii_space, begun, children, detected, followed, ineligible, overlay_for, status_read,
    status_sound, untracked_read, without_spaces_at_end, CopyMethod, CopyStrategy, Fill,
    GitAnswer, Overlay, UntrackedView,
};
use vstd::prelude::*;
use vstd::string::*;

verus! {

/// One record of `git status`: two letters and a path, and for a rename or a
/// copy the path that it comes from.
pub struct StatusRecord {
    pub index: u8,
    pub tree: u8,
    pub path: Seq<u8>,
    pub old_path: Option<Seq<u8>>,
}

/// A record as git prints one: no path is empty, and an old path comes with the
/// letters of a rename or a copy, and only with them.
pub open spec fn printable(record: StatusRecord) -> bool {
    &&& record.path.len() > 0
    &&& record.old_path is Some <==> record.index == 82 || record.index == 67
    &&& record.old_path is Some ==> record.old_path->Some_0.len() > 0
}

/// The entries that git prints for a record.
pub open spec fn printed(record: StatusRecord) -> Seq<Seq<u8>> {
    let first = seq![record.index, record.tree, 32u8] + record.path;
    match record.old_path {
        Some(old_path) => seq![first, old_path],
        None => seq![first],
    }
}

pub open spec fn all_printed(list: Seq<StatusRecord>) -> Seq<Seq<u8>>
    decreases list.len(),
{
    if list.len() == 0 {
        Seq::empty()
    } else {
        all_printed(list.drop_last()) + printed(list.last())
    }
}

/// The paths that a record speaks of.
pub open spec fn spoken_of(record: StatusRecord) -> Seq<Seq<char>> {
    match record.old_path {
        Some(old_path) => seq![lossy_text(record.path), lossy_text(old_path)],
        None => seq![lossy_text(record.path)],
    }
}

pub open spec fn all_spoken_of(list: Seq<StatusRecord>) -> Seq<Seq<char>>
    decreases list.len(),
{
    if list.len() == 0 {
        Seq::empty()
    } else {
        all_spoken_of(list.drop_last()) + spoken_of(list.last())
    }
}

proof fn lemma_status_push(list: Seq<Seq<u8>>, entry: Seq<u8>)
    requires
        entry.len() > 0,
        status_sound(list),
        entry.len() >= 3 || status_read(list).old_path_next,
    ensures
        status_sound(list.push(entry)),
        status_read(list).old_path_next ==> status_read(list.push(entry)).paths == status_read(
            list,
        ).paths.push(lossy_text(entry)) && !status_read(list.push(entry)).old_path_next,
        !status_read(list).old_path_next ==> status_read(list.push(entry)).paths == status_read(
            list,
        ).paths.push(lossy_text(entry.skip(3))) && status_read(list.push(entry)).old_path_next
            == (entry[0] == 82 || entry[0] == 67),
{
    assert(list.push(entry).drop_last() =~= list);
}

/// What git prints of a list of records is read back: each path, and behind that
/// of a rename or a copy the path it comes from.
pub proof fn lemma_status_reads_back(list: Seq<StatusRecord>)
    requires
        forall|i: int| 0 <= i < list.len() ==> printable(#[trigger] list[i]),
    ensures
        status_sound(all_printed(list)),
        status_read(all_printed(list)).paths == all_spoken_of(list),
        !status_read(all_printed(list)).old_path_next,
    decreases list.len(),
{
    if list.len() > 0 {
        let front = list.drop_last();
        let last = list.last();
        assert forall|i: int| 0 <= i < front.len() implies printable(#[trigger] front[i]) by {
            assert(front[i] == list[i]);
        }
        lemma_status_reads_back(front);
        assert(printable(list[list.len() - 1]));
        let before = all_printed(front);
        let first = seq![last.index, last.tree, 32u8] + last.path;
        assert(first.skip(3) =~= last.path);
        lemma_status_push(before, first);
        match last.old_path {
            Some(old_path) => {
                lemma_status_push(before.push(first), old_path);
                assert(before + printed(last) =~= before.push(first).push(old_path));
                assert(all_spoken_of(front) + spoken_of(last) =~= all_spoken_of(front).push(
                    lossy_text(last.path),
                ).push(lossy_text(old_path)));
            },
            None => {
                assert(before + printed(last) =~= before.push(first));
                assert(all_spoken_of(front) + spoken_of(last) =~= all_spoken_of(front).push(
                    lossy_text(last.path),
                ));
            },
        }
    }
}

/// What is left of an entry has no space at its end, and only spaces are lost.
pub proof fn lemma_only_spaces_go(bytes: Seq<u8>)
    ensures
        ({
            let kept = without_spaces_at_end(bytes);
            &&& kept.is_prefix_of(bytes)
            &&& kept.len() > 0 ==> !(kept.last() == 9 || kept.last() == 10 || kept.last() == 12
                || kept.last() == 13 || kept.last() == 32)
            &&& forall|i: int|
                kept.len() <= i < bytes.len() ==> ascii_space(#[trigger] bytes[i])
        }),
    decreases bytes.len(),
{
    if bytes.len() > 0 && ascii_space(bytes.last()) {
        lemma_only_spaces_go(bytes.drop_last());
        let kept = without_spaces_at_end(bytes);
        assert forall|i: int| kept.len() <= i < bytes.len() implies ascii_space(
            #[trigger] bytes[i],
        ) by {
            if i < bytes.len() - 1 {
                assert(bytes.drop_last()[i] == bytes[i]);
            }
        }
    }
}

/// Every untracked entry that is not empty is read, in its order; one that ends
/// in a slash is a directory.
pub proof fn lemma_untracked_is_complete(list: Seq<Seq<u8>>)
    ensures
        untracked_read(list) == list.filter(|entry: Seq<u8>| entry.len() > 0).map_values(
            |entry: Seq<u8>|
                UntrackedView {
                    path: lossy_text(without_spaces_at_end(entry)),
                    is_directory: entry.last() == 47,
                },
        ),
    decreases list.len(),
{
    reveal(Seq::filter);
    let full = |entry: Seq<u8>| entry.len() > 0;
    let made = |entry: Seq<u8>|
        UntrackedView {
            path: lossy_text(without_spaces_at_end(entry)),
            is_directory: entry.last() == 47,
        };
    if list.len() == 0 {
        assert(list.filter(full).map_values(made) =~= Seq::empty());
    } else {
        let front = list.drop_last();
        lemma_untracked_is_complete(front);
        if full(list.last()) {
            assert(front.filter(full).push(list.last()).map_values(made) =~= front.filter(
                full,
            ).map_values(made).push(made(list.last())));
        }
    }
}

/// The files and the directories of an untracked directory are all of its
/// entries, each below the directory and in its order.
pub proof fn lemma_children_are_all(dir: Seq<char>, list: Seq<EntryView>)
    ensures
        children(dir, list, true) == list.filter(
            |entry: EntryView| entry.kind == Kind::Directory,
        ).map_values(|entry: EntryView| path_join(dir, entry.name)),
        children(dir, list, false) == list.filter(
            |entry: EntryView| entry.kind != Kind::Directory,
        ).map_values(|entry: EntryView| path_join(dir, entry.name)),
    decreases list.len(),
{
    reveal(Seq::filter);
    let directory = |entry: EntryView| entry.kind == Kind::Directory;
    let other = |entry: EntryView| entry.kind != Kind::Directory;
    let below = |entry: EntryView| path_join(dir, entry.name);
    if list.len() == 0 {
        assert(list.filter(directory).map_values(below) =~= Seq::empty());
        assert(list.filter(other).map_values(below) =~= Seq::empty());
    } else {
        let front = list.drop_last();
        let last = list.last();
        lemma_children_are_all(dir, front);
        assert(front.filter(directory).push(last).map_values(below) =~= front.filter(
            directory,
        ).map_values(below).push(below(last)));
        assert(front.filter(other).push(last).map_values(below) =~= front.filter(
            other,
        ).map_values(below).push(below(last)));
    }
}

/// Clones come before a shared clone, and a shared clone before a copy; a copy is
/// made only where there is no other way.
pub proof fn lemma_detection_prefers_the_cheapest(reflink: bool, worktree: bool)
    ensures
        reflink <==> detected(reflink, worktree) == CopyStrategy::Reflink,
        !reflink && worktree <==> detected(reflink, worktree) == CopyStrategy::Worktree,
        !reflink && !worktree <==> detected(reflink, worktree) == CopyStrategy::Copy,
{
}

/// A repository backs a shared clone exactly where it has no submodules and git
/// finds its last commit.
pub proof fn lemma_eligible_without_submodules(
    submodules: bool,
    head: Result<GitAnswer, String>,
)
    ensures
        ineligible(submodules, head) is None <==> !submodules && head is Ok
            && head->Ok_0.success,
{
}

/// A fill begins in the way that was asked for, and never ends as another one: a
/// copy alone may stand in, for a shared clone that was not forced.
pub proof fn lemma_fill_is_what_was_asked(strategy: CopyStrategy, forced: bool)
    ensures
        begun(strategy) == Fill::CloneWorktree <==> strategy == CopyStrategy::Worktree,
        begun(strategy) == Fill::CopyTree(CopyMethod::Reflink) <==> strategy
            == CopyStrategy::Reflink,
        begun(strategy) == Fill::CopyTree(CopyMethod::Copy) <==> strategy == CopyStrategy::Copy,
        followed(begun(strategy), true, forced) == Fill::Filled(strategy),
        followed(begun(strategy), false, forced) == (if strategy == CopyStrategy::Worktree
            && !forced {
            Fill::ClearAndCopy
        } else {
            Fill::Failed
        }),
        followed(Fill::ClearAndCopy, true, forced) == Fill::Filled(CopyStrategy::Copy),
        followed(Fill::ClearAndCopy, false, forced) == Fill::Failed,
{
}

/// A path of the repository is copied; one that only the workspace has goes.
pub proof fn lemma_overlay_follows_the_repository(in_source: bool, in_sandbox: bool)
    ensures
        overlay_for(in_source, in_sandbox) == Overlay::Copy <==> in_source,
        overlay_for(in_source, in_sandbox) == Overlay::Remove <==> in_sandbox && !in_source,
{
}

/// What is kept of an entry tells its kind; a size is kept of files and special
/// files only, and a target of links only.
pub proof fn lemma_record_tells_the_kind(facts: Facts)
    ensures
        meta_view(facts).is_dir <==> facts.kind == Kind::Directory,
        meta_view(facts).is_symlink <==> facts.kind == Kind::Link,
        facts.kind == Kind::File || facts.kind == Kind::Special ==> meta_view(facts).size
            == facts.length,
        facts.kind == Kind::Link ==> meta_view(facts).symlink_target == text_option(
            facts.link_target,
        ) && meta_view(facts).size == 0,
        facts.kind != Kind::Link ==> meta_view(facts).symlink_target is None,
        facts.kind == Kind::Directory ==> meta_view(facts).size == 0,
        meta_view(facts).mtime_nanos == facts.mtime_nanos,
        meta_view(facts).mode == facts.mode,
{
}

/// Only two files of one size whose times differ need to be read. Records that
/// are equal say that nothing changed, and the order of the sides is the same.
pub proof fn lemma_judgement_is_sparing(first: FileMetaView, second: FileMetaView)
    ensures
        judged(first, second) == Judgement::Unsure <==> !first.is_dir && !second.is_dir
            && !first.is_symlink && !second.is_symlink && first.size == second.size
            && first.mtime_nanos != second.mtime_nanos,
        judged(first, second) == judged(second, first),
        judged(first, first) == Judgement::Same,
        first.is_dir && second.is_dir ==> judged(first, second) == Judgement::Same,
        first.is_symlink && !first.is_dir ==> (judged(first, second) == Judgement::Changed
            <==> first.symlink_target != second.symlink_target),
        !first.is_dir && !second.is_dir && !first.is_symlink && !second.is_symlink && first.size
            != second.size ==> judged(first, second) == Judgement::Changed,
{
}

/// A path differs between two captures where one of them lacks it, or where its
/// records differ and it is not a directory in both.
pub proof fn lemma_difference_is_a_change(
    old_list: Seq<Captured>,
    new_list: Seq<Captured>,
    path: Seq<char>,
)
    ensures
        differs(old_list, new_list, path) <==> {
            let a = meta_at(old_list, path);
            let b = meta_at(new_list, path);
            a != b && !(a is Some && b is Some && a->Some_0.is_dir && b->Some_0.is_dir)
        },
        differs(old_list, new_list, path) == differs(new_list, old_list, path),
        !differs(old_list, old_list, path),
{
}

/// A capture keeps, in their order, all entries of a directory that sessions do
/// not leave alone, and goes into those of them that are directories.
pub proof fn lemma_capture_keeps_the_rest(
    dir: Seq<char>,
    list: Seq<Listed>,
    unmanaged: Seq<Seq<char>>,
)
    ensures
        kept_metas(dir, list, unmanaged) == list.filter(
            |item: Listed| !left_alone(path_join(dir, item.name@), unmanaged),
        ).map_values(
            |item: Listed|
                CapturedView { path: path_join(dir, item.name@), meta: meta_view(item.facts) },
        ),
        deeper(dir, list, unmanaged) == list.filter(
            |item: Listed|
                item.facts.kind == Kind::Directory && !left_alone(
                    path_join(dir, item.name@),
                    unmanaged,
                ),
        ).map_values(|item: Listed| path_join(dir, item.name@)),
    decreases list.len(),
{
    reveal(Seq::filter);
    let keep = |item: Listed| !left_alone(path_join(dir, item.name@), unmanaged);
    let directory = |item: Listed|
        item.facts.kind == Kind::Directory && !left_alone(path_join(dir, item.name@), unmanaged);
    let made = |item: Listed|
        CapturedView { path: path_join(dir, item.name@), meta: meta_view(item.facts) };
    let below = |item: Listed| path_join(dir, item.name@);
    if list.len() == 0 {
        assert(list.filter(keep).map_values(made) =~= Seq::empty());
        assert(list.filter(directory).map_values(below) =~= Seq::empty());
    } else {
        let front = list.drop_last();
        let last = list.last();
        lemma_capture_keeps_the_rest(dir, front, unmanaged);
        super::copying::lemma_excluded_is_left_alone(path_join(dir, last.name@), unmanaged);
        assert(front.filter(keep).push(last).map_values(made) =~= front.filter(keep).map_values(
            made,
        ).push(made(last)));
        assert(front.filter(directory).push(last).map_values(below) =~= front.filter(
            directory,
        ).map_values(below).push(below(last)));
    }
}

proof fn lemma_occurrences_count(list: Seq<Seq<char>>, text: Seq<char>)
    ensures
        occurrences(list, text) == list.to_multiset().count(text),
    decreases list.len(),
{
    broadcast use vstd::seq_lib::group_to_multiset_ensures;

    if list.len() == 0 {
        assert(list =~= Seq::empty());
    } else {
        let front = list.drop_last();
        lemma_occurrences_count(front, text);
        assert(list =~= front.push(list.last()));
    }
}

/// A snapshot fits a session that leaves the same paths alone, in whatever order,
/// and was filled in the same way.
pub proof fn lemma_snapshot_fits_its_session(
    snapshot: Snapshot,
    unmanaged: Seq<Seq<char>>,
    strategy: Option<Seq<char>>,
)
    ensures
        fits(snapshot, unmanaged, strategy) <==> texts(snapshot.unmanaged@).to_multiset()
            == unmanaged.to_multiset() && text_option(snapshot.strategy) == strategy,
{
    let a = texts(snapshot.unmanaged@);
    assert forall|text: Seq<char>| #[trigger] occurrences(a, text) == a.to_multiset().count(
        text,
    ) by {
        lemma_occurrences_count(a, text);
    }
    assert forall|text: Seq<char>| #[trigger] occurrences(unmanaged, text)
        == unmanaged.to_multiset().count(text) by {
        lemma_occurrences_count(unmanaged, text);
    }
    if same_texts(a, unmanaged) {
        assert forall|text: Seq<char>| a.to_multiset().count(text)
            == unmanaged.to_multiset().count(text) by {
            assert(occurrences(a, text) == occurrences(unmanaged, text));
        }
        assert(a.to_multiset() =~= unmanaged.to_multiset());
    }
    if a.to_multiset() == unmanaged.to_multiset() {
        assert forall|text: Seq<char>| #[trigger] occurrences(a, text) == occurrences(
            unmanaged,
            text,
        ) by {
            lemma_occurrences_count(a, text);
            lemma_occurrences_count(unmanaged, text);
        }
    }
}

/// Of the paths that had to be read, those are reported whose contents differ.
pub proof fn lemma_read_paths_are_reported(unsure: Seq<Seq<char>>, same: Seq<bool>, i: int)
    requires
        0 <= i < unsure.len(),
        unsure.len() <= same.len(),
        !same[i],
    ensures
        found_different(unsure, same).contains(unsure[i]),
    decreases unsure.len(),
{
    let front = unsure.drop_last();
    let before = found_different(front, same);
    let all = found_different(unsure, same);
    if i == unsure.len() - 1 {
        assert(all[before.len() as int] == unsure[i]);
    } else {
        lemma_read_paths_are_reported(front, same, i);
        let j = choose|j: int| 0 <= j < before.len() && before[j] == unsure[i];
        assert(all[j] == unsure[i]);
    }
}

} // verus!
