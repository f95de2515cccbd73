//! What a capture of a tree comes to: the law of the steps that
//! `snapshot::Capture` takes, over trees as mathematical objects.

use crate::mirror::{
    covered, inside, is_kept_dir, kept_nodes, lemma_kept_nodes, lemma_walk_ends, lemma_walk_step,
    lists_entries, visible, Node,
};
use crate::order::{is_sorted_unique, lemma_first_with_rank, lemma_text_rank_injective, with_rank, Ranked};
use crate::paths::{excluded, path_join};
use crate::sandbox::{kept_dirs, kept_paths, EntryView, Kind};
use crate::snapshot::{
    captures, deeper, kept_metas, lemma_meta_at_iff_listed, lemma_meta_at_listed, meta_at,
    meta_view, paths_of, Captured, CapturedView, Facts, FileMetaView, Listed,
};
use crate::text::text_option;
use vstd::prelude::*;

verus! {

/// The facts are those of the node.
pub open spec fn facts_fit(facts: Facts, node: Node) -> bool {
    match node {
        Node::File(content) => facts.length == content.len(),
        Node::Link(target) => text_option(facts.link_target) == Some(target),
        _ => true,
    }
}

/// A listing without what is known of the entries but for their kinds.
pub open spec fn entry_views(list: Seq<Listed>) -> Seq<EntryView> {
    Seq::new(list.len(), |i: int| EntryView { name: list[i].name@, kind: list[i].facts.kind })
}

/// `list` holds the entries of a directory, with their facts.
pub open spec fn lists_facts(list: Seq<Listed>, node: Node) -> bool {
    &&& lists_entries(entry_views(list), node)
    &&& forall|i: int|
        0 <= i < list.len() ==> facts_fit(
            (#[trigger] list[i]).facts,
            inside(node)[list[i].name@],
        )
}

/// `there` is what a walk through a tree finds at `path`.
pub open spec fn stands_at(
    node: Node,
    dir: Seq<char>,
    unmanaged: Seq<Seq<char>>,
    path: Seq<char>,
    there: Node,
) -> bool
    decreases node,
{
    match node {
        Node::Directory(entries) => exists|name: Seq<char>| #[trigger]
            entries.dom().contains(name) && !excluded(path_join(dir, name), unmanaged) && ((path
                == path_join(dir, name) && there == entries[name]) || (entries[name] is Directory
                && stands_at(entries[name], path_join(dir, name), unmanaged, path, there))),
        _ => false,
    }
}

/// What is kept of a node.
pub open spec fn meta_shows(meta: FileMetaView, node: Node) -> bool {
    match node {
        Node::Directory(_) => meta.is_dir && !meta.is_symlink && meta.size == 0
            && meta.symlink_target is None,
        Node::Link(target) => !meta.is_dir && meta.is_symlink && meta.size == 0
            && meta.symlink_target == Some(target),
        Node::File(content) => !meta.is_dir && !meta.is_symlink && meta.size == content.len()
            && meta.symlink_target is None,
        Node::Special => !meta.is_dir && !meta.is_symlink && meta.symlink_target is None,
    }
}

/// Something that the tree has at the path is what was recorded of it.
pub open spec fn recorded(
    root: Node,
    unmanaged: Seq<Seq<char>>,
    path: Seq<char>,
    meta: FileMetaView,
) -> bool {
    exists|there: Node| #[trigger]
        stands_at(root, ""@, unmanaged, path, there) && meta_shows(meta, there)
}

/// A capture goes on from `pending` and `found` to its end and has then found
/// `all`. `listings` says what each directory held when it was read.
pub open spec fn capture_runs(
    pending: Seq<(Seq<char>, Node)>,
    found: Seq<CapturedView>,
    listings: Seq<Seq<Listed>>,
    unmanaged: Seq<Seq<char>>,
    all: Seq<CapturedView>,
) -> bool
    decreases listings.len(),
{
    if pending.len() == 0 {
        all == found
    } else {
        let (dir, node) = pending.last();
        &&& listings.len() > 0
        &&& lists_facts(listings[0], node)
        &&& capture_runs(
            pending.drop_last() + kept_nodes(dir, entry_views(listings[0]), node, unmanaged),
            found + kept_metas(dir, listings[0], unmanaged),
            listings.skip(1),
            unmanaged,
            all,
        )
    }
}

pub open spec fn found_paths(list: Seq<CapturedView>) -> Seq<Seq<char>> {
    Seq::new(list.len(), |i: int| list[i].path)
}

/// The paths of directories that are still to be read.
pub open spec fn pending_paths(pending: Seq<(Seq<char>, Node)>) -> Seq<Seq<char>> {
    Seq::new(pending.len(), |i: int| pending[i].0)
}

/// A step of a capture reads a directory as a step of a walk does, and has the
/// directories in it read later.
pub proof fn lemma_capture_walks(
    dir: Seq<char>,
    list: Seq<Listed>,
    node: Node,
    unmanaged: Seq<Seq<char>>,
)
    ensures
        found_paths(kept_metas(dir, list, unmanaged)) == kept_paths(
            dir,
            entry_views(list),
            unmanaged,
        ),
        deeper(dir, list, unmanaged) == kept_dirs(dir, entry_views(list), unmanaged),
        deeper(dir, list, unmanaged) == pending_paths(
            kept_nodes(dir, entry_views(list), node, unmanaged),
        ),
    decreases list.len(),
{
    let metas = kept_metas(dir, list, unmanaged);
    if list.len() > 0 {
        let front = list.drop_last();
        lemma_capture_walks(dir, front, node, unmanaged);
        assert(entry_views(list).drop_last() =~= entry_views(front));
        assert(entry_views(list).last().name == list.last().name@);
    }
    assert(found_paths(metas) =~= kept_paths(dir, entry_views(list), unmanaged));
    lemma_kept_nodes(dir, entry_views(list), node, unmanaged);
    assert(deeper(dir, list, unmanaged) =~= pending_paths(
        kept_nodes(dir, entry_views(list), node, unmanaged),
    ));
}

proof fn lemma_kept_metas_recorded(
    dir: Seq<char>,
    node: Node,
    list: Seq<Listed>,
    whole: Seq<Listed>,
    unmanaged: Seq<Seq<char>>,
)
    requires
        node is Directory,
        lists_facts(whole, node),
        list.is_prefix_of(whole),
    ensures
        forall|k: int|
            0 <= k < kept_metas(dir, list, unmanaged).len() ==> exists|there: Node|
                stands_at(
                    node,
                    dir,
                    unmanaged,
                    (#[trigger] kept_metas(dir, list, unmanaged)[k]).path,
                    there,
                ) && meta_shows(kept_metas(dir, list, unmanaged)[k].meta, there),
    decreases list.len(),
{
    if list.len() > 0 {
        let front = list.drop_last();
        lemma_kept_metas_recorded(dir, node, front, whole, unmanaged);
        let before = kept_metas(dir, front, unmanaged);
        let metas = kept_metas(dir, list, unmanaged);
        let item = list.last();
        let child = path_join(dir, item.name@);
        assert forall|k: int| 0 <= k < metas.len() implies exists|there: Node|
            stands_at(node, dir, unmanaged, (#[trigger] metas[k]).path, there) && meta_shows(
                metas[k].meta,
                there,
            ) by {
            if k < before.len() {
                assert(metas[k] == before[k]);
            } else {
                let at = list.len() - 1;
                assert(whole[at] == item);
                assert(entry_views(whole)[at].name == item.name@);
                assert(inside(node).dom().contains(item.name@));
                let there = inside(node)[item.name@];
                assert(stands_at(node, dir, unmanaged, child, there));
                assert(meta_shows(meta_view(item.facts), there));
            }
        }
    }
}

/// All that stands in a directory which is still to be read stands in the
/// root.
spec fn belongs(root: Node, unmanaged: Seq<Seq<char>>, item: (Seq<char>, Node)) -> bool {
    &&& item.1 is Directory
    &&& forall|path: Seq<char>, there: Node|
        stands_at(item.1, item.0, unmanaged, path, there) ==> #[trigger] stands_at(
            root,
            ""@,
            unmanaged,
            path,
            there,
        )
}

proof fn lemma_kept_nodes_belong(
    root: Node,
    dir: Seq<char>,
    node: Node,
    list: Seq<EntryView>,
    unmanaged: Seq<Seq<char>>,
)
    requires
        belongs(root, unmanaged, (dir, node)),
        lists_entries(list, node),
    ensures
        forall|k: int|
            0 <= k < kept_nodes(dir, list, node, unmanaged).len() ==> belongs(
                root,
                unmanaged,
                #[trigger] kept_nodes(dir, list, node, unmanaged)[k],
            ),
{
    let nodes = kept_nodes(dir, list, node, unmanaged);
    lemma_kept_nodes(dir, list, node, unmanaged);
    assert forall|k: int| 0 <= k < nodes.len() implies belongs(
        root,
        unmanaged,
        #[trigger] nodes[k],
    ) by {
        assert(is_kept_dir(dir, list, node, unmanaged, nodes[k]));
        let i = choose|i: int|
            0 <= i < list.len() && (#[trigger] list[i]).kind == Kind::Directory && !excluded(
                path_join(dir, list[i].name),
                unmanaged,
            ) && nodes[k] == (path_join(dir, list[i].name), inside(node)[list[i].name]);
        let name = list[i].name;
        assert(inside(node).dom().contains(name));
        assert forall|path: Seq<char>, there: Node|
            stands_at(nodes[k].1, nodes[k].0, unmanaged, path, there) implies #[trigger] stands_at(
            root,
            ""@,
            unmanaged,
            path,
            there,
        ) by {
            assert(stands_at(node, dir, unmanaged, path, there));
        }
    }
}

proof fn lemma_capture_runs(
    root: Node,
    pending: Seq<(Seq<char>, Node)>,
    found: Seq<CapturedView>,
    listings: Seq<Seq<Listed>>,
    unmanaged: Seq<Seq<char>>,
    all: Seq<CapturedView>,
)
    requires
        forall|i: int| 0 <= i < pending.len() ==> belongs(root, unmanaged, #[trigger] pending[i]),
        forall|i: int|
            0 <= i < found.len() ==> recorded(
                root,
                unmanaged,
                (#[trigger] found[i]).path,
                found[i].meta,
            ),
        capture_runs(pending, found, listings, unmanaged, all),
    ensures
        covered(found_paths(all), Seq::empty(), unmanaged) == covered(
            found_paths(found),
            pending,
            unmanaged,
        ),
        forall|i: int|
            0 <= i < all.len() ==> recorded(root, unmanaged, (#[trigger] all[i]).path, all[i].meta),
    decreases listings.len(),
{
    if pending.len() == 0 {
        assert(pending =~= Seq::empty());
    } else {
        let (dir, node) = pending.last();
        let list = listings[0];
        let views = entry_views(list);
        let front = pending.drop_last();
        let nodes = kept_nodes(dir, views, node, unmanaged);
        let metas = kept_metas(dir, list, unmanaged);
        assert(belongs(root, unmanaged, pending[pending.len() - 1]));
        lemma_capture_walks(dir, list, node, unmanaged);
        lemma_walk_step(found_paths(found), front, dir, node, views, unmanaged);
        assert(front.push((dir, node)) =~= pending);
        assert(found_paths(found + metas) =~= found_paths(found) + kept_paths(
            dir,
            views,
            unmanaged,
        )) by {
            assert(found_paths(found + metas) =~= found_paths(found) + found_paths(metas));
        }
        lemma_kept_nodes_belong(root, dir, node, views, unmanaged);
        assert forall|i: int| 0 <= i < (front + nodes).len() implies belongs(
            root,
            unmanaged,
            #[trigger] (front + nodes)[i],
        ) by {
            if i < front.len() {
                assert((front + nodes)[i] == pending[i]);
            } else {
                assert((front + nodes)[i] == nodes[i - front.len()]);
            }
        }
        lemma_kept_metas_recorded(dir, node, list, list, unmanaged);
        assert forall|i: int| 0 <= i < (found + metas).len() implies recorded(
            root,
            unmanaged,
            (#[trigger] (found + metas)[i]).path,
            (found + metas)[i].meta,
        ) by {
            if i < found.len() {
                assert((found + metas)[i] == found[i]);
            } else {
                let item = metas[i - found.len()];
                assert((found + metas)[i] == item);
                let there = choose|there: Node|
                    stands_at(node, dir, unmanaged, item.path, there) && meta_shows(
                        item.meta,
                        there,
                    );
                assert(stands_at(root, ""@, unmanaged, item.path, there));
            }
        }
        lemma_capture_runs(root, front + nodes, found + metas, listings.skip(1), unmanaged, all);
    }
}

/// A capture that starts at the root and runs to its end records exactly the
/// paths of the tree that take part, and of each what the tree has there.
pub proof fn lemma_capture_is_complete(
    root: Node,
    listings: Seq<Seq<Listed>>,
    unmanaged: Seq<Seq<char>>,
    entries: Seq<Captured>,
    done: Seq<Captured>,
)
    requires
        root is Directory,
        capture_runs(seq![(""@, root)], Seq::empty(), listings, unmanaged, captures(entries)),
        is_sorted_unique(entries.reverse(), done),
    ensures
        forall|path: Seq<char>|
            match #[trigger] meta_at(done, path) {
                Some(meta) => visible(root, ""@, unmanaged).contains(path) && recorded(
                    root,
                    unmanaged,
                    path,
                    meta,
                ),
                None => !visible(root, ""@, unmanaged).contains(path),
            },
{
    let start = seq![(""@, root)];
    let all = captures(entries);
    assert(belongs(root, unmanaged, start[0]));
    lemma_capture_runs(root, start, Seq::empty(), listings, unmanaged, all);
    assert(found_paths(Seq::<CapturedView>::empty()) =~= Seq::empty());
    lemma_walk_ends(root, found_paths(all), unmanaged);
    let turned = entries.reverse();
    assert forall|path: Seq<char>|
        match #[trigger] meta_at(done, path) {
            Some(meta) => visible(root, ""@, unmanaged).contains(path) && recorded(
                root,
                unmanaged,
                path,
                meta,
            ),
            None => !visible(root, ""@, unmanaged).contains(path),
        } by {
        lemma_meta_at_iff_listed(done, path);
        match meta_at(done, path) {
            Some(meta) => {
                lemma_meta_at_listed(done, path);
                let i = choose|i: int|
                    0 <= i < done.len() && (#[trigger] done[i]).path@ == path && done[i].meta@
                        == meta;
                lemma_first_with_rank(turned, done[i].rank());
                let j = choose|j: int|
                    0 <= j < turned.len() && #[trigger] turned[j] == with_rank(
                        turned,
                        done[i].rank(),
                    )[0];
                let k = entries.len() - 1 - j;
                assert(entries[k] == done[i]);
                assert(all[k].path == path);
                assert(found_paths(all)[k] == path);
                assert(found_paths(all).contains(path));
                assert(recorded(root, unmanaged, all[k].path, all[k].meta));
            },
            None => {
                if visible(root, ""@, unmanaged).contains(path) {
                    assert(found_paths(all).contains(path));
                    let k = choose|k: int|
                        0 <= k < found_paths(all).len() && found_paths(all)[k] == path;
                    let j = entries.len() - 1 - k;
                    assert(turned[j] == entries[k]);
                    let i = choose|i: int|
                        0 <= i < done.len() && (#[trigger] done[i]).rank() == turned[j].rank();
                    lemma_text_rank_injective(done[i].path@, path);
                    assert(paths_of(done)[i] == path);
                }
            },
        }
    }
}

} // verus!
