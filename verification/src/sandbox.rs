//! The session workspace and the repository side by side: which paths take
//! part, what differs, and how one tree is mirrored into the other.

use crate::paths::{
    any_matches, components, components_of, excluded, is_excluded, join_path, matches_any,
    path_join, patterns_usable, paths_in_order, sort_paths,
};
use crate::text::{cat2, cat3, lemma_texts_push, lists, same_text, texts};
use vstd::prelude::*;

verus! {

/// Patterns that can be matched against any path: each has a component.
pub open spec fn usable(patterns: Seq<Seq<char>>) -> bool {
    forall|i: int| 0 <= i < patterns.len() ==> components_of(#[trigger] patterns[i]).len() > 0
}

/// Whether every pattern has a component.
pub fn patterns_have_parts(patterns: &[String]) -> (r: bool)
    ensures
        r == usable(texts(patterns@)),
{
    let ghost all = texts(patterns@);
    let mut i: usize = 0;
    while i < patterns.len()
        invariant
            i <= patterns@.len(),
            all == texts(patterns@),
            forall|j: int| 0 <= j < i ==> components_of(#[trigger] all[j]).len() > 0,
        decreases patterns@.len() - i,
    {
        let parts = components(patterns[i].as_str());
        if parts.len() == 0 {
            assert(components_of(all[i as int]).len() == 0);
            return false;
        }
        i += 1;
    }
    true
}

proof fn lemma_usable_everywhere(patterns: Seq<Seq<char>>, path: Seq<char>)
    requires
        usable(patterns),
    ensures
        patterns_usable(path, patterns),
{
}

/// What a directory entry is, without following links.
#[derive(Clone, Copy, PartialEq, Eq, Structural)]
pub enum Kind {
    File,
    Directory,
    Link,
    /// A socket, a device or the like.
    Special,
}

/// One entry of a directory.
pub struct Entry {
    pub name: String,
    pub kind: Kind,
}

pub struct EntryView {
    pub name: Seq<char>,
    pub kind: Kind,
}

impl View for Entry {
    type V = EntryView;

    open spec fn view(&self) -> EntryView {
        EntryView { name: self.name@, kind: self.kind }
    }
}

pub open spec fn entries(list: Seq<Entry>) -> Seq<EntryView> {
    Seq::new(list.len(), |i: int| list[i]@)
}

/// The paths of those entries of the directory `dir` that take part.
pub open spec fn kept_paths(
    dir: Seq<char>,
    list: Seq<EntryView>,
    unmanaged: Seq<Seq<char>>,
) -> Seq<Seq<char>>
    decreases list.len(),
{
    if list.len() == 0 {
        Seq::empty()
    } else {
        let before = kept_paths(dir, list.drop_last(), unmanaged);
        let child = path_join(dir, list.last().name);
        if excluded(child, unmanaged) {
            before
        } else {
            before.push(child)
        }
    }
}

/// The paths of those directories in `dir` that take part.
pub open spec fn kept_dirs(
    dir: Seq<char>,
    list: Seq<EntryView>,
    unmanaged: Seq<Seq<char>>,
) -> Seq<Seq<char>>
    decreases list.len(),
{
    if list.len() == 0 {
        Seq::empty()
    } else {
        let before = kept_dirs(dir, list.drop_last(), unmanaged);
        let child = path_join(dir, list.last().name);
        if excluded(child, unmanaged) || list.last().kind != Kind::Directory {
            before
        } else {
            before.push(child)
        }
    }
}

/// A walk through a tree, directory by directory: what was found, and which
/// directories are still to be read.
pub struct Walk {
    pub pending: Vec<String>,
    pub found: Vec<String>,
}

impl Walk {
    /// A walk that starts at the root of a tree.
    pub fn start() -> (r: Walk)
        ensures
            texts(r.pending@) == seq![""@],
            r.found@.len() == 0,
    {
        let walk = Walk { pending: vec!["".to_owned()], found: Vec::new() };
        assert(texts(walk.pending@) =~= seq![""@]);
        walk
    }

    /// The directory to read next, if any is left.
    pub fn next(&mut self) -> (r: Option<String>)
        ensures
            final(self).found == old(self).found,
            (match r {
                Some(dir) => texts(old(self).pending@) == texts(final(self).pending@).push(dir@),
                None => old(self).pending@.len() == 0 && final(self).pending@.len() == 0,
            }),
    {
        let ghost before = self.pending@;
        let next = self.pending.pop();
        proof {
            if before.len() > 0 {
                assert(texts(before) =~= texts(self.pending@).push(before.last()@));
            }
        }
        next
    }

    /// Takes in the entries of `dir`.
    pub fn record(&mut self, dir: &str, list: &Vec<Entry>, unmanaged: &[String])
        requires
            usable(texts(unmanaged@)),
        ensures
            texts(final(self).found@) == texts(old(self).found@) + kept_paths(
                dir@,
                entries(list@),
                texts(unmanaged@),
            ),
            texts(final(self).pending@) == texts(old(self).pending@) + kept_dirs(
                dir@,
                entries(list@),
                texts(unmanaged@),
            ),
    {
        let ghost all = entries(list@);
        let ghost found = texts(self.found@);
        let ghost pending = texts(self.pending@);
        let ghost patterns = texts(unmanaged@);
        let mut i: usize = 0;
        assert(all.take(0) =~= Seq::empty());
        assert(found + Seq::<Seq<char>>::empty() =~= found);
        assert(pending + Seq::<Seq<char>>::empty() =~= pending);
        while i < list.len()
            invariant
                i <= list@.len(),
                all == entries(list@),
                patterns == texts(unmanaged@),
                usable(patterns),
                texts(self.found@) == found + kept_paths(dir@, all.take(i as int), patterns),
                texts(self.pending@) == pending + kept_dirs(dir@, all.take(i as int), patterns),
            decreases list@.len() - i,
        {
            broadcast use lemma_texts_push;

            proof {
                assert(all.take(i + 1).drop_last() =~= all.take(i as int));
                assert(all.take(i + 1).last() == list@[i as int]@);
            }
            let ghost paths = kept_paths(dir@, all.take(i as int), patterns);
            let ghost dirs = kept_dirs(dir@, all.take(i as int), patterns);
            let child = join_path(dir, list[i].name.as_str());
            proof {
                lemma_usable_everywhere(patterns, child@);
                assert((found + paths).push(child@) =~= found + paths.push(child@));
                assert((pending + dirs).push(child@) =~= pending + dirs.push(child@));
            }
            if !is_excluded(child.as_str(), unmanaged) {
                if list[i].kind == Kind::Directory {
                    self.pending.push(child.clone());
                }
                self.found.push(child);
            }
            i += 1;
        }
        assert(all.take(i as int) =~= all);
    }
}

/// The paths that are compared: those found on either side, in order, each
/// once.
pub fn candidates(source: Vec<String>, sandbox: Vec<String>) -> (r: Vec<String>)
    ensures
        paths_in_order(texts(source@) + texts(sandbox@), texts(r@)),
{
    let ghost left = texts(source@);
    let ghost right = texts(sandbox@);
    let mut all = source;
    let mut more = sandbox;
    all.append(&mut more);
    assert(texts(all@) =~= left + right);
    sort_paths(all)
}

/// What is at a path on one side, without following links.
pub enum Look {
    /// There is nothing.
    Missing,
    /// It could not be looked at.
    Unreadable,
    Link(String),
    Directory,
    File(Vec<u8>),
    Special,
}

pub enum LookView {
    Missing,
    Unreadable,
    Link(Seq<char>),
    Directory,
    File(Seq<u8>),
    Special,
}

impl View for Look {
    type V = LookView;

    open spec fn view(&self) -> LookView {
        match self {
            Look::Missing => LookView::Missing,
            Look::Unreadable => LookView::Unreadable,
            Look::Link(target) => LookView::Link(target@),
            Look::Directory => LookView::Directory,
            Look::File(content) => LookView::File(content@),
            Look::Special => LookView::Special,
        }
    }
}

/// Both sides hold the same: links to one target, directories, files of one
/// content, or nothing.
pub open spec fn same_look(first: LookView, second: LookView) -> bool {
    match (first, second) {
        (LookView::Link(a), LookView::Link(b)) => a == b,
        (LookView::Directory, LookView::Directory) => true,
        (LookView::File(a), LookView::File(b)) => a == b,
        (LookView::Missing, LookView::Missing) => true,
        _ => false,
    }
}

fn same_bytes(first: &Vec<u8>, second: &Vec<u8>) -> (r: bool)
    ensures
        r == (first@ == second@),
{
    if first.len() != second.len() {
        return false;
    }
    let mut i: usize = 0;
    while i < first.len()
        invariant
            first@.len() == second@.len(),
            i <= first@.len(),
            forall|j: int| 0 <= j < i ==> first@[j] == second@[j],
        decreases first@.len() - i,
    {
        if first[i] != second[i] {
            return false;
        }
        i += 1;
    }
    assert(first@ =~= second@);
    true
}

/// Whether both sides hold the same.
pub fn same_file(first: &Look, second: &Look) -> (r: bool)
    ensures
        r == same_look(first@, second@),
{
    match (first, second) {
        (Look::Link(a), Look::Link(b)) => same_text(a.as_str(), b.as_str()),
        (Look::Directory, Look::Directory) => true,
        (Look::File(a), Look::File(b)) => same_bytes(a, b),
        (Look::Missing, Look::Missing) => true,
        _ => false,
    }
}

/// An entry of the destination goes where it takes part and the source has
/// nothing of that name.
pub open spec fn goes(
    dir: Seq<char>,
    name: Seq<char>,
    in_source: bool,
    unmanaged: Seq<Seq<char>>,
) -> bool {
    !excluded(path_join(dir, name), unmanaged) && !in_source
}

/// An entry of the destination, and whether the source has something of that
/// name when links are followed.
pub struct Counterpart {
    pub name: String,
    pub in_source: bool,
}

pub open spec fn removed_names(
    dir: Seq<char>,
    list: Seq<Counterpart>,
    unmanaged: Seq<Seq<char>>,
) -> Seq<Seq<char>>
    decreases list.len(),
{
    if list.len() == 0 {
        Seq::empty()
    } else {
        let before = removed_names(dir, list.drop_last(), unmanaged);
        if goes(dir, list.last().name@, list.last().in_source, unmanaged) {
            before.push(list.last().name@)
        } else {
            before
        }
    }
}

/// The entries of the destination directory `dir` that have to go before the
/// source is mirrored into it.
pub fn removals(dir: &str, list: &Vec<Counterpart>, unmanaged: &[String]) -> (r: Vec<String>)
    requires
        usable(texts(unmanaged@)),
    ensures
        texts(r@) == removed_names(dir@, list@, texts(unmanaged@)),
{
    let ghost patterns = texts(unmanaged@);
    let mut out: Vec<String> = Vec::new();
    let mut i: usize = 0;
    assert(list@.take(0) =~= Seq::empty());
    assert(texts(out@) =~= Seq::empty());
    while i < list.len()
        invariant
            i <= list@.len(),
            patterns == texts(unmanaged@),
            usable(patterns),
            texts(out@) == removed_names(dir@, list@.take(i as int), patterns),
        decreases list@.len() - i,
    {
        broadcast use lemma_texts_push;

        proof {
            assert(list@.take(i + 1).drop_last() =~= list@.take(i as int));
            assert(list@.take(i + 1).last() == list@[i as int]);
        }
        let child = join_path(dir, list[i].name.as_str());
        proof {
            lemma_usable_everywhere(patterns, child@);
        }
        if !is_excluded(child.as_str(), unmanaged) && !list[i].in_source {
            out.push(list[i].name.clone());
        }
        i += 1;
    }
    assert(list@.take(i as int) =~= list@);
    out
}

/// What is done in the destination for one entry of the source.
#[derive(Clone, Copy, PartialEq, Eq, Structural)]
pub enum Placement {
    /// Make the directory and mirror into it.
    Descend,
    /// Copy the file over whatever file is there.
    CopyFile,
    /// Make a link to the same target.
    MakeLink,
    /// A special file is passed over, with a warning.
    Skip,
}

pub open spec fn placement_for(kind: Kind) -> Placement {
    match kind {
        Kind::Directory => Placement::Descend,
        Kind::File => Placement::CopyFile,
        Kind::Link => Placement::MakeLink,
        Kind::Special => Placement::Skip,
    }
}

/// What becomes of one entry that is not a directory.
pub fn placement(kind: Kind) -> (r: Placement)
    ensures
        r == placement_for(kind),
{
    match kind {
        Kind::Directory => Placement::Descend,
        Kind::File => Placement::CopyFile,
        Kind::Link => Placement::MakeLink,
        Kind::Special => Placement::Skip,
    }
}

pub open spec fn placed(
    dir: Seq<char>,
    list: Seq<EntryView>,
    unmanaged: Seq<Seq<char>>,
) -> Seq<(Seq<char>, Placement)>
    decreases list.len(),
{
    if list.len() == 0 {
        Seq::empty()
    } else {
        let before = placed(dir, list.drop_last(), unmanaged);
        if excluded(path_join(dir, list.last().name), unmanaged) {
            before
        } else {
            before.push((list.last().name, placement_for(list.last().kind)))
        }
    }
}

pub open spec fn placement_views(list: Seq<(String, Placement)>) -> Seq<(Seq<char>, Placement)> {
    Seq::new(list.len(), |i: int| (list[i].0@, list[i].1))
}

/// What is done in the destination directory `dir` for the entries of the
/// source, in their order.
pub fn placements(dir: &str, list: &Vec<Entry>, unmanaged: &[String]) -> (r: Vec<
    (String, Placement),
>)
    requires
        usable(texts(unmanaged@)),
    ensures
        placement_views(r@) == placed(dir@, entries(list@), texts(unmanaged@)),
{
    let ghost all = entries(list@);
    let ghost patterns = texts(unmanaged@);
    let mut out: Vec<(String, Placement)> = Vec::new();
    let mut i: usize = 0;
    assert(all.take(0) =~= Seq::empty());
    assert(placement_views(out@) =~= Seq::empty());
    while i < list.len()
        invariant
            i <= list@.len(),
            all == entries(list@),
            patterns == texts(unmanaged@),
            usable(patterns),
            placement_views(out@) == placed(dir@, all.take(i as int), patterns),
        decreases list@.len() - i,
    {
        proof {
            assert(all.take(i + 1).drop_last() =~= all.take(i as int));
            assert(all.take(i + 1).last() == list@[i as int]@);
        }
        let ghost before = out@;
        let child = join_path(dir, list[i].name.as_str());
        proof {
            lemma_usable_everywhere(patterns, child@);
        }
        if !is_excluded(child.as_str(), unmanaged) {
            let item = (list[i].name.clone(), placement(list[i].kind));
            out.push(item);
            assert(placement_views(out@) =~= placement_views(before).push((item.0@, item.1)));
        }
        i += 1;
    }
    assert(all.take(i as int) =~= all);
    out
}

/// The plan for a directory touches nothing that does not take part.
pub proof fn lemma_plan_spares_unmanaged(
    dir: Seq<char>,
    there: Seq<Counterpart>,
    source: Seq<EntryView>,
    unmanaged: Seq<Seq<char>>,
)
    ensures
        forall|i: int|
            0 <= i < removed_names(dir, there, unmanaged).len() ==> !excluded(
                path_join(dir, #[trigger] removed_names(dir, there, unmanaged)[i]),
                unmanaged,
            ),
        forall|i: int|
            0 <= i < placed(dir, source, unmanaged).len() ==> !excluded(
                path_join(dir, (#[trigger] placed(dir, source, unmanaged)[i]).0),
                unmanaged,
            ),
    decreases there.len(), source.len(),
{
    if there.len() > 0 {
        lemma_plan_spares_unmanaged(dir, there.drop_last(), source, unmanaged);
        let before = removed_names(dir, there.drop_last(), unmanaged);
        let all = removed_names(dir, there, unmanaged);
        assert forall|i: int| 0 <= i < all.len() implies !excluded(
            path_join(dir, #[trigger] all[i]),
            unmanaged,
        ) by {
            if i < before.len() {
                assert(all[i] == before[i]);
            }
        }
    } else if source.len() > 0 {
        lemma_plan_spares_unmanaged(dir, there, source.drop_last(), unmanaged);
        let before = placed(dir, source.drop_last(), unmanaged);
        let all = placed(dir, source, unmanaged);
        assert forall|i: int| 0 <= i < all.len() implies !excluded(
            path_join(dir, (#[trigger] all[i]).0),
            unmanaged,
        ) by {
            if i < before.len() {
                assert(all[i] == before[i]);
            }
        }
    }
}

/// The words about a special file that is passed over.
pub fn special_file_warning(path: &str) -> (r: String)
    ensures
        r@ == "warning: skipping special file "@ + path@,
{
    cat2("warning: skipping special file ", path)
}

/// How a path is taken away: a directory with all that is in it, anything
/// else by itself.
pub fn removes_whole_tree(kind: Kind) -> (r: bool)
    ensures
        r == (kind == Kind::Directory),
{
    kind == Kind::Directory
}

/// The name under which a file is written before it replaces `file_name`.
pub fn temporary_name(file_name: &str) -> (r: String)
    ensures
        r@ == "."@ + file_name@ + ".pithos-tmp"@,
{
    cat3(".", file_name, ".pithos-tmp")
}

/// How old an abandoned workspace must be before it is swept, in seconds.
pub const ORPHAN_MIN_AGE_SECONDS: u64 = 3600;

/// Whether a directory of past sessions is swept: one that no session uses
/// and that was not touched of late. `age` is unknown where the file system
/// does not tell.
pub fn is_orphan(is_directory: bool, path: &str, live: &[String], age: Option<u64>) -> (r: bool)
    ensures
        r == (is_directory && !texts(live@).contains(path@) && (age is None || age->Some_0
            >= ORPHAN_MIN_AGE_SECONDS)),
{
    let old_enough = match age {
        Some(seconds) => seconds >= ORPHAN_MIN_AGE_SECONDS,
        None => true,
    };
    is_directory && !lists(live, path) && old_enough
}

/// The directory below which workspaces live.
pub fn temporary_base(data_dir: Option<&String>) -> (r: Result<String, String>)
    ensures
        (match data_dir {
            Some(dir) => r is Ok && r->Ok_0@ == path_join(path_join(dir@, "pithos"@), "tmp"@),
            None => r is Err && r->Err_0@ == "cannot determine data directory"@,
        }),
{
    match data_dir {
        Some(dir) => {
            let base = join_path(dir.as_str(), "pithos");
            Ok(join_path(base.as_str(), "tmp"))
        },
        None => Err("cannot determine data directory".to_owned()),
    }
}

/// The entries of a directory that a plain copy takes: directories to go
/// into, and everything else.
pub open spec fn copied(
    dir: Seq<char>,
    list: Seq<EntryView>,
    ignore: Seq<Seq<char>>,
    directories: bool,
) -> Seq<Seq<char>>
    decreases list.len(),
{
    if list.len() == 0 {
        Seq::empty()
    } else {
        let before = copied(dir, list.drop_last(), ignore, directories);
        if any_matches(path_join(dir, list.last().name), ignore) || directories != (
        list.last().kind == Kind::Directory) {
            before
        } else {
            before.push(list.last().name)
        }
    }
}

/// The files and the directories in `dir` that a copy takes along.
pub struct CopyLevel {
    pub files: Vec<String>,
    pub directories: Vec<String>,
}

/// Parts the entries of a directory for a copy. What a pattern matches stays
/// behind; the repository's own data goes along.
pub fn copy_level(dir: &str, list: &Vec<Entry>, ignore: &[String]) -> (r: CopyLevel)
    requires
        usable(texts(ignore@)),
    ensures
        texts(r.files@) == copied(dir@, entries(list@), texts(ignore@), false),
        texts(r.directories@) == copied(dir@, entries(list@), texts(ignore@), true),
{
    let ghost all = entries(list@);
    let ghost patterns = texts(ignore@);
    let mut files: Vec<String> = Vec::new();
    let mut directories: Vec<String> = Vec::new();
    let mut i: usize = 0;
    assert(all.take(0) =~= Seq::empty());
    assert(texts(files@) =~= Seq::empty());
    assert(texts(directories@) =~= Seq::empty());
    while i < list.len()
        invariant
            i <= list@.len(),
            all == entries(list@),
            patterns == texts(ignore@),
            usable(patterns),
            texts(files@) == copied(dir@, all.take(i as int), patterns, false),
            texts(directories@) == copied(dir@, all.take(i as int), patterns, true),
        decreases list@.len() - i,
    {
        broadcast use lemma_texts_push;

        proof {
            assert(all.take(i + 1).drop_last() =~= all.take(i as int));
            assert(all.take(i + 1).last() == list@[i as int]@);
        }
        let child = join_path(dir, list[i].name.as_str());
        proof {
            lemma_usable_everywhere(patterns, child@);
        }
        if !matches_any(child.as_str(), ignore) {
            if list[i].kind == Kind::Directory {
                directories.push(list[i].name.clone());
            } else {
                files.push(list[i].name.clone());
            }
        }
        i += 1;
    }
    assert(all.take(i as int) =~= all);
    CopyLevel { files, directories }
}

/// What a copy of a tree amounted to.
#[derive(Clone, Copy)]
pub struct CopyStats {
    pub files: u64,
    pub cloned: u64,
    pub symlinks: u64,
    pub directories: u64,
    pub bytes: u64,
}

/// What was made of one entry that is not a directory.
#[derive(Clone, Copy)]
pub enum CopiedEntry {
    File { bytes: u64, reflinked: bool },
    Symlink,
}

impl CopyStats {
    /// Nothing copied but one directory.
    pub fn one_directory() -> (r: CopyStats)
        ensures
            r == (CopyStats { files: 0, cloned: 0, symlinks: 0, directories: 1, bytes: 0 }),
    {
        CopyStats { files: 0, cloned: 0, symlinks: 0, directories: 1, bytes: 0 }
    }

    /// Each count has room for that of `other`.
    pub open spec fn has_room_for(&self, other: CopyStats) -> bool {
        &&& self.files + other.files <= u64::MAX
        &&& self.cloned + other.cloned <= u64::MAX
        &&& self.symlinks + other.symlinks <= u64::MAX
        &&& self.directories + other.directories <= u64::MAX
        &&& self.bytes + other.bytes <= u64::MAX
    }

    /// Whether each count has room for that of `other`.
    pub fn can_merge(&self, other: &CopyStats) -> (r: bool)
        ensures
            r == self.has_room_for(*other),
    {
        self.files <= u64::MAX - other.files && self.cloned <= u64::MAX - other.cloned
            && self.symlinks <= u64::MAX - other.symlinks && self.directories <= u64::MAX
            - other.directories && self.bytes <= u64::MAX - other.bytes
    }

    /// Adds another count to this one.
    pub fn merge(&mut self, other: CopyStats)
        requires
            old(self).has_room_for(other),
        ensures
            final(self).files == old(self).files + other.files,
            final(self).cloned == old(self).cloned + other.cloned,
            final(self).symlinks == old(self).symlinks + other.symlinks,
            final(self).directories == old(self).directories + other.directories,
            final(self).bytes == old(self).bytes + other.bytes,
    {
        self.files = self.files + other.files;
        self.cloned = self.cloned + other.cloned;
        self.symlinks = self.symlinks + other.symlinks;
        self.directories = self.directories + other.directories;
        self.bytes = self.bytes + other.bytes;
    }

    /// Counts one entry.
    pub fn record_entry(&mut self, entry: CopiedEntry)
        requires
            old(self).has_room_for(one_entry(entry)),
        ensures
            final(self).files == old(self).files + one_entry(entry).files,
            final(self).cloned == old(self).cloned + one_entry(entry).cloned,
            final(self).symlinks == old(self).symlinks + one_entry(entry).symlinks,
            final(self).directories == old(self).directories,
            final(self).bytes == old(self).bytes + one_entry(entry).bytes,
    {
        match entry {
            CopiedEntry::File { bytes, reflinked } => {
                self.files = self.files + 1;
                self.bytes = self.bytes + bytes;
                if reflinked {
                    self.cloned = self.cloned + 1;
                }
            },
            CopiedEntry::Symlink => {
                self.symlinks = self.symlinks + 1;
            },
        }
    }
}

/// The count of one entry.
pub open spec fn one_entry(entry: CopiedEntry) -> CopyStats {
    match entry {
        CopiedEntry::File { bytes, reflinked } => CopyStats {
            files: 1,
            cloned: if reflinked {
                1
            } else {
                0
            },
            symlinks: 0,
            directories: 0,
            bytes,
        },
        CopiedEntry::Symlink => CopyStats {
            files: 0,
            cloned: 0,
            symlinks: 1,
            directories: 0,
            bytes: 0,
        },
    }
}

/// The count of one entry, as a count of its own.
pub fn count_of(entry: CopiedEntry) -> (r: CopyStats)
    ensures
        r == one_entry(entry),
{
    match entry {
        CopiedEntry::File { bytes, reflinked } => CopyStats {
            files: 1,
            cloned: if reflinked {
                1
            } else {
                0
            },
            symlinks: 0,
            directories: 0,
            bytes,
        },
        CopiedEntry::Symlink => CopyStats {
            files: 0,
            cloned: 0,
            symlinks: 1,
            directories: 0,
            bytes: 0,
        },
    }
}

} // verus!
