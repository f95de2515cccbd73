use std::collections::BTreeMap;

use pithos::paths::{
    components, directories_above, ends_in, extension, file_name, file_stem, is_absolute,
    is_excluded, join_path, matches_any, sort_paths, starts_with_path,
};
use pithos::sandbox::{
    candidates, copy_level, is_orphan, patterns_have_parts, placements, removals,
    removes_whole_tree, same_file, special_file_warning, temporary_base, temporary_name,
    CopiedEntry, CopyStats, Counterpart, Entry, Kind, Look, Placement, Walk,
};

fn words(list: &[&str]) -> Vec<String> {
    list.iter().map(|word| word.to_string()).collect()
}

/// A tree of files and links by path; a directory is there while it has
/// something in it.
#[derive(Clone, PartialEq, Eq, Debug)]
struct Tree {
    leaves: BTreeMap<String, Leaf>,
}

#[derive(Clone, PartialEq, Eq, Debug)]
enum Leaf {
    File(String),
    Link(String),
}

impl Tree {
    fn of(files: &[(&str, &str)]) -> Tree {
        let leaves = files
            .iter()
            .map(|(path, text)| (path.to_string(), Leaf::File(text.to_string())))
            .collect();
        Tree { leaves }
    }

    fn link(mut self, path: &str, target: &str) -> Tree {
        self.leaves.insert(path.to_string(), Leaf::Link(target.to_string()));
        self
    }

    fn list(&self, dir: &str) -> Vec<Entry> {
        let prefix = if dir.is_empty() { String::new() } else { format!("{dir}/") };
        let mut found: BTreeMap<String, Kind> = BTreeMap::new();
        for (path, leaf) in &self.leaves {
            if let Some(rest) = path.strip_prefix(&prefix) {
                match rest.split_once('/') {
                    Some((name, _)) => found.insert(name.to_string(), Kind::Directory),
                    None => found.insert(
                        rest.to_string(),
                        match leaf {
                            Leaf::File(_) => Kind::File,
                            Leaf::Link(_) => Kind::Link,
                        },
                    ),
                };
            }
        }
        found.into_iter().map(|(name, kind)| Entry { name, kind }).collect()
    }

    fn holds(&self, path: &str) -> bool {
        !matches!(self.look(path), Look::Missing)
    }

    fn look(&self, path: &str) -> Look {
        match self.leaves.get(path) {
            Some(Leaf::File(text)) => Look::File(text.as_bytes().to_vec()),
            Some(Leaf::Link(target)) => Look::Link(target.clone()),
            None => {
                let prefix = format!("{path}/");
                if self.leaves.keys().any(|other| other.starts_with(&prefix)) {
                    Look::Directory
                } else {
                    Look::Missing
                }
            }
        }
    }

    fn remove(&mut self, path: &str) {
        let prefix = format!("{path}/");
        self.leaves.retain(|other, _| other != path && !other.starts_with(&prefix));
    }
}

fn walked(tree: &Tree, unmanaged: &[String]) -> Vec<String> {
    let mut walk = Walk::start();
    while let Some(dir) = walk.next() {
        walk.record(&dir, &tree.list(&dir), unmanaged);
    }
    walk.found
}

fn has_changes(host: &Tree, sandbox: &Tree, unmanaged: &[String]) -> Vec<String> {
    assert!(patterns_have_parts(unmanaged));
    candidates(walked(host, unmanaged), walked(sandbox, unmanaged))
        .into_iter()
        .filter(|path| !same_file(&host.look(path), &sandbox.look(path)))
        .collect()
}

fn apply_level(sandbox: &Tree, host: &mut Tree, dir: &str, unmanaged: &[String]) {
    let there: Vec<Counterpart> = host
        .list(dir)
        .into_iter()
        .map(|entry| Counterpart {
            in_source: sandbox.holds(&join_path(dir, &entry.name)),
            name: entry.name,
        })
        .collect();
    for name in removals(dir, &there, unmanaged) {
        host.remove(&join_path(dir, &name));
    }
    for (name, placement) in placements(dir, &sandbox.list(dir), unmanaged) {
        let path = join_path(dir, &name);
        match placement {
            Placement::Descend => apply_level(sandbox, host, &path, unmanaged),
            Placement::CopyFile | Placement::MakeLink => {
                host.leaves.insert(path.clone(), sandbox.leaves[&path].clone());
            }
            Placement::Skip => {}
        }
    }
}

fn apply_tree(sandbox: &Tree, host: &mut Tree, unmanaged: &[String]) {
    apply_level(sandbox, host, "", unmanaged);
}

fn copy_at(source: &Tree, into: &mut Tree, dir: &str, ignore: &[String]) {
    let level = copy_level(dir, &source.list(dir), ignore);
    for name in level.files {
        let path = join_path(dir, &name);
        into.leaves.insert(path.clone(), source.leaves[&path].clone());
    }
    for name in level.directories {
        copy_at(source, into, &join_path(dir, &name), ignore);
    }
}

fn copy_tree(source: &Tree, ignore: &[String]) -> Tree {
    let mut copy = Tree::of(&[]);
    copy_at(source, &mut copy, "", ignore);
    copy
}

#[test]
fn copy_tree_preserves_files_dirs_and_symlinks() {
    let source = Tree::of(&[("root.txt", "root"), ("sub/nested.txt", "nested")])
        .link("link", "root.txt");
    let copy = copy_tree(&source, &[]);
    assert_eq!(copy, source);
    assert_eq!(copy.leaves["link"], Leaf::Link("root.txt".to_string()));
}

#[test]
fn copy_tree_skips_ignored_but_keeps_ephemeral() {
    let source = Tree::of(&[
        ("kept.txt", "kept"),
        ("ephemeral/cache.bin", "cache"),
        ("ignored/scratch.bin", "scratch"),
    ]);
    let copy = copy_tree(&source, &words(&["ignored"]));
    assert!(copy.holds("kept.txt"));
    assert!(copy.holds("ephemeral/cache.bin"));
    assert!(!copy.holds("ignored"));
}

#[test]
fn same_file_comparisons() {
    let first = Tree::of(&[
        ("equal.txt", "same"),
        ("different.txt", "one"),
        ("one-sided.txt", "only first"),
        ("dir/inside", ""),
    ])
    .link("same-link", "equal.txt")
    .link("other-link", "different.txt");
    let second =
        Tree::of(&[("equal.txt", "same"), ("different.txt", "two"), ("dir/other", "")])
            .link("same-link", "equal.txt")
            .link("other-link", "equal.txt");
    let same = |one: &str, other: &str| same_file(&first.look(one), &second.look(other));
    assert!(same("equal.txt", "equal.txt"));
    assert!(!same("different.txt", "different.txt"));
    assert!(same("missing.txt", "missing.txt"));
    assert!(same("dir", "dir"));
    assert!(same("same-link", "same-link"));
    assert!(!same("other-link", "other-link"));
    assert!(!same("one-sided.txt", "equal.txt"));
}

#[test]
fn has_changes_detects_add_modify_delete_and_unmanaged() {
    let host = Tree::of(&[
        ("modified.txt", "host"),
        ("unchanged.txt", "same"),
        ("deleted.txt", "gone"),
        ("unmanaged/config.txt", "secret"),
    ]);
    let sandbox = Tree::of(&[
        ("modified.txt", "sandbox"),
        ("unchanged.txt", "same"),
        ("unmanaged/config.txt", "also secret"),
        ("added.txt", "new"),
    ]);
    assert_eq!(
        has_changes(&host, &sandbox, &words(&["unmanaged"])),
        ["added.txt", "deleted.txt", "modified.txt"]
    );
}

#[test]
fn apply_tree_round_trip() {
    let mut host = Tree::of(&[
        ("keep.txt", "keep"),
        ("sub/modified.txt", "host"),
        ("sub/removed.txt", "remove me"),
    ])
    .link("removed-link", "keep.txt");
    let sandbox = Tree::of(&[
        ("keep.txt", "keep"),
        ("sub/modified.txt", "sandbox"),
        ("added.txt", "new"),
        ("sub/new/deep.txt", "deep"),
    ])
    .link("added-link", "added.txt");
    apply_tree(&sandbox, &mut host, &[]);
    assert_eq!(host, sandbox);
    assert!(has_changes(&host, &sandbox, &[]).is_empty());
}

#[test]
fn apply_tree_respects_unmanaged() {
    let mut host = Tree::of(&[("keep.txt", "host"), ("unmanaged/config.txt", "host secret")]);
    let sandbox = Tree::of(&[
        ("keep.txt", "sandbox"),
        ("unmanaged/config.txt", "sandbox secret"),
        ("added.txt", "new"),
    ]);
    apply_tree(&sandbox, &mut host, &words(&["unmanaged"]));
    assert_eq!(host.leaves["keep.txt"], Leaf::File("sandbox".to_string()));
    assert_eq!(
        host.leaves["unmanaged/config.txt"],
        Leaf::File("host secret".to_string())
    );
    assert_eq!(host.leaves["added.txt"], Leaf::File("new".to_string()));
}

#[test]
fn pull_applies_mirror_semantics_respecting_unmanaged() {
    let mut repo = Tree::of(&[
        ("modified.txt", "host"),
        ("removed.txt", "gone"),
        ("scratch/cache.txt", "host cache"),
    ]);
    let sandbox = Tree::of(&[
        ("modified.txt", "sandbox"),
        ("added.txt", "new"),
        ("scratch/cache.txt", "sandbox cache"),
    ]);
    let before = sandbox.clone();
    apply_tree(&sandbox, &mut repo, &words(&["scratch"]));
    assert_eq!(repo.leaves["modified.txt"], Leaf::File("sandbox".to_string()));
    assert_eq!(repo.leaves["added.txt"], Leaf::File("new".to_string()));
    assert!(!repo.holds("removed.txt"));
    assert_eq!(
        repo.leaves["scratch/cache.txt"],
        Leaf::File("host cache".to_string())
    );
    assert_eq!(sandbox, before);
}

#[test]
fn applying_twice_changes_nothing_more() {
    let mut host = Tree::of(&[("a", "1"), ("b/c", "2"), ("keep/d", "3")]);
    let sandbox = Tree::of(&[("a", "9"), ("e", "4")]);
    let unmanaged = words(&["keep"]);
    apply_tree(&sandbox, &mut host, &unmanaged);
    let once = host.clone();
    apply_tree(&sandbox, &mut host, &unmanaged);
    assert_eq!(host, once);
    assert_eq!(once.leaves["keep/d"], Leaf::File("3".to_string()));
}

#[test]
fn is_excluded_matches_exact_and_children() {
    let unmanaged = words(&[".git", "target"]);
    assert!(is_excluded(".git", &unmanaged));
    assert!(is_excluded(".git/HEAD", &unmanaged));
    assert!(is_excluded("target", &unmanaged));
    assert!(is_excluded("target/debug/pithos", &unmanaged));
    assert!(!is_excluded("src/main.rs", &unmanaged));
    assert!(!is_excluded(".github", &unmanaged));
    assert!(!is_excluded("targeting", &unmanaged));
}

#[test]
fn matches_any_matches_nested_paths() {
    let patterns = words(&["target"]);
    assert!(matches_any("long/ass/path/my/dude/target", &patterns));
    assert!(matches_any("compiler/target/debug/deep.o", &patterns));
    assert!(!matches_any("compiler/notarget/deep.o", &patterns));
    let nested = words(&["sub/cache"]);
    assert!(matches_any("sub/cache/data.bin", &nested));
    assert!(matches_any("deep/sub/cache/x", &nested));
    assert!(!matches_any("sub/caching/x", &nested));
}

#[test]
fn is_excluded_always_ignores_git_even_when_absent_from_list() {
    let unmanaged = words(&["target", ".serena"]);
    assert!(is_excluded(".git", &unmanaged));
    assert!(is_excluded(".git/objects/abc", &unmanaged));
}

#[test]
fn patterns_without_parts_are_told_apart() {
    assert!(patterns_have_parts(&words(&["target", "a/b"])));
    assert!(!patterns_have_parts(&words(&["target", ""])));
}

#[test]
fn special_files_are_passed_over_with_a_warning() {
    let entry = Entry { name: "socket".to_string(), kind: Kind::Special };
    assert!(matches!(
        placements("", &vec![entry], &[])[0],
        (_, Placement::Skip)
    ));
    assert!(special_file_warning("run/socket").contains("run/socket"));
    assert!(removes_whole_tree(Kind::Directory));
    assert!(!removes_whole_tree(Kind::Link));
}

#[test]
fn abandoned_workspaces_are_swept_after_an_hour() {
    let live = words(&["/tmp/pithos/live"]);
    assert!(is_orphan(true, "/tmp/pithos/old", &live, Some(3600)));
    assert!(!is_orphan(true, "/tmp/pithos/old", &live, Some(3599)));
    assert!(is_orphan(true, "/tmp/pithos/old", &live, None));
    assert!(!is_orphan(true, "/tmp/pithos/live", &live, None));
    assert!(!is_orphan(false, "/tmp/pithos/old", &live, None));
    assert_eq!(
        temporary_base(Some(&"/data".to_string())).unwrap(),
        "/data/pithos/tmp"
    );
    assert!(temporary_base(None).is_err());
    assert_eq!(temporary_name("a.txt"), ".a.txt.pithos-tmp");
}

#[test]
fn copied_entries_are_counted() {
    let mut stats = CopyStats::one_directory();
    stats.record_entry(CopiedEntry::File { bytes: 10, reflinked: true });
    stats.record_entry(CopiedEntry::File { bytes: 5, reflinked: false });
    stats.record_entry(CopiedEntry::Symlink);
    let mut total = CopyStats::one_directory();
    assert!(total.can_merge(&stats));
    total.merge(stats);
    assert_eq!(total.files, 2);
    assert_eq!(total.cloned, 1);
    assert_eq!(total.symlinks, 1);
    assert_eq!(total.directories, 2);
    assert_eq!(total.bytes, 15);
}

#[test]
fn paths_are_taken_apart_as_on_unix() {
    assert_eq!(components("/a//b/./c/"), ["/", "a", "b", "c"]);
    assert_eq!(components("./a/../b"), [".", "a", "..", "b"]);
    assert_eq!(join_path("/a", "b"), "/a/b");
    assert_eq!(join_path("/a/", "b"), "/a/b");
    assert_eq!(join_path("/a", "/b"), "/b");
    assert_eq!(join_path("", "b"), "b");
    assert_eq!(file_name("/a/b.tar.gz"), Some("b.tar.gz".to_string()));
    assert_eq!(file_name("/"), None);
    assert_eq!(extension("b.tar.gz"), Some("gz".to_string()));
    assert_eq!(extension(".bashrc"), None);
    assert_eq!(file_stem("b.tar.gz"), Some("b.tar".to_string()));
    assert!(ends_in("/x/y.toml", "toml"));
    assert!(is_absolute("/x"));
    assert!(!is_absolute("x"));
    assert!(starts_with_path("/a/b/c", "/a/b"));
    assert!(!starts_with_path("/a/bc", "/a/b"));
    assert_eq!(directories_above("/a/b/c"), ["/a/b", "/a", "/"]);
    assert_eq!(directories_above("a/b"), ["a", ""]);
    assert_eq!(sort_paths(words(&["b", "a/z", "a", "b"])), ["a", "a/z", "b"]);
}
