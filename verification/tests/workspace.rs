use pithos::sandbox::{Entry, Kind};
use pithos::workspace::{
    alternates_text, begin_fill, clone_args, comes_along, detect, dirty_worktree_paths,
    ensure_strategy_supported, head_commit, next_fill, overlay, parse_override, requested,
    untracked_level, untracked_paths, worktree_eligible, worktree_volume_arg, CopyMethod,
    CopyStrategy, Dirty, Fill, GitAnswer, Overlay, CONTAINER_GIT_OBJECTS,
};

fn words(list: &[&str]) -> Vec<String> {
    list.iter().map(|word| word.to_string()).collect()
}

fn answer(stdout: &[u8]) -> GitAnswer {
    GitAnswer { success: true, stdout: stdout.to_vec(), stderr: Vec::new() }
}

fn refusal(stderr: &str) -> GitAnswer {
    GitAnswer { success: false, stdout: Vec::new(), stderr: stderr.as_bytes().to_vec() }
}

#[test]
fn parse_override_accepts_known_values() {
    assert_eq!(parse_override(Some("auto")).unwrap(), None);
    assert_eq!(parse_override(None).unwrap(), None);
    assert_eq!(parse_override(Some("worktree")).unwrap(), Some(CopyStrategy::Worktree));
    assert_eq!(parse_override(Some("reflink")).unwrap(), Some(CopyStrategy::Reflink));
    assert_eq!(parse_override(Some("copy")).unwrap(), Some(CopyStrategy::Copy));
}

#[test]
fn parse_override_rejects_unknown_values() {
    assert!(parse_override(Some("hardlink")).is_err());
    assert_eq!(
        parse_override(Some("hard\"link")).unwrap_err(),
        "invalid copy_strategy \"hard\\\"link\"; expected auto, reflink, worktree or copy"
    );
}

#[test]
fn labels_name_strategies() {
    for strategy in [CopyStrategy::Reflink, CopyStrategy::Worktree, CopyStrategy::Copy] {
        assert_eq!(CopyStrategy::from_label(strategy.label()).unwrap(), strategy);
    }
    assert_eq!(CopyStrategy::Worktree.copy_method(), CopyMethod::Reflink);
    assert_eq!(CopyStrategy::Copy.copy_method(), CopyMethod::Copy);
}

#[test]
fn the_cheapest_way_is_detected() {
    assert_eq!(detect(true, true), CopyStrategy::Reflink);
    assert_eq!(detect(false, true), CopyStrategy::Worktree);
    assert_eq!(detect(false, false), CopyStrategy::Copy);
    assert_eq!(requested(None, None), CopyStrategy::Copy);
    assert_eq!(
        requested(Some(CopyStrategy::Worktree), Some(CopyStrategy::Reflink)),
        CopyStrategy::Worktree
    );
}

#[test]
fn empty_repositories_fail_hard_for_explicit_worktree() {
    let head = Ok(refusal("fatal: Needed a single revision\n"));
    assert!(!worktree_eligible(false, &head));
    assert_eq!(
        ensure_strategy_supported(CopyStrategy::Worktree, false, false, &head).unwrap_err(),
        "worktree strategy requested but HEAD is not resolvable: fatal: Needed a single revision"
    );
}

#[test]
fn submoduled_repositories_fail_hard_for_explicit_worktree() {
    let head = Ok(answer(b"abc\n"));
    assert!(!worktree_eligible(true, &head));
    assert!(worktree_eligible(false, &head));
    assert!(ensure_strategy_supported(CopyStrategy::Worktree, true, true, &head).is_err());
}

#[test]
fn forced_strategies_need_their_platform() {
    let gone: Result<GitAnswer, String> = Err("could not run git".to_string());
    assert_eq!(
        ensure_strategy_supported(CopyStrategy::Worktree, true, false, &gone).unwrap_err(),
        "worktree strategy requested but git is unavailable: could not run git"
    );
    assert_eq!(
        ensure_strategy_supported(CopyStrategy::Reflink, false, false, &gone).unwrap_err(),
        "reflink strategy requested but filesystem does not support reflink clones"
    );
    assert!(ensure_strategy_supported(CopyStrategy::Reflink, true, false, &gone).is_ok());
    assert!(ensure_strategy_supported(CopyStrategy::Copy, false, true, &gone).is_ok());
}

#[test]
fn only_a_detected_worktree_falls_back() {
    let first = begin_fill(CopyStrategy::Worktree);
    assert_eq!(first, Fill::CloneWorktree);
    assert_eq!(next_fill(first, true, true), Fill::Filled(CopyStrategy::Worktree));
    assert_eq!(next_fill(first, false, true), Fill::Failed);
    let second = next_fill(first, false, false);
    assert_eq!(second, Fill::ClearAndCopy);
    assert_eq!(second.copy_label(), Some("plain copy"));
    assert_eq!(next_fill(second, true, false), Fill::Filled(CopyStrategy::Copy));

    let clones = begin_fill(CopyStrategy::Reflink);
    assert_eq!(clones.copy_label(), Some("reflink copy"));
    assert_eq!(next_fill(clones, true, false), Fill::Filled(CopyStrategy::Reflink));
    assert_eq!(next_fill(clones, false, false), Fill::Failed);
}

#[test]
fn alternates_target_the_container_mount() {
    assert_eq!(alternates_text().trim(), CONTAINER_GIT_OBJECTS);
    assert_eq!(
        worktree_volume_arg("/repo", CopyStrategy::Worktree),
        Some("/repo/.git/objects:/pithos/git-objects:ro,Z".to_string())
    );
    assert_eq!(worktree_volume_arg("/repo", CopyStrategy::Copy), None);
    assert_eq!(
        clone_args("/repo", "/box"),
        ["clone", "--quiet", "--shared", "--no-checkout", "/repo", "/box"]
    );
}

#[test]
fn the_head_is_read_from_git() {
    assert_eq!(head_commit(&answer(b"abc123\n")).unwrap(), "abc123");
    assert_eq!(
        head_commit(&answer(b"\n")).unwrap_err(),
        "HEAD did not resolve to a commit"
    );
    assert_eq!(
        head_commit(&refusal("fatal: bad\n")).unwrap_err(),
        "could not resolve HEAD: fatal: bad"
    );
}

#[test]
fn modified_and_deleted_tracked_files_are_overlaid() {
    let status = b" M modified.txt\0 D deleted.txt\0R  moved.txt\0moved-later.txt\0";
    match dirty_worktree_paths(&answer(status)) {
        Dirty::Paths(paths) => assert_eq!(
            paths,
            ["modified.txt", "deleted.txt", "moved.txt", "moved-later.txt"]
        ),
        _ => panic!("this is a status"),
    }
    assert_eq!(overlay(true, true), Overlay::Copy);
    assert_eq!(overlay(false, true), Overlay::Remove);
    assert_eq!(overlay(false, false), Overlay::Leave);
}

#[test]
fn a_status_can_be_refused_or_garbled() {
    match dirty_worktree_paths(&refusal("fatal: no repository\n")) {
        Dirty::Refused(message) => {
            assert_eq!(message, "git status failed: fatal: no repository")
        }
        _ => panic!("git failed"),
    }
    assert!(matches!(dirty_worktree_paths(&answer(b"M\0")), Dirty::Garbled));
    match dirty_worktree_paths(&answer(b"")) {
        Dirty::Paths(paths) => assert!(paths.is_empty()),
        _ => panic!("nothing has changed"),
    }
}

#[test]
fn untracked_files_survive_and_ignored_paths_do_not() {
    let list = untracked_paths(&answer(b"untracked.txt\0cache/blob.bin\0vendored/\0")).unwrap();
    let found: Vec<(&str, bool)> =
        list.iter().map(|item| (item.path.as_str(), item.is_directory)).collect();
    assert_eq!(
        found,
        [("untracked.txt", false), ("cache/blob.bin", false), ("vendored/", true)]
    );
    let ignore = words(&["cache"]);
    assert!(comes_along("untracked.txt", &ignore));
    assert!(!comes_along("cache/blob.bin", &ignore));
    match untracked_paths(&refusal("boom")) {
        Ok(_) => panic!("git failed"),
        Err(message) => assert_eq!(message, "git ls-files failed: boom"),
    }
}

#[test]
fn untracked_directories_expand_recursively() {
    let entry = |name: &str, kind: Kind| Entry { name: name.to_string(), kind };
    let list = vec![entry("nested", Kind::Directory), entry("lib.rs", Kind::File)];
    let (files, directories) = untracked_level("vendored", &list);
    assert_eq!(files, ["vendored/lib.rs"]);
    assert_eq!(directories, ["vendored/nested"]);
}

#[test]
fn symlinks_in_untracked_files_are_preserved() {
    let list = vec![Entry { name: "linked.txt".to_string(), kind: Kind::Link }];
    let (files, directories) = untracked_level("", &list);
    assert_eq!(files, ["linked.txt"]);
    assert!(directories.is_empty());
}
