use pithos::builtin::{default_opencode_command, Harness};
use pithos::config::{
    default_base_image, default_install, default_workspace, Config, Networking,
};
use pithos::session::{
    bundle_args, change_counts, change_kind, clean_headers, current_branch, diff_args, diff_found,
    diff_sides, git_failure, needs_diff, question, remotes_of, remove_remote_args, render_diff,
    review_answer, show_change, summarize, unmanaged, viewer_command, viewer_for, Answer, Change,
    ChangeKind, Compared, Piece, Side,
};

fn words(list: &[&str]) -> Vec<String> {
    list.iter().map(|word| word.to_string()).collect()
}

fn change(path: &str, kind: ChangeKind) -> Change {
    Change { path: path.to_string(), kind }
}

fn plain(pieces: &[Piece]) -> String {
    pieces.iter().map(|piece| piece.text.as_str()).collect()
}

#[test]
fn session_change_kind_classifies_add_modified_and_deleted() {
    assert_eq!(change_kind(false, true), ChangeKind::Added);
    assert_eq!(change_kind(true, true), ChangeKind::Modified);
    assert_eq!(change_kind(true, false), ChangeKind::Deleted);
}

#[test]
fn session_change_counts_tally_kinds() {
    let changed = vec![
        change("added.txt", ChangeKind::Added),
        change("also-added.txt", ChangeKind::Added),
        change("deleted.txt", ChangeKind::Deleted),
        change("modified.txt", ChangeKind::Modified),
    ];
    assert_eq!(change_counts(&changed), (2, 1, 1));
}

#[test]
fn summaries_count_and_list_what_changed() {
    let changed = vec![
        change("a", ChangeKind::Added),
        change("b", ChangeKind::Modified),
        change("c", ChangeKind::Deleted),
    ];
    let pieces = summarize(&changed);
    assert_eq!(
        plain(&pieces),
        "3 files changed (1 added, 1 modified, 1 deleted)\n  a\n  b\n  c\n"
    );
    let coloured: Vec<(&str, ChangeKind)> = pieces
        .iter()
        .filter_map(|piece| piece.kind.map(|kind| (piece.text.as_str(), kind)))
        .collect();
    assert_eq!(coloured[0], ("1 added", ChangeKind::Added));
    assert_eq!(coloured[5], ("  c", ChangeKind::Deleted));

    let one = vec![change("a", ChangeKind::Modified)];
    assert_eq!(plain(&summarize(&one)), "1 file changed (1 modified)\n  a\n");
}

#[test]
fn long_summaries_are_cut_after_twenty_paths() {
    let changed: Vec<Change> =
        (0..23).map(|i| change(&format!("file-{i}"), ChangeKind::Added)).collect();
    let text = plain(&summarize(&changed));
    assert!(text.starts_with("23 files changed (23 added)\n  file-0\n"));
    assert!(text.contains("  file-19\n"));
    assert!(!text.contains("file-20"));
    assert!(text.ends_with("  ... and 3 more\n"));
}

#[test]
fn answers_are_read_in_any_case() {
    for line in ["y", "YES\n", " Yes "] {
        assert_eq!(review_answer(line), Answer::Apply);
    }
    for line in ["", "\n", "n", "No"] {
        assert_eq!(review_answer(line), Answer::Discard);
    }
    assert_eq!(review_answer("View\n"), Answer::View);
    assert_eq!(review_answer("maybe"), Answer::Again);
    assert!(question().ends_with("[n]o: "));
}

const MODIFIED: &str = "diff --git a/tmp/host/mod.txt b/tmp/sandbox/mod.txt\n\
                        index 94954ab..c152159 100644\n\
                        --- a/tmp/host/mod.txt\n\
                        +++ b/tmp/sandbox/mod.txt\n\
                        @@ -1,2 +1,2 @@\n\
                        hello\n\
                        -world\n\
                        +earth\n";

#[test]
fn session_clean_headers_rewrites_paths_to_relative() {
    let cleaned = clean_headers(MODIFIED, "src/mod.txt");
    assert!(cleaned.contains("diff --git a/src/mod.txt b/src/mod.txt"));
    assert!(cleaned.contains("--- a/src/mod.txt"));
    assert!(cleaned.contains("+++ b/src/mod.txt"));
    assert!(!cleaned.contains("/tmp/host/mod.txt"));
    assert!(!cleaned.contains("/tmp/sandbox/mod.txt"));
}

#[test]
fn session_clean_headers_keeps_dev_null_sides() {
    let added = "diff --git a/x b/y\n\
                 new file mode 100644\n\
                 index 0000000..3e75765\n\
                 --- /dev/null\n\
                 +++ b/tmp/sandbox/added.txt\n\
                 @@ -0,0 +1 @@\n\
                 +new\n";
    let cleaned = clean_headers(added, "added.txt");
    assert!(cleaned.contains("--- /dev/null"));
    assert!(cleaned.contains("+++ b/added.txt"));
    assert!(!cleaned.contains("tmp/sandbox"));
}

#[test]
fn clean_headers_rewrites_paths_to_relative() {
    let cleaned = clean_headers(MODIFIED, "src/mod.txt");
    assert!(cleaned.contains("diff --git a/src/mod.txt b/src/mod.txt"));
    assert!(cleaned.contains("--- a/src/mod.txt"));
    assert!(cleaned.contains("+++ b/src/mod.txt"));
    assert!(!cleaned.contains("/tmp/host/mod.txt"));
    assert!(!cleaned.contains("/tmp/sandbox/mod.txt"));
}

#[test]
fn clean_headers_keeps_dev_null_sides() {
    let added = "diff --git a/x b/y\n\
                 new file mode 100644\n\
                 index 0000000..3e75765\n\
                 --- /dev/null\n\
                 +++ b/tmp/sandbox/added.txt\n\
                 @@ -0,0 +1 @@\n\
                 +new\n";
    let cleaned = clean_headers(added, "added.txt");
    assert!(cleaned.contains("--- /dev/null"));
    assert!(cleaned.contains("+++ b/added.txt"));
    assert!(!cleaned.contains("tmp/sandbox"));
}

fn link(target: &str) -> Side {
    Side::Link(Some(target.to_string()))
}

#[test]
fn directories_and_links_take_one_line() {
    let line = |source: Side, sandbox: Side| show_change("p", &source, &sandbox, None).text;
    assert_eq!(line(Side::Directory, Side::Directory), "  changed directory: p\n");
    assert_eq!(line(Side::Directory, Side::Absent), "  removed directory: p\n");
    assert_eq!(line(Side::Other, Side::Directory), "  added directory: p\n");
    assert_eq!(line(link("a"), link("b")), "  symlink changed: p (a -> b)\n");
    assert_eq!(line(link("a"), Side::Absent), "  removed symlink: p (-> a)\n");
    assert_eq!(line(Side::Absent, link("b")), "  added symlink: p (-> b)\n");
    assert_eq!(line(Side::Link(None), Side::Other), "  symlink changed: p\n");
    assert!(!needs_diff(&Side::Directory, &Side::Other));
    assert!(needs_diff(&Side::Other, &Side::Absent));
}

#[test]
fn files_are_shown_by_their_diff() {
    let list = vec![
        Compared {
            path: "src/mod.txt".to_string(),
            source: Side::Other,
            sandbox: Side::Other,
            diff: Some(MODIFIED.to_string()),
        },
        Compared {
            path: "blob".to_string(),
            source: Side::Absent,
            sandbox: Side::Other,
            diff: None,
        },
    ];
    let pieces = render_diff(&list);
    assert_eq!(pieces[0].text, clean_headers(MODIFIED, "src/mod.txt"));
    assert_eq!(pieces[0].kind, None);
    assert_eq!(pieces[1].text, "  blob: diff unavailable\n");
    assert_eq!(pieces[1].kind, Some(ChangeKind::Added));
}

#[test]
fn missing_sides_are_compared_with_nothing() {
    let sides = |source: bool, sandbox: bool| diff_sides(false, source, sandbox, "/h/f", "/s/f");
    assert_eq!(sides(true, true), ("/h/f".to_string(), "/s/f".to_string()));
    assert_eq!(sides(true, false), ("/h/f".to_string(), "/dev/null".to_string()));
    assert_eq!(sides(false, true), ("/dev/null".to_string(), "/s/f".to_string()));
    assert_eq!(
        diff_args("/h/f", "/s/f"),
        ["diff", "--no-index", "--no-color", "--", "/h/f", "/s/f"]
    );
    assert_eq!(diff_found(Some(1), b"diff"), Some("diff".to_string()));
    assert_eq!(diff_found(Some(0), b""), Some(String::new()));
    assert_eq!(diff_found(Some(128), b"diff"), None);
    assert_eq!(diff_found(None, b"diff"), None);
}

fn check_remotes() {
    assert_eq!(remotes_of(b"origin\nupstream\n"), ["origin", "upstream"]);
    assert_eq!(remove_remote_args("origin"), ["remote", "remove", "origin"]);
}

#[test]
fn session_strip_remotes_removes_all_remotes() {
    check_remotes();
}

#[test]
fn run_strip_remotes_removes_all_remotes() {
    check_remotes();
}

#[test]
fn session_strip_remotes_noop_without_remotes() {
    assert!(remotes_of(b"").is_empty());
}

#[test]
fn run_strip_remotes_noop_without_remotes() {
    assert!(remotes_of(b"\n").is_empty());
}

#[test]
fn branches_are_bundled_unless_detached() {
    assert_eq!(current_branch(b"main\n").unwrap(), "main");
    assert_eq!(current_branch(b"HEAD\n").unwrap_err(), "cannot bundle a detached HEAD");
    assert!(current_branch(b" \n").is_err());
    assert_eq!(bundle_args("/t/b", "main"), ["bundle", "create", "/t/b", "main"]);
    assert_eq!(
        git_failure(&words(&["clone", "x"]), b" fatal: no\n"),
        "git clone x failed: fatal: no"
    );
    assert_eq!(git_failure(&[], b"\xff"), "git  failed: \u{fffd}");
}

#[test]
fn viewers_open_on_a_directory() {
    assert_eq!(viewer_command("lazygit -p {dir}", "/t/repo"), "lazygit -p /t/repo");
    assert_eq!(viewer_for(Some("v {dir}"), true), Some("v {dir}"));
    assert_eq!(viewer_for(Some("v {dir}"), false), None);
    assert_eq!(viewer_for(None, true), None);
}

#[test]
fn ephemeral_and_ignored_paths_are_unmanaged() {
    let config = Config {
        base_image: default_base_image(),
        workspace: default_workspace(),
        image_tag: None,
        install: default_install(),
        toolchains: Vec::new(),
        toolchain_defs: Vec::new(),
        cargo: Vec::new(),
        npm: Vec::new(),
        bun: Vec::new(),
        uv: Vec::new(),
        downloads: Vec::new(),
        mise: Vec::new(),
        harness: Harness::Opencode {
            command: default_opencode_command(),
            allowlist: None,
            credentials: false,
        },
        global_toolchains: Vec::new(),
        environment: Vec::new(),
        ephemeral: words(&["target"]),
        ignore: words(&["dist", "tmp"]),
        diff_viewer: None,
        copy_strategy: None,
        networking: Networking::default(),
        audio: false,
    };
    assert_eq!(unmanaged(&config), ["target", "dist", "tmp"]);
}
