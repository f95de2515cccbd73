use pithos::sandbox::Kind;
use pithos::snapshot::{
    compare_captures, diff_maps, is_snapshot_valid, judge, manifest_dir, manifest_is_stale,
    manifest_path, meta_of, sanitize_id, snapshot_usable, temporary_ending, Capture, Captured,
    Facts, Judgement, Listed, Snapshot,
};

fn words(list: &[&str]) -> Vec<String> {
    list.iter().map(|word| word.to_string()).collect()
}

fn file(length: u64, mtime: u128) -> Facts {
    Facts {
        kind: Kind::File,
        length,
        mtime_nanos: Some(mtime),
        mode: Some(0o644),
        link_target: None,
    }
}

fn directory() -> Facts {
    Facts {
        kind: Kind::Directory,
        length: 4096,
        mtime_nanos: Some(1),
        mode: Some(0o755),
        link_target: None,
    }
}

fn listed(name: &str, facts: Facts) -> Listed {
    Listed { name: name.to_string(), facts }
}

/// Captures a tree of two levels: `list` gives what a directory holds.
fn capture(list: &dyn Fn(&str) -> Vec<Listed>, unmanaged: &[String]) -> Vec<Captured> {
    let mut capture = Capture::start();
    while let Some(dir) = capture.next() {
        capture.record(&dir, &list(&dir), unmanaged);
    }
    capture.finish()
}

fn paths(entries: &[Captured]) -> Vec<&str> {
    entries.iter().map(|entry| entry.path.as_str()).collect()
}

#[test]
fn capture_and_diff_detects_changes() {
    let first = capture(
        &|dir| match dir {
            "" => vec![listed("a.txt", file(5, 1)), listed("sub", directory())],
            "sub" => vec![listed("b.txt", file(5, 1))],
            _ => Vec::new(),
        },
        &[],
    );
    let second = capture(
        &|dir| match dir {
            "" => vec![
                listed("a.txt", file(8, 2)),
                listed("c.txt", file(3, 2)),
                listed("sub", directory()),
            ],
            _ => Vec::new(),
        },
        &[],
    );
    assert_eq!(paths(&first), ["a.txt", "sub", "sub/b.txt"]);
    let diff = diff_maps(&first, &second);
    assert!(diff.contains(&"a.txt".to_string()));
    assert!(diff.contains(&"sub/b.txt".to_string()));
    assert!(!diff.contains(&"sub".to_string()));
    assert!(diff.contains(&"c.txt".to_string()));
}

#[test]
fn has_changes_via_snapshot_matches_has_changes() {
    let repo = capture(
        &|_| {
            vec![
                listed("modified.txt", file(4, 1)),
                listed("deleted.txt", file(4, 1)),
                listed("unchanged.txt", file(4, 1)),
            ]
        },
        &[],
    );
    let sandbox = capture(
        &|_| {
            vec![
                listed("modified.txt", file(7, 2)),
                listed("added.txt", file(3, 2)),
                listed("unchanged.txt", file(4, 2)),
            ]
        },
        &[],
    );
    let comparison = compare_captures(&repo, &sandbox);
    assert_eq!(comparison.unsure, ["unchanged.txt"]);
    assert_eq!(comparison.finish(&[true]), ["added.txt", "deleted.txt", "modified.txt"]);
}

#[test]
fn mtime_optimization_avoids_read_when_size_differs() {
    let repo = capture(&|_| vec![listed("a.txt", file(5, 1))], &[]);
    let sandbox = capture(&|_| vec![listed("a.txt", file(19, 1))], &[]);
    let comparison = compare_captures(&repo, &sandbox);
    assert!(comparison.unsure.is_empty());
    assert_eq!(comparison.finish(&[]), ["a.txt"]);
}

#[test]
fn contents_decide_where_times_differ() {
    let repo = meta_of(&file(5, 1));
    assert!(matches!(judge(&repo, &meta_of(&file(5, 1))), Judgement::Same));
    assert!(matches!(judge(&repo, &meta_of(&file(5, 2))), Judgement::Unsure));
    assert!(matches!(judge(&repo, &meta_of(&file(6, 1))), Judgement::Changed));
    assert!(matches!(judge(&repo, &meta_of(&directory())), Judgement::Changed));
}

#[test]
fn save_and_load_roundtrip() {
    let entries = capture(&|_| vec![listed("a.txt", file(5, 1))], &[]);
    let id = "test-snap-1234";
    let stored =
        Snapshot::new(id.to_string(), 7, Vec::new(), Some("reflink".to_string()), entries);
    assert_eq!(stored.session_id, id);
    assert_eq!(paths(&stored.entries), ["a.txt"]);
    assert!(is_snapshot_valid(&stored, &[], Some("reflink")));
    assert!(!is_snapshot_valid(&stored, &words(&["target"]), Some("reflink")));
    assert!(!is_snapshot_valid(&stored, &[], Some("copy")));
    assert!(snapshot_usable(&Some(stored), &[], Some("reflink")));
    assert!(!snapshot_usable(&None, &[], Some("reflink")));
}

#[test]
fn respects_unmanaged() {
    let entries = capture(
        &|dir| match dir {
            "" => vec![listed("keep.txt", file(4, 1)), listed("target", directory())],
            _ => vec![listed("cache.bin", file(5, 1))],
        },
        &words(&["target"]),
    );
    assert_eq!(paths(&entries), ["keep.txt"]);
}

#[test]
fn snapshots_have_a_file_of_their_own() {
    assert_eq!(sanitize_id("my repo/1"), "my-repo-1");
    let dir = manifest_dir("/data/pithos/tmp");
    let path = manifest_path("/data/pithos/tmp", "my repo/1");
    assert_eq!(path, format!("{dir}/my-repo-1.json"));
    assert!(temporary_ending(1, 2, 3).contains("1-2-3"));
}

#[test]
fn snapshots_without_a_session_are_swept_after_an_hour() {
    let live = words(&["live"]);
    assert!(manifest_is_stale("/m/old.json", &live, 3601));
    assert!(!manifest_is_stale("/m/old.json", &live, 3600));
    assert!(!manifest_is_stale("/m/live.json", &live, 3601));
    assert!(!manifest_is_stale("/m/old.txt", &live, 3601));
}

#[test]
fn a_capture_records_what_takes_part_and_no_more() {
    let entries = capture(
        &|dir| match dir {
            "" => vec![
                listed("b", directory()),
                listed("skip", directory()),
                listed("a", file(7, 3)),
            ],
            "b" => vec![listed("c", directory()), listed("z", file(1, 1))],
            "b/c" => vec![listed(
                "link",
                Facts {
                    kind: Kind::Link,
                    length: 9,
                    mtime_nanos: None,
                    mode: None,
                    link_target: Some("../z".to_string()),
                },
            )],
            "skip" => panic!("a directory that does not take part was read"),
            _ => Vec::new(),
        },
        &words(&["skip"]),
    );
    assert_eq!(paths(&entries), ["a", "b", "b/c", "b/c/link", "b/z"]);
    assert_eq!(entries[0].meta.size, 7);
    assert!(entries[1].meta.is_dir && entries[2].meta.is_dir);
    assert!(entries[3].meta.is_symlink);
    assert_eq!(entries[3].meta.symlink_target.as_deref(), Some("../z"));
    assert_eq!(entries[3].meta.size, 0);
}
