use pithos::networking::hook::{
    append_oci_hooks_args, hook_config, machine_install_script, nft_candidates, oci_hooks_dirs,
    registered_hook, verify_machine_support, verify_networking_support, HookFile, HookState,
};

const OURS: &str = r#"{
  "version": "1.0.0",
  "hook": { "path": "/usr/local/bin/pithos-egress-cap.sh", "args": [] },
  "when": { "annotations": { "pithos.networking": "1" } },
  "stages": ["createRuntime"]
}"#;

const OTHER: &str = r#"{
  "version": "1.0.0",
  "hook": { "path": "/usr/local/bin/other.sh", "args": [] },
  "when": { "annotations": { "some.other.annotation": "1" } },
  "stages": ["createRuntime"]
}"#;

fn file(path: &str, contents: &str) -> HookFile {
    HookFile { path: path.to_string(), contents: Some(contents.to_string()) }
}

#[test]
fn registered_hook_finds_matching_annotation() {
    let files = vec![
        file("/hooks.d/other.json", OTHER),
        file("/hooks.d/pithos-egress-cap.json", OURS),
    ];
    let (json_path, hook_path) = registered_hook(&files).unwrap();
    assert_eq!(json_path, "/hooks.d/pithos-egress-cap.json");
    assert_eq!(hook_path, "/usr/local/bin/pithos-egress-cap.sh");
}

#[test]
fn registered_hook_returns_none_without_match() {
    assert!(registered_hook(&vec![file("/hooks.d/other.json", OTHER)]).is_none());
}

#[test]
fn unreadable_and_foreign_files_are_passed_over() {
    let files = vec![
        HookFile { path: "/hooks.d/locked.json".to_string(), contents: None },
        file("/hooks.d/broken.json", "not json"),
        file("/hooks.d/notes.txt", OURS),
    ];
    assert!(registered_hook(&files).is_none());
}

#[test]
fn generated_hook_config_matches_embedded_script_path() {
    let config = hook_config("/tmp/pithos-egress-cap.sh");
    let value: serde_json::Value = serde_json::from_str(&config).unwrap();
    assert_eq!(
        value["hook"]["path"],
        serde_json::Value::String("/tmp/pithos-egress-cap.sh".into())
    );
}

#[test]
fn a_generated_hook_is_found_again() {
    let config = hook_config("/opt/pithos/hook.sh");
    let (_, path) = registered_hook(&vec![file("/hooks.d/p.json", &config)]).unwrap();
    assert_eq!(path, "/opt/pithos/hook.sh");
}

#[test]
fn pithos_hook_dir_comes_after_the_system_defaults() {
    let dirs = oci_hooks_dirs(Some(&"/home/me/.local/share".to_string()));
    assert_eq!(
        dirs[..2],
        ["/usr/share/containers/oci/hooks.d", "/etc/containers/oci/hooks.d"]
    );
    assert_eq!(dirs.len(), 3);
    assert!(dirs[2].ends_with("pithos/hooks.d"));

    let mut args = Vec::new();
    append_oci_hooks_args(&mut args, Some(&"/home/me/.local/share".to_string()));
    assert!(args.iter().any(|arg| arg.ends_with("pithos/hooks.d")));
}

fn state(executable: bool, script: Result<&str, &str>) -> HookState {
    HookState {
        found: Some(("/hooks.d/p.json".to_string(), "/opt/hook.sh".to_string())),
        executable,
        script: match script {
            Ok(text) => Ok(text.to_string()),
            Err(error) => Err(error.to_string()),
        },
    }
}

#[test]
fn support_needs_a_current_hook_and_nftables() {
    let missing = HookState { found: None, executable: false, script: Ok(String::new()) };
    let complaint = |state: HookState, nft: bool| {
        verify_networking_support("/hooks.d", &state, nft).unwrap_err()
    };
    assert!(complaint(missing, true).ends_with("expected one in: /hooks.d"));
    assert!(complaint(state(false, Ok("")), true).contains("not executable"));
    assert!(complaint(state(true, Err("denied")), true).ends_with("/opt/hook.sh: denied"));
    assert!(complaint(state(true, Ok("#!/bin/sh\n")), true).contains("is outdated"));
    let current = "jq .annotations[\"pithos.networking-rules\"]";
    assert!(complaint(state(true, Ok(current)), false).starts_with("nftables not found"));
    assert!(verify_networking_support("/hooks.d", &state(true, Ok(current)), true).is_ok());
}

#[test]
fn machines_answer_for_themselves() {
    assert_eq!(
        verify_machine_support(true, b"/usr/bin/hook\n", b"").unwrap(),
        "pithos networking hook: /usr/bin/hook"
    );
    assert_eq!(
        verify_machine_support(false, b"", b"no machine\n").unwrap_err(),
        "pithos networking is not set up inside the podman machine: no machine"
    );
    let script = machine_install_script("#!/bin/sh\necho it's here\n");
    assert!(script.contains("echo it"));
}

#[test]
fn nft_is_looked_for_on_the_path() {
    let candidates = nft_candidates(&["/usr/bin".to_string(), "/opt/bin".to_string()]);
    assert_eq!(candidates, ["/usr/sbin/nft", "/usr/bin/nft", "/opt/bin/nft"]);
}
