use pithos::attach::{
    exec_args, foreground_outcome, ps_line, repo_label, require_command, shell_args, uptime,
};
use pithos::audio::{host_socket, passthrough_in};
use pithos::environment::terminal_env_from;
use pithos::platform::{null_device, parse_id, parse_unsigned, privilege_denied, volume_spec};
use pithos::registry::{
    in_order, is_stale, prune, read_filled_lines, record_path, resolve, running_container_names,
    runtime_dir, sanitize_name, session_suffix, SessionInput, SessionRecord,
};

fn words(list: &[&str]) -> Vec<String> {
    list.iter().map(|word| word.to_string()).collect()
}

fn sample_record(id: &str, started_at: u64) -> SessionRecord {
    SessionRecord {
        id: id.to_string(),
        container_name: format!("pithos-{id}"),
        sandbox_path: "/tmp/sandbox".to_string(),
        repo_path: "/tmp/repo".to_string(),
        image_tag: "localhost/pithos-opencode:latest".to_string(),
        workspace: "/workspace".to_string(),
        user: "1000:1000".to_string(),
        unmanaged: Vec::new(),
        diff_viewer: None,
        pid: 42,
        started_at,
    }
}

#[test]
fn round_trip_preserves_fields_and_orders_by_start_time() {
    let sessions = in_order(vec![sample_record("b-0002", 200), sample_record("a-0001", 100)]);
    assert_eq!(sessions.len(), 2);
    assert_eq!(sessions[0].id, "a-0001");
    assert_eq!(sessions[1].started_at, 200);
    assert_eq!(sessions[1].container_name, "pithos-b-0002");
    assert_eq!(sessions[1].user, "1000:1000");
    assert_eq!(sessions[1].workspace, "/workspace");
}

#[test]
fn is_stale_checks_container_presence() {
    let record = sample_record("x-0001", 0);
    let running = vec!["pithos-x-0001".to_string()];
    assert!(!is_stale(&record, &running));
    assert!(is_stale(&record, &[]));
}

#[test]
fn pruning_keeps_what_runs_and_names_the_rest() {
    let sessions = vec![sample_record("keep", 1), sample_record("drop", 2)];
    let (live, gone) = prune(sessions, &words(&["pithos-keep", "unrelated"]));
    assert_eq!(live.len(), 1);
    assert_eq!(live[0].id, "keep");
    assert_eq!(gone, ["drop"]);
}

#[test]
fn resolve_auto_picks_single_session() {
    let sessions = vec![sample_record("only-0001", 0)];
    assert_eq!(resolve(&sessions, None).unwrap().id, "only-0001");
    assert_eq!(
        resolve(&sessions, Some("only-0001")).unwrap().id,
        "only-0001"
    );
    assert!(resolve(&sessions, Some("other")).is_err());
}

#[test]
fn resolve_requires_id_for_multiple_sessions() {
    let sessions = vec![sample_record("a-0001", 0), sample_record("b-0002", 1)];
    let error = match resolve(&sessions, None) {
        Ok(_) => panic!("there are two sessions"),
        Err(message) => message,
    };
    assert!(error.contains("a-0001"));
    assert!(error.contains("b-0002"));
    assert_eq!(
        resolve(&sessions, Some("b-0002")).unwrap().id,
        "b-0002"
    );
    assert!(resolve(&sessions, Some("c-0003")).is_err());
}

#[test]
fn resolve_errors_without_sessions() {
    assert!(resolve(&Vec::new(), None).is_err());
}

#[test]
fn sanitize_replaces_unsafe_characters() {
    assert_eq!(sanitize_name("my_repo.v2"), "my_repo.v2");
    assert_eq!(sanitize_name("weird name/slash"), "weird-name-slash");
    assert_eq!(sanitize_name("---"), "repo");
}

#[test]
fn new_builds_prefixed_container_name() {
    let record = SessionRecord::new(SessionInput {
        repository: "/tmp/pithos-registry-new".to_string(),
        sandbox_path: "/tmp/pithos-registry-new-sandbox".to_string(),
        image_tag: "localhost/pithos-opencode:latest".to_string(),
        workspace: "/workspace".to_string(),
        user: "1000:1000".to_string(),
        unmanaged: words(&["target"]),
        diff_viewer: Some("difftool -dir {dir}".to_string()),
        suffix: session_suffix(7, 42),
        pid: 42,
        started_at: 10,
    });
    assert!(record.id.starts_with("pithos-registry-new-"));
    assert_eq!(record.container_name, format!("pithos-{}", record.id));
    assert_eq!(record.sandbox_path, "/tmp/pithos-registry-new-sandbox");
    assert_eq!(record.user, "1000:1000");
    assert_eq!(record.unmanaged, ["target"]);
}

#[test]
fn records_live_in_the_runtime_directory() {
    assert_eq!(
        runtime_dir(Some(&"/run/user/1000".to_string()), "/tmp"),
        "/run/user/1000/pithos"
    );
    assert_eq!(runtime_dir(None, "/tmp"), "/tmp/pithos");
    assert_eq!(record_path("/run/pithos", "a-0001"), "/run/pithos/a-0001.json");
}

#[test]
fn podman_names_the_running_containers() {
    assert_eq!(
        running_container_names(true, b"one\n\n two \n", b"").unwrap(),
        ["one", "two"]
    );
    assert_eq!(
        running_container_names(false, b"", b" boom\n").unwrap_err(),
        "podman ps failed: boom"
    );
    assert!(read_filled_lines(" \n\t\n").is_empty());
}

fn check_uptime() {
    assert_eq!(uptime(1000, 1000), "0s");
    assert_eq!(uptime(1061, 1000), "1m01s");
    assert_eq!(uptime(4723, 1000), "1h02m");
}

#[test]
fn ps_uptime_formats_seconds_minutes_hours() {
    check_uptime();
}

#[test]
fn attach_uptime_formats_seconds_minutes_hours() {
    check_uptime();
    assert_eq!(uptime(5, 9), "0s");
}

#[test]
fn sessions_are_listed_in_columns() {
    let record = sample_record("a-0001", 940);
    assert_eq!(
        ps_line(&record, 1001),
        format!("{:<30} {:<24} {:>8}  {}", "a-0001", "repo", "1m01s", "/tmp/sandbox")
    );
    assert_eq!(repo_label(&record), "repo");
    let mut root = sample_record("r", 0);
    root.repo_path = "/".to_string();
    assert_eq!(repo_label(&root), "/");
}

#[test]
fn commands_run_where_the_session_works() {
    let record = sample_record("a-0001", 0);
    let terminal = vec![("TERM".to_string(), "xterm".to_string())];
    assert_eq!(
        shell_args(&record, &terminal),
        [
            "exec",
            "--interactive",
            "--tty",
            "--env",
            "TERM=xterm",
            "--workdir",
            "/workspace",
            "--user",
            "1000:1000",
            "pithos-a-0001",
            "bash",
        ]
    );
    assert_eq!(
        exec_args(&record, &Vec::new(), &words(&["ls", "-la"])),
        [
            "exec",
            "--workdir",
            "/workspace",
            "--user",
            "1000:1000",
            "pithos-a-0001",
            "ls",
            "-la",
        ]
    );
    assert!(require_command(&words(&["ls"])).is_ok());
    assert_eq!(
        require_command(&[]).unwrap_err(),
        "exec needs a command, e.g. pithos exec -- ls -la"
    );
    assert!(foreground_outcome("shell", true, "exit status: 0").is_ok());
    assert_eq!(
        foreground_outcome("exec", false, "exit status: 3").unwrap_err(),
        "exec exited with exit status: 3"
    );
}

fn sample_environment() -> Vec<(String, String)> {
    vec![
        ("PATH".to_string(), "/usr/bin".to_string()),
        ("TERM".to_string(), "xterm-kitty".to_string()),
        ("COLORTERM".to_string(), "truecolor".to_string()),
        ("TERM_PROGRAM".to_string(), "".to_string()),
        ("NO_COLOR".to_string(), "1".to_string()),
        ("TMUX".to_string(), "/tmp/tmux,1,0".to_string()),
    ]
}

#[test]
fn forwards_only_known_terminal_vars_with_values() {
    assert_eq!(
        terminal_env_from(sample_environment()),
        vec![
            ("COLORTERM".to_string(), "truecolor".to_string()),
            ("NO_COLOR".to_string(), "1".to_string()),
            ("TERM".to_string(), "xterm-kitty".to_string()),
        ]
    );
}

#[test]
fn output_is_deterministic_regardless_of_source_order() {
    let mut reversed = sample_environment();
    reversed.reverse();
    assert_eq!(terminal_env_from(sample_environment()), terminal_env_from(reversed));
}

#[test]
fn empty_environment_yields_nothing() {
    let empty: Vec<(String, String)> = Vec::new();
    assert!(terminal_env_from(empty).is_empty());
}

#[test]
fn builds_mount_and_env_for_existing_socket() {
    let dir = "/run/user/1000".to_string();
    let socket = host_socket(&dir);
    let sound = match passthrough_in(true, Some(&dir), true, 1000) {
        Ok(sound) => sound,
        Err(warning) => panic!("{warning}"),
    };
    assert_eq!(sound.volume, format!("{socket}:/run/user/1000/pulse/native:rw,Z"));
    assert_eq!(
        sound.env,
        vec![
            ("XDG_RUNTIME_DIR".to_string(), "/run/user/1000".to_string()),
            (
                "PULSE_SERVER".to_string(),
                "unix:/run/user/1000/pulse/native".to_string()
            ),
        ]
    );
}

#[test]
fn skips_when_the_socket_is_missing() {
    let dir = "/run/user/1000".to_string();
    assert!(passthrough_in(true, Some(&dir), false, 1000).is_err());
}

#[test]
fn skips_without_a_runtime_directory() {
    assert!(passthrough_in(true, None, false, 1000).is_err());
    assert!(passthrough_in(false, None, true, 1000).is_err());
}

#[test]
fn platform_volume_spec_selects_mutability() {
    assert_eq!(volume_spec("/tmp/opencode", "/data", false), "/tmp/opencode:/data:rw");
    assert_eq!(volume_spec("/tmp/opencode", "/config", true), "/tmp/opencode:/config:ro");
}

#[test]
fn volume_spec_selects_mutability() {
    assert_eq!(volume_spec("/tmp/opencode", "/data", false), "/tmp/opencode:/data:rw");
    assert_eq!(volume_spec("/tmp/opencode", "/config", true), "/tmp/opencode:/config:ro");
}

#[test]
fn volume_spec_handles_spaces() {
    assert_eq!(volume_spec("/tmp/my data", "/target", false), "/tmp/my data:/target:rw");
}

#[test]
fn ids_are_read_from_what_the_shell_prints() {
    assert_eq!(parse_id(Some(b"1000\n")), 1000);
    assert_eq!(parse_id(Some(b"+7")), 7);
    assert_eq!(parse_id(Some(b"nobody")), 1000);
    assert_eq!(parse_id(None), 1000);
    assert_eq!(parse_unsigned("4294967296", 4294967295), None);
    assert_eq!(parse_unsigned("12", 4294967295), Some(12));
    assert_eq!(null_device(false), "/dev/null");
    assert_eq!(null_device(true), "NUL");
    assert!(privilege_denied(Some(1314)));
    assert!(!privilege_denied(Some(2)));
    assert!(!privilege_denied(None));
}

#[test]
fn session_ids_are_safe_whatever_the_repository_is_called() {
    let id_of = |repository: &str| {
        SessionRecord::new(SessionInput {
            repository: repository.to_string(),
            sandbox_path: "/tmp/sandbox".to_string(),
            image_tag: "localhost/pithos-opencode:latest".to_string(),
            workspace: "/workspace".to_string(),
            user: "1000:1000".to_string(),
            unmanaged: Vec::new(),
            diff_viewer: None,
            suffix: session_suffix(0xabcd, 0),
            pid: 1,
            started_at: 0,
        })
        .id
    };
    assert_eq!(id_of("/src/--my repo\u{e9}--"), "my-repo-abcd");
    assert_eq!(id_of("/"), "repo-abcd");
    assert_eq!(id_of("/src/***"), "repo-abcd");
    let long = id_of(&format!("/src/{}", "x".repeat(60)));
    assert_eq!(long.len(), 37);
}
