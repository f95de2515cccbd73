use pithos::config::Networking;
use pithos::networking::cache::{
    answers_for, cache_path, temporary_name, Entry, REFRESH_WINDOW_SECONDS, TTL_SECONDS, VERSION,
};
use pithos::networking::enforcement::{
    check_wanted, classify, classify_failure, inspect_state, is_running, must_stop, next_wait,
    private_drops_present, query_not_run, running_pid, Verdict, Wait,
};
use pithos::networking::{
    private_v4_ranges, serialize_rules, Address, Lookup, Resolution, RULES_ENV, TABLE,
};

fn words(list: &[&str]) -> Vec<String> {
    list.iter().map(|word| word.to_string()).collect()
}

fn networking(payload_size: Option<u64>, quota: Option<u64>) -> Networking {
    Networking {
        enabled: true,
        payload_size,
        quota,
        whitelist: Vec::new(),
        use_default_whitelist: true,
        block_private: false,
    }
}

fn rules(networking: &Networking, v4: &[&str], v6: &[&str]) -> String {
    networking.render_rules(&words(v4), &words(v6))
}

#[test]
fn rendered_rules_cover_every_private_range() {
    let mut networking = networking(None, None);
    networking.block_private = true;
    let rules = rules(&networking, &[], &[]);
    assert!(private_v4_ranges().iter().all(|range| rules.contains(range)));
    assert_eq!(rules.matches("} drop").count(), 2);
}

#[test]
fn mod_renders_full_ruleset() {
    let rules = rules(
        &networking(Some(8), Some(102400)),
        &["1.2.3.4", "5.6.7.8"],
        &["2001:db8::1"],
    );
    let expected = r#"table inet pithos-egress {
  quota global_egress { over 102400 kbytes }

  chain output {
    type filter hook output priority filter; policy accept;
    oifname "lo" accept
    ip daddr { 1.2.3.4, 5.6.7.8 } tcp dport 443 accept
    ip6 daddr { 2001:db8::1 } tcp dport 443 accept
    ct state established,related ct original bytes > 8192 drop
    quota name "global_egress" drop
  }
}
"#;
    assert_eq!(rules, expected);
}

#[test]
fn mod_renders_cap_only_ruleset() {
    assert_eq!(
        rules(&networking(Some(8), None), &[], &[]),
        r#"table inet pithos-egress {

  chain output {
    type filter hook output priority filter; policy accept;
    oifname "lo" accept
    ct state established,related ct original bytes > 8192 drop
  }
}
"#
    );
}

fn check_quota_only() {
    assert_eq!(
        rules(&networking(None, Some(512)), &[], &[]),
        r#"table inet pithos-egress {
  quota global_egress { over 512 kbytes }

  chain output {
    type filter hook output priority filter; policy accept;
    oifname "lo" accept
    quota name "global_egress" drop
  }
}
"#
    );
}

#[test]
fn mod_renders_quota_only_ruleset() {
    check_quota_only();
}

#[test]
fn networking_renders_quota_only_ruleset() {
    check_quota_only();
}

fn check_families() {
    let v4_only = rules(&networking(None, Some(10)), &["1.2.3.4"], &[]);
    assert!(v4_only.contains("ip daddr { 1.2.3.4 } tcp dport 443 accept"));
    assert!(!v4_only.contains("ip6 daddr"));

    let v6_only = rules(&networking(None, Some(10)), &[], &["2001:db8::1"]);
    assert!(!v6_only.contains("ip daddr"));
    assert!(v6_only.contains("ip6 daddr { 2001:db8::1 } tcp dport 443 accept"));
}

#[test]
fn mod_renders_v4_and_v6_whitelist_independently() {
    check_families();
}

#[test]
fn networking_renders_v4_and_v6_whitelist_independently() {
    check_families();
}

#[test]
fn private_ranges_drop_with_dns_exception() {
    let mut networking = networking(Some(8), Some(102400));
    networking.block_private = true;
    let rules = rules(&networking, &[], &[]);
    assert!(rules.contains("ip daddr { 10.0.0.0/8, 172.16.0.0/12, 192.168.0.0/16, 169.254.0.0/16 } tcp dport 53 accept"));
    assert!(rules.contains("udp dport 53 accept"));
    assert!(rules.contains(
        "ip daddr { 10.0.0.0/8, 172.16.0.0/12, 192.168.0.0/16, 169.254.0.0/16 } drop"
    ));
    assert!(rules.contains("ip6 daddr { fc00::/7, fe80::/10 } drop"));

    assert_eq!(rules.matches("} drop").count(), 2);
    assert_eq!(rules.matches("dport 53 accept").count(), 4);

    let first_private = rules.find("169.254.0.0/16").unwrap();
    if let Some(whitelist_pos) = rules.find("tcp dport 443 accept") {
        assert!(first_private < whitelist_pos);
    }
}

#[test]
fn disabled_networking_is_the_default_for_rendering() {
    let rules = rules(&networking(Some(8), Some(102400)), &[], &[]);
    assert!(!rules.contains("169.254.0.0/16"));
}

fn check_order() {
    let rules =
        rules(&networking(Some(8), Some(102400)), &["1.2.3.4"], &["2001:db8::1"]);
    let loopback = rules.find("oifname \"lo\"").unwrap();
    let v4_rule = rules.find("ip daddr").unwrap();
    let cap = rules.find("ct state").unwrap();
    let quota = rules.find("quota name").unwrap();
    assert!(loopback < v4_rule && v4_rule < cap && cap < quota);
}

#[test]
fn mod_whitelist_rules_precede_cap_and_quota() {
    check_order();
}

#[test]
fn networking_whitelist_rules_precede_cap_and_quota() {
    check_order();
}

fn custom_whitelist(use_default_whitelist: bool) -> Networking {
    Networking {
        enabled: true,
        payload_size: None,
        quota: None,
        whitelist: words(&["proxy.example.com"]),
        use_default_whitelist,
        block_private: false,
    }
}

#[test]
fn networking_effective_whitelist_combines_defaults_and_custom() {
    let defaults = words(&["opencode.ai", "mcp.exa.ai", "api.exa.ai"]);
    assert_eq!(
        custom_whitelist(true).whitelist_with(&defaults),
        vec![
            "opencode.ai".to_string(),
            "mcp.exa.ai".to_string(),
            "api.exa.ai".to_string(),
            "proxy.example.com".to_string(),
        ]
    );
}

#[test]
fn networking_effective_whitelist_can_disable_defaults() {
    assert_eq!(
        custom_whitelist(false).effective_whitelist(),
        vec!["proxy.example.com".to_string()]
    );
}

#[test]
fn mod_effective_whitelist_combines_defaults_and_custom() {
    let defaults = words(&[
        "opencode.ai",
        "mcp.exa.ai",
        "api.exa.ai",
        "api.parallel.ai",
        "search.parallel.ai",
        "task-mcp.parallel.ai",
        "api.tavily.com",
        "api.search.brave.com",
        "google.serper.dev",
        "api.anthropic.com",
        "statsig.anthropic.com",
    ]);
    assert_eq!(
        custom_whitelist(true).whitelist_with(&defaults),
        vec![
            "opencode.ai".to_string(),
            "mcp.exa.ai".to_string(),
            "api.exa.ai".to_string(),
            "api.parallel.ai".to_string(),
            "search.parallel.ai".to_string(),
            "task-mcp.parallel.ai".to_string(),
            "api.tavily.com".to_string(),
            "api.search.brave.com".to_string(),
            "google.serper.dev".to_string(),
            "api.anthropic.com".to_string(),
            "statsig.anthropic.com".to_string(),
            "proxy.example.com".to_string(),
        ]
    );
}

#[test]
fn mod_effective_whitelist_can_disable_defaults() {
    assert_eq!(
        custom_whitelist(false).effective_whitelist(),
        vec!["proxy.example.com".to_string()]
    );
}

#[test]
fn the_default_hosts_come_first() {
    let defaults = [
        "opencode.ai",
        "mcp.exa.ai",
        "api.exa.ai",
        "api.parallel.ai",
        "search.parallel.ai",
        "task-mcp.parallel.ai",
        "api.tavily.com",
        "api.search.brave.com",
        "google.serper.dev",
        "api.anthropic.com",
    ];
    let mut expected = words(&defaults);
    expected.push("proxy.example.com".to_string());
    assert_eq!(custom_whitelist(true).effective_whitelist(), expected);
    assert_eq!(custom_whitelist(true).whitelist_with(&words(&defaults)), expected);
}

#[test]
fn sent_rules_pass_the_check() {
    let mut limits = networking(Some(8), Some(102400));
    limits.block_private = true;
    let text = rules(&limits, &["1.2.3.4"], &["2001:db8::1"]);
    assert!(private_drops_present(&text));
    assert!(private_drops_present(&serialize_rules(&text)));
    limits.block_private = false;
    assert!(!private_drops_present(&serialize_rules(&rules(&limits, &[], &[]))));
}

#[test]
fn mod_serialize_rules_produces_quote_free_single_line_program() {
    let rules = rules(&networking(Some(8), Some(102400)), &[], &[]);
    let serialized = serialize_rules(&rules);
    assert!(!serialized.contains('\n'));
    assert!(!serialized.contains('"'));
    assert!(!serialized.contains("{;"));
    assert!(!serialized.contains('\\'));
    assert!(serialized.starts_with("table inet pithos-egress {"));
    assert!(serialized.ends_with("};"));
    assert!(serialized.contains("oifname lo accept;"));
    assert!(serialized.contains("over 102400 kbytes };"));
    assert!(serialized.contains("ct original bytes > 8192 drop;"));
    assert!(serialized.contains("quota name global_egress drop;"));
    assert!(serialized.contains("chain output {"));
}

#[test]
fn rules_reach_podman_through_its_environment() {
    let mut limits = networking(Some(8), None);
    let (key, value) = limits.rules_variable(&words(&["1.2.3.4"]), &[]).unwrap();
    assert_eq!(key, RULES_ENV);
    assert_eq!(value, serialize_rules(&rules(&limits, &["1.2.3.4"], &[])));
    limits.enabled = false;
    assert!(limits.rules_variable(&[], &[]).is_none());
}

#[test]
fn lookups_are_gathered_in_order_and_once() {
    let mut resolution = Resolution::start(3);
    assert!(resolution.patience(0).is_some());
    assert!(resolution
        .record(Lookup::Found(vec![Address::V4(0x05060708), Address::V4(0x01020304)]))
        .is_none());
    assert!(resolution
        .record(Lookup::NotFound("pithos-does-not-exist.example".to_string()))
        .is_some());
    assert!(resolution
        .record(Lookup::Found(vec![Address::V4(0x01020304), Address::V6(1)]))
        .is_none());
    assert!(resolution.patience(0).is_none());
    let (v4, v6) = resolution.finish();
    assert_eq!(v4, [0x01020304, 0x05060708]);
    assert_eq!(v6, [1]);
}

#[test]
fn lookups_have_three_seconds() {
    let resolution = Resolution::start(1);
    assert_eq!(resolution.patience(1000), Some(2000));
    assert!(resolution.patience(3000).is_none());
}

fn loaded_ruleset() -> String {
    format!(
        "table inet {TABLE} {{\n  chain output {{\n    ip daddr {{ {} }} drop\n  }}\n}}\n",
        private_v4_ranges().join(", ")
    )
}

#[test]
fn loaded_table_with_private_drops_is_compliant() {
    let result = classify(true, loaded_ruleset().as_bytes(), b"");
    assert!(matches!(result, Verdict::Compliant));
}

#[test]
fn missing_table_is_a_violation() {
    let result = classify(false, b"", b"Error: No such file or directory (os error 2)");
    assert!(matches!(result, Verdict::Violated));
}

#[test]
fn table_without_the_private_ranges_is_a_violation() {
    let result =
        classify(true, b"table inet pithos-egress {\n  chain output {\n  }\n}\n", b"");
    assert!(matches!(result, Verdict::Violated));
}

#[test]
fn broken_nft_query_is_inconclusive() {
    let result = classify(false, b"", b"nsenter: failed to setns");
    assert!(matches!(result, Verdict::Inconclusive(_)));
}

#[test]
fn complaints_are_read_in_any_case() {
    assert!(matches!(
        classify_failure("Error: no such FILE or directory"),
        Verdict::Violated
    ));
    assert!(matches!(query_not_run("not found"), Verdict::Inconclusive(_)));
    assert!(must_stop(&Verdict::Violated));
    assert!(!must_stop(&Verdict::Compliant));
}

#[test]
fn rendered_rules_pass_the_check() {
    let mut limits = networking(Some(8), None);
    limits.block_private = true;
    assert!(private_drops_present(&rules(&limits, &[], &[])));
    assert!(check_wanted(&limits));
    limits.block_private = false;
    assert!(!private_drops_present(&rules(&limits, &[], &[])));
}

#[test]
fn a_container_is_waited_for() {
    let running = inspect_state(Some(b"running\n"));
    assert_eq!(running.as_deref(), Some("running"));
    assert!(is_running(&running));
    let pid = running_pid(&running, Some("42".to_string()));
    assert_eq!(pid.as_deref(), Some("42"));
    match next_wait(pid, true, false) {
        Wait::Started(pid) => assert_eq!(pid, "42"),
        _ => panic!("the container runs"),
    }
    assert!(matches!(next_wait(None, true, false), Wait::AskAgain));
    assert!(matches!(next_wait(None, true, true), Wait::Over));
    assert!(running_pid(&running, Some("0".to_string())).is_none());
}

fn entry(resolved_at: u64) -> Entry {
    Entry {
        hosts: words(&["example.com"]),
        addresses: words(&["192.0.2.1"]),
        resolved_at,
    }
}

#[test]
fn fresh_entries_become_refreshable_before_expiring() {
    let resolved = entry(1_000);
    assert!(resolved.is_fresh(1_000 + TTL_SECONDS - 1));
    assert!(resolved.needs_refresh(1_000 + TTL_SECONDS - REFRESH_WINDOW_SECONDS));
    assert!(!resolved.needs_refresh(1_000 + TTL_SECONDS - REFRESH_WINDOW_SECONDS - 1));
}

#[test]
fn expired_entries_are_not_fresh() {
    let resolved = entry(1_000);
    assert!(!resolved.is_fresh(1_000 + TTL_SECONDS));
}

#[test]
fn an_entry_answers_for_its_own_hosts() {
    let resolved = entry(0);
    assert!(answers_for(VERSION, &resolved, &words(&["example.com"])));
    assert!(!answers_for(VERSION + 1, &resolved, &words(&["example.com"])));
    assert!(!answers_for(VERSION, &resolved, &words(&["example.org"])));
    assert_eq!(
        cache_path(Some(&"/data".to_string())).unwrap(),
        "/data/pithos/net_cache.json"
    );
    assert_eq!(temporary_name(7), "net_cache.json.7.tmp");
}
