use mcp_gateway::naming::valid_target_name_str;
use mcp_gateway::pool::ConnectionPool;
use mcp_gateway::pool::GetPlan;
use mcp_gateway::rbac::Decision;
use mcp_gateway::rbac::Identity;
use mcp_gateway::rbac::PolicyRule;
use mcp_gateway::rbac::ResourceKind;
use mcp_gateway::rbac::ResourceRef;
use mcp_gateway::rbac::RuleMatcher;
use mcp_gateway::rbac::RuleSet;
use mcp_gateway::rbac::glob_match_str;
use mcp_gateway::rbac::identity_has_claim;
use mcp_gateway::registry::Target;
use mcp_gateway::registry::TargetRegistry;
use mcp_gateway::registry::TargetSpec;
use mcp_gateway::relay::merge_block_listing;
use mcp_gateway::relay::server_info;
use mcp_gateway::relay::NamedItem;
use mcp_gateway::relay::Relay;
use mcp_gateway::relay::RelayError;
use mcp_gateway::relay::ResourceEntry;

fn anonymous() -> Identity {
    Identity::new(None, None)
}

fn allow_tools(pattern: &str) -> RuleSet {
    RuleSet {
        rules: vec![PolicyRule {
            matcher: RuleMatcher {
                kind: Some(ResourceKind::Tool),
                id_pattern: Some(pattern.to_string()),
                claim: None,
                peer: None,
            },
            decision: Decision::Allow,
        }],
    }
}

fn registry_ab() -> TargetRegistry {
    let mut reg = TargetRegistry::new();
    reg.upsert(Target {
        name: "a".to_string(),
        transport: TargetSpec::Sse { host: "h1".to_string(), port: 1111 },
    });
    reg.upsert(Target {
        name: "b".to_string(),
        transport: TargetSpec::Sse { host: "h2".to_string(), port: 2222 },
    });
    reg
}

#[test]
fn glob_matching() {
    assert!(glob_match_str("a:*", "a:hi"));
    assert!(!glob_match_str("a:*", "b:ho"));
    assert!(glob_match_str("*", "anything"));
    assert!(glob_match_str("exact", "exact"));
    assert!(!glob_match_str("exact", "exactly"));
    assert!(glob_match_str("a*c", "abc"));
    assert!(glob_match_str("a*c", "ac"));
    assert!(!glob_match_str("a*c", "ab"));
    assert!(glob_match_str("*:*", "a:b"));
    assert!(!glob_match_str("*:*", "ab"));
}

#[test]
fn deny_by_default() {
    let rules = RuleSet::new();
    let who = anonymous();
    assert!(!rules.validate(&ResourceRef::Tool { id: "a:hi".to_string() }, &who));
    assert!(!rules.validate(&ResourceRef::Prompt { id: "a:p".to_string() }, &who));
    assert!(!rules.validate(&ResourceRef::Resource { uri: "file:///x".to_string() }, &who));
}

#[test]
fn first_matching_rule_wins() {
    let deny_first = RuleSet {
        rules: vec![
            PolicyRule {
                matcher: RuleMatcher { kind: None, id_pattern: None, claim: None, peer: None },
                decision: Decision::Deny,
            },
            PolicyRule {
                matcher: RuleMatcher { kind: None, id_pattern: None, claim: None, peer: None },
                decision: Decision::Allow,
            },
        ],
    };
    let who = anonymous();
    assert!(!deny_first.validate(&ResourceRef::Tool { id: "a:hi".to_string() }, &who));

    let allow_first = RuleSet {
        rules: vec![
            PolicyRule {
                matcher: RuleMatcher { kind: None, id_pattern: None, claim: None, peer: None },
                decision: Decision::Allow,
            },
            PolicyRule {
                matcher: RuleMatcher { kind: None, id_pattern: None, claim: None, peer: None },
                decision: Decision::Deny,
            },
        ],
    };
    assert!(allow_first.validate(&ResourceRef::Tool { id: "a:hi".to_string() }, &who));
}

#[test]
fn rules_can_require_claims_and_peer() {
    let need_claim = RuleSet {
        rules: vec![PolicyRule {
            matcher: RuleMatcher {
                kind: None,
                id_pattern: None,
                claim: Some(("sub".to_string(), "alice".to_string())),
                peer: None,
            },
            decision: Decision::Allow,
        }],
    };
    let alice = Identity::new(
        Some(vec![("sub".to_string(), "alice".to_string())]),
        None,
    );
    let bob = Identity::new(Some(vec![("sub".to_string(), "bob".to_string())]), None);
    let res = ResourceRef::Tool { id: "a:hi".to_string() };
    assert!(need_claim.validate(&res, &alice));
    assert!(!need_claim.validate(&res, &bob));
    assert!(!need_claim.validate(&res, &anonymous()));
    assert!(identity_has_claim(&alice, &"sub".to_string(), &"alice".to_string()));
    assert!(!identity_has_claim(&alice, &"sub".to_string(), &"bob".to_string()));

    let need_peer = RuleSet {
        rules: vec![PolicyRule {
            matcher: RuleMatcher {
                kind: None,
                id_pattern: None,
                claim: None,
                peer: Some("10.0.0.9".to_string()),
            },
            decision: Decision::Allow,
        }],
    };
    let peered = Identity::new(None, Some("10.0.0.9".to_string()));
    assert!(need_peer.validate(&res, &peered));
    assert!(!need_peer.validate(&res, &anonymous()));
}

#[test]
fn listing_merges_in_snapshot_order_with_namespacing() {
    let relay = Relay::new(RuleSet::new(), anonymous());
    let replies = vec![
        (
            "a".to_string(),
            vec![NamedItem { name: "hi".to_string(), description: Some("greets".to_string()) }],
        ),
        ("b".to_string(), vec![NamedItem { name: "ho".to_string(), description: None }]),
    ];
    let merged = relay.list_tools_merge(replies);
    assert_eq!(merged.len(), 2);
    assert_eq!(merged[0].name, "a:hi");
    assert_eq!(merged[0].description.as_deref(), Some("greets"));
    assert_eq!(merged[1].name, "b:ho");
    assert_eq!(merged[1].description, None);
}

#[test]
fn listing_is_idempotent_and_identity_blind() {
    let replies = || {
        vec![
            ("a".to_string(), vec![NamedItem { name: "hi".to_string(), description: None }]),
            ("b".to_string(), vec![NamedItem { name: "ho".to_string(), description: None }]),
        ]
    };
    let anon = Relay::new(RuleSet::new(), anonymous());
    let named = Relay::new(
        RuleSet::new(),
        Identity::new(Some(vec![("sub".to_string(), "alice".to_string())]), None),
    );
    let first: Vec<String> = anon.list_tools_merge(replies()).into_iter().map(|e| e.name).collect();
    let second: Vec<String> = anon.list_tools_merge(replies()).into_iter().map(|e| e.name).collect();
    let other: Vec<String> = named.list_tools_merge(replies()).into_iter().map(|e| e.name).collect();
    assert_eq!(first, second);
    assert_eq!(first, other);
    assert_eq!(first, vec!["a:hi".to_string(), "b:ho".to_string()]);
}

#[test]
fn merging_keeps_the_order_inside_one_target() {
    let relay = Relay::new(RuleSet::new(), anonymous());
    let replies = vec![(
        "svc".to_string(),
        vec![
            NamedItem { name: "first".to_string(), description: None },
            NamedItem { name: "second".to_string(), description: None },
            NamedItem { name: "third".to_string(), description: None },
        ],
    )];
    let names: Vec<String> = relay.list_tools_merge(replies).into_iter().map(|e| e.name).collect();
    assert_eq!(
        names,
        vec!["svc:first".to_string(), "svc:second".to_string(), "svc:third".to_string()]
    );
}

#[test]
fn empty_upstreams_merge_to_an_empty_listing() {
    let relay = Relay::new(RuleSet::new(), anonymous());
    let replies = vec![("echo".to_string(), Vec::<NamedItem>::new())];
    let merged = relay.list_tools_merge(replies);
    assert!(merged.is_empty());
}

#[test]
fn prompts_merge_like_tools() {
    let relay = Relay::new(RuleSet::new(), anonymous());
    let replies = vec![(
        "a".to_string(),
        vec![NamedItem { name: "prompt1".to_string(), description: None }],
    )];
    let merged = relay.list_prompts_merge(replies);
    assert_eq!(merged.len(), 1);
    assert_eq!(merged[0].name, "a:prompt1");
}

#[test]
fn resources_merge_without_renaming() {
    let replies = vec![
        (
            "a".to_string(),
            vec![ResourceEntry { uri: "file:///x".to_string(), name: "x".to_string() }],
        ),
        (
            "b".to_string(),
            vec![ResourceEntry { uri: "file:///y".to_string(), name: "y".to_string() }],
        ),
    ];
    let merged = merge_block_listing(replies);
    assert_eq!(merged.len(), 2);
    assert_eq!(merged[0].uri, "file:///x");
    assert_eq!(merged[1].uri, "file:///y");
}

#[test]
fn call_tool_denied_without_rules() {
    let reg = registry_ab();
    let relay = Relay::new(RuleSet::new(), anonymous());
    let r = relay.route_call_tool(&reg, "a:hi", ());
    match r {
        Err(e) => {
            assert_eq!(e, RelayError::NotAllowed);
            assert_eq!(e.message(), "not allowed");
            assert_eq!(e.code(), -32600);
        },
        Ok(_) => panic!("expected a denial"),
    }
}

#[test]
fn call_tool_allowed_reaches_the_target() {
    let reg = registry_ab();
    let relay = Relay::new(allow_tools("a:*"), anonymous());
    let d = relay.route_call_tool(&reg, "a:hi", 42u32).unwrap();
    assert_eq!(d.target, "a");
    assert_eq!(d.item, "hi");
    assert_eq!(d.args, 42);

    let denied = relay.route_call_tool(&reg, "b:ho", 42u32);
    assert!(matches!(denied, Err(RelayError::NotAllowed)));
}

#[test]
fn call_tool_rejects_a_name_without_separator() {
    let reg = registry_ab();
    let relay = Relay::new(allow_tools("*"), anonymous());
    let r = relay.route_call_tool(&reg, "nocolon", ());
    match r {
        Err(e) => {
            assert_eq!(e, RelayError::InvalidName);
            assert_eq!(e.code(), -32600);
        },
        Ok(_) => panic!("expected rejection"),
    }
}

#[test]
fn call_tool_after_target_removal_is_unknown() {
    let mut reg = registry_ab();
    let relay = Relay::new(allow_tools("*"), anonymous());
    assert!(relay.route_call_tool(&reg, "a:hi", ()).is_ok());
    reg.remove("a");
    let r = relay.route_call_tool(&reg, "a:hi", ());
    match r {
        Err(e) => {
            assert_eq!(e, RelayError::UnknownTarget);
            assert_eq!(e.message(), "unknown target");
            assert_eq!(e.code(), -32603);
        },
        Ok(_) => panic!("expected unknown target"),
    }
}

#[test]
fn get_prompt_routes_like_call_tool() {
    let reg = registry_ab();
    let allow_prompts = RuleSet {
        rules: vec![PolicyRule {
            matcher: RuleMatcher {
                kind: Some(ResourceKind::Prompt),
                id_pattern: None,
                claim: None,
                peer: None,
            },
            decision: Decision::Allow,
        }],
    };
    let relay = Relay::new(allow_prompts, anonymous());
    let d = relay.route_get_prompt(&reg, "b:greet", ()).unwrap();
    assert_eq!(d.target, "b");
    assert_eq!(d.item, "greet");

    let tools_only = Relay::new(allow_tools("*"), anonymous());
    assert!(matches!(
        tools_only.route_get_prompt(&reg, "b:greet", ()),
        Err(RelayError::NotAllowed)
    ));
}

#[test]
fn read_resource_is_guarded_by_uri() {
    let allow_resources = RuleSet {
        rules: vec![PolicyRule {
            matcher: RuleMatcher {
                kind: Some(ResourceKind::Resource),
                id_pattern: Some("file:///ok/*".to_string()),
                claim: None,
                peer: None,
            },
            decision: Decision::Allow,
        }],
    };
    let relay = Relay::new(allow_resources, anonymous());
    let key = relay.route_read_resource("file:///ok/data").unwrap();
    assert_eq!(key, "file:///ok/data");
    assert!(matches!(
        relay.route_read_resource("file:///secret"),
        Err(RelayError::NotAllowed)
    ));
}

#[test]
fn sessions_with_different_identities_diverge_only_on_calls() {
    let reg = registry_ab();
    let need_claim = || RuleSet {
        rules: vec![PolicyRule {
            matcher: RuleMatcher {
                kind: Some(ResourceKind::Tool),
                id_pattern: None,
                claim: Some(("sub".to_string(), "alice".to_string())),
                peer: None,
            },
            decision: Decision::Allow,
        }],
    };
    let alice = Relay::new(
        need_claim(),
        Identity::new(Some(vec![("sub".to_string(), "alice".to_string())]), None),
    );
    let bob = Relay::new(
        need_claim(),
        Identity::new(Some(vec![("sub".to_string(), "bob".to_string())]), None),
    );
    let replies = || {
        vec![("a".to_string(), vec![NamedItem { name: "hi".to_string(), description: None }])]
    };
    let la: Vec<String> = alice.list_tools_merge(replies()).into_iter().map(|e| e.name).collect();
    let lb: Vec<String> = bob.list_tools_merge(replies()).into_iter().map(|e| e.name).collect();
    assert_eq!(la, lb);
    assert!(alice.route_call_tool(&reg, "a:hi", ()).is_ok());
    assert!(matches!(bob.route_call_tool(&reg, "a:hi", ()), Err(RelayError::NotAllowed)));
}

#[test]
fn server_info_advertises_the_fixed_surface() {
    let meta = server_info();
    assert_eq!(meta.protocol_version, "2024-11-05");
    assert!(meta.capabilities.prompts);
    assert!(meta.capabilities.resources);
    assert!(meta.capabilities.tools);
    assert!(!meta.capabilities.tools_list_changed);
}

#[test]
fn registry_holds_one_entry_per_name() {
    let mut reg = registry_ab();
    assert_eq!(reg.count(), 2);
    reg.upsert(Target {
        name: "a".to_string(),
        transport: TargetSpec::Stdio { cmd: "cat".to_string(), args: vec![] },
    });
    assert_eq!(reg.count(), 2);
    let t = reg.get("a").unwrap();
    assert!(matches!(&t.transport, TargetSpec::Stdio { .. }));
    assert_eq!(reg.snapshot()[0].name, "a");
    assert_eq!(reg.snapshot()[1].name, "b");
    reg.remove("a");
    assert_eq!(reg.count(), 1);
    assert!(reg.get("a").is_none());
    assert!(reg.get("b").is_some());
}

#[test]
fn pool_dials_each_target_at_most_once() {
    let reg = registry_ab();
    let mut pool = ConnectionPool::new();
    assert_eq!(pool.plan_get(&reg, "x"), GetPlan::Unknown);
    assert_eq!(pool.plan_get(&reg, "a"), GetPlan::Dial);
    pool.complete_dial("a", 7);
    for _ in 0..100 {
        assert_eq!(pool.plan_get(&reg, "a"), GetPlan::Existing(7));
    }
    assert_eq!(pool.get_existing("a"), Some(7));
    assert_eq!(pool.plan_get(&reg, "b"), GetPlan::Dial);
}

#[test]
fn fan_out_follows_the_snapshot_order() {
    let reg = registry_ab();
    let mut pool = ConnectionPool::new();
    let cold = pool.plan_snapshot(&reg);
    assert_eq!(cold.len(), 2);
    assert_eq!(cold[0], ("a".to_string(), GetPlan::Dial));
    assert_eq!(cold[1], ("b".to_string(), GetPlan::Dial));
    pool.complete_dial("a", 10);
    pool.complete_dial("b", 11);
    let warm = pool.plan_snapshot(&reg);
    assert_eq!(warm[0], ("a".to_string(), GetPlan::Existing(10)));
    assert_eq!(warm[1], ("b".to_string(), GetPlan::Existing(11)));
    let again = pool.plan_snapshot(&reg);
    assert_eq!(warm, again);
}

#[test]
fn target_names_must_be_usable_as_prefixes() {
    assert!(valid_target_name_str("echo"));
    assert!(!valid_target_name_str(""));
    assert!(!valid_target_name_str("a:b"));
    assert!(!valid_target_name_str(":"));
}

#[test]
fn pool_forgets_an_invalidated_name() {
    let reg = registry_ab();
    let mut pool = ConnectionPool::new();
    pool.complete_dial("a", 1);
    pool.complete_dial("b", 2);
    pool.invalidate("a");
    assert_eq!(pool.get_existing("a"), None);
    assert_eq!(pool.get_existing("b"), Some(2));
    assert_eq!(pool.plan_get(&reg, "a"), GetPlan::Dial);
}
