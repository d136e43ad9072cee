use esclusa_gate::json::Json;
use esclusa_gate::policy::{evaluate, policies, Decision, Effect, PolicyFlags, TopoView};
use serde_json::Value;

const GATE: &str = "gate";

fn from_value(v: Value) -> Json {
    match v {
        Value::Null => Json::Null,
        Value::Bool(b) => Json::Bool(b),
        Value::Number(n) => Json::Number(n),
        Value::String(s) => Json::String(s),
        Value::Array(a) => Json::Array(a.into_iter().map(from_value).collect()),
        Value::Object(o) => {
            Json::Object(o.into_iter().map(|(k, x)| (k, from_value(x))).collect())
        }
    }
}

fn json(text: &str) -> Json {
    from_value(serde_json::from_str(text).unwrap())
}

fn topo() -> Vec<TopoView> {
    [
        ("gate", false),
        ("console", false),
        ("db", true),
        ("cache", true),
        ("storage", true),
        ("oldworker", false),
        ("zcp", false),
    ]
    .into_iter()
    .map(|(h, s)| TopoView { hostname: h.to_string(), stateful: s })
    .collect()
}

fn all_on() -> PolicyFlags {
    PolicyFlags::new() // absent = enabled
}

fn run(action: &str, target: &str, params: Json) -> Decision {
    evaluate(action, target, &params, &topo(), &all_on())
}

fn keyed(key: &str) -> Json {
    Json::Object(vec![("key".to_string(), Json::String(key.to_string()))])
}

// --- protect-stateful ---

#[test]
fn protect_stateful_refuses_delete_and_stop_of_stateful() {
    for action in ["service.delete", "service.stop"] {
        for target in ["db", "cache", "storage"] {
            let d = run(action, target, json("{}"));
            assert_eq!(d.effect, Effect::Refuse, "{action} {target}");
            assert_eq!(d.policy, "protect-stateful");
        }
    }
}

#[test]
fn protect_stateful_passes_non_stateful_and_other_actions() {
    let d = run("service.delete", "oldworker", json("{}"));
    assert_eq!(d.effect, Effect::Allow);
    assert_eq!(d.policy, "default-record");

    let d = run("service.start", "db", json("{}"));
    assert_eq!(d.effect, Effect::Allow);
    assert_eq!(d.policy, "default-record");
}

#[test]
fn protect_stateful_disabled_falls_through() {
    let mut enabled = all_on();
    enabled.insert("protect-stateful".to_string(), false);
    let d = evaluate("service.delete", "db", &json("{}"), &topo(), &enabled);
    assert_eq!(d.effect, Effect::Allow);
    assert_eq!(d.policy, "default-record");
}

// --- protect-spine ---

#[test]
fn protect_spine_refuses_stop_delete_envdelete_on_spine() {
    for action in ["service.delete", "service.stop", "env.delete"] {
        for target in ["gate", "console"] {
            let d = run(action, target, json("{}"));
            assert_eq!(d.effect, Effect::Refuse, "{action} {target}");
            assert_eq!(d.policy, "protect-spine");
        }
    }
}

#[test]
fn protect_spine_passes_other_actions_and_targets() {
    let d = run("env.set", "gate", json("{\"key\": \"LOG_LEVEL\"}"));
    assert_eq!(d.effect, Effect::Allow);

    let d = run("service.stop", "oldworker", json("{}"));
    assert_eq!(d.effect, Effect::Allow);
    assert_eq!(d.policy, "default-record");
}

// --- no-scale-to-zero ---

#[test]
fn no_scale_to_zero_refuses_min_containers_zero() {
    let d = run("service.scale", "oldworker", json("{\"minContainers\": 0}"));
    assert_eq!(d.effect, Effect::Refuse);
    assert_eq!(d.policy, "no-scale-to-zero");
}

#[test]
fn no_scale_to_zero_passes_nonzero_or_absent() {
    let d = run("service.scale", "oldworker", json("{\"minContainers\": 1}"));
    assert_eq!(d.effect, Effect::Allow);

    let d = run("service.scale", "oldworker", json("{}"));
    assert_eq!(d.effect, Effect::Allow);
}

#[test]
fn no_scale_to_zero_precedes_unknown_target() {
    // Engine order: rule 3 before rule 5.
    let d = run("service.scale", "ghost", json("{\"minContainers\": 0}"));
    assert_eq!(d.effect, Effect::Refuse);
    assert_eq!(d.policy, "no-scale-to-zero");
}

// --- secret-shield ---

#[test]
fn secret_shield_refuses_credential_keys_case_insensitive() {
    for key in
        ["API_TOKEN", "api_token", "MASTER_KEY", "client_secret", "DB_PASSWORD", "ROOTPASSWORD"]
    {
        let d = run("env.set", "oldworker", keyed(key));
        assert_eq!(d.effect, Effect::Refuse, "key {key}");
        assert_eq!(d.policy, "secret-shield");
    }
    let d = run("env.delete", "oldworker", json("{\"key\": \"SOME_KEY\"}"));
    assert_eq!(d.effect, Effect::Refuse);
    assert_eq!(d.policy, "secret-shield");
}

#[test]
fn secret_shield_passes_plain_keys_and_other_actions() {
    let d = run("env.set", "oldworker", json("{\"key\": \"LOG_LEVEL\"}"));
    assert_eq!(d.effect, Effect::Allow);

    // suffix must anchor at the end
    let d = run("env.set", "oldworker", json("{\"key\": \"PASSWORD_HINT\"}"));
    assert_eq!(d.effect, Effect::Allow);

    // non-env action with a scary param is not shielded
    let d = run("deploy.push", "oldworker", json("{\"key\": \"API_TOKEN\"}"));
    assert_eq!(d.effect, Effect::Allow);
}

// --- unknown-target ---

#[test]
fn unknown_target_refuses_service_and_env_actions_on_ghosts() {
    let d = run("service.stop", "ghost", json("{}"));
    assert_eq!(d.effect, Effect::Refuse);
    assert_eq!(d.policy, "unknown-target");

    let d = run("env.set", "ghost", json("{\"key\": \"LOG_LEVEL\"}"));
    assert_eq!(d.effect, Effect::Refuse);
    assert_eq!(d.policy, "unknown-target");
}

#[test]
fn unknown_target_service_create_refuses_only_collisions() {
    let d = run("service.create", "oldworker", json("{}"));
    assert_eq!(d.effect, Effect::Refuse);
    assert_eq!(d.policy, "unknown-target");

    let d = run("service.create", "newsvc", json("{}"));
    assert_eq!(d.effect, Effect::Allow);
    assert_eq!(d.policy, "default-record");
}

#[test]
fn unknown_target_ignores_non_service_env_verbs() {
    let d = run("deploy.push", "ghost", json("{}"));
    assert_eq!(d.effect, Effect::Allow);
    assert_eq!(d.policy, "default-record");
}

// --- default-record ---

#[test]
fn default_record_allows_everything_else() {
    let d = run("deploy.push", "gate", json("{}"));
    assert_eq!(d.effect, Effect::Allow);
    assert_eq!(d.policy, "default-record");

    let d = run("database.vacuum", "db", json("{}"));
    assert_eq!(d.effect, Effect::Allow);
    assert_eq!(d.policy, "default-record");
}

#[test]
fn order_stateful_wins_over_spine_class_rules() {
    // db is stateful and known: rule 1 must answer, not rule 5.
    let d = run("service.stop", "db", json("{}"));
    assert_eq!(d.policy, "protect-stateful");
    // gate is spine but not stateful: rule 2 answers.
    let d = run("service.stop", "gate", json("{}"));
    assert_eq!(d.policy, "protect-spine");
}

// --- reasons and edges ---

#[test]
fn reasons_name_the_target_and_the_action() {
    assert_eq!(
        run("service.delete", "db", json("{}")).reason,
        "'db' is a stateful service; service.delete risks irreversible data loss"
    );
    assert_eq!(
        run("env.delete", "gate", json("{}")).reason,
        format!(
            "'gate' is part of the audit spine; the {GATE} refuses env.delete against its own surface"
        )
    );
    assert_eq!(
        run("service.scale", "zcp", json("{\"minContainers\": 0}")).reason,
        "scaling 'zcp' to minContainers=0 silently removes the service; use an explicit stop"
    );
    assert_eq!(
        run("env.set", "zcp", keyed("api_Key")).reason,
        format!("env key 'api_Key' looks like a credential; the {GATE} refuses to touch secrets")
    );
    assert_eq!(
        run("service.create", "db", json("{}")).reason,
        "hostname 'db' already exists in the topology model"
    );
    assert_eq!(
        run("service.stop", "ghost", json("{}")).reason,
        format!(
            "'ghost' is not in the topology model; the {GATE} cannot evaluate what it cannot see"
        )
    );
    assert_eq!(
        run("deploy.push", "db", json("{}")).reason,
        "no refusal policy matched; action allowed and recorded"
    );
}

#[test]
fn every_zero_scales_to_zero() {
    for zero in ["0", "0.0", "-0.0", "-0", "0e5", "1e-400"] {
        let params = json(&format!("{{\"minContainers\": {zero}}}"));
        assert_eq!(run("service.scale", "zcp", params).policy, "no-scale-to-zero", "{zero}");
    }
    for other in ["\"0\"", "null", "false", "[0]", "0.5", "-1", "18446744073709551615"] {
        let params = json(&format!("{{\"minContainers\": {other}}}"));
        assert_eq!(run("service.scale", "zcp", params).policy, "default-record", "{other}");
    }
    // params that are no object hold nothing
    assert_eq!(run("service.scale", "zcp", json("[0]")).policy, "default-record");
}

#[test]
fn the_last_of_two_members_counts() {
    let twice = Json::Object(vec![
        ("key".to_string(), Json::String("API_TOKEN".to_string())),
        ("key".to_string(), Json::String("LOG_LEVEL".to_string())),
    ]);
    assert_eq!(run("env.set", "zcp", twice).policy, "default-record");
}

#[test]
fn a_disabled_policy_decides_nothing() {
    for (id, action, target, params) in [
        ("protect-stateful", "service.stop", "db", "{}"),
        ("protect-spine", "service.stop", "gate", "{}"),
        ("no-scale-to-zero", "service.scale", "zcp", "{\"minContainers\": 0}"),
        ("secret-shield", "env.set", "zcp", "{\"key\": \"A_KEY\"}"),
        ("unknown-target", "service.stop", "ghost", "{}"),
    ] {
        let mut enabled = all_on();
        enabled.insert(id.to_string(), true);
        assert_eq!(evaluate(action, target, &json(params), &topo(), &enabled).policy, id);
        enabled.insert(id.to_string(), false);
        let d = evaluate(action, target, &json(params), &topo(), &enabled);
        assert_eq!(d.policy, "default-record");
        assert_eq!(d.effect, Effect::Allow);
    }
}

#[test]
fn the_policy_table_is_in_engine_order() {
    let rows = policies();
    let ids: Vec<&str> = rows.iter().map(|r| r.id).collect();
    assert_eq!(
        ids,
        vec![
            "protect-stateful",
            "protect-spine",
            "no-scale-to-zero",
            "secret-shield",
            "unknown-target",
            "default-record"
        ]
    );
    for (i, r) in rows.iter().enumerate() {
        assert_eq!(r.ord, i as i32);
        assert_eq!(r.effect, if i < 5 { "refuse" } else { "allow" });
    }
    assert_eq!(
        rows[1].description,
        format!(
            "Refuse service.delete/service.stop/env.delete against gate or console — the {GATE} defends its own audit surface."
        )
    );
    assert_eq!(rows[2].description, "Refuse service.scale with params.minContainers == 0.");
}
