use esclusa_gate::evaluation::{EvalAction, EvalEvent, EvaluateReq, Evaluation};
use esclusa_gate::http::{client_ip, err, healthz, root, unavailable, Page, Reply};
use esclusa_gate::json::Json;
use esclusa_gate::ledger::{append, Entry, NewEntry, Timestamp};
use esclusa_gate::policy::{PolicyFlags, TopoView};

const GATE: &str = "gate";

fn req(action: Option<&str>, target: Option<&str>) -> EvaluateReq {
    EvaluateReq {
        actor: Some("tester".to_string()),
        action: action.map(str::to_string),
        target: target.map(str::to_string),
        params: None,
    }
}

fn topo() -> Vec<TopoView> {
    vec![
        TopoView { hostname: "db".to_string(), stateful: true },
        TopoView { hostname: "oldworker".to_string(), stateful: false },
    ]
}

fn stored(new: NewEntry) -> Entry {
    append(None, b"key", &Timestamp { secs: 1_786_190_400, nanos: 0 }, new)
}

fn reply_of(e: &Evaluation) -> Option<Reply> {
    match e.action() {
        EvalAction::Send(reply) => Some(reply),
        _ => None,
    }
}

/// Runs a request against a ledger that works.
fn decide(req: EvaluateReq) -> (Reply, Option<NewEntry>) {
    let mut e = Evaluation::begin(true, true);
    let mut body = Some(req);
    let mut recorded = None;
    loop {
        e = match e.action() {
            EvalAction::ReadBody => e.step(EvalEvent::Body(body.take())),
            EvalAction::Connect => e.step(EvalEvent::Connected(true)),
            EvalAction::ReadTopology => e.step(EvalEvent::Topology(Some(topo()))),
            EvalAction::ReadPolicies => e.step(EvalEvent::Policies(Some(PolicyFlags::new()))),
            EvalAction::Append(new) => {
                recorded = Some(new.clone());
                e.step(EvalEvent::Appended(Some(stored(new))))
            }
            EvalAction::Send(reply) => return (reply, recorded),
        };
    }
}

#[test]
fn a_refusal_is_recorded_and_answered() {
    let (reply, recorded) = decide(req(Some("service.delete"), Some("db")));
    let recorded = recorded.unwrap();
    assert_eq!(recorded.kind, "decision");
    assert_eq!(recorded.actor, "tester");
    assert_eq!(recorded.decision, "refuse");
    assert_eq!(recorded.policy, "protect-stateful");
    assert!(recorded.authenticated);
    assert_eq!(recorded.params.to_text(), "{}");
    let entry = stored(recorded);
    assert_eq!(reply.status, 200);
    assert_eq!(
        reply.body.to_text(),
        format!(
            "{{\"decision\":\"refuse\",\"entry\":{{\"hmac\":\"{}\",\"id\":1,\"prev_hmac\":\"genesis\",\"ts\":\"2026-08-08T12:00:00.000000Z\"}},\"policy\":\"protect-stateful\",\"reason\":\"'db' is a stateful service; service.delete risks irreversible data loss\"}}",
            entry.hmac
        )
    );
}

#[test]
fn an_allow_is_recorded_and_answered() {
    let (reply, recorded) = decide(req(Some("service.stop"), Some("oldworker")));
    assert_eq!(recorded.unwrap().decision, "allow");
    assert_eq!(reply.status, 200);
    assert_eq!(reply.body.get("decision").and_then(|d| d.as_str()), Some("allow"));
    assert_eq!(reply.body.get("policy").and_then(|d| d.as_str()), Some("default-record"));
}

#[test]
fn an_actor_who_is_not_named_is_anonymous() {
    for actor in [None, Some(String::new()), Some("  ".to_string())] {
        let mut r = req(Some("deploy.push"), Some("db"));
        r.actor = actor;
        r.params = Some(Json::object().with("n", Json::integer(3)));
        let (_, recorded) = decide(r);
        let recorded = recorded.unwrap();
        assert_eq!(recorded.actor, "anonymous");
        assert_eq!(recorded.params.to_text(), "{\"n\":3}");
    }
}

#[test]
fn action_and_target_are_required() {
    for blank in [None, Some(""), Some(" \t")] {
        let (reply, recorded) = decide(req(blank, Some("db")));
        assert_eq!(reply.status, 400);
        assert_eq!(reply.body.to_text(), "{\"error\":\"missing required field: action\"}");
        assert!(recorded.is_none());
        let (reply, recorded) = decide(req(Some("service.stop"), blank));
        assert_eq!(reply.status, 400);
        assert_eq!(reply.body.to_text(), "{\"error\":\"missing required field: target\"}");
        assert!(recorded.is_none());
    }
    // action is looked at first
    let (reply, _) = decide(req(None, None));
    assert_eq!(reply.body.to_text(), "{\"error\":\"missing required field: action\"}");
}

#[test]
fn a_malformed_body_is_answered_with_400() {
    let e = Evaluation::begin(true, false).step(EvalEvent::Body(None));
    let reply = reply_of(&e).unwrap();
    assert_eq!(reply.status, 400);
    assert_eq!(reply.body.to_text(), "{\"error\":\"malformed JSON body\"}");
}

#[test]
fn over_the_limit_nothing_is_looked_at() {
    let e = Evaluation::begin(false, true);
    let reply = reply_of(&e).unwrap();
    assert_eq!(reply.status, 429);
    assert_eq!(
        reply.body.to_text(),
        "{\"error\":\"rate limit exceeded (30 req/min per client)\"}"
    );
    // and nothing that happens afterwards changes the answer
    let e = e.step(EvalEvent::Body(Some(req(Some("deploy.push"), Some("db")))));
    assert_eq!(reply_of(&e).unwrap().status, 429);
}

#[test]
fn without_the_ledger_there_is_no_decision() {
    let closed = format!("{{\"error\":\"ledger unavailable — the {GATE} fails closed\"}}");
    let body = || EvalEvent::Body(Some(req(Some("service.stop"), Some("oldworker"))));
    let e = Evaluation::begin(true, true).step(body()).step(EvalEvent::Connected(false));
    assert_eq!(reply_of(&e).unwrap().body.to_text(), closed);
    let e = Evaluation::begin(true, true)
        .step(body())
        .step(EvalEvent::Connected(true))
        .step(EvalEvent::Topology(None));
    assert_eq!(reply_of(&e).unwrap().body.to_text(), closed);
    let e = Evaluation::begin(true, true)
        .step(body())
        .step(EvalEvent::Connected(true))
        .step(EvalEvent::Topology(Some(topo())))
        .step(EvalEvent::Policies(None));
    assert_eq!(reply_of(&e).unwrap().status, 503);
    let e = Evaluation::begin(true, true)
        .step(body())
        .step(EvalEvent::Connected(true))
        .step(EvalEvent::Topology(Some(topo())))
        .step(EvalEvent::Policies(Some(PolicyFlags::new())))
        .step(EvalEvent::Appended(None));
    let reply = reply_of(&e).unwrap();
    assert_eq!(reply.status, 503);
    assert_eq!(
        reply.body.to_text(),
        format!(
            "{{\"error\":\"ledger write failed — decision not recorded, the {GATE} fails closed\"}}"
        )
    );
}

#[test]
fn an_event_out_of_turn_ends_the_request() {
    let e = Evaluation::begin(true, true).step(EvalEvent::Connected(true));
    assert_eq!(reply_of(&e).unwrap().status, 503);
}

#[test]
fn error_replies() {
    assert_eq!(unavailable().status, 503);
    let r = err(401, "no");
    assert_eq!(r.status, 401);
    assert_eq!(r.body.to_text(), "{\"error\":\"no\"}");
}

#[test]
fn the_first_forwarded_address_counts() {
    assert_eq!(client_ip(Some("1.2.3.4, 5.6.7.8"), "9.9.9.9"), "1.2.3.4");
    assert_eq!(client_ip(Some("  1.2.3.4  "), "9.9.9.9"), "1.2.3.4");
    assert_eq!(client_ip(Some(""), "9.9.9.9"), "9.9.9.9");
    assert_eq!(client_ip(Some(" , 5.6.7.8"), "9.9.9.9"), "9.9.9.9");
    assert_eq!(client_ip(None, "9.9.9.9"), "9.9.9.9");
}

#[test]
fn a_page_is_clamped() {
    let page = |limit, offset| Page { limit, offset };
    assert_eq!(page(None, None).limit(), 100);
    assert_eq!(page(Some(0), None).limit(), 1);
    assert_eq!(page(Some(-5), None).limit(), 1);
    assert_eq!(page(Some(500), None).limit(), 500);
    assert_eq!(page(Some(501), None).limit(), 500);
    assert_eq!(page(Some(7), None).limit(), 7);
    assert_eq!(page(None, None).offset(), 0);
    assert_eq!(page(None, Some(-1)).offset(), 0);
    assert_eq!(page(None, Some(40)).offset(), 40);
}

#[test]
fn health_needs_the_database_and_the_probes() {
    let h = healthz(true, false, 1000, 941);
    assert!(h.ok && h.db && !h.cache && h.probes);
    assert_eq!(h.body().to_text(), "{\"cache\":false,\"db\":true,\"ok\":true,\"probes\":true}");
    let h = healthz(true, true, 1000, 940);
    assert!(!h.ok && !h.probes && h.cache);
    let h = healthz(false, true, 1000, 1000);
    assert!(!h.ok && h.probes);
    // a clock that went back
    assert!(healthz(true, true, 5, 1000).probes);
}

#[test]
fn the_root_lists_the_endpoints() {
    let r = root("0.1.0");
    assert_eq!(r.get("name").and_then(|n| n.as_str()), Some("esclusa-gate"));
    assert_eq!(r.get("version").and_then(|n| n.as_str()), Some("0.1.0"));
    let Some(Json::Array(list)) = r.get("endpoints") else { panic!("no endpoints") };
    let paths: Vec<&str> =
        list.iter().filter_map(|e| e.get("path").and_then(|p| p.as_str())).collect();
    assert_eq!(
        paths,
        vec![
            "/",
            "/ready",
            "/healthz",
            "/v1/evaluate",
            "/v1/ledger",
            "/v1/ledger/verify",
            "/v1/policies",
            "/v1/topology",
            "/v1/drift",
            "/v1/topology/sync",
            "/v1/demo/decommission"
        ]
    );
    assert_eq!(
        list[9].to_text(),
        "{\"auth\":\"X-Gate-Token required\",\"method\":\"POST\",\"path\":\"/v1/topology/sync\",\"purpose\":\"replace probe set from a fresh snapshot; flag unexplained removals\"}"
    );
}
