use esclusa_gate::db::{
    next_delay, policies_to_seed, rows_to_seed, ADVISORY_LOCK_KEY, FIRST_DELAY,
};
use esclusa_gate::http::Reply;
use esclusa_gate::ledger::NewEntry;
use esclusa_gate::sync::{SyncAction, SyncEvent, TopologySync};
use esclusa_gate::topology::{
    claim, default_probe_method, seed, upsert, validate_service, validate_snapshot, views,
    SeedService, Snapshot, TopoRow,
};

const GATE: &str = "gate";

fn service(hostname: &str, method: &str, port: Option<i32>) -> SeedService {
    SeedService {
        hostname: hostname.to_string(),
        service_type: "static".to_string(),
        stateful: false,
        probe_method: method.to_string(),
        tcp_port: port,
    }
}

fn row(hostname: &str, status: &str) -> TopoRow {
    TopoRow {
        hostname: hostname.to_string(),
        service_type: "static".to_string(),
        stateful: false,
        probe_method: "tcp".to_string(),
        tcp_port: Some(80),
        status: status.to_string(),
        probe_ok: true,
        consecutive_failures: 2,
        last_probe: Some("then".to_string()),
        updated_at: "then".to_string(),
    }
}

#[test]
fn services_are_validated() {
    assert_eq!(validate_service(&service("a", "none", None)), Ok(()));
    assert_eq!(validate_service(&service("a", "dns", None)), Ok(()));
    assert_eq!(validate_service(&service("a", "tcp", Some(1))), Ok(()));
    assert_eq!(validate_service(&service("a", "tcp", Some(65535))), Ok(()));
    assert_eq!(
        validate_service(&service(" ", "none", None)),
        Err("hostname must not be empty".to_string())
    );
    for port in [None, Some(0), Some(-1), Some(65536)] {
        assert_eq!(
            validate_service(&service("a", "tcp", port)),
            Err("service 'a': probe_method tcp requires tcp_port 1-65535".to_string())
        );
    }
    assert_eq!(
        validate_service(&service("a", "icmp", None)),
        Err("service 'a': unknown probe_method 'icmp'".to_string())
    );
}

#[test]
fn the_first_faulty_service_is_reported() {
    let snap = Snapshot {
        services: vec![
            service("a", "none", None),
            service("b", "icmp", None),
            service("", "none", None),
        ],
    };
    assert_eq!(
        validate_snapshot(&snap),
        Err("service 'b': unknown probe_method 'icmp'".to_string())
    );
    assert_eq!(validate_snapshot(&Snapshot { services: vec![] }), Ok(()));
}

#[test]
fn the_seed_is_valid() {
    let services = seed();
    let hosts: Vec<&str> = services.iter().map(|s| s.hostname.as_str()).collect();
    assert_eq!(hosts, vec!["gate", "console", "oldworker", "db", "cache", "storage", "zcp"]);
    for s in &services {
        assert_eq!(validate_service(s), Ok(()));
        let stateful = ["db", "cache", "storage"].contains(&s.hostname.as_str());
        assert_eq!(s.stateful, stateful);
    }
    assert_eq!(services[3].tcp_port, Some(5432));
    assert_eq!(services[0].probe_method, default_probe_method());
}

#[test]
fn only_an_empty_model_is_seeded() {
    let rows = rows_to_seed(0, "now");
    assert_eq!(rows.len(), 7);
    for r in &rows {
        assert_eq!(r.status, "present");
        assert!(!r.probe_ok);
        assert_eq!(r.consecutive_failures, 0);
        assert_eq!(r.last_probe, None);
        assert_eq!(r.updated_at, "now");
    }
    assert!(rows_to_seed(7, "now").is_empty());
    assert!(rows_to_seed(1, "now").is_empty());
    assert_eq!(ADVISORY_LOCK_KEY.to_be_bytes()[2..], *b"esclus");
}

#[test]
fn only_missing_policies_are_stored() {
    let all = policies_to_seed(&vec![]);
    let ids: Vec<&str> = all.iter().map(|p| p.id).collect();
    assert_eq!(
        ids,
        vec![
            "protect-stateful",
            "protect-spine",
            "no-scale-to-zero",
            "secret-shield",
            "unknown-target",
            "default-record"
        ]
    );
    assert_eq!(all.iter().map(|p| p.ord).collect::<Vec<_>>(), vec![0, 1, 2, 3, 4, 5]);
    // a second start stores nothing
    let stored: Vec<String> = ids.iter().map(|id| id.to_string()).collect();
    assert!(policies_to_seed(&stored).is_empty());
    let some = vec!["secret-shield".to_string(), "other".to_string()];
    let missing = policies_to_seed(&some);
    assert_eq!(missing.len(), 5);
    assert_eq!(missing[3].id, "unknown-target");
    assert_eq!(missing[3].ord, 4);
    assert_eq!(missing[3].effect, "refuse");
    assert_eq!(missing[4].description, "Allow everything else and record it in the ledger.");
}

#[test]
fn the_waits_double_up_to_thirty_seconds() {
    let mut delay = FIRST_DELAY;
    let mut waits = Vec::new();
    for _ in 0..7 {
        waits.push(delay);
        delay = next_delay(delay);
    }
    assert_eq!(waits, vec![2, 4, 8, 16, 30, 30, 30]);
}

#[test]
fn a_row_counts_as_known_whatever_its_status() {
    let v = views(&[row("a", "present"), row("b", "removed-audited"), row("c", "missing-unaudited")]);
    let hosts: Vec<&str> = v.iter().map(|t| t.hostname.as_str()).collect();
    assert_eq!(hosts, vec!["a", "b", "c"]);
}

#[test]
fn a_listed_service_is_present_again() {
    let r = upsert(Some(row("a", "missing-unaudited")), &service("a", "dns", None), "now");
    assert_eq!(r.status, "present");
    assert_eq!(r.consecutive_failures, 0);
    assert_eq!(r.probe_method, "dns");
    assert_eq!(r.tcp_port, None);
    assert!(r.probe_ok);
    assert_eq!(r.last_probe.as_deref(), Some("then"));
    assert_eq!(r.updated_at, "now");
}

#[test]
fn a_removal_is_claimed_once() {
    let mut r = row("a", "present");
    assert!(claim(&mut r, true, "now"));
    assert_eq!(r.status, "removed-audited");
    assert_eq!(r.updated_at, "now");
    assert!(!claim(&mut r, false, "later"));
    assert_eq!(r.status, "removed-audited");
    assert_eq!(r.updated_at, "now");
    let mut r = row("b", "present");
    assert!(claim(&mut r, false, "now"));
    assert_eq!(r.status, "missing-unaudited");
}

// --- sync ---

struct Run {
    reply: Reply,
    done: Vec<String>,
    entries: Vec<NewEntry>,
}

/// Runs a sync against a database that works, with an allow for some hosts.
fn sync(services: Vec<SeedService>, rows: Vec<TopoRow>, allowed: &[&str]) -> Run {
    let mut s = TopologySync::begin(true);
    let mut body = Some(Snapshot { services });
    let mut model = Some(rows);
    let mut done = Vec::new();
    let mut entries = Vec::new();
    loop {
        s = match s.action() {
            SyncAction::ReadBody => s.step(SyncEvent::Body(body.take())),
            SyncAction::Connect => s.step(SyncEvent::Connected(true)),
            SyncAction::ReadTopology => s.step(SyncEvent::Topology(model.take())),
            SyncAction::Upsert(service) => {
                done.push(format!("upsert {}", service.hostname));
                s.step(SyncEvent::Stored(true))
            }
            SyncAction::FindAllow(host) => {
                done.push(format!("find {host}"));
                s.step(SyncEvent::Allowed(Some(allowed.contains(&host.as_str()))))
            }
            SyncAction::Mark { hostname, audited } => {
                done.push(format!("mark {hostname} {audited}"));
                s.step(SyncEvent::Stored(true))
            }
            SyncAction::Append(entry) => {
                done.push(format!("append {} {}", entry.action, entry.target));
                entries.push(entry);
                s.step(SyncEvent::Stored(true))
            }
            SyncAction::Send(reply) => return Run { reply, done, entries },
        };
    }
}

#[test]
fn a_sync_stores_judges_and_summarizes() {
    let run = sync(
        vec![service("new", "none", None), service("old", "dns", None)],
        vec![
            row("audited", "present"),
            row("drifted", "present"),
            row("flagged", "missing-unaudited"),
            row("old", "removed-audited"),
        ],
        &["audited"],
    );
    assert_eq!(
        run.done,
        vec![
            "upsert new",
            "upsert old",
            "find audited",
            "mark audited true",
            "append sync.audit audited",
            "find drifted",
            "mark drifted false",
            "append sync.drift drifted",
            "append topology.sync ",
        ]
    );
    let summary = "{\"added\":[\"new\"],\"removed_audited\":[\"audited\"],\"removed_unaudited\":[\"drifted\"],\"updated\":[\"old\"]}";
    assert_eq!(run.reply.status, 200);
    assert_eq!(run.reply.body.to_text(), summary);

    let audit = &run.entries[0];
    assert_eq!((audit.kind.as_str(), audit.decision.as_str()), ("audit", "info"));
    assert_eq!(
        audit.reason,
        "audited absent from synced snapshot; matching allow found — removal audited"
    );
    let drift = &run.entries[1];
    assert_eq!((drift.kind.as_str(), drift.decision.as_str()), ("drift", "flag"));
    assert_eq!(
        drift.reason,
        "drifted absent from synced snapshot with no matching allow — unaudited removal"
    );
    let system = &run.entries[2];
    assert_eq!((system.kind.as_str(), system.decision.as_str()), ("system", "info"));
    assert_eq!(system.reason, "topology snapshot synced");
    assert_eq!(system.params.to_text(), summary);
    for e in &run.entries {
        assert_eq!(e.actor, "topology-sync");
        assert_eq!(e.policy, "");
        assert!(e.authenticated);
    }
}

#[test]
fn an_empty_snapshot_finds_everything_gone() {
    let run = sync(vec![], vec![row("a", "present"), row("b", "removed-audited")], &[]);
    assert_eq!(
        run.reply.body.to_text(),
        "{\"added\":[],\"removed_audited\":[],\"removed_unaudited\":[\"a\"],\"updated\":[]}"
    );
}

#[test]
fn a_host_that_is_listed_twice_is_stored_twice() {
    let run = sync(vec![service("a", "none", None), service("a", "none", None)], vec![], &[]);
    assert_eq!(run.done, vec!["upsert a", "upsert a", "append topology.sync "]);
    assert_eq!(
        run.reply.body.to_text(),
        "{\"added\":[\"a\",\"a\"],\"removed_audited\":[],\"removed_unaudited\":[],\"updated\":[]}"
    );
}

#[test]
fn the_same_snapshot_again_flags_nothing() {
    let services = || vec![service("new", "none", None), service("old", "dns", None)];
    let rows = vec![
        row("audited", "present"),
        row("drifted", "present"),
        row("flagged", "missing-unaudited"),
        row("old", "removed-audited"),
    ];
    // carries the sync out on a table
    let mut table = rows.clone();
    let mut s = TopologySync::begin(true);
    loop {
        s = match s.action() {
            SyncAction::ReadBody => {
                s.step(SyncEvent::Body(Some(Snapshot { services: services() })))
            }
            SyncAction::Connect => s.step(SyncEvent::Connected(true)),
            SyncAction::ReadTopology => s.step(SyncEvent::Topology(Some(rows.clone()))),
            SyncAction::Upsert(service) => {
                let at = table.iter().position(|r| r.hostname == service.hostname);
                let existing = at.map(|i| table.remove(i));
                table.push(upsert(existing, &service, "now"));
                s.step(SyncEvent::Stored(true))
            }
            SyncAction::FindAllow(host) => s.step(SyncEvent::Allowed(Some(host == "audited"))),
            SyncAction::Mark { hostname, audited } => {
                for r in table.iter_mut().filter(|r| r.hostname == hostname) {
                    claim(r, audited, "now");
                }
                s.step(SyncEvent::Stored(true))
            }
            SyncAction::Append(_) => s.step(SyncEvent::Stored(true)),
            SyncAction::Send(_) => break,
        };
    }
    table.sort_by(|a, b| a.hostname.cmp(&b.hostname));
    let seen: Vec<(&str, &str, &str)> = table
        .iter()
        .map(|r| (r.hostname.as_str(), r.status.as_str(), r.updated_at.as_str()))
        .collect();
    assert_eq!(
        seen,
        vec![
            ("audited", "removed-audited", "now"),
            ("drifted", "missing-unaudited", "now"),
            ("flagged", "missing-unaudited", "then"),
            ("new", "present", "now"),
            ("old", "present", "now"),
        ]
    );
    let run = sync(services(), table, &[]);
    assert_eq!(
        run.reply.body.to_text(),
        "{\"added\":[],\"removed_audited\":[],\"removed_unaudited\":[],\"updated\":[\"new\",\"old\"]}"
    );
}

fn answer(s: &TopologySync) -> (u16, String) {
    match s.action() {
        SyncAction::Send(reply) => (reply.status, reply.body.to_text()),
        _ => panic!("not finished"),
    }
}

#[test]
fn a_sync_needs_the_token() {
    let s = TopologySync::begin(false);
    let want = (401, "{\"error\":\"missing or invalid X-Gate-Token\"}".to_string());
    assert_eq!(answer(&s), want);
    let s = s.step(SyncEvent::Body(Some(Snapshot { services: vec![] })));
    assert_eq!(answer(&s), want);
}

#[test]
fn a_bad_snapshot_is_answered_with_400() {
    let s = TopologySync::begin(true).step(SyncEvent::Body(None));
    assert_eq!(
        answer(&s),
        (
            400,
            "{\"error\":\"malformed body: expected {\\\"services\\\": [{hostname, service_type, stateful, probe_method, tcp_port}]}\"}".to_string()
        )
    );
    let snap = Snapshot { services: vec![service("", "none", None)] };
    let s = TopologySync::begin(true).step(SyncEvent::Body(Some(snap)));
    assert_eq!(answer(&s), (400, "{\"error\":\"hostname must not be empty\"}".to_string()));
}

#[test]
fn a_failing_sync_ends_with_503() {
    let begun = || {
        TopologySync::begin(true)
            .step(SyncEvent::Body(Some(Snapshot { services: vec![service("a", "none", None)] })))
    };
    let read = || {
        begun()
            .step(SyncEvent::Connected(true))
            .step(SyncEvent::Topology(Some(vec![row("b", "present")])))
    };
    let stored = || read().step(SyncEvent::Stored(true));
    let judged = || stored().step(SyncEvent::Allowed(None));
    let marked = || judged().step(SyncEvent::Stored(true));
    let recorded = || marked().step(SyncEvent::Stored(true));
    let closed = (503, format!("{{\"error\":\"ledger unavailable — the {GATE} fails closed\"}}"));
    assert_eq!(answer(&begun().step(SyncEvent::Connected(false))), closed);
    assert_eq!(
        answer(&begun().step(SyncEvent::Connected(true)).step(SyncEvent::Topology(None))),
        closed
    );
    assert_eq!(answer(&read().step(SyncEvent::Stored(false))), closed);
    assert_eq!(answer(&judged().step(SyncEvent::Stored(false))), closed);
    assert_eq!(answer(&marked().step(SyncEvent::Stored(false))), closed);
    assert_eq!(answer(&recorded().step(SyncEvent::Stored(false))), closed);
    assert_eq!(answer(&recorded().step(SyncEvent::Allowed(Some(true)))), closed);
    // a search for an allow that fails counts as one that found none
    match judged().action() {
        SyncAction::Mark { hostname, audited } => {
            assert_eq!(hostname, "b");
            assert!(!audited);
        }
        _ => panic!("not to be marked"),
    }
    assert_eq!(answer(&recorded().step(SyncEvent::Stored(true))).0, 200);
}
