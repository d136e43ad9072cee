use esclusa_gate::ledger::NewEntry;
use esclusa_gate::probe::{
    db_notice, delay_ms, flag, handle_failure, handle_success, probe_one, refresh, targets, Probe,
    Silence,
};
use esclusa_gate::topology::TopoRow;
use esclusa_gate::watch::{Watch, WatchAction, WatchEvent};

fn row(hostname: &str, method: &str, status: &str, failures: i32) -> TopoRow {
    TopoRow {
        hostname: hostname.to_string(),
        service_type: "static".to_string(),
        stateful: false,
        probe_method: method.to_string(),
        tcp_port: Some(80),
        status: status.to_string(),
        probe_ok: false,
        consecutive_failures: failures,
        last_probe: None,
        updated_at: "then".to_string(),
    }
}

#[test]
fn how_a_service_is_probed() {
    assert_eq!(probe_one("dns", None), Probe::Dns);
    assert_eq!(probe_one("tcp", Some(5432)), Probe::Tcp(5432));
    assert_eq!(probe_one("tcp", Some(65536 + 7)), Probe::Tcp(7));
    assert_eq!(probe_one("tcp", None), Probe::Silent);
    assert_eq!(probe_one("icmp", Some(1)), Probe::Answered);
}

#[test]
fn removed_services_are_still_probed() {
    let rows = vec![
        row("a", "tcp", "present", 0),
        row("b", "none", "present", 0),
        row("c", "dns", "removed-audited", 3),
        row("d", "tcp", "missing-unaudited", 9),
    ];
    let found: Vec<(String, Probe)> =
        targets(&rows).into_iter().map(|t| (t.hostname, t.probe)).collect();
    assert_eq!(
        found,
        vec![
            ("a".to_string(), Probe::Tcp(80)),
            ("c".to_string(), Probe::Dns),
            ("d".to_string(), Probe::Tcp(80)),
        ]
    );
}

#[test]
fn cycles_are_fifteen_to_eighteen_seconds_apart() {
    assert_eq!(delay_ms(0), 15_000);
    assert_eq!(delay_ms(2_999), 17_999);
    assert_eq!(delay_ms(3_000), 15_000);
    assert_eq!(delay_ms(999_999_999), 15_000 + 999_999_999 % 3000);
}

#[test]
fn the_loop_says_once_that_the_database_is_gone() {
    let mut last = true;
    assert_eq!(db_notice(&mut last, true), None);
    assert_eq!(db_notice(&mut last, false), Some("gate: probe loop idle — db unavailable"));
    assert_eq!(db_notice(&mut last, false), None);
    assert_eq!(db_notice(&mut last, true), Some("gate: probe loop resumed — db available"));
    assert!(last);
}

#[test]
fn an_answer_clears_the_count() {
    let mut r = row("a", "tcp", "present", 2);
    assert!(handle_success(&mut r, "now").is_none());
    assert_eq!(r.consecutive_failures, 0);
    assert!(r.probe_ok);
    assert_eq!(r.status, "present");
    assert_eq!(r.last_probe.as_deref(), Some("now"));
    assert_eq!(r.updated_at, "now");
}

#[test]
fn a_refresh_leaves_the_status_alone() {
    let mut r = row("a", "tcp", "missing-unaudited", 5);
    refresh(&mut r, "now");
    assert_eq!(r.status, "missing-unaudited");
    assert_eq!(r.consecutive_failures, 0);
    assert!(r.probe_ok);
    assert_eq!(r.last_probe.as_deref(), Some("now"));
    assert_eq!(r.updated_at, "now");
}

#[test]
fn an_answer_is_noted_on_the_second_try() {
    let found = || Some((row("a", "tcp", "removed-audited", 5), "now".to_string()));
    let look = || Watch::begin("a".to_string(), true);
    for second in [
        look().step(WatchEvent::Locked(None)),
        look().step(WatchEvent::Locked(found())).step(WatchEvent::Stored(false)),
    ] {
        assert!(matches!(second.action(), WatchAction::Lock(_)));
        let second = second.step(WatchEvent::Locked(found()));
        match second.action() {
            WatchAction::Store(r) => {
                assert_eq!(r.status, "removed-audited");
                assert_eq!(r.consecutive_failures, 0);
                assert!(r.probe_ok);
            }
            _ => panic!("not to be stored"),
        }
        // and nothing follows, whatever becomes of it
        assert!(matches!(second.step(WatchEvent::Stored(false)).action(), WatchAction::Nothing));
    }
    let gone = look().step(WatchEvent::Locked(None)).step(WatchEvent::Locked(None));
    assert!(matches!(gone.action(), WatchAction::Nothing));
}

#[test]
fn an_answer_brings_a_removed_service_back() {
    for status in ["removed-audited", "missing-unaudited"] {
        let mut r = row("a", "tcp", status, 5);
        let e = handle_success(&mut r, "now").unwrap();
        assert_eq!(r.status, "present");
        assert_eq!(e.kind, "system");
        assert_eq!(e.actor, "gate-probe");
        assert_eq!(e.action, "probe.reappear");
        assert_eq!(e.target, "a");
        assert_eq!(e.decision, "info");
        assert_eq!(e.reason, "service answering again; status restored to present");
        assert_eq!(e.params.to_text(), "{}");
        assert!(!e.authenticated);
    }
}

#[test]
fn the_third_silence_makes_a_service_gone() {
    let mut r = row("a", "tcp", "present", 0);
    assert_eq!(handle_failure(&mut r, "t1"), Silence::Counted);
    assert_eq!(handle_failure(&mut r, "t2"), Silence::Counted);
    assert_eq!(handle_failure(&mut r, "t3"), Silence::Gone(3));
    assert_eq!(r.last_probe.as_deref(), Some("t3"));
    assert!(!r.probe_ok);
    // the counter may have jumped past the limit
    assert_eq!(handle_failure(&mut r, "t4"), Silence::Gone(4));
    // a service that is already flagged is only counted
    let mut r = row("a", "tcp", "missing-unaudited", 7);
    assert_eq!(handle_failure(&mut r, "t5"), Silence::Counted);
    assert_eq!(r.consecutive_failures, 8);
}

#[test]
fn a_full_counter_is_left_alone() {
    let mut r = row("a", "tcp", "present", i32::MAX);
    assert_eq!(handle_failure(&mut r, "now"), Silence::Overflow);
    assert_eq!(r.consecutive_failures, i32::MAX);
    assert_eq!(r.updated_at, "then");
}

#[test]
fn a_removal_is_audited_or_drift() {
    let mut r = row("a", "tcp", "present", 3);
    let e = flag(&mut r, 3, Some(true), "now").unwrap();
    assert_eq!(r.status, "removed-audited");
    assert_eq!((e.kind.as_str(), e.decision.as_str()), ("audit", "info"));
    assert_eq!(e.action, "probe.audit");
    assert_eq!(
        e.reason,
        "a stopped answering; matching allow found in the last 30 min — removal audited"
    );
    assert_eq!(e.params.to_text(), "{\"consecutive_failures\":3}");
    for allow in [Some(false), None] {
        let mut r = row("a", "tcp", "present", 4);
        let e = flag(&mut r, 4, allow, "now").unwrap();
        assert_eq!(r.status, "missing-unaudited");
        assert_eq!((e.kind.as_str(), e.decision.as_str()), ("drift", "flag"));
        assert_eq!(e.action, "probe.drift");
        assert_eq!(
            e.reason,
            "a stopped answering after 3 consecutive probe failures with no matching allow — unaudited drift"
        );
        assert_eq!(e.params.to_text(), "{\"consecutive_failures\":4}");
        // another container comes too late
        assert!(flag(&mut r, 4, Some(true), "later").is_none());
        assert_eq!(r.status, "missing-unaudited");
    }
}

/// Follows up a probe against a database that holds one row.
fn follow(row: &mut TopoRow, ok: bool, allow: Option<bool>) -> Vec<NewEntry> {
    let mut w = Watch::begin(row.hostname.clone(), ok);
    let mut entries = Vec::new();
    loop {
        w = match w.action() {
            WatchAction::Lock(host) => {
                assert_eq!(host, row.hostname);
                w.step(WatchEvent::Locked(Some((row.clone(), "now".to_string()))))
            }
            WatchAction::Store(changed) => {
                *row = changed;
                w.step(WatchEvent::Stored(true))
            }
            WatchAction::FindAllow(host) => {
                assert_eq!(host, row.hostname);
                w.step(WatchEvent::Allowed(allow))
            }
            WatchAction::Append(entry) => {
                entries.push(entry);
                w.step(WatchEvent::Appended(true))
            }
            WatchAction::Nothing => return entries,
        };
    }
}

#[test]
fn a_service_goes_and_comes_back() {
    let mut r = row("oldworker", "tcp", "present", 0);
    assert!(follow(&mut r, false, Some(true)).is_empty());
    assert!(follow(&mut r, false, Some(true)).is_empty());
    let entries = follow(&mut r, false, Some(true));
    assert_eq!(entries.len(), 1);
    assert_eq!(entries[0].action, "probe.audit");
    assert_eq!(r.status, "removed-audited");
    // silent for longer: nothing new to tell
    assert!(follow(&mut r, false, None).is_empty());
    assert_eq!(r.consecutive_failures, 4);
    let entries = follow(&mut r, true, None);
    assert_eq!(entries.len(), 1);
    assert_eq!(entries[0].action, "probe.reappear");
    assert_eq!(r.status, "present");
    assert!(follow(&mut r, true, None).is_empty());
    // gone again, with no allow left
    for _ in 0..2 {
        assert!(follow(&mut r, false, Some(false)).is_empty());
    }
    let entries = follow(&mut r, false, Some(false));
    assert_eq!(entries[0].action, "probe.drift");
    assert_eq!(r.status, "missing-unaudited");
}

#[test]
fn whatever_cannot_be_stored_is_not_recorded() {
    let quiet = |w: Watch| matches!(w.action(), WatchAction::Nothing);
    let now = || "now".to_string();
    let w = || Watch::begin("a".to_string(), false);
    assert!(quiet(w().step(WatchEvent::Locked(None))));
    let gone = || w().step(WatchEvent::Locked(Some((row("a", "tcp", "present", 2), now()))));
    assert!(quiet(gone().step(WatchEvent::Stored(false))));
    let claim = || gone().step(WatchEvent::Stored(true)).step(WatchEvent::Allowed(Some(true)));
    assert!(quiet(claim().step(WatchEvent::Locked(None))));
    let late = Some((row("a", "tcp", "removed-audited", 3), now()));
    assert!(quiet(claim().step(WatchEvent::Locked(late))));
    let mark = || claim().step(WatchEvent::Locked(Some((row("a", "tcp", "present", 3), now()))));
    assert!(quiet(mark().step(WatchEvent::Stored(false))));
    assert!(matches!(mark().step(WatchEvent::Stored(true)).action(), WatchAction::Append(_)));
    let full = Some((row("a", "tcp", "present", i32::MAX), now()));
    assert!(quiet(w().step(WatchEvent::Locked(full))));
}
