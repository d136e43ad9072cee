use esclusa_gate::json::Json;
use esclusa_gate::ledger::{
    append, canonical_string, canonical_text, drift_kinds, entry_canonical, hmac_hex, list,
    list_drift, normalize_params, push_field, recent_allow_exists, verify_chain, Entry, Head, LedgerRow, NewEntry, Timestamp,
    ALLOW_WINDOW_MICROS, GENESIS,
};
use serde_json::Value;

const KEY: &[u8] = b"test-signing-key";

fn from_value(v: Value) -> Json {
    match v {
        Value::Null => Json::Null,
        Value::Bool(b) => Json::Bool(b),
        Value::Number(n) => Json::Number(n),
        Value::String(s) => Json::String(s),
        Value::Array(a) => Json::Array(a.into_iter().map(from_value).collect()),
        Value::Object(o) => {
            Json::Object(o.into_iter().map(|(k, x)| (k, from_value(x))).collect())
        }
    }
}

fn json(text: &str) -> Json {
    from_value(serde_json::from_str(text).unwrap())
}

fn build_entry(id: i64, prev_hmac: &str, reason: &str, params: Json) -> Entry {
    let ts = format!("2026-08-08T12:00:0{id}.000000Z");
    let mut e = Entry {
        id,
        ts,
        kind: "decision".to_string(),
        actor: "tester".to_string(),
        action: "service.stop".to_string(),
        target: "oldworker".to_string(),
        decision: "allow".to_string(),
        reason: reason.to_string(),
        policy: "default-record".to_string(),
        params,
        authenticated: false,
        prev_hmac: prev_hmac.to_string(),
        hmac: String::new(),
    };
    e.hmac = hmac_hex(KEY, &entry_canonical(&e));
    e
}

fn chain_of_three() -> Vec<Entry> {
    let e1 = build_entry(1, GENESIS, "first", json("{}"));
    let e2 = build_entry(2, &e1.hmac, "second", json("{\"minContainers\": 2}"));
    let e3 = build_entry(3, &e2.hmac, "third", json("{}"));
    vec![e1, e2, e3]
}

#[test]
fn canonical_string_format_is_pinned() {
    let c = canonical_string(
        7,
        "2026-08-08T12:00:00.000000Z",
        "decision",
        "a",
        "service.stop",
        "db",
        "refuse",
        "r",
        "p",
        &json("{\"x\": 1}"),
        false,
        GENESIS,
    );
    assert_eq!(
        c,
        "1:7|27:2026-08-08T12:00:00.000000Z|8:decision|1:a|12:service.stop|2:db|6:refuse|1:r|1:p|7:{\"x\":1}|1:0|7:genesis|"
    );
}

#[test]
fn canonical_text_frames_the_fields_in_order() {
    let c = canonical_text(
        -7, "ts", "kind", "actor", "action", "target", "decision", "reason", "policy", "{}", true,
        "prev",
    );
    assert_eq!(
        c,
        "2:-7|2:ts|4:kind|5:actor|6:action|6:target|8:decision|6:reason|6:policy|2:{}|1:1|4:prev|"
    );
}

/// A caller controls actor/action/target verbatim. Without length prefixes,
/// planting a `|` lets one field absorb the next, so a row can later be
/// rewritten into a different meaning that still recomputes to the stored
/// HMAC — the exact attack the chain exists to detect.
#[test]
fn delimiter_in_a_field_cannot_forge_a_matching_canonical_string() {
    let planted = canonical_string(
        5,
        "2026-08-08T12:00:00.000000Z",
        "decision",
        "mallory|service.delete|db|allow|operator approved",
        "deploy.push",
        "noop",
        "allow",
        "recorded",
        "default-record",
        &json("{}"),
        false,
        "prev",
    );
    let rewritten = canonical_string(
        5,
        "2026-08-08T12:00:00.000000Z",
        "decision",
        "mallory",
        "service.delete",
        "db",
        "allow",
        "operator approved|deploy.push|noop|allow|recorded",
        "default-record",
        &json("{}"),
        false,
        "prev",
    );
    assert_ne!(planted, rewritten);
    assert_ne!(hmac_hex(KEY, &planted), hmac_hex(KEY, &rewritten));
}

/// `authenticated` is shown in the console and served by /v1/ledger, so it must
/// be covered by the signature like every other displayed field.
#[test]
fn authenticated_flag_is_covered_by_the_signature() {
    let args = |auth: bool| {
        canonical_string(
            1,
            "2026-08-08T12:00:00.000000Z",
            "decision",
            "a",
            "service.stop",
            "db",
            "allow",
            "r",
            "p",
            &json("{}"),
            auth,
            GENESIS,
        )
    };
    assert_ne!(hmac_hex(KEY, &args(false)), hmac_hex(KEY, &args(true)));
}

/// Postgres jsonb turns -0.0 into 0.0; normalizing before signing keeps the
/// insert-time and verify-time canonical strings identical.
#[test]
fn negative_zero_is_normalized_before_signing() {
    let raw = json("{\"n\": -0.0}");
    let normalized = normalize_params(&raw);
    assert_eq!(normalized.to_text(), "{\"n\":0.0}");
    // integers must survive untouched
    let ints = json("{\"minContainers\": 0}");
    assert_eq!(normalize_params(&ints).to_text(), "{\"minContainers\":0}");
}

#[test]
fn params_serialization_is_key_ordered() {
    // insert path and verify path must produce the same compact JSON
    let v: Value = serde_json::from_str("{\"b\":2,\"a\":1}").unwrap();
    assert_eq!(serde_json::to_string(&v).unwrap(), "{\"a\":1,\"b\":2}");
    let written = Json::Object(vec![
        ("b".to_string(), json("2")),
        ("a".to_string(), json("1")),
    ]);
    assert_eq!(written.to_text(), "{\"a\":1,\"b\":2}");
    assert_eq!(from_value(v).to_text(), "{\"a\":1,\"b\":2}");
}

#[test]
fn chain_of_three_verifies() {
    let chain = chain_of_three();
    let report = verify_chain(KEY, &chain);
    assert!(report.valid);
    assert_eq!(report.checked, 3);
    assert_eq!(report.head_hmac.as_deref(), Some(chain[2].hmac.as_str()));
    assert!(report.broken_at.is_none());
}

#[test]
fn empty_chain_is_valid() {
    let report = verify_chain(KEY, &[]);
    assert!(report.valid);
    assert_eq!(report.checked, 0);
    assert!(report.head_hmac.is_none());
}

#[test]
fn tampered_field_breaks_at_that_id() {
    let mut chain = chain_of_three();
    chain[1].reason = "sEcond".to_string(); // one byte flipped
    let report = verify_chain(KEY, &chain);
    assert!(!report.valid);
    assert_eq!(report.broken_at, Some(2));
}

#[test]
fn tampered_params_break_at_that_id() {
    let mut chain = chain_of_three();
    chain[1].params = json("{\"minContainers\": 0}");
    let report = verify_chain(KEY, &chain);
    assert!(!report.valid);
    assert_eq!(report.broken_at, Some(2));
}

#[test]
fn broken_linkage_breaks_at_the_link() {
    let mut chain = chain_of_three();
    chain[2].prev_hmac = format!("{}x", chain[1].hmac);
    let report = verify_chain(KEY, &chain);
    assert!(!report.valid);
    assert_eq!(report.broken_at, Some(3));
}

#[test]
fn rewritten_history_cannot_relink_without_the_key() {
    // Attacker rewrites entry 2 and dutifully re-links entry 3's prev_hmac
    // — without the signing key entry 2's hmac cannot be recomputed.
    let mut chain = chain_of_three();
    chain[1].reason = "rewritten".to_string();
    chain[2].prev_hmac = chain[1].hmac.clone();
    let report = verify_chain(KEY, &chain);
    assert!(!report.valid);
    assert_eq!(report.broken_at, Some(2));
}

#[test]
fn wrong_key_breaks_at_genesis() {
    let chain = chain_of_three();
    let report = verify_chain(b"other-key", &chain);
    assert!(!report.valid);
    assert_eq!(report.broken_at, Some(1));
}

#[test]
fn every_signed_field_is_covered() {
    let edits: Vec<fn(&mut Entry)> = vec![
        |e| e.id += 1,
        |e| e.ts.push('0'),
        |e| e.kind.push('x'),
        |e| e.actor.push('x'),
        |e| e.action.push('x'),
        |e| e.target.push('x'),
        |e| e.decision.push('x'),
        |e| e.reason.push('x'),
        |e| e.policy.push('x'),
        |e| e.params = Json::Null,
        |e| e.authenticated = true,
        |e| e.prev_hmac.push('x'),
    ];
    for edit in edits {
        let mut chain = chain_of_three();
        edit(&mut chain[1]);
        let report = verify_chain(KEY, &chain);
        assert!(!report.valid);
        assert_eq!(report.broken_at, Some(chain[1].id));
    }
}

#[test]
fn resigning_an_entry_breaks_the_next_one() {
    let mut chain = chain_of_three();
    chain[1].reason = "rewritten".to_string();
    chain[1].hmac = hmac_hex(KEY, &entry_canonical(&chain[1]));
    let report = verify_chain(KEY, &chain);
    assert!(!report.valid);
    assert_eq!(report.broken_at, Some(3));
}

#[test]
fn an_edited_signature_breaks_at_that_id() {
    for i in 0..3 {
        let mut chain = chain_of_three();
        chain[i].hmac.push('0');
        let report = verify_chain(KEY, &chain);
        assert!(!report.valid);
        assert_eq!(report.broken_at, Some(i as i64 + 1));
    }
}

#[test]
fn a_cut_off_chain_is_valid_up_to_the_cut() {
    let chain = chain_of_three();
    for n in 0..3 {
        assert!(verify_chain(KEY, &chain[..n]).valid);
    }
}

#[test]
fn hmac_of_a_published_vector() {
    // RFC 4231, test case 2.
    assert_eq!(
        hmac_hex(b"Jefe", "what do ya want for nothing?"),
        "5bdcc146bf60754e6a042426089575c75a003f089d2739839dec58b964ec3843"
    );
}

#[test]
fn a_field_is_framed_by_its_length_in_bytes() {
    let mut out = String::from("x");
    push_field(&mut out, "äb");
    push_field(&mut out, "");
    assert_eq!(out, "x3:äb|0:|");
}

fn new_entry(reason: &str, params: Json) -> NewEntry {
    NewEntry {
        kind: "decision".to_string(),
        actor: "tester".to_string(),
        action: "service.stop".to_string(),
        target: "oldworker".to_string(),
        decision: "allow".to_string(),
        reason: reason.to_string(),
        policy: "default-record".to_string(),
        params,
        authenticated: true,
    }
}

#[test]
fn appended_entries_form_a_valid_chain() {
    let mut chain: Vec<Entry> = Vec::new();
    for n in 0..4 {
        let head = chain.last().map(|e| Head { id: e.id, hmac: e.hmac.clone() });
        let ts = Timestamp { secs: 1_786_190_400 + n, nanos: 1_500 };
        chain.push(append(head, KEY, &ts, new_entry("again", json("{\"n\": -0.0}"))));
    }
    assert_eq!(chain[0].id, 1);
    assert_eq!(chain[0].prev_hmac, GENESIS);
    assert_eq!(chain[0].ts, "2026-08-08T12:00:00.000001Z");
    assert_eq!(chain[3].id, 4);
    assert_eq!(chain[3].prev_hmac, chain[2].hmac);
    assert_eq!(chain[3].params.to_text(), "{\"n\":0.0}");
    assert!(chain[3].authenticated);
    assert!(verify_chain(KEY, &chain).valid);
}

#[test]
fn a_page_lists_newest_first() {
    let mut chain = chain_of_three();
    chain[1].kind = "drift".to_string();
    let (page, total) = list(&chain, 2, 0, None);
    assert_eq!(total, 3);
    assert_eq!(page.iter().map(|e| e.id).collect::<Vec<_>>(), vec![3, 2]);
    let (page, total) = list(&chain, 2, 2, None);
    assert_eq!(total, 3);
    assert_eq!(page.iter().map(|e| e.id).collect::<Vec<_>>(), vec![1]);
    let (page, total) = list(&chain, 10, 0, Some(&["drift", "audit"]));
    assert_eq!(total, 1);
    assert_eq!(page.iter().map(|e| e.id).collect::<Vec<_>>(), vec![2]);
    let (page, total) = list(&chain, 10, 7, None);
    assert_eq!(total, 3);
    assert!(page.is_empty());
}

#[test]
fn drift_lists_drift_and_audit() {
    assert_eq!(drift_kinds(), vec!["drift", "audit"]);
    let mut chain = chain_of_three();
    chain.extend(chain_of_three());
    for (i, kind) in ["drift", "decision", "audit", "system", "drift", "refuse"].iter().enumerate()
    {
        chain[i].kind = kind.to_string();
        chain[i].id = i as i64;
    }
    let (page, total) = list_drift(&chain, 2, 0);
    assert_eq!(total, 3);
    assert_eq!(page.iter().map(|e| e.id).collect::<Vec<_>>(), vec![4, 2]);
    let (page, _) = list_drift(&chain, 2, 2);
    assert_eq!(page.iter().map(|e| e.id).collect::<Vec<_>>(), vec![0]);
}

#[test]
fn a_page_needs_only_the_newest() {
    let chain = chain_of_three();
    for (limit, offset) in [(1, 0), (1, 1), (2, 0)] {
        let n = (limit + offset) as usize;
        let whole = list(&chain, limit, offset, None).0;
        let part = list(&chain[chain.len() - n..], limit, offset, None).0;
        let ids = |page: &Vec<Entry>| page.iter().map(|e| e.id).collect::<Vec<_>>();
        assert_eq!(ids(&whole), ids(&part));
    }
}

fn row(kind: &str, decision: &str, action: &str, target: &str, at: i64) -> LedgerRow {
    LedgerRow {
        kind: kind.to_string(),
        decision: decision.to_string(),
        action: action.to_string(),
        target: target.to_string(),
        at,
    }
}

#[test]
fn an_allow_authorizes_for_thirty_minutes() {
    let t = 1_786_190_400_000_000;
    for action in ["service.stop", "service.delete"] {
        let rows = vec![row("decision", "allow", action, "oldworker", t)];
        assert!(recent_allow_exists(&rows, "oldworker", t));
        assert!(recent_allow_exists(&rows, "oldworker", t + ALLOW_WINDOW_MICROS - 1));
        assert!(!recent_allow_exists(&rows, "oldworker", t + ALLOW_WINDOW_MICROS));
        assert!(!recent_allow_exists(&rows, "db", t));
    }
    assert_eq!(ALLOW_WINDOW_MICROS, 30 * 60 * 1_000_000);
}

#[test]
fn only_an_allow_of_a_removal_authorizes_it() {
    let t = 1_786_190_400_000_000;
    for other in [
        row("decision", "refuse", "service.stop", "oldworker", t),
        row("decision", "allow", "service.scale", "oldworker", t),
        row("system", "allow", "service.stop", "oldworker", t),
    ] {
        assert!(!recent_allow_exists(&[other], "oldworker", t));
    }
    assert!(!recent_allow_exists(&[], "oldworker", t));
    // without an audit, the allow still has to be later than the epoch
    let at_epoch = row("decision", "allow", "service.stop", "oldworker", 0);
    assert!(!recent_allow_exists(&[at_epoch], "oldworker", 0));
}

#[test]
fn stale_rows_do_not_matter() {
    let t = 1_786_190_400_000_000;
    let stale = row("decision", "allow", "service.stop", "oldworker", t - ALLOW_WINDOW_MICROS);
    let other = row("system", "info", "probe.reappear", "oldworker", t - ALLOW_WINDOW_MICROS);
    let fresh = row("decision", "allow", "service.stop", "oldworker", t - 1);
    assert!(!recent_allow_exists(&[stale.clone(), other.clone()], "oldworker", t));
    assert!(recent_allow_exists(&[stale, other, fresh.clone()], "oldworker", t));
    assert!(recent_allow_exists(&[fresh], "oldworker", t));
}

#[test]
fn an_allow_covers_exactly_one_removal() {
    let t = 1_786_190_400_000_000;
    let mut rows = vec![
        row("decision", "allow", "service.stop", "oldworker", t),
        row("audit", "info", "probe.audit", "oldworker", t + 60_000_000),
    ];
    assert!(!recent_allow_exists(&rows, "oldworker", t + 120_000_000));
    // an audit of another service spends nothing
    rows[1].target = "console".to_string();
    assert!(recent_allow_exists(&rows, "oldworker", t + 120_000_000));
    // a fresh allow authorizes again
    rows[1].target = "oldworker".to_string();
    rows.push(row("decision", "allow", "service.stop", "oldworker", t + 90_000_000));
    assert!(recent_allow_exists(&rows, "oldworker", t + 120_000_000));
}
