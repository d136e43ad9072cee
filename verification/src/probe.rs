//! The probe loop: what to probe, and what an answer or a silence means for the
//! topology model.

use vstd::prelude::*;
use vstd::string::*;

use crate::json;
use crate::json::Json;
use crate::ledger;
use crate::ledger::NewEntry;
use crate::text;
use crate::topology;
use crate::topology::{claim, TopoRow, MISSING_UNAUDITED, PRESENT, REMOVED_AUDITED};

verus! {

// ---------------------------------------------------------------------------
// What to probe
// ---------------------------------------------------------------------------

/// How a service is probed.
#[derive(Debug, Clone, Copy, PartialEq, Eq, Structural)]
pub enum Probe {
    /// By looking up its hostname.
    Dns,
    /// By connecting to its port.
    Tcp(u16),
    /// Not at all: it counts as silent.
    Silent,
    /// Not at all: it counts as answering.
    Answered,
}

/// A service to probe.
#[derive(Debug)]
pub struct Target {
    pub hostname: String,
    pub probe: Probe,
}

/// What a [`Target`] says.
#[verifier::ext_equal]
pub struct TargetView {
    pub hostname: Seq<char>,
    pub probe: Probe,
}

impl View for Target {
    type V = TargetView;

    open spec fn view(&self) -> TargetView {
        TargetView { hostname: self.hostname@, probe: self.probe }
    }
}

/// How a service is probed, from its method and port.
pub open spec fn probe_of(method: Seq<char>, port: Option<i32>) -> Probe {
    if method == "dns"@ {
        Probe::Dns
    } else if method == "tcp"@ {
        match port {
            Some(p) => Probe::Tcp(p as u16),
            None => Probe::Silent,
        }
    } else {
        Probe::Answered
    }
}

/// How a service is probed, from its method and port.
pub fn probe_one(method: &str, port: Option<i32>) -> (r: Probe)
    ensures
        r == probe_of(method@, port),
        method@ == "dns"@ ==> r == Probe::Dns,
        method@ != "dns"@ && method@ != "tcp"@ ==> r == Probe::Answered,
{
    if text::str_eq(method, "dns") {
        Probe::Dns
    } else if text::str_eq(method, "tcp") {
        match port {
            Some(p) => Probe::Tcp(p as u16),
            None => Probe::Silent,
        }
    } else {
        Probe::Answered
    }
}

/// The services among the first `n` rows that are probed.
pub open spec fn probed(rows: Seq<topology::TopoRowView>, n: nat) -> Seq<TargetView>
    decreases n,
{
    if n == 0 || n > rows.len() {
        Seq::empty()
    } else {
        let before = probed(rows, (n - 1) as nat);
        let s = rows[n - 1].service;
        if s.probe_method == "none"@ {
            before
        } else {
            before.push(
                TargetView { hostname: s.hostname, probe: probe_of(s.probe_method, s.tcp_port) },
            )
        }
    }
}

/// What the targets of a list say.
pub open spec fn target_views(targets: Seq<Target>) -> Seq<TargetView> {
    Seq::new(targets.len(), |i: int| targets[i]@)
}

/// The services to probe in a cycle: every one that can be probed, removed ones
/// too. A hostname that answers again must come back to `present`; otherwise one
/// approved removal would make that service invisible forever.
pub fn targets(rows: &Vec<TopoRow>) -> (r: Vec<Target>)
    ensures
        target_views(r@) == probed(topology::row_views(rows@), rows@.len()),
        forall|i: int|
            0 <= i < rows@.len() && (#[trigger] rows@[i]).probe_method@ != "none"@ ==> exists|k: int|
                0 <= k < r@.len() && (#[trigger] r@[k]).hostname@ == rows@[i].hostname@
                    && r@[k].probe == probe_of(rows@[i].probe_method@, rows@[i].tcp_port),
        forall|k: int|
            0 <= k < r@.len() ==> exists|i: int|
                0 <= i < rows@.len() && (#[trigger] rows@[i]).probe_method@ != "none"@
                    && (#[trigger] r@[k]).hostname@ == rows@[i].hostname@ && r@[k].probe
                    == probe_of(rows@[i].probe_method@, rows@[i].tcp_port),
{
    let ghost views = topology::row_views(rows@);
    let mut r: Vec<Target> = Vec::new();
    let mut i: usize = 0;
    assert(target_views(r@) =~= probed(views, 0));
    while i < rows.len()
        invariant
            i <= rows@.len(),
            views == topology::row_views(rows@),
            target_views(r@) == probed(views, i as nat),
        decreases rows@.len() - i,
    {
        let ghost before = target_views(r@);
        let row = &rows[i];
        assert(views[i as int] == row@);
        if !text::str_eq(row.probe_method.as_str(), "none") {
            r.push(
                Target {
                    hostname: row.hostname.clone(),
                    probe: probe_one(row.probe_method.as_str(), row.tcp_port),
                },
            );
            assert(target_views(r@) =~= before.push(r@.last()@));
        }
        i = i + 1;
    }
    proof {
        let found = target_views(r@);
        assert forall|i: int|
            0 <= i < rows@.len() && (#[trigger] rows@[i]).probe_method@ != "none"@ implies exists|
            k: int,
        |
            0 <= k < r@.len() && (#[trigger] r@[k]).hostname@ == rows@[i].hostname@ && r@[k].probe
                == probe_of(rows@[i].probe_method@, rows@[i].tcp_port) by {
            assert(views[i] == rows@[i]@);
            law_every_row_with_a_method_is_probed(views, i);
            let k = choose|k: int|
                0 <= k < found.len() && #[trigger] found[k] == (TargetView {
                    hostname: views[i].service.hostname,
                    probe: probe_of(views[i].service.probe_method, views[i].service.tcp_port),
                });
            assert(found[k] == r@[k]@);
        }
        assert forall|k: int| 0 <= k < r@.len() implies exists|i: int|
            0 <= i < rows@.len() && (#[trigger] rows@[i]).probe_method@ != "none"@
                && (#[trigger] r@[k]).hostname@ == rows@[i].hostname@ && r@[k].probe == probe_of(
                rows@[i].probe_method@,
                rows@[i].tcp_port,
            ) by {
            assert(found[k] == r@[k]@);
            law_every_target_comes_from_a_row(views, k);
            let i = choose|i: int|
                0 <= i < views.len() && (#[trigger] views[i]).service.probe_method != "none"@
                    && found[k].hostname == views[i].service.hostname && found[k].probe == probe_of(
                    views[i].service.probe_method,
                    views[i].service.tcp_port,
                );
            assert(views[i] == rows@[i]@);
        }
    }
    r
}

/// What is probed does not depend on what became of a service: a removed one is
/// watched like any other.
pub proof fn law_removed_services_are_still_probed(
    a: Seq<topology::TopoRowView>,
    b: Seq<topology::TopoRowView>,
    n: nat,
)
    requires
        a.len() == b.len(),
        forall|i: int| 0 <= i < a.len() ==> (#[trigger] a[i]).service == b[i].service,
    ensures
        probed(a, n) == probed(b, n),
    decreases n,
{
    if 0 < n <= a.len() {
        law_removed_services_are_still_probed(a, b, (n - 1) as nat);
        assert(a[n - 1].service == b[n - 1].service);
    }
}

/// A service that a snapshot may hold is probed at the port it names, or by its
/// hostname.
pub proof fn law_a_valid_service_is_probed_as_it_says(s: topology::ServiceView)
    requires
        topology::service_error(s) is None,
        s.probe_method != "none"@,
    ensures
        match probe_of(s.probe_method, s.tcp_port) {
            Probe::Dns => s.probe_method == "dns"@,
            Probe::Tcp(port) => s.probe_method == "tcp"@ && s.tcp_port == Some(port as i32) && port
                > 0,
            _ => false,
        },
{
    if s.probe_method == "tcp"@ {
        reveal_strlit("dns");
        reveal_strlit("tcp");
        assert("dns"@[0] != "tcp"@[0]);
    }
}

/// Milliseconds from one cycle to the next: 15 seconds and some noise of the
/// clock below 3 seconds.
pub fn delay_ms(subsec_nanos: u32) -> (r: u64)
    ensures
        r == 15_000 + subsec_nanos % 3000,
        15_000 <= r < 18_000,
{
    15_000 + (subsec_nanos % 3000) as u64
}

/// What the loop has to say when the database went away or came back. It says so
/// once, not in every cycle.
pub fn db_notice(db_ok_last: &mut bool, available: bool) -> (r: Option<&'static str>)
    ensures
        *final(db_ok_last) == available,
        match r {
            Some(s) => *old(db_ok_last) != available && s@ == if available {
                "gate: probe loop resumed — db available"@
            } else {
                "gate: probe loop idle — db unavailable"@
            },
            None => *old(db_ok_last) == available,
        },
{
    let before = *db_ok_last;
    *db_ok_last = available;
    if before && !available {
        Some("gate: probe loop idle — db unavailable")
    } else if !before && available {
        Some("gate: probe loop resumed — db available")
    } else {
        None
    }
}

// ---------------------------------------------------------------------------
// An answer
// ---------------------------------------------------------------------------

/// The service was marked as gone.
pub open spec fn was_gone(row: topology::TopoRowView) -> bool {
    row.status == MISSING_UNAUDITED@ || row.status == REMOVED_AUDITED@
}

/// What a row becomes when its service answers, its status apart.
pub open spec fn refreshed(row: topology::TopoRowView, now: Seq<char>) -> topology::TopoRowView {
    topology::TopoRowView {
        probe_ok: true,
        consecutive_failures: 0,
        last_probe: Some(now),
        updated_at: now,
        ..row
    }
}

/// What a row becomes when its service answers.
pub open spec fn answered(row: topology::TopoRowView, now: Seq<char>) -> topology::TopoRowView {
    topology::TopoRowView {
        status: if was_gone(row) {
            PRESENT@
        } else {
            row.status
        },
        ..refreshed(row, now)
    }
}

/// Takes note that a service answered, without looking at its status.
pub fn refresh(row: &mut TopoRow, now: &str)
    ensures
        final(row)@ == refreshed(old(row)@, now@),
        final(row).status@ == old(row).status@,
        final(row).probe_ok,
        final(row).consecutive_failures == 0,
{
    row.probe_ok = true;
    row.consecutive_failures = 0;
    row.last_probe = Some(now.to_owned());
    row.updated_at = now.to_owned();
}

/// The ledger entry of a service that is back.
pub open spec fn reappear_entry(host: Seq<char>) -> ledger::NewEntryView {
    ledger::NewEntryView {
        kind: "system"@,
        actor: "gate-probe"@,
        action: "probe.reappear"@,
        target: host,
        decision: "info"@,
        reason: "service answering again; status restored to present"@,
        policy: ""@,
        params: json::Doc::empty_object(),
        authenticated: false,
    }
}

/// Takes note that a service answered. If it was marked as gone, it is present
/// again, and that is to be recorded.
pub fn handle_success(row: &mut TopoRow, now: &str) -> (r: Option<NewEntry>)
    ensures
        final(row)@ == answered(old(row)@, now@),
        match r {
            Some(e) => was_gone(old(row)@) && e@ == reappear_entry(old(row)@.service.hostname),
            None => !was_gone(old(row)@),
        },
        r is Some <==> old(row).status@ == "missing-unaudited"@ || old(row).status@
            == "removed-audited"@,
        r is Some ==> final(row).status@ == "present"@,
        r is None ==> final(row).status@ == old(row).status@,
        r matches Some(e) ==> e.target@ == old(row).hostname@ && e.action@ == "probe.reappear"@
            && e.kind@ == "system"@ && !e.authenticated,
        final(row).hostname@ == old(row).hostname@,
        final(row).stateful == old(row).stateful,
        final(row).probe_ok,
        final(row).consecutive_failures == 0,
{
    let reappeared = text::str_eq(row.status.as_str(), MISSING_UNAUDITED) || text::str_eq(
        row.status.as_str(),
        REMOVED_AUDITED,
    );
    refresh(row, now);
    if reappeared {
        row.status = PRESENT.to_owned();
        Some(
            NewEntry {
                kind: "system".to_owned(),
                actor: "gate-probe".to_owned(),
                action: "probe.reappear".to_owned(),
                target: row.hostname.clone(),
                decision: "info".to_owned(),
                reason: "service answering again; status restored to present".to_owned(),
                policy: "".to_owned(),
                params: Json::object(),
                authenticated: false,
            },
        )
    } else {
        None
    }
}

// ---------------------------------------------------------------------------
// A silence
// ---------------------------------------------------------------------------

/// Probes in a row that have to fail before a service counts as gone.
pub const FAILURE_LIMIT: i32 = 3;

/// What a silence comes to.
#[derive(Debug, Clone, Copy, PartialEq, Eq, Structural)]
pub enum Silence {
    /// The counter is full; the row stays as it is.
    Overflow,
    /// It was counted.
    Counted,
    /// It was counted, and the service counts as gone, after so many failures.
    /// Whether its removal was authorized is to be looked up.
    Gone(i32),
}

/// What a row becomes when its service is silent.
pub open spec fn silent(row: topology::TopoRowView, now: Seq<char>) -> topology::TopoRowView {
    topology::TopoRowView {
        probe_ok: false,
        consecutive_failures: row.consecutive_failures + 1,
        last_probe: Some(now),
        updated_at: now,
        ..row
    }
}

/// A service that counts as present has been silent for long enough to be gone.
/// More than the limit is as good as the limit: with several containers probing,
/// the counter can jump past it.
pub open spec fn gone(row: topology::TopoRowView) -> bool {
    row.consecutive_failures >= FAILURE_LIMIT && row.status == PRESENT@
}

/// Takes note that a service was silent.
pub fn handle_failure(row: &mut TopoRow, now: &str) -> (r: Silence)
    ensures
        old(row).consecutive_failures == i32::MAX ==> r == Silence::Overflow && final(row)@ == old(
            row,
        )@,
        old(row).consecutive_failures < i32::MAX ==> {
            &&& final(row)@ == silent(old(row)@, now@)
            &&& r == if gone(final(row)@) {
                Silence::Gone(final(row).consecutive_failures)
            } else {
                Silence::Counted
            }
            &&& r is Gone <==> old(row).consecutive_failures >= 2 && old(row).status@ == "present"@
            &&& final(row).consecutive_failures == old(row).consecutive_failures + 1
            &&& !final(row).probe_ok
        },
        final(row).status@ == old(row).status@,
        final(row).hostname@ == old(row).hostname@,
        final(row).stateful == old(row).stateful,
{
    if row.consecutive_failures == i32::MAX {
        return Silence::Overflow;
    }
    row.probe_ok = false;
    row.consecutive_failures = row.consecutive_failures + 1;
    row.last_probe = Some(now.to_owned());
    row.updated_at = now.to_owned();
    if row.consecutive_failures < FAILURE_LIMIT || !text::str_eq(row.status.as_str(), PRESENT) {
        Silence::Counted
    } else {
        Silence::Gone(row.consecutive_failures)
    }
}

/// The ledger entry of a service that stopped answering.
pub open spec fn removal_entry(
    host: Seq<char>,
    failures: int,
    audited: bool,
) -> ledger::NewEntryView {
    ledger::NewEntryView {
        kind: if audited {
            "audit"@
        } else {
            "drift"@
        },
        actor: "gate-probe"@,
        action: if audited {
            "probe.audit"@
        } else {
            "probe.drift"@
        },
        target: host,
        decision: if audited {
            "info"@
        } else {
            "flag"@
        },
        reason: host + if audited {
            " stopped answering; matching allow found in the last 30 min — removal audited"@
        } else {
            " stopped answering after 3 consecutive probe failures with no matching allow — unaudited drift"@
        },
        policy: ""@,
        params: json::Doc::empty_object().with(
            "consecutive_failures"@,
            json::Doc::Number(text::int_text(failures)),
        ),
        authenticated: false,
    }
}

/// Marks a service as gone after so many failures: audited if an unspent allow
/// was found (`allow`; nothing where looking for one failed, which counts as
/// none), drift otherwise. What is returned is to be recorded. Nothing is
/// where another container already owned the transition.
pub fn flag(row: &mut TopoRow, failures: i32, allow: Option<bool>, now: &str) -> (r: Option<
    NewEntry,
>)
    ensures
        final(row)@ == topology::claimed(old(row)@, allow == Some(true), now@),
        match r {
            Some(e) => {
                &&& old(row)@.status == PRESENT@
                &&& e@ == removal_entry(
                    old(row)@.service.hostname,
                    failures as int,
                    allow == Some(true),
                )
            },
            None => old(row)@.status != PRESENT@,
        },
        r is Some <==> old(row).status@ == "present"@,
        r is Some && allow == Some(true) ==> final(row).status@ == "removed-audited"@
            && r->0.kind@ == "audit"@,
        r is Some && allow != Some(true) ==> final(row).status@ == "missing-unaudited"@
            && r->0.kind@ == "drift"@,
        r is Some ==> r->0.target@ == old(row).hostname@ && !r->0.authenticated,
{
    let audited = match allow {
        Some(b) => b,
        None => false,
    };
    if !claim(row, audited, now) {
        return None;
    }
    let mut reason = String::new();
    reason.append(row.hostname.as_str());
    if audited {
        reason.append(
            " stopped answering; matching allow found in the last 30 min — removal audited",
        );
    } else {
        reason.append(
            " stopped answering after 3 consecutive probe failures with no matching allow — unaudited drift",
        );
    }
    assert(reason@ =~= removal_entry(row.hostname@, failures as int, audited).reason);
    let (kind, decision, action): (&str, &str, &str) = if audited {
        ("audit", "info", "probe.audit")
    } else {
        ("drift", "flag", "probe.drift")
    };
    Some(
        NewEntry {
            kind: kind.to_owned(),
            actor: "gate-probe".to_owned(),
            action: action.to_owned(),
            target: row.hostname.clone(),
            decision: decision.to_owned(),
            reason,
            policy: "".to_owned(),
            params: Json::object().with("consecutive_failures", Json::integer(failures as i64)),
            authenticated: false,
        },
    )
}

// ---------------------------------------------------------------------------
// Laws
// ---------------------------------------------------------------------------

/// What a row becomes over several probes in a row, `true` for an answer.
pub open spec fn watched(
    row: topology::TopoRowView,
    probes: Seq<bool>,
    now: Seq<char>,
) -> topology::TopoRowView
    decreases probes.len(),
{
    if probes.len() == 0 {
        row
    } else {
        let before = watched(row, probes.drop_last(), now);
        if probes.last() {
            answered(before, now)
        } else {
            silent(before, now)
        }
    }
}

/// A service that answered last counts as gone after three silences in a row,
/// and not before, whatever went before the answer.
pub proof fn law_three_silences_make_a_service_gone(
    row: topology::TopoRowView,
    earlier: Seq<bool>,
    n: nat,
    now: Seq<char>,
)
    requires
        row.status == PRESENT@,
    ensures
        gone(watched(row, earlier + seq![true] + Seq::new(n, |i: int| false), now)) == (n >= 3),
        watched(row, earlier + seq![true] + Seq::new(n, |i: int| false), now).status == PRESENT@,
        watched(
            row,
            earlier + seq![true] + Seq::new(n, |i: int| false),
            now,
        ).consecutive_failures == n,
    decreases n,
{
    let probes = earlier + seq![true] + Seq::new(n, |i: int| false);
    if n == 0 {
        assert(probes.drop_last() =~= earlier);
        lemma_watching_keeps_present(row, earlier, now);
    } else {
        let m = (n - 1) as nat;
        law_three_silences_make_a_service_gone(row, earlier, m, now);
        assert(probes.drop_last() =~= earlier + seq![true] + Seq::new(m, |i: int| false));
    }
}

/// Probes alone do not mark a service as gone.
proof fn lemma_watching_keeps_present(
    row: topology::TopoRowView,
    probes: Seq<bool>,
    now: Seq<char>,
)
    requires
        row.status == PRESENT@,
    ensures
        watched(row, probes, now).status == PRESENT@,
    decreases probes.len(),
{
    if probes.len() > 0 {
        lemma_watching_keeps_present(row, probes.drop_last(), now);
    }
}

/// A service that answers is present again with its failures forgotten, however
/// it was removed, and its return is recorded exactly if it was marked as gone.
pub proof fn law_an_answer_brings_a_service_back(
    row: topology::TopoRowView,
    audited: bool,
    now: Seq<char>,
    later: Seq<char>,
)
    requires
        row.status == PRESENT@,
    ensures
        was_gone(topology::claimed(row, audited, now)),
        answered(topology::claimed(row, audited, now), later).status == PRESENT@,
        answered(topology::claimed(row, audited, now), later).consecutive_failures == 0,
        !was_gone(answered(topology::claimed(row, audited, now), later)),
{
    topology::lemma_statuses_differ();
}

/// An audited removal spends its authorization: once it is on record, no earlier
/// than the allow, a further removal of the service is drift until a new allow
/// is given.
pub proof fn law_an_audited_removal_spends_the_allow(
    rows: Seq<ledger::LedgerRow>,
    host: Seq<char>,
    failures: int,
    at: int,
    now: int,
)
    requires
        0 <= at < rows.len(),
        rows[at].records(removal_entry(host, failures, true)),
        forall|i: int|
            0 <= i < rows.len() && (#[trigger] rows[i]).allows_removal(host) ==> rows[i].at
                <= rows[at].at,
    ensures
        !exists|i: int| ledger::unspent_allow(rows, host, now, i),
{
    ledger::law_an_allow_covers_one_removal(rows, host, at, now);
}

/// A service that was marked as gone shows in what `/v1/drift` lists, audited or
/// not.
pub proof fn law_every_removal_is_listed_as_drift(
    e: ledger::EntryView,
    host: Seq<char>,
    failures: int,
    audited: bool,
)
    requires
        e.kind == removal_entry(host, failures, audited).kind,
    ensures
        ledger::is_of(e, Some(ledger::drift_kinds_text())),
{
    ledger::law_drift_lists_drift_and_audit(e);
}

// ---------------------------------------------------------------------------
// What is probed, and what is made of it, column by column
// ---------------------------------------------------------------------------

/// A service is looked up by its name, connected to at its port, or not probed at
/// all, as its method says: one without a port to connect to is silent, and one
/// with a method of no such name answers.
pub proof fn law_the_method_says_how_to_probe(method: Seq<char>, port: Option<i32>)
    ensures
        probe_of(method, port) == Probe::Dns <==> method == "dns"@,
        probe_of(method, port) is Tcp <==> method == "tcp"@ && port is Some,
        probe_of(method, port) == Probe::Silent <==> method == "tcp"@ && port is None,
        probe_of(method, port) == Probe::Answered <==> method != "dns"@ && method != "tcp"@,
        probe_of(method, port) matches Probe::Tcp(p) ==> p == (port->0) as u16,
        method == "tcp"@ && port is Some && 0 <= port->0 <= 65535 ==> probe_of(method, port)
            == Probe::Tcp((port->0) as u16) && (port->0) as u16 == port->0,
{
    reveal_strlit("dns");
    reveal_strlit("tcp");
    assert("dns"@[0] != "tcp"@[0]);
}

/// The first rows of a longer table are probed as they are of the shorter one.
proof fn lemma_probed_prefix(
    rows: Seq<topology::TopoRowView>,
    row: topology::TopoRowView,
    n: nat,
)
    requires
        n <= rows.len(),
    ensures
        probed(rows.push(row), n) == probed(rows, n),
    decreases n,
{
    if n > 0 {
        lemma_probed_prefix(rows, row, (n - 1) as nat);
        assert(rows.push(row)[n - 1] == rows[n - 1]);
    }
}

/// One row more is one target more, at the end, unless its method is `none`,
/// whatever its other columns say.
pub proof fn law_one_row_more_is_one_target_more(
    rows: Seq<topology::TopoRowView>,
    row: topology::TopoRowView,
)
    ensures
        probed(Seq::<topology::TopoRowView>::empty(), 0) == Seq::<TargetView>::empty(),
        row.service.probe_method == "none"@ ==> probed(rows.push(row), rows.len() + 1) == probed(
            rows,
            rows.len(),
        ),
        row.service.probe_method != "none"@ ==> probed(rows.push(row), rows.len() + 1) == probed(
            rows,
            rows.len(),
        ).push(
            TargetView {
                hostname: row.service.hostname,
                probe: probe_of(row.service.probe_method, row.service.tcp_port),
            },
        ),
{
    lemma_probed_prefix(rows, row, rows.len());
    assert(rows.push(row)[rows.len() as int] == row);
}

/// Where the target of a row stands among the targets of the first `n` rows.
proof fn lemma_row_is_probed(rows: Seq<topology::TopoRowView>, i: int, n: nat) -> (k: int)
    requires
        0 <= i < n <= rows.len(),
        rows[i].service.probe_method != "none"@,
    ensures
        0 <= k < probed(rows, n).len(),
        probed(rows, n)[k] == (TargetView {
            hostname: rows[i].service.hostname,
            probe: probe_of(rows[i].service.probe_method, rows[i].service.tcp_port),
        }),
    decreases n,
{
    if i == n - 1 {
        probed(rows, n).len() - 1
    } else {
        lemma_row_is_probed(rows, i, (n - 1) as nat)
    }
}

/// Every row whose method is not `none` is probed at its host by its method and
/// port, whatever its other columns say: stateful or not, present or gone, answering
/// or silent.
pub proof fn law_every_row_with_a_method_is_probed(rows: Seq<topology::TopoRowView>, i: int)
    requires
        0 <= i < rows.len(),
        rows[i].service.probe_method != "none"@,
    ensures
        exists|k: int|
            0 <= k < probed(rows, rows.len()).len() && #[trigger] probed(rows, rows.len())[k] == (
            TargetView {
                hostname: rows[i].service.hostname,
                probe: probe_of(rows[i].service.probe_method, rows[i].service.tcp_port),
            }),
{
    let k = lemma_row_is_probed(rows, i, rows.len());
}

/// Where the row of a target stands among the first `n` rows.
proof fn lemma_target_has_a_row(rows: Seq<topology::TopoRowView>, k: int, n: nat) -> (i: int)
    requires
        n <= rows.len(),
        0 <= k < probed(rows, n).len(),
    ensures
        0 <= i < n,
        rows[i].service.probe_method != "none"@,
        probed(rows, n)[k].hostname == rows[i].service.hostname,
        probed(rows, n)[k].probe == probe_of(
            rows[i].service.probe_method,
            rows[i].service.tcp_port,
        ),
    decreases n,
{
    let before = probed(rows, (n - 1) as nat);
    if k < before.len() {
        lemma_target_has_a_row(rows, k, (n - 1) as nat)
    } else {
        n - 1
    }
}

/// Nothing else is probed: every target is the host of a row whose method is not
/// `none`, by the method and port of that row.
pub proof fn law_every_target_comes_from_a_row(rows: Seq<topology::TopoRowView>, k: int)
    requires
        0 <= k < probed(rows, rows.len()).len(),
    ensures
        exists|i: int|
            0 <= i < rows.len() && (#[trigger] rows[i]).service.probe_method != "none"@ && probed(
                rows,
                rows.len(),
            )[k].hostname == rows[i].service.hostname && probed(rows, rows.len())[k].probe
                == probe_of(rows[i].service.probe_method, rows[i].service.tcp_port),
{
    let i = lemma_target_has_a_row(rows, k, rows.len());
    assert(rows[i].service.probe_method != "none"@);
}

/// A target is a host and how it is probed.
pub proof fn law_targets_are_their_fields(t: Target, targets: Seq<Target>, i: int)
    ensures
        t@.hostname == t.hostname@ && t@.probe == t.probe,
        target_views(targets).len() == targets.len(),
        0 <= i < targets.len() ==> target_views(targets)[i] == targets[i]@,
{
}

/// An answer is noted with its time, forgets the failures, and leaves the service
/// as it was listed. A service that was gone is present again, and any other keeps
/// its status.
pub proof fn law_what_an_answer_changes(row: topology::TopoRowView, now: Seq<char>)
    ensures
        answered(row, now).service == row.service,
        answered(row, now).probe_ok,
        answered(row, now).consecutive_failures == 0,
        answered(row, now).last_probe == Some(now),
        answered(row, now).updated_at == now,
        row.status == "missing-unaudited"@ || row.status == "removed-audited"@ ==> answered(
            row,
            now,
        ).status == "present"@,
        row.status != "missing-unaudited"@ && row.status != "removed-audited"@ ==> answered(
            row,
            now,
        ).status == row.status,
        was_gone(row) <==> row.status == "missing-unaudited"@ || row.status == "removed-audited"@,
        refreshed(row, now).service == row.service,
        refreshed(row, now).probe_ok,
        refreshed(row, now).consecutive_failures == 0,
        refreshed(row, now).last_probe == Some(now),
        refreshed(row, now).updated_at == now,
        refreshed(row, now).status == row.status,
{
}

/// A silence is noted with its time and counted, and leaves the service as it was
/// listed, and its status too.
pub proof fn law_what_a_silence_changes(row: topology::TopoRowView, now: Seq<char>)
    ensures
        silent(row, now).service == row.service,
        !silent(row, now).probe_ok,
        silent(row, now).consecutive_failures == row.consecutive_failures + 1,
        silent(row, now).last_probe == Some(now),
        silent(row, now).updated_at == now,
        silent(row, now).status == row.status,
        gone(row) <==> row.consecutive_failures >= 3 && row.status == "present"@,
{
}

/// Silences add up, and one answer takes them all back.
pub proof fn law_an_answer_takes_back_the_silences(
    row: topology::TopoRowView,
    then: Seq<char>,
    now: Seq<char>,
)
    ensures
        silent(silent(row, then), now).consecutive_failures == row.consecutive_failures + 2,
        answered(silent(row, then), now) == answered(row, now),
        !gone(answered(row, now)),
{
}

/// What is recorded of a service that is back.
pub proof fn law_the_record_of_a_return(host: Seq<char>)
    ensures
        reappear_entry(host).kind == "system"@,
        reappear_entry(host).actor == "gate-probe"@,
        reappear_entry(host).action == "probe.reappear"@,
        reappear_entry(host).target == host,
        reappear_entry(host).decision == "info"@,
        reappear_entry(host).reason == "service answering again; status restored to present"@,
        reappear_entry(host).policy == ""@,
        reappear_entry(host).params == json::Doc::empty_object(),
        !reappear_entry(host).authenticated,
{
}

/// What is recorded of a service that is gone: an audit where its removal was
/// authorized, a flagged drift where it was not, with the failures that were
/// counted.
pub proof fn law_the_record_of_a_removal(host: Seq<char>, failures: int, audited: bool)
    ensures
        audited ==> removal_entry(host, failures, audited).kind == "audit"@,
        !audited ==> removal_entry(host, failures, audited).kind == "drift"@,
        audited ==> removal_entry(host, failures, audited).action == "probe.audit"@,
        !audited ==> removal_entry(host, failures, audited).action == "probe.drift"@,
        audited ==> removal_entry(host, failures, audited).decision == "info"@,
        !audited ==> removal_entry(host, failures, audited).decision == "flag"@,
        audited ==> removal_entry(host, failures, audited).reason == host
            + " stopped answering; matching allow found in the last 30 min — removal audited"@,
        !audited ==> removal_entry(host, failures, audited).reason == host
            + " stopped answering after 3 consecutive probe failures with no matching allow — unaudited drift"@,
        removal_entry(host, failures, audited).actor == "gate-probe"@,
        removal_entry(host, failures, audited).target == host,
        removal_entry(host, failures, audited).policy == ""@,
        !removal_entry(host, failures, audited).authenticated,
        removal_entry(host, failures, audited).params.member("consecutive_failures"@) == Some(
            json::Doc::Number(text::int_text(failures)),
        ),
        forall|other: Seq<char>|
            other != "consecutive_failures"@ ==> (#[trigger] removal_entry(
                host,
                failures,
                audited,
            ).params.member(other)) is None,
{
}

} // verus!
