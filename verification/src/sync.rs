//! One request to `/v1/topology/sync`, from its token to its reply.
//!
//! A fresh snapshot replaces the probe set: every service that it lists is
//! present, and every service that the model counted on but the snapshot does
//! not list is gone. A removal that an unspent allow explains is audited; any
//! other is flagged. Either way it is marked in the model and recorded in the
//! ledger before the next one is looked at.

use vstd::prelude::*;
use vstd::string::*;

use crate::http;
use crate::http::{err, unavailable, Reply};
use crate::json;
use crate::json::Json;
use crate::ledger;
use crate::ledger::NewEntry;
use crate::lists;
use crate::text;
use crate::topology;
use crate::topology::{validate_snapshot, SeedService, Snapshot, TopoRow, PRESENT};

verus! {

// ---------------------------------------------------------------------------
// The difference between a snapshot and the model
// ---------------------------------------------------------------------------

/// What a snapshot changes.
#[derive(Debug)]
pub struct Plan {
    /// The services of the snapshot.
    pub services: Vec<SeedService>,
    /// Those that are new to the model.
    pub added: Vec<String>,
    /// Those that the model already has.
    pub updated: Vec<String>,
    /// Services that the model counts on and the snapshot does not list.
    pub gone: Vec<String>,
}

/// What a [`Plan`] says.
#[verifier::ext_equal]
pub struct PlanView {
    pub services: Seq<topology::ServiceView>,
    pub added: Seq<Seq<char>>,
    pub updated: Seq<Seq<char>>,
    pub gone: Seq<Seq<char>>,
}

/// The characters of the texts of a list.
pub open spec fn text_views(items: Seq<String>) -> Seq<Seq<char>> {
    Seq::new(items.len(), |i: int| items[i]@)
}

impl View for Plan {
    type V = PlanView;

    open spec fn view(&self) -> PlanView {
        PlanView {
            services: topology::service_views(self.services@),
            added: text_views(self.added@),
            updated: text_views(self.updated@),
            gone: text_views(self.gone@),
        }
    }
}

/// The model has a row for a host.
pub open spec fn modelled(rows: Seq<topology::TopoRowView>, host: Seq<char>) -> bool {
    exists|i: int| 0 <= i < rows.len() && (#[trigger] rows[i]).service.hostname == host
}

/// The snapshot lists a host.
pub open spec fn listed(services: Seq<topology::ServiceView>, host: Seq<char>) -> bool {
    exists|i: int| 0 <= i < services.len() && (#[trigger] services[i]).hostname == host
}

/// The hostnames of some services.
pub open spec fn hosts(services: Seq<topology::ServiceView>) -> Seq<Seq<char>> {
    Seq::new(services.len(), |i: int| services[i].hostname)
}

/// A row counts as present, but the snapshot does not list its service.
pub open spec fn missing(
    services: Seq<topology::ServiceView>,
    row: topology::TopoRowView,
) -> bool {
    row.status == PRESENT@ && !listed(services, row.service.hostname)
}

/// The hosts of the first `n` rows that are gone.
pub open spec fn gone_hosts(
    services: Seq<topology::ServiceView>,
    rows: Seq<topology::TopoRowView>,
    n: nat,
) -> Seq<Seq<char>>
    decreases n,
{
    if n == 0 || n > rows.len() {
        Seq::empty()
    } else {
        let before = gone_hosts(services, rows, (n - 1) as nat);
        if missing(services, rows[n - 1]) {
            before.push(rows[n - 1].service.hostname)
        } else {
            before
        }
    }
}

/// What a snapshot changes in a model.
pub open spec fn planned(
    services: Seq<topology::ServiceView>,
    rows: Seq<topology::TopoRowView>,
) -> PlanView {
    PlanView {
        services,
        added: hosts(services).filter(|h: Seq<char>| !modelled(rows, h)),
        updated: hosts(services).filter(|h: Seq<char>| modelled(rows, h)),
        gone: gone_hosts(services, rows, rows.len()),
    }
}

/// Whether the model has a row for a host.
fn has_row(rows: &Vec<TopoRow>, host: &str) -> (r: bool)
    ensures
        r == modelled(topology::row_views(rows@), host@),
{
    let ghost views = topology::row_views(rows@);
    let mut i: usize = 0;
    while i < rows.len()
        invariant
            i <= rows@.len(),
            views == topology::row_views(rows@),
            forall|j: int| 0 <= j < i ==> (#[trigger] views[j]).service.hostname != host@,
        decreases rows@.len() - i,
    {
        if text::str_eq(rows[i].hostname.as_str(), host) {
            assert(views[i as int].service.hostname == host@);
            return true;
        }
        i = i + 1;
    }
    false
}

/// Whether the snapshot lists a host.
fn lists(services: &Vec<SeedService>, host: &str) -> (r: bool)
    ensures
        r == listed(topology::service_views(services@), host@),
{
    let ghost views = topology::service_views(services@);
    let mut i: usize = 0;
    while i < services.len()
        invariant
            i <= services@.len(),
            views == topology::service_views(services@),
            forall|j: int| 0 <= j < i ==> (#[trigger] views[j]).hostname != host@,
        decreases services@.len() - i,
    {
        if text::str_eq(services[i].hostname.as_str(), host) {
            assert(views[i as int].hostname == host@);
            return true;
        }
        i = i + 1;
    }
    false
}

/// Compares a snapshot with the model.
pub fn plan(snap: Snapshot, current: &Vec<TopoRow>) -> (p: Plan)
    ensures
        p@ == planned(topology::service_views(snap.services@), topology::row_views(current@)),
{
    let services = snap.services;
    let ghost sv = topology::service_views(services@);
    let ghost rv = topology::row_views(current@);
    let ghost names = hosts(sv);
    let ghost new = |h: Seq<char>| !modelled(rv, h);
    let ghost old_one = |h: Seq<char>| modelled(rv, h);
    let mut added: Vec<String> = Vec::new();
    let mut updated: Vec<String> = Vec::new();
    let mut i: usize = 0;
    proof {
        reveal(Seq::filter);
        assert(text_views(added@) =~= names.take(0).filter(new));
        assert(text_views(updated@) =~= names.take(0).filter(old_one));
    }
    while i < services.len()
        invariant
            i <= services@.len(),
            sv == topology::service_views(services@),
            rv == topology::row_views(current@),
            names == hosts(sv),
            new == (|h: Seq<char>| !modelled(rv, h)),
            old_one == (|h: Seq<char>| modelled(rv, h)),
            text_views(added@) == names.take(i as int).filter(new),
            text_views(updated@) == names.take(i as int).filter(old_one),
        decreases services@.len() - i,
    {
        proof {
            lists::lemma_filter_step(names, new, i as int);
            lists::lemma_filter_step(names, old_one, i as int);
        }
        let ghost added_before = text_views(added@);
        let ghost updated_before = text_views(updated@);
        let host = services[i].hostname.clone();
        if has_row(current, host.as_str()) {
            updated.push(host);
            assert(text_views(updated@) =~= updated_before.push(names[i as int]));
        } else {
            added.push(host);
            assert(text_views(added@) =~= added_before.push(names[i as int]));
        }
        i = i + 1;
    }
    assert(names.take(names.len() as int) =~= names);
    let mut gone: Vec<String> = Vec::new();
    i = 0;
    assert(text_views(gone@) =~= gone_hosts(sv, rv, 0));
    while i < current.len()
        invariant
            i <= current@.len(),
            sv == topology::service_views(services@),
            rv == topology::row_views(current@),
            text_views(gone@) == gone_hosts(sv, rv, i as nat),
        decreases current@.len() - i,
    {
        let ghost before = text_views(gone@);
        let row = &current[i];
        assert(rv[i as int] == row@);
        if text::str_eq(row.status.as_str(), PRESENT) && !lists(&services, row.hostname.as_str()) {
            gone.push(row.hostname.clone());
            assert(text_views(gone@) =~= before.push(row.hostname@));
        }
        i = i + 1;
    }
    Plan { services, added, updated, gone }
}

// ---------------------------------------------------------------------------
// What is recorded and answered
// ---------------------------------------------------------------------------

/// The ledger entry of a service that is gone.
pub open spec fn removal_entry(host: Seq<char>, audited: bool) -> ledger::NewEntryView {
    ledger::NewEntryView {
        kind: if audited {
            "audit"@
        } else {
            "drift"@
        },
        actor: "topology-sync"@,
        action: if audited {
            "sync.audit"@
        } else {
            "sync.drift"@
        },
        target: host,
        decision: if audited {
            "info"@
        } else {
            "flag"@
        },
        reason: host + if audited {
            " absent from synced snapshot; matching allow found — removal audited"@
        } else {
            " absent from synced snapshot with no matching allow — unaudited removal"@
        },
        policy: ""@,
        params: json::Doc::empty_object(),
        authenticated: true,
    }
}

/// The ledger entry of a service that is gone.
fn removal(host: &str, audited: bool) -> (e: NewEntry)
    ensures
        e@ == removal_entry(host@, audited),
{
    let mut reason = String::new();
    reason.append(host);
    if audited {
        reason.append(" absent from synced snapshot; matching allow found — removal audited");
    } else {
        reason.append(" absent from synced snapshot with no matching allow — unaudited removal");
    }
    assert(reason@ =~= removal_entry(host@, audited).reason);
    let (kind, decision, action): (&str, &str, &str) = if audited {
        ("audit", "info", "sync.audit")
    } else {
        ("drift", "flag", "sync.drift")
    };
    NewEntry {
        kind: kind.to_owned(),
        actor: "topology-sync".to_owned(),
        action: action.to_owned(),
        target: host.to_owned(),
        decision: decision.to_owned(),
        reason,
        policy: "".to_owned(),
        params: Json::object(),
        authenticated: true,
    }
}

/// The hosts that were judged one way, in their order: `verdicts[i]` says
/// whether the removal of `gone[i]` was authorized.
pub open spec fn judged(
    gone: Seq<Seq<char>>,
    verdicts: Seq<bool>,
    audited: bool,
) -> Seq<Seq<char>>
    decreases verdicts.len(),
{
    if verdicts.len() == 0 {
        Seq::empty()
    } else {
        let before = judged(gone, verdicts.drop_last(), audited);
        if verdicts.last() == audited {
            before.push(gone[verdicts.len() - 1])
        } else {
            before
        }
    }
}

/// The hosts that were judged one way.
fn pick(gone: &Vec<String>, verdicts: &Vec<bool>, audited: bool) -> (r: Vec<String>)
    requires
        verdicts@.len() <= gone@.len(),
    ensures
        text_views(r@) == judged(text_views(gone@), verdicts@, audited),
{
    let mut r: Vec<String> = Vec::new();
    let mut i: usize = 0;
    assert(text_views(r@) =~= judged(text_views(gone@), verdicts@.take(0), audited));
    while i < verdicts.len()
        invariant
            i <= verdicts@.len(),
            verdicts@.len() <= gone@.len(),
            text_views(r@) == judged(text_views(gone@), verdicts@.take(i as int), audited),
        decreases verdicts@.len() - i,
    {
        let ghost before = text_views(r@);
        assert(verdicts@.take(i + 1).drop_last() =~= verdicts@.take(i as int));
        if verdicts[i] == audited {
            r.push(gone[i].clone());
            assert(text_views(r@) =~= before.push(gone@[i as int]@));
        }
        i = i + 1;
    }
    assert(verdicts@.take(verdicts@.len() as int) =~= verdicts@);
    r
}

/// What a sync did, as a document.
pub open spec fn summary_doc(plan: PlanView, verdicts: Seq<bool>) -> json::Doc {
    json::Doc::empty_object().with("added"@, json::Doc::texts(plan.added)).with(
        "updated"@,
        json::Doc::texts(plan.updated),
    ).with(
        "removed_audited"@,
        json::Doc::texts(judged(plan.gone, verdicts, true)),
    ).with("removed_unaudited"@, json::Doc::texts(judged(plan.gone, verdicts, false)))
}

/// What a sync did, as a document.
fn summary(plan: &Plan, verdicts: &Vec<bool>) -> (r: Json)
    requires
        verdicts@.len() <= plan.gone@.len(),
    ensures
        r@ == summary_doc(plan@, verdicts@),
{
    let removed_audited = pick(&plan.gone, verdicts, true);
    let removed_unaudited = pick(&plan.gone, verdicts, false);
    Json::object().with("added", Json::texts(&plan.added)).with(
        "updated",
        Json::texts(&plan.updated),
    ).with("removed_audited", Json::texts(&removed_audited)).with(
        "removed_unaudited",
        Json::texts(&removed_unaudited),
    )
}

/// The ledger entry of a sync.
pub open spec fn sync_entry(summary: json::Doc) -> ledger::NewEntryView {
    ledger::NewEntryView {
        kind: "system"@,
        actor: "topology-sync"@,
        action: "topology.sync"@,
        target: ""@,
        decision: "info"@,
        reason: "topology snapshot synced"@,
        policy: ""@,
        params: summary,
        authenticated: true,
    }
}

/// The ledger entry of a sync.
fn synced(summary: Json) -> (e: NewEntry)
    ensures
        e@ == sync_entry(summary@),
{
    NewEntry {
        kind: "system".to_owned(),
        actor: "topology-sync".to_owned(),
        action: "topology.sync".to_owned(),
        target: "".to_owned(),
        decision: "info".to_owned(),
        reason: "topology snapshot synced".to_owned(),
        policy: "".to_owned(),
        params: summary,
        authenticated: true,
    }
}

// ---------------------------------------------------------------------------
// The course of a sync
// ---------------------------------------------------------------------------

/// Where a sync has got to.
enum Stage {
    Body,
    Connect(Snapshot),
    Topology(Snapshot),
    /// Service `.1` of the plan is to be stored.
    Upsert(Plan, usize),
    /// The removals before the next one have been judged.
    Judge(Plan, Vec<bool>),
    /// The next removal has been judged and is to be marked.
    Mark(Plan, Vec<bool>, bool),
    /// The next removal has been marked and is to be recorded.
    Record(Plan, Vec<bool>, bool),
    /// Everything is done and is to be recorded.
    Summarize(Plan, Vec<bool>),
    Finished(Reply),
}

/// A sync in progress.
pub struct TopologySync {
    stage: Stage,
}

/// What has to be done for a sync.
pub enum SyncAction {
    ReadBody,
    Connect,
    ReadTopology,
    /// Store the row of a service.
    Upsert(SeedService),
    /// Look for an unspent allow for the removal of a host.
    FindAllow(String),
    /// Mark a host as gone.
    Mark { hostname: String, audited: bool },
    Append(NewEntry),
    Send(Reply),
}

/// How it went.
pub enum SyncEvent {
    /// The snapshot, unless the body was malformed.
    Body(Option<Snapshot>),
    /// Whether the database could be reached.
    Connected(bool),
    /// The rows of the model, unless reading them failed.
    Topology(Option<Vec<TopoRow>>),
    /// Whether something was stored.
    Stored(bool),
    /// Whether there is an unspent allow, unless looking for one failed.
    Allowed(Option<bool>),
}

/// What a [`TopologySync`] is about.
pub enum SyncView {
    Body,
    Connect { services: Seq<topology::ServiceView> },
    Topology { services: Seq<topology::ServiceView> },
    Upsert { plan: PlanView, next: nat },
    Judge { plan: PlanView, verdicts: Seq<bool> },
    Mark { plan: PlanView, verdicts: Seq<bool>, audited: bool },
    Record { plan: PlanView, verdicts: Seq<bool>, audited: bool },
    Summarize { plan: PlanView, verdicts: Seq<bool> },
    Finished { reply: http::ReplyView },
}

/// What a [`SyncAction`] says.
pub enum SyncActionView {
    ReadBody,
    Connect,
    ReadTopology,
    Upsert(topology::ServiceView),
    FindAllow(Seq<char>),
    Mark { hostname: Seq<char>, audited: bool },
    Append(ledger::NewEntryView),
    Send(http::ReplyView),
}

/// What a [`SyncEvent`] says.
pub enum SyncEventView {
    Body(Option<Seq<topology::ServiceView>>),
    Connected(bool),
    Topology(Option<Seq<topology::TopoRowView>>),
    Stored(bool),
    Allowed(Option<bool>),
}

impl View for TopologySync {
    type V = SyncView;

    closed spec fn view(&self) -> SyncView {
        match self.stage {
            Stage::Body => SyncView::Body,
            Stage::Connect(snap) => SyncView::Connect {
                services: topology::service_views(snap.services@),
            },
            Stage::Topology(snap) => SyncView::Topology {
                services: topology::service_views(snap.services@),
            },
            Stage::Upsert(plan, next) => SyncView::Upsert { plan: plan@, next: next as nat },
            Stage::Judge(plan, verdicts) => SyncView::Judge { plan: plan@, verdicts: verdicts@ },
            Stage::Mark(plan, verdicts, audited) => SyncView::Mark {
                plan: plan@,
                verdicts: verdicts@,
                audited,
            },
            Stage::Record(plan, verdicts, audited) => SyncView::Record {
                plan: plan@,
                verdicts: verdicts@,
                audited,
            },
            Stage::Summarize(plan, verdicts) => SyncView::Summarize {
                plan: plan@,
                verdicts: verdicts@,
            },
            Stage::Finished(reply) => SyncView::Finished { reply: reply@ },
        }
    }
}

impl View for SyncAction {
    type V = SyncActionView;

    open spec fn view(&self) -> SyncActionView {
        match *self {
            SyncAction::ReadBody => SyncActionView::ReadBody,
            SyncAction::Connect => SyncActionView::Connect,
            SyncAction::ReadTopology => SyncActionView::ReadTopology,
            SyncAction::Upsert(s) => SyncActionView::Upsert(s@),
            SyncAction::FindAllow(h) => SyncActionView::FindAllow(h@),
            SyncAction::Mark { hostname, audited } => SyncActionView::Mark {
                hostname: hostname@,
                audited,
            },
            SyncAction::Append(e) => SyncActionView::Append(e@),
            SyncAction::Send(r) => SyncActionView::Send(r@),
        }
    }
}

impl View for SyncEvent {
    type V = SyncEventView;

    open spec fn view(&self) -> SyncEventView {
        match *self {
            SyncEvent::Body(Some(snap)) => SyncEventView::Body(
                Some(topology::service_views(snap.services@)),
            ),
            SyncEvent::Body(None) => SyncEventView::Body(None),
            SyncEvent::Connected(ok) => SyncEventView::Connected(ok),
            SyncEvent::Topology(Some(rows)) => SyncEventView::Topology(
                Some(topology::row_views(rows@)),
            ),
            SyncEvent::Topology(None) => SyncEventView::Topology(None),
            SyncEvent::Stored(ok) => SyncEventView::Stored(ok),
            SyncEvent::Allowed(found) => SyncEventView::Allowed(found),
        }
    }
}

impl SyncView {
    /// How a sync starts: without the operator token, it does not.
    pub open spec fn begun(authorized: bool) -> SyncView {
        if authorized {
            SyncView::Body
        } else {
            SyncView::Finished {
                reply: http::error_reply(401, "missing or invalid X-Gate-Token"@),
            }
        }
    }

    /// From here on the removals are judged, after those that have been.
    pub open spec fn judging(plan: PlanView, verdicts: Seq<bool>) -> SyncView {
        if verdicts.len() < plan.gone.len() {
            SyncView::Judge { plan, verdicts }
        } else {
            SyncView::Summarize { plan, verdicts }
        }
    }

    /// From here on the services are stored, after those that have been.
    pub open spec fn storing(plan: PlanView, next: nat) -> SyncView {
        if next < plan.services.len() {
            SyncView::Upsert { plan, next }
        } else {
            SyncView::judging(plan, Seq::empty())
        }
    }

    /// What has to be done next.
    pub open spec fn action(self) -> SyncActionView {
        match self {
            SyncView::Body => SyncActionView::ReadBody,
            SyncView::Connect { .. } => SyncActionView::Connect,
            SyncView::Topology { .. } => SyncActionView::ReadTopology,
            SyncView::Upsert { plan, next } => SyncActionView::Upsert(plan.services[next as int]),
            SyncView::Judge { plan, verdicts } => SyncActionView::FindAllow(
                plan.gone[verdicts.len() as int],
            ),
            SyncView::Mark { plan, verdicts, audited } => SyncActionView::Mark {
                hostname: plan.gone[verdicts.len() as int],
                audited,
            },
            SyncView::Record { plan, verdicts, audited } => SyncActionView::Append(
                removal_entry(plan.gone[verdicts.len() as int], audited),
            ),
            SyncView::Summarize { plan, verdicts } => SyncActionView::Append(
                sync_entry(summary_doc(plan, verdicts)),
            ),
            SyncView::Finished { reply } => SyncActionView::Send(reply),
        }
    }

    /// Where a sync gets to. Whatever goes wrong, and whatever does not answer
    /// what was asked for, ends it; only a search for an allow that fails counts
    /// as one that found none.
    pub open spec fn next(self, event: SyncEventView) -> SyncView {
        match (self, event) {
            (SyncView::Finished { .. }, _) => self,
            (SyncView::Body, SyncEventView::Body(None)) => SyncView::Finished {
                reply: http::error_reply(400, MALFORMED_SNAPSHOT@),
            },
            (
                SyncView::Body,
                SyncEventView::Body(Some(services)),
            ) => match topology::first_service_error(services) {
                Some(msg) => SyncView::Finished { reply: http::error_reply(400, msg) },
                None => SyncView::Connect { services },
            },
            (
                SyncView::Connect { services },
                SyncEventView::Connected(true),
            ) => SyncView::Topology { services },
            (
                SyncView::Topology { services },
                SyncEventView::Topology(Some(rows)),
            ) => SyncView::storing(planned(services, rows), 0),
            (SyncView::Upsert { plan, next }, SyncEventView::Stored(true)) => SyncView::storing(
                plan,
                next + 1,
            ),
            (SyncView::Judge { plan, verdicts }, SyncEventView::Allowed(found)) => SyncView::Mark {
                plan,
                verdicts,
                audited: found == Some(true),
            },
            (
                SyncView::Mark { plan, verdicts, audited },
                SyncEventView::Stored(true),
            ) => SyncView::Record { plan, verdicts, audited },
            (
                SyncView::Record { plan, verdicts, audited },
                SyncEventView::Stored(true),
            ) => SyncView::judging(plan, verdicts.push(audited)),
            (
                SyncView::Summarize { plan, verdicts },
                SyncEventView::Stored(true),
            ) => SyncView::Finished {
                reply: http::ReplyView { status: 200, body: summary_doc(plan, verdicts) },
            },
            _ => SyncView::Finished { reply: http::unavailable_reply() },
        }
    }

    /// Where a sync gets to over several events.
    pub open spec fn after(self, events: Seq<SyncEventView>) -> SyncView
        decreases events.len(),
    {
        if events.len() == 0 {
            self
        } else {
            self.after(events.drop_last()).next(events.last())
        }
    }
}

/// What a body that is no snapshot is answered.
pub const MALFORMED_SNAPSHOT: &'static str = "malformed body: expected {\"services\": [{hostname, service_type, stateful, probe_method, tcp_port}]}";

impl TopologySync {
    /// What is to be done next is there to be done.
    #[verifier::type_invariant]
    closed spec fn inv(self) -> bool {
        match self.stage {
            Stage::Upsert(plan, next) => next < plan.services@.len(),
            Stage::Judge(plan, verdicts) => verdicts@.len() < plan.gone@.len(),
            Stage::Mark(plan, verdicts, _) => verdicts@.len() < plan.gone@.len(),
            Stage::Record(plan, verdicts, _) => verdicts@.len() < plan.gone@.len(),
            Stage::Summarize(plan, verdicts) => verdicts@.len() == plan.gone@.len(),
            _ => true,
        }
    }

    /// Takes up a request; `authorized` is whether it carries the operator token.
    pub fn begin(authorized: bool) -> (r: TopologySync)
        ensures
            r@ == SyncView::begun(authorized),
    {
        if authorized {
            TopologySync { stage: Stage::Body }
        } else {
            TopologySync { stage: Stage::Finished(err(401, "missing or invalid X-Gate-Token")) }
        }
    }

    /// From here on the removals are judged.
    fn judging(plan: Plan, verdicts: Vec<bool>) -> (r: TopologySync)
        requires
            verdicts@.len() <= plan.gone@.len(),
        ensures
            r@ == SyncView::judging(plan@, verdicts@),
    {
        if verdicts.len() < plan.gone.len() {
            TopologySync { stage: Stage::Judge(plan, verdicts) }
        } else {
            TopologySync { stage: Stage::Summarize(plan, verdicts) }
        }
    }

    /// From here on the services are stored.
    fn storing(plan: Plan, next: usize) -> (r: TopologySync)
        ensures
            r@ == SyncView::storing(plan@, next as nat),
    {
        if next < plan.services.len() {
            TopologySync { stage: Stage::Upsert(plan, next) }
        } else {
            TopologySync::judging(plan, Vec::new())
        }
    }

    /// What has to be done next.
    pub fn action(&self) -> (r: SyncAction)
        ensures
            r@ == self@.action(),
    {
        proof {
            use_type_invariant(self);
        }
        match &self.stage {
            Stage::Body => SyncAction::ReadBody,
            Stage::Connect(_) => SyncAction::Connect,
            Stage::Topology(_) => SyncAction::ReadTopology,
            Stage::Upsert(plan, next) => SyncAction::Upsert(plan.services[*next].clone()),
            Stage::Judge(plan, verdicts) => SyncAction::FindAllow(
                plan.gone[verdicts.len()].clone(),
            ),
            Stage::Mark(plan, verdicts, audited) => SyncAction::Mark {
                hostname: plan.gone[verdicts.len()].clone(),
                audited: *audited,
            },
            Stage::Record(plan, verdicts, audited) => SyncAction::Append(
                removal(plan.gone[verdicts.len()].as_str(), *audited),
            ),
            Stage::Summarize(plan, verdicts) => SyncAction::Append(
                synced(summary(plan, verdicts)),
            ),
            Stage::Finished(reply) => SyncAction::Send(reply.clone()),
        }
    }

    /// Goes on with how the last action went.
    pub fn step(self, event: SyncEvent) -> (r: TopologySync)
        ensures
            r@ == self@.next(event@),
    {
        proof {
            use_type_invariant(&self);
        }
        match (self.stage, event) {
            (Stage::Finished(reply), _) => TopologySync { stage: Stage::Finished(reply) },
            (Stage::Body, SyncEvent::Body(None)) => TopologySync {
                stage: Stage::Finished(err(400, MALFORMED_SNAPSHOT)),
            },
            (Stage::Body, SyncEvent::Body(Some(snap))) => match validate_snapshot(&snap) {
                Err(msg) => TopologySync { stage: Stage::Finished(err(400, msg.as_str())) },
                Ok(_) => TopologySync { stage: Stage::Connect(snap) },
            },
            (Stage::Connect(snap), SyncEvent::Connected(true)) => TopologySync {
                stage: Stage::Topology(snap),
            },
            (
                Stage::Topology(snap),
                SyncEvent::Topology(Some(rows)),
            ) => TopologySync::storing(plan(snap, &rows), 0),
            (Stage::Upsert(plan, next), SyncEvent::Stored(true)) => {
                assert(next < plan.services.len());
                TopologySync::storing(plan, next + 1)
            },
            (Stage::Judge(plan, verdicts), SyncEvent::Allowed(found)) => {
                let audited = match found {
                    Some(b) => b,
                    None => false,
                };
                TopologySync { stage: Stage::Mark(plan, verdicts, audited) }
            },
            (Stage::Mark(plan, verdicts, audited), SyncEvent::Stored(true)) => TopologySync {
                stage: Stage::Record(plan, verdicts, audited),
            },
            (Stage::Record(plan, verdicts, audited), SyncEvent::Stored(true)) => {
                let mut longer = verdicts;
                longer.push(audited);
                TopologySync::judging(plan, longer)
            },
            (Stage::Summarize(plan, verdicts), SyncEvent::Stored(true)) => TopologySync {
                stage: Stage::Finished(Reply { status: 200, body: summary(&plan, &verdicts) }),
            },
            _ => TopologySync { stage: Stage::Finished(unavailable()) },
        }
    }
}

// ---------------------------------------------------------------------------
// Laws
// ---------------------------------------------------------------------------

/// Nothing is done for a caller without the operator token.
pub proof fn law_a_sync_needs_the_token(events: Seq<SyncEventView>)
    ensures
        SyncView::begun(false).after(events) == SyncView::begun(false),
        SyncView::begun(false).action() == SyncActionView::Send(
            http::error_reply(401, "missing or invalid X-Gate-Token"@),
        ),
    decreases events.len(),
{
    if events.len() > 0 {
        law_a_sync_needs_the_token(events.drop_last());
    }
}

/// The hosts that a sync finds gone are those that the model counts on and the
/// snapshot does not list.
pub proof fn law_gone_is_counted_on_but_not_listed(
    services: Seq<topology::ServiceView>,
    rows: Seq<topology::TopoRowView>,
    host: Seq<char>,
)
    ensures
        planned(services, rows).gone.contains(host) <==> exists|i: int|
            0 <= i < rows.len() && missing(services, #[trigger] rows[i])
                && rows[i].service.hostname == host,
{
    lemma_gone(services, rows, rows.len(), host);
}

/// The hosts among the first `n` rows that are gone.
proof fn lemma_gone(
    services: Seq<topology::ServiceView>,
    rows: Seq<topology::TopoRowView>,
    n: nat,
    host: Seq<char>,
)
    requires
        n <= rows.len(),
    ensures
        gone_hosts(services, rows, n).contains(host) <==> exists|i: int|
            0 <= i < n && missing(services, #[trigger] rows[i]) && rows[i].service.hostname == host,
    decreases n,
{
    if n > 0 {
        let m = (n - 1) as nat;
        lemma_gone(services, rows, m, host);
        let before = gone_hosts(services, rows, m);
        let after = gone_hosts(services, rows, n);
        if missing(services, rows[m as int]) {
            assert(after == before.push(rows[m as int].service.hostname));
            assert(after.last() == rows[m as int].service.hostname);
            if before.contains(host) {
                let j = before.index_of(host);
                assert(after[j] == host);
            }
            if after.contains(host) && rows[m as int].service.hostname != host {
                let j = choose|j: int| 0 <= j < after.len() && after[j] == host;
                assert(before[j] == host);
            }
        }
    }
}

/// Every host of the snapshot counts as added if the model has no row for it,
/// as updated if it has one, and never as gone.
pub proof fn law_listed_is_added_or_updated(
    services: Seq<topology::ServiceView>,
    rows: Seq<topology::TopoRowView>,
    host: Seq<char>,
)
    requires
        listed(services, host),
    ensures
        planned(services, rows).added.contains(host) == !modelled(rows, host),
        planned(services, rows).updated.contains(host) == modelled(rows, host),
        !planned(services, rows).gone.contains(host),
{
    let p = planned(services, rows);
    let names = hosts(services);
    let new = |h: Seq<char>| !modelled(rows, h);
    let old_one = |h: Seq<char>| modelled(rows, h);
    let i = choose|i: int| 0 <= i < services.len() && (#[trigger] services[i]).hostname == host;
    assert(names[i] == host);
    if modelled(rows, host) {
        names.lemma_filter_contains(old_one, i);
    } else {
        names.lemma_filter_contains(new, i);
    }
    assert forall|j: int| 0 <= j < p.added.len() implies new(#[trigger] p.added[j]) by {
        names.lemma_filter_pred(new, j);
    }
    assert forall|j: int| 0 <= j < p.updated.len() implies old_one(#[trigger] p.updated[j]) by {
        names.lemma_filter_pred(old_one, j);
    }
    law_gone_is_counted_on_but_not_listed(services, rows, host);
}

/// Each removal is judged one way or the other: none is left out, and none
/// counts twice.
pub proof fn law_each_removal_is_judged_once(gone: Seq<Seq<char>>, verdicts: Seq<bool>)
    requires
        verdicts.len() <= gone.len(),
    ensures
        judged(gone, verdicts, true).len() + judged(gone, verdicts, false).len()
            == verdicts.len(),
        forall|i: int|
            0 <= i < verdicts.len() ==> judged(gone, verdicts, #[trigger] verdicts[i]).contains(
                gone[i],
            ),
    decreases verdicts.len(),
{
    if verdicts.len() > 0 {
        let shorter = verdicts.drop_last();
        law_each_removal_is_judged_once(gone, shorter);
        assert forall|i: int| 0 <= i < verdicts.len() implies judged(
            gone,
            verdicts,
            #[trigger] verdicts[i],
        ).contains(gone[i]) by {
            let all = judged(gone, verdicts, verdicts[i]);
            if i < shorter.len() {
                assert(shorter[i] == verdicts[i]);
                let before = judged(gone, shorter, shorter[i]);
                let j = choose|j: int| 0 <= j < before.len() && before[j] == gone[i];
                assert(all[j] == gone[i]);
            } else {
                assert(all.last() == gone[i]);
            }
        }
    }
}

/// The sync fails closed: whatever cannot be read or stored ends it with 503.
pub proof fn law_a_failing_sync_ends_with_503(v: SyncView)
    ensures
        v is Connect ==> v.next(SyncEventView::Connected(false)) == (SyncView::Finished {
            reply: http::unavailable_reply(),
        }),
        v is Topology ==> v.next(SyncEventView::Topology(None)) == (SyncView::Finished {
            reply: http::unavailable_reply(),
        }),
        v is Upsert || v is Mark || v is Record || v is Summarize ==> v.next(
            SyncEventView::Stored(false),
        ) == (SyncView::Finished { reply: http::unavailable_reply() }),
        http::unavailable_reply().status == 503,
{
}

/// The events of a sync in which everything can be stored: one for each service,
/// three for each removal, and the last for the summary.
pub open spec fn smooth_events(services: nat, allows: Seq<Option<bool>>) -> Seq<SyncEventView> {
    Seq::new(services, |i: int| SyncEventView::Stored(true)) + smooth_judging(allows)
        + seq![SyncEventView::Stored(true)]
}

/// The events of judging some removals when everything can be stored.
pub open spec fn smooth_judging(allows: Seq<Option<bool>>) -> Seq<SyncEventView>
    decreases allows.len(),
{
    if allows.len() == 0 {
        Seq::empty()
    } else {
        smooth_judging(allows.drop_last()) + seq![
            SyncEventView::Allowed(allows.last()),
            SyncEventView::Stored(true),
            SyncEventView::Stored(true),
        ]
    }
}

/// The verdicts that searches for an allow lead to.
pub open spec fn verdicts_of(allows: Seq<Option<bool>>) -> Seq<bool> {
    Seq::new(allows.len(), |i: int| allows[i] == Some(true))
}

/// One thing after the other.
proof fn lemma_after_concat(v: SyncView, a: Seq<SyncEventView>, b: Seq<SyncEventView>)
    ensures
        v.after(a + b) == v.after(a).after(b),
    decreases b.len(),
{
    if b.len() == 0 {
        assert(a + b =~= a);
    } else {
        lemma_after_concat(v, a, b.drop_last());
        assert((a + b).drop_last() =~= a + b.drop_last());
    }
}

/// While everything can be stored, the services are stored one after the other.
pub proof fn law_services_are_stored_in_order(plan: PlanView, n: nat)
    requires
        n <= plan.services.len(),
    ensures
        SyncView::storing(plan, 0).after(Seq::new(n, |i: int| SyncEventView::Stored(true)))
            == SyncView::storing(plan, n),
        n < plan.services.len() ==> SyncView::storing(plan, n).action() == SyncActionView::Upsert(
            plan.services[n as int],
        ),
    decreases n,
{
    let events = Seq::new(n, |i: int| SyncEventView::Stored(true));
    if n > 0 {
        law_services_are_stored_in_order(plan, (n - 1) as nat);
        assert(events.drop_last() =~= Seq::new(
            (n - 1) as nat,
            |i: int| SyncEventView::Stored(true),
        ));
    }
}

/// Each removal is looked up, then marked, then recorded, before the next one:
/// as audited if and only if an allow was found.
pub proof fn law_a_removal_is_judged_marked_and_recorded(
    plan: PlanView,
    verdicts: Seq<bool>,
    allow: Option<bool>,
)
    requires
        verdicts.len() < plan.gone.len(),
    ensures
        ({
            let host = plan.gone[verdicts.len() as int];
            let audited = allow == Some(true);
            let judge = SyncView::judging(plan, verdicts);
            let mark = judge.next(SyncEventView::Allowed(allow));
            let record = mark.next(SyncEventView::Stored(true));
            &&& judge.action() == SyncActionView::FindAllow(host)
            &&& mark.action() == (SyncActionView::Mark { hostname: host, audited })
            &&& record.action() == SyncActionView::Append(removal_entry(host, audited))
            &&& record.next(SyncEventView::Stored(true)) == SyncView::judging(
                plan,
                verdicts.push(audited),
            )
        }),
{
}

/// Where judging some removals gets to.
proof fn lemma_judging(plan: PlanView, allows: Seq<Option<bool>>)
    requires
        allows.len() <= plan.gone.len(),
    ensures
        SyncView::judging(plan, Seq::empty()).after(smooth_judging(allows)) == SyncView::judging(
            plan,
            verdicts_of(allows),
        ),
    decreases allows.len(),
{
    let start = SyncView::judging(plan, Seq::empty());
    if allows.len() == 0 {
        assert(verdicts_of(allows) =~= Seq::<bool>::empty());
    } else {
        let shorter = allows.drop_last();
        lemma_judging(plan, shorter);
        let triple = seq![
            SyncEventView::Allowed(allows.last()),
            SyncEventView::Stored(true),
            SyncEventView::Stored(true),
        ];
        lemma_after_concat(start, smooth_judging(shorter), triple);
        let v = SyncView::judging(plan, verdicts_of(shorter));
        let none = triple.take(0);
        assert(triple.take(3) =~= triple);
        assert(triple.take(1).drop_last() =~= none);
        assert(triple.take(2).drop_last() =~= triple.take(1));
        assert(triple.take(3).drop_last() =~= triple.take(2));
        assert(v.after(none) == v);
        assert(v.after(triple.take(1)) == v.next(triple[0]));
        assert(v.after(triple.take(2)) == v.next(triple[0]).next(triple[1]));
        assert(v.after(triple.take(3)) == v.next(triple[0]).next(triple[1]).next(triple[2]));
        assert(verdicts_of(allows) =~= verdicts_of(shorter).push(allows.last() == Some(true)));
    }
}

/// A sync in which everything can be read and stored gets to the end: it has
/// stored every service, judged every removal, recorded the summary, and answers
/// that same summary.
pub proof fn law_a_smooth_sync_answers_its_summary(
    services: Seq<topology::ServiceView>,
    rows: Seq<topology::TopoRowView>,
    allows: Seq<Option<bool>>,
)
    requires
        topology::first_service_error(services) is None,
        allows.len() == planned(services, rows).gone.len(),
    ensures
        SyncView::begun(true).after(
            seq![
                SyncEventView::Body(Some(services)),
                SyncEventView::Connected(true),
                SyncEventView::Topology(Some(rows)),
            ] + smooth_events(services.len(), allows),
        ) == (SyncView::Finished {
            reply: http::ReplyView {
                status: 200,
                body: summary_doc(planned(services, rows), verdicts_of(allows)),
            },
        }),
        (SyncView::Summarize {
            plan: planned(services, rows),
            verdicts: verdicts_of(allows),
        }).action() == SyncActionView::Append(
            sync_entry(summary_doc(planned(services, rows), verdicts_of(allows))),
        ),
{
    let plan = planned(services, rows);
    let front = seq![
        SyncEventView::Body(Some(services)),
        SyncEventView::Connected(true),
        SyncEventView::Topology(Some(rows)),
    ];
    let start = SyncView::begun(true);
    assert(front.take(3) =~= front);
    assert(front.take(1).drop_last() =~= front.take(0));
    assert(front.take(2).drop_last() =~= front.take(1));
    assert(front.take(3).drop_last() =~= front.take(2));
    assert(start.after(front.take(0)) == start);
    assert(start.after(front.take(1)) == SyncView::Connect { services });
    assert(start.after(front.take(2)) == SyncView::Topology { services });
    assert(start.after(front) == SyncView::storing(plan, 0));

    let stores = Seq::new(services.len(), |i: int| SyncEventView::Stored(true));
    let last = seq![SyncEventView::Stored(true)];
    lemma_after_concat(start, front, smooth_events(services.len(), allows));
    lemma_after_concat(SyncView::storing(plan, 0), stores + smooth_judging(allows), last);
    lemma_after_concat(SyncView::storing(plan, 0), stores, smooth_judging(allows));
    law_services_are_stored_in_order(plan, services.len());
    lemma_judging(plan, allows);
    let end = SyncView::judging(plan, verdicts_of(allows));
    assert(end is Summarize);
    assert(last.drop_last() =~= Seq::<SyncEventView>::empty());
    assert(end.after(last.drop_last()) == end);
    assert(end.after(last) == end.next(SyncEventView::Stored(true)));
}

/// A sync answers success only when its summary has been stored.
pub proof fn law_no_summary_without_a_record(authorized: bool, events: Seq<SyncEventView>)
    requires
        SyncView::begun(authorized).after(events) is Finished,
        SyncView::begun(authorized).after(events)->reply.status == 200,
    ensures
        exists|k: int|
            summarized_at(
                SyncView::begun(authorized),
                events,
                k,
                SyncView::begun(authorized).after(events)->reply,
            ),
    decreases events.len(),
{
    let start = SyncView::begun(authorized);
    if events.len() > 0 {
        let n = events.len() - 1;
        let before = start.after(events.drop_last());
        assert(events.take(n) =~= events.drop_last());
        if before is Finished {
            law_no_summary_without_a_record(authorized, events.drop_last());
            let k = choose|k: int| summarized_at(start, events.drop_last(), k, before->reply);
            assert(events.drop_last().take(k) =~= events.take(k));
            assert(summarized_at(start, events, k, start.after(events)->reply));
        } else {
            assert(summarized_at(start, events, n, start.after(events)->reply));
        }
    }
}

/// Event `k` says that the summary of the time was stored, and `reply` answers
/// just that.
pub open spec fn summarized_at(
    start: SyncView,
    events: Seq<SyncEventView>,
    k: int,
    reply: http::ReplyView,
) -> bool {
    &&& 0 <= k < events.len()
    &&& events[k] == SyncEventView::Stored(true)
    &&& start.after(events.take(k)) matches SyncView::Summarize { plan, verdicts } && reply
        == (http::ReplyView { status: 200, body: summary_doc(plan, verdicts) })
}

/// An audited removal spends its authorization: once it is on record, no earlier
/// than the allow, a further removal of the service is drift until a new allow
/// is given.
pub proof fn law_an_audited_removal_spends_the_allow(
    rows: Seq<ledger::LedgerRow>,
    host: Seq<char>,
    at: int,
    now: int,
)
    requires
        0 <= at < rows.len(),
        rows[at].records(removal_entry(host, true)),
        forall|i: int|
            0 <= i < rows.len() && (#[trigger] rows[i]).allows_removal(host) ==> rows[i].at
                <= rows[at].at,
    ensures
        !exists|i: int| ledger::unspent_allow(rows, host, now, i),
{
    ledger::law_an_allow_covers_one_removal(rows, host, at, now);
}

impl SyncView {
    /// The sync has its plan, and what is to be done next is there to be done.
    pub open spec fn under_way(self) -> bool {
        match self {
            SyncView::Upsert { plan, next } => next < plan.services.len(),
            SyncView::Judge { plan, verdicts } => verdicts.len() < plan.gone.len(),
            SyncView::Mark { plan, verdicts, .. } => verdicts.len() < plan.gone.len(),
            SyncView::Record { plan, verdicts, .. } => verdicts.len() < plan.gone.len(),
            SyncView::Summarize { plan, verdicts } => verdicts.len() == plan.gone.len(),
            SyncView::Finished { .. } => true,
            _ => false,
        }
    }

    /// How many actions are left at most: one for each service, three for each
    /// removal, and the last for the summary.
    pub open spec fn remaining(self) -> int {
        match self {
            SyncView::Upsert { plan, next } => plan.services.len() - next + 3 * plan.gone.len()
                + 1,
            SyncView::Judge { plan, verdicts } => 3 * (plan.gone.len() - verdicts.len()) + 1,
            SyncView::Mark { plan, verdicts, .. } => 3 * (plan.gone.len() - verdicts.len()),
            SyncView::Record { plan, verdicts, .. } => 3 * (plan.gone.len() - verdicts.len()) - 1,
            SyncView::Summarize { .. } => 1,
            _ => 0,
        }
    }
}

/// Every sync that has its plan comes to its reply: each event brings it closer,
/// whatever it says.
pub proof fn law_every_sync_is_answered(v: SyncView, events: Seq<SyncEventView>)
    requires
        v.under_way(),
        events.len() >= v.remaining(),
    ensures
        v.after(events) is Finished,
{
    lemma_remaining(v, events);
}

/// Every event leaves fewer actions to do.
pub proof fn lemma_remaining(v: SyncView, events: Seq<SyncEventView>)
    requires
        v.under_way(),
    ensures
        v.after(events).under_way(),
        v.after(events) is Finished || v.after(events).remaining() + events.len() <= v.remaining(),
    decreases events.len(),
{
    if events.len() > 0 {
        lemma_remaining(v, events.drop_last());
    }
}

/// A service that was marked as gone shows in what `/v1/drift` lists, audited or
/// not.
pub proof fn law_every_removal_is_listed_as_drift(
    e: ledger::EntryView,
    host: Seq<char>,
    audited: bool,
)
    requires
        e.kind == removal_entry(host, audited).kind,
    ensures
        ledger::is_of(e, Some(ledger::drift_kinds_text())),
{
    ledger::law_drift_lists_drift_and_audit(e);
}

// ---------------------------------------------------------------------------
// What a sync finds, over the rows of the model and the services of a snapshot
// ---------------------------------------------------------------------------

/// A plan is what it holds, and so is a list of names.
pub proof fn law_plans_are_their_fields(p: Plan, items: Seq<String>, i: int)
    ensures
        p@.services == topology::service_views(p.services@),
        p@.added == text_views(p.added@),
        p@.updated == text_views(p.updated@),
        p@.gone == text_views(p.gone@),
        text_views(items).len() == items.len(),
        0 <= i < items.len() ==> text_views(items)[i] == items[i]@,
{
}

/// A sync stores the services of the snapshot as they are.
pub proof fn law_a_plan_keeps_the_services(
    services: Seq<topology::ServiceView>,
    rows: Seq<topology::TopoRowView>,
)
    ensures
        planned(services, rows).services == services,
{
}

/// A host is gone exactly if a row of it counts as present and no service of the
/// snapshot has its name.
pub proof fn law_which_hosts_are_gone(
    services: Seq<topology::ServiceView>,
    rows: Seq<topology::TopoRowView>,
    host: Seq<char>,
)
    ensures
        (exists|k: int|
            0 <= k < planned(services, rows).gone.len() && #[trigger] planned(services, rows).gone[k]
                == host) <==> {
            &&& exists|i: int|
                0 <= i < rows.len() && (#[trigger] rows[i]).service.hostname == host
                    && rows[i].status == "present"@
            &&& forall|j: int|
                0 <= j < services.len() ==> (#[trigger] services[j]).hostname != host
        },
{
    law_gone_is_counted_on_but_not_listed(services, rows, host);
    let gone = planned(services, rows).gone;
    if exists|k: int|
        0 <= k < planned(services, rows).gone.len() && #[trigger] planned(services, rows).gone[k]
            == host {
        assert(gone.contains(host));
        let i = choose|i: int|
            0 <= i < rows.len() && missing(services, #[trigger] rows[i])
                && rows[i].service.hostname == host;
        assert(!listed(services, host));
    }
    if (exists|i: int|
        0 <= i < rows.len() && (#[trigger] rows[i]).service.hostname == host && rows[i].status
            == "present"@) && (forall|j: int|
        0 <= j < services.len() ==> (#[trigger] services[j]).hostname != host) {
        let i = choose|i: int|
            0 <= i < rows.len() && (#[trigger] rows[i]).service.hostname == host && rows[i].status
                == "present"@;
        assert(missing(services, rows[i]));
        assert(gone.contains(host));
        let k = choose|k: int| 0 <= k < gone.len() && gone[k] == host;
        assert(planned(services, rows).gone[k] == host);
    }
}

/// The first rows of a longer table are judged as those of the shorter one.
proof fn lemma_gone_prefix(
    services: Seq<topology::ServiceView>,
    rows: Seq<topology::TopoRowView>,
    row: topology::TopoRowView,
    n: nat,
)
    requires
        n <= rows.len(),
    ensures
        gone_hosts(services, rows.push(row), n) == gone_hosts(services, rows, n),
    decreases n,
{
    if n > 0 {
        lemma_gone_prefix(services, rows, row, (n - 1) as nat);
        assert(rows.push(row)[n - 1] == rows[n - 1]);
    }
}

/// The gone hosts stand in the order of the rows: one row more is one more gone
/// host, at the end, exactly if it counts as present and is not listed, whatever
/// its other columns say.
pub proof fn law_gone_hosts_stand_in_the_order_of_the_rows(
    services: Seq<topology::ServiceView>,
    rows: Seq<topology::TopoRowView>,
    row: topology::TopoRowView,
)
    ensures
        planned(services, Seq::<topology::TopoRowView>::empty()).gone == Seq::<Seq<char>>::empty(),
        planned(services, rows.push(row)).gone == if row.status == "present"@ && forall|j: int|
            0 <= j < services.len() ==> (#[trigger] services[j]).hostname != row.service.hostname {
            planned(services, rows).gone.push(row.service.hostname)
        } else {
            planned(services, rows).gone
        },
{
    lemma_gone_prefix(services, rows, row, rows.len());
    assert(rows.push(row)[rows.len() as int] == row);
    assert(listed(services, row.service.hostname) == !forall|j: int|
        0 <= j < services.len() ==> (#[trigger] services[j]).hostname != row.service.hostname);
}

/// The added and the updated hosts stand in the order of the snapshot: one service
/// more is one more of them, at the end, updated if a row has its name and added if
/// none has.
pub proof fn law_listed_hosts_stand_in_the_order_of_the_snapshot(
    services: Seq<topology::ServiceView>,
    service: topology::ServiceView,
    rows: Seq<topology::TopoRowView>,
)
    ensures
        ({
            let known = exists|i: int|
                0 <= i < rows.len() && (#[trigger] rows[i]).service.hostname == service.hostname;
            let before = planned(services, rows);
            let after = planned(services.push(service), rows);
            &&& known ==> after.updated == before.updated.push(service.hostname)
            &&& known ==> after.added == before.added
            &&& !known ==> after.added == before.added.push(service.hostname)
            &&& !known ==> after.updated == before.updated
        }),
        planned(Seq::<topology::ServiceView>::empty(), rows).added == Seq::<Seq<char>>::empty(),
        planned(Seq::<topology::ServiceView>::empty(), rows).updated == Seq::<Seq<char>>::empty(),
{
    reveal(Seq::filter);
    let names = hosts(services.push(service));
    assert(names =~= hosts(services).push(service.hostname));
    assert(names.drop_last() =~= hosts(services));
    assert(hosts(Seq::<topology::ServiceView>::empty()) =~= Seq::<Seq<char>>::empty());
    assert(modelled(rows, service.hostname) == exists|i: int|
        0 <= i < rows.len() && (#[trigger] rows[i]).service.hostname == service.hostname);
}

/// The verdicts sort the gone hosts, in their order: one verdict more puts its host
/// at the end of those that were judged that way, and leaves the others alone.
pub proof fn law_a_verdict_sorts_its_host(gone: Seq<Seq<char>>, verdicts: Seq<bool>, verdict: bool)
    ensures
        judged(gone, Seq::<bool>::empty(), verdict) == Seq::<Seq<char>>::empty(),
        judged(gone, verdicts.push(verdict), verdict) == judged(gone, verdicts, verdict).push(
            gone[verdicts.len() as int],
        ),
        judged(gone, verdicts.push(verdict), !verdict) == judged(gone, verdicts, !verdict),
{
    assert(verdicts.push(verdict).drop_last() =~= verdicts);
}

/// What is recorded of a service that a snapshot leaves out: an audit where its
/// removal was authorized, a flagged drift where it was not.
pub proof fn law_the_record_of_a_removal(host: Seq<char>, audited: bool)
    ensures
        audited ==> removal_entry(host, audited).kind == "audit"@,
        !audited ==> removal_entry(host, audited).kind == "drift"@,
        audited ==> removal_entry(host, audited).action == "sync.audit"@,
        !audited ==> removal_entry(host, audited).action == "sync.drift"@,
        audited ==> removal_entry(host, audited).decision == "info"@,
        !audited ==> removal_entry(host, audited).decision == "flag"@,
        audited ==> removal_entry(host, audited).reason == host
            + " absent from synced snapshot; matching allow found — removal audited"@,
        !audited ==> removal_entry(host, audited).reason == host
            + " absent from synced snapshot with no matching allow — unaudited removal"@,
        removal_entry(host, audited).actor == "topology-sync"@,
        removal_entry(host, audited).target == host,
        removal_entry(host, audited).policy == ""@,
        removal_entry(host, audited).params == json::Doc::empty_object(),
        removal_entry(host, audited).authenticated,
{
}

/// What is recorded of a sync: its summary, under the name of the sync, which
/// carried the token.
pub proof fn law_the_record_of_a_sync(summary: json::Doc)
    ensures
        sync_entry(summary).kind == "system"@,
        sync_entry(summary).actor == "topology-sync"@,
        sync_entry(summary).action == "topology.sync"@,
        sync_entry(summary).target == ""@,
        sync_entry(summary).decision == "info"@,
        sync_entry(summary).reason == "topology snapshot synced"@,
        sync_entry(summary).policy == ""@,
        sync_entry(summary).params == summary,
        sync_entry(summary).authenticated,
{
}

/// The summary shows the added and the updated hosts, and the gone ones by how they
/// were judged, and nothing else.
pub proof fn law_a_summary_shows_four_lists(plan: PlanView, verdicts: Seq<bool>, other: Seq<char>)
    ensures
        summary_doc(plan, verdicts) is Object,
        summary_doc(plan, verdicts).member("added"@) == Some(json::Doc::texts(plan.added)),
        summary_doc(plan, verdicts).member("updated"@) == Some(json::Doc::texts(plan.updated)),
        summary_doc(plan, verdicts).member("removed_audited"@) == Some(
            json::Doc::texts(judged(plan.gone, verdicts, true)),
        ),
        summary_doc(plan, verdicts).member("removed_unaudited"@) == Some(
            json::Doc::texts(judged(plan.gone, verdicts, false)),
        ),
        other != "added"@ && other != "updated"@ && other != "removed_audited"@ && other
            != "removed_unaudited"@ ==> summary_doc(plan, verdicts).member(other) is None,
{
    reveal_strlit("added");
    reveal_strlit("updated");
    reveal_strlit("removed_audited");
    reveal_strlit("removed_unaudited");
    assert("added"@.len() == 5 && "updated"@.len() == 7 && "removed_audited"@.len() == 15
        && "removed_unaudited"@.len() == 17);
}

// ---------------------------------------------------------------------------
// The course of a sync, event by event
// ---------------------------------------------------------------------------

/// What has happened on the way to each stage, from the start.
proof fn lemma_course(authorized: bool, events: Seq<SyncEventView>)
    ensures
        match SyncView::begun(authorized).after(events) {
            SyncView::Body => authorized && events.len() == 0,
            SyncView::Connect { services } => {
                &&& authorized
                &&& events.len() == 1
                &&& events[0] == SyncEventView::Body(Some(services))
                &&& topology::first_service_error(services) is None
            },
            SyncView::Topology { services } => {
                &&& authorized
                &&& events.len() == 2
                &&& events[0] == SyncEventView::Body(Some(services))
                &&& topology::first_service_error(services) is None
                &&& events[1] == SyncEventView::Connected(true)
            },
            SyncView::Upsert { plan, next } => {
                &&& authorized
                &&& events.len() == 3 + next
                &&& next < plan.services.len()
                &&& planned_from(events, plan)
            },
            SyncView::Judge { plan, verdicts } => {
                &&& authorized
                &&& verdicts.len() < plan.gone.len()
                &&& events.len() == 3 + plan.services.len() + 3 * verdicts.len()
                &&& planned_from(events, plan)
                &&& verdicts_from(events, plan, verdicts)
            },
            SyncView::Mark { plan, verdicts, audited } => {
                &&& authorized
                &&& verdicts.len() < plan.gone.len()
                &&& events.len() == 4 + plan.services.len() + 3 * verdicts.len()
                &&& planned_from(events, plan)
                &&& verdicts_from(events, plan, verdicts)
                &&& audited == (events[events.len() - 1] == SyncEventView::Allowed(Some(true)))
            },
            SyncView::Record { plan, verdicts, audited } => {
                &&& authorized
                &&& verdicts.len() < plan.gone.len()
                &&& events.len() == 5 + plan.services.len() + 3 * verdicts.len()
                &&& planned_from(events, plan)
                &&& verdicts_from(events, plan, verdicts)
                &&& audited == (events[events.len() - 2] == SyncEventView::Allowed(Some(true)))
            },
            SyncView::Summarize { plan, verdicts } => {
                &&& authorized
                &&& verdicts.len() == plan.gone.len()
                &&& events.len() == 3 + plan.services.len() + 3 * verdicts.len()
                &&& planned_from(events, plan)
                &&& verdicts_from(events, plan, verdicts)
            },
            SyncView::Finished { .. } => true,
        },
    decreases events.len(),
{
    if events.len() > 0 {
        let n = events.len() - 1;
        let shorter = events.drop_last();
        lemma_course(authorized, shorter);
        assert(forall|i: int| 0 <= i < n ==> shorter[i] == #[trigger] events[i]);
        assert(events.last() == events[n]);
        let before = SyncView::begun(authorized).after(shorter);
        if let SyncView::Record { plan, verdicts, audited } = before {
            assert(verdicts_from(events, plan, verdicts));
            assert forall|i: int| 0 <= i < verdicts.push(audited).len() implies verdicts.push(
                audited,
            )[i] == (#[trigger] events[3 + plan.services.len() + 3 * i] == SyncEventView::Allowed(
                Some(true),
            )) by {
                if i < verdicts.len() {
                    assert(verdicts[i] == (events[3 + plan.services.len() + 3 * i]
                        == SyncEventView::Allowed(Some(true))));
                }
            }
        }
    }
}

/// The plan compares the snapshot and the rows that the events brought.
spec fn planned_from(events: Seq<SyncEventView>, plan: PlanView) -> bool {
    &&& events.len() >= 3
    &&& events[0] matches SyncEventView::Body(Some(services))
    &&& events[1] == SyncEventView::Connected(true)
    &&& events[2] matches SyncEventView::Topology(Some(rows))
    &&& plan == planned(services, rows)
    &&& topology::first_service_error(services) is None
}

/// The verdicts are those that the events brought.
spec fn verdicts_from(events: Seq<SyncEventView>, plan: PlanView, verdicts: Seq<bool>) -> bool {
    forall|i: int|
        0 <= i < verdicts.len() ==> verdicts[i] == (#[trigger] events[3 + plan.services.len() + 3
            * i] == SyncEventView::Allowed(Some(true)))
}

/// A service is stored only as the snapshot of the request lists it, and only by a
/// caller with the token: after the body, the database and the rows come the
/// services, one by one in their order.
pub proof fn law_only_listed_services_are_stored(authorized: bool, events: Seq<SyncEventView>)
    requires
        SyncView::begun(authorized).after(events).action() is Upsert,
    ensures
        authorized,
        events.len() >= 3,
        events[0] is Body && events[0]->Body_0 is Some,
        0 <= events.len() - 3 < (events[0]->Body_0->0).len(),
        SyncView::begun(authorized).after(events).action()->Upsert_0 == (events[0]->Body_0->0)[
            events.len() - 3],
{
    lemma_course(authorized, events);
}

/// A host is marked as gone only if a row that was read counts it as present and
/// no service of the snapshot has its name, as audited exactly if the search for an
/// allow that came just before found one. All services have been stored by then.
pub proof fn law_only_missing_hosts_are_marked(authorized: bool, events: Seq<SyncEventView>)
    requires
        SyncView::begun(authorized).after(events).action() is Mark,
    ensures
        authorized,
        events.len() >= 4,
        events[0] is Body && events[0]->Body_0 is Some,
        events[2] is Topology && events[2]->Topology_0 is Some,
        events.len() >= 4 + (events[0]->Body_0->0).len(),
        ({
            let services = events[0]->Body_0->0;
            let rows = events[2]->Topology_0->0;
            let host = SyncView::begun(authorized).after(events).action()->hostname;
            let audited = SyncView::begun(authorized).after(events).action()->audited;
            &&& exists|i: int|
                0 <= i < rows.len() && (#[trigger] rows[i]).service.hostname == host
                    && rows[i].status == "present"@
            &&& forall|j: int|
                0 <= j < services.len() ==> (#[trigger] services[j]).hostname != host
            &&& audited <==> events[events.len() - 1] == SyncEventView::Allowed(Some(true))
        }),
{
    lemma_course(authorized, events);
    let v = SyncView::begun(authorized).after(events);
    assert(v is Mark);
    let services = events[0]->Body_0->0;
    let rows = events[2]->Topology_0->0;
    let k = v->Mark_verdicts.len() as int;
    let host = v.action()->hostname;
    assert(planned(services, rows).gone[k] == host);
    law_which_hosts_are_gone(services, rows, host);
}

/// What is recorded of a removal speaks of the host that was just marked, the way
/// that it was marked, and it is recorded only when the mark was stored.
pub proof fn law_a_record_follows_its_mark(v: SyncView)
    requires
        v.action() is Mark,
    ensures
        v.next(SyncEventView::Stored(true)).action() is Append,
        v.next(SyncEventView::Stored(true)).action()->Append_0.target == v.action()->hostname,
        v.next(SyncEventView::Stored(true)).action()->Append_0.kind == if v.action()->audited {
            "audit"@
        } else {
            "drift"@
        },
        v.next(SyncEventView::Stored(false)).action() is Send,
        v.next(SyncEventView::Stored(false)).action()->Send_0.status == 503,
{
}

/// Before a host is marked, an allow for it is looked for. Only one that was found
/// makes the removal audited: where there is none, or where the search failed, it
/// is not.
pub proof fn law_an_allow_is_looked_for_first(v: SyncView, found: Option<bool>)
    requires
        v.action() is FindAllow,
    ensures
        v.next(SyncEventView::Allowed(found)).action() is Mark,
        v.next(SyncEventView::Allowed(found)).action()->hostname == v.action()->FindAllow_0,
        v.next(SyncEventView::Allowed(found)).action()->audited <==> found == Some(true),
{
}

/// The last thing that is recorded, and answered once it is stored, is the summary
/// of what the snapshot and the rows that were read came to, when every gone host
/// has been judged.
pub proof fn law_the_summary_comes_last(plan: PlanView, verdicts: Seq<bool>)
    requires
        verdicts.len() == plan.gone.len(),
    ensures
        SyncView::judging(plan, verdicts).action() is Append,
        SyncView::judging(plan, verdicts).action()->Append_0.action == "topology.sync"@,
        SyncView::judging(plan, verdicts).action()->Append_0.params == summary_doc(plan, verdicts),
        SyncView::judging(plan, verdicts).next(SyncEventView::Stored(true)).action() is Send,
        SyncView::judging(plan, verdicts).next(SyncEventView::Stored(true)).action()->Send_0.status
            == 200,
        SyncView::judging(plan, verdicts).next(SyncEventView::Stored(true)).action()->Send_0.body
            == summary_doc(plan, verdicts),
{
}

/// A summary that is recorded is that of the snapshot and the rows that were read,
/// and its verdicts are what the searches for an allow came to, in the order of the
/// gone hosts.
pub proof fn law_a_summary_is_that_of_its_course(authorized: bool, events: Seq<SyncEventView>)
    requires
        SyncView::begun(authorized).after(events) is Summarize,
    ensures
        authorized,
        events.len() >= 3,
        events[0] is Body && events[0]->Body_0 is Some,
        topology::first_service_error(events[0]->Body_0->0) is None,
        events[1] == SyncEventView::Connected(true),
        events[2] is Topology && events[2]->Topology_0 is Some,
        ({
            let services = events[0]->Body_0->0;
            let rows = events[2]->Topology_0->0;
            let gone = planned(services, rows).gone;
            let verdicts = Seq::new(
                gone.len(),
                |i: int|
                    events[3 + services.len() + 3 * i] == SyncEventView::Allowed(Some(true)),
            );
            &&& events.len() == 3 + services.len() + 3 * gone.len()
            &&& SyncView::begun(authorized).after(events).action() is Append
            &&& SyncView::begun(authorized).after(events).action()->Append_0.params == summary_doc(
                planned(services, rows),
                verdicts,
            )
        }),
{
    lemma_course(authorized, events);
    let v = SyncView::begun(authorized).after(events);
    let services = events[0]->Body_0->0;
    let gone = planned(services, events[2]->Topology_0->0).gone;
    let verdicts = Seq::new(
        gone.len(),
        |i: int| events[3 + services.len() + 3 * i] == SyncEventView::Allowed(Some(true)),
    );
    assert(v->Summarize_verdicts =~= verdicts);
}

/// A sync asks in turn for the body, the database and the rows, and its first
/// service follows, or its first removal where it lists none.
pub proof fn law_a_sync_asks_in_turn(
    services: Seq<topology::ServiceView>,
    rows: Seq<topology::TopoRowView>,
)
    ensures
        SyncView::begun(true).action() == SyncActionView::ReadBody,
        (SyncView::Connect { services }).action() == SyncActionView::Connect,
        (SyncView::Topology { services }).action() == SyncActionView::ReadTopology,
        topology::first_service_error(services) is None ==> SyncView::begun(true).next(
            SyncEventView::Body(Some(services)),
        ) == (SyncView::Connect { services }),
        (SyncView::Connect { services }).next(SyncEventView::Connected(true)) == (
        SyncView::Topology { services }),
        services.len() > 0 ==> (SyncView::Topology { services }).next(
            SyncEventView::Topology(Some(rows)),
        ).action() == SyncActionView::Upsert(services[0]),
        services.len() == 0 && planned(services, rows).gone.len() > 0 ==> (SyncView::Topology {
            services,
        }).next(SyncEventView::Topology(Some(rows))).action() == SyncActionView::FindAllow(
            planned(services, rows).gone[0],
        ),
{
}

/// A caller without the token is answered 401, a body that is no snapshot 400, and
/// so is one with a service that cannot be used, with what is wrong with it.
pub proof fn law_what_a_sync_refuses(services: Seq<topology::ServiceView>)
    ensures
        SyncView::begun(false).action() matches SyncActionView::Send(reply) && reply.status == 401
            && reply.body.member("error"@) == Some(
            json::Doc::String("missing or invalid X-Gate-Token"@),
        ),
        SyncView::begun(true).next(SyncEventView::Body(None)).action() matches SyncActionView::Send(
            reply,
        ) && reply.status == 400 && reply.body.member("error"@) == Some(
            json::Doc::String(
                "malformed body: expected {\"services\": [{hostname, service_type, stateful, probe_method, tcp_port}]}"@,
            ),
        ),
        topology::first_service_error(services) is Some ==> (SyncView::begun(true).next(
            SyncEventView::Body(Some(services)),
        ).action() matches SyncActionView::Send(reply) && reply.status == 400 && reply.body.member(
            "error"@,
        ) == Some(json::Doc::String(topology::first_service_error(services)->0))),
{
}

/// Whatever does not answer what was asked for ends a sync with 503, and a sync
/// that has its reply keeps it.
pub proof fn law_what_does_not_answer_ends_a_sync(v: SyncView, event: SyncEventView)
    ensures
        v is Finished ==> v.next(event) == v,
        v is Body && !(event is Body) || v is Connect && event != SyncEventView::Connected(true)
            || v is Topology && !(event is Topology && event->Topology_0 is Some) || (v is Upsert
            || v is Mark || v is Record || v is Summarize) && event != SyncEventView::Stored(true)
            || v is Judge && !(event is Allowed) ==> v.next(event) is Finished && v.next(
            event,
        )->reply.status == 503,
{
}

/// What a sync asks for and what it is told are what they hold.
pub proof fn law_requests_and_answers_are_their_fields(
    service: SeedService,
    hostname: String,
    audited: bool,
    entry: NewEntry,
    reply: Reply,
    snap: Snapshot,
    rows: Vec<TopoRow>,
    found: Option<bool>,
)
    ensures
        SyncAction::ReadBody@ == SyncActionView::ReadBody,
        SyncAction::Connect@ == SyncActionView::Connect,
        SyncAction::ReadTopology@ == SyncActionView::ReadTopology,
        SyncAction::Upsert(service)@ == SyncActionView::Upsert(service@),
        SyncAction::FindAllow(hostname)@ == SyncActionView::FindAllow(hostname@),
        (SyncAction::Mark { hostname, audited })@ == (SyncActionView::Mark {
            hostname: hostname@,
            audited,
        }),
        SyncAction::Append(entry)@ == SyncActionView::Append(entry@),
        SyncAction::Send(reply)@ == SyncActionView::Send(reply@),
        SyncEvent::Body(Some(snap))@ == SyncEventView::Body(
            Some(topology::service_views(snap.services@)),
        ),
        SyncEvent::Body(None)@ == SyncEventView::Body(None),
        SyncEvent::Connected(audited)@ == SyncEventView::Connected(audited),
        SyncEvent::Topology(Some(rows))@ == SyncEventView::Topology(
            Some(topology::row_views(rows@)),
        ),
        SyncEvent::Topology(None)@ == SyncEventView::Topology(None),
        SyncEvent::Stored(audited)@ == SyncEventView::Stored(audited),
        SyncEvent::Allowed(found)@ == SyncEventView::Allowed(found),
{
}

} // verus!
