//! One request to `/v1/evaluate`, from its body to its reply.
//!
//! An [`Evaluation`] says what has to be done next ([`Evaluation::action`]) and
//! goes on with how that went ([`Evaluation::step`]). It decides nothing unless
//! the ledger can be reached, and it answers no decision that the ledger has not
//! recorded.

use vstd::prelude::*;
use vstd::string::*;

use crate::http;
use crate::http::{err, unavailable, Reply};
use crate::json;
use crate::json::Json;
use crate::ledger;
use crate::ledger::{Entry, NewEntry};
use crate::policy;
use crate::policy::{Decision, Effect, PolicyFlags, TopoView};
use crate::state::GATE;
use crate::text;

verus! {

// ---------------------------------------------------------------------------
// What is asked
// ---------------------------------------------------------------------------

/// The body of a request, as it was sent.
#[derive(Debug)]
pub struct EvaluateReq {
    pub actor: Option<String>,
    pub action: Option<String>,
    pub target: Option<String>,
    pub params: Option<Json>,
}

/// An action that is proposed.
#[derive(Debug)]
pub struct Proposal {
    pub actor: String,
    pub action: String,
    pub target: String,
    pub params: Json,
}

/// What an [`EvaluateReq`] says.
pub struct EvaluateReqView {
    pub actor: Option<Seq<char>>,
    pub action: Option<Seq<char>>,
    pub target: Option<Seq<char>>,
    pub params: Option<json::Doc>,
}

/// What a [`Proposal`] says.
pub struct ProposalView {
    pub actor: Seq<char>,
    pub action: Seq<char>,
    pub target: Seq<char>,
    pub params: json::Doc,
}

/// The characters of a text that may be missing.
pub open spec fn text_of(s: Option<String>) -> Option<Seq<char>> {
    match s {
        Some(s) => Some(s@),
        None => None,
    }
}

impl View for EvaluateReq {
    type V = EvaluateReqView;

    open spec fn view(&self) -> EvaluateReqView {
        EvaluateReqView {
            actor: text_of(self.actor),
            action: text_of(self.action),
            target: text_of(self.target),
            params: match self.params {
                Some(p) => Some(p@),
                None => None,
            },
        }
    }
}

impl View for Proposal {
    type V = ProposalView;

    open spec fn view(&self) -> ProposalView {
        ProposalView {
            actor: self.actor@,
            action: self.action@,
            target: self.target@,
            params: self.params@,
        }
    }
}

/// A field, where a blank one counts as missing.
pub open spec fn given(field: Option<Seq<char>>) -> Option<Seq<char>> {
    match field {
        Some(s) => if text::blank(s) {
            None
        } else {
            Some(s)
        },
        None => None,
    }
}

/// What a body proposes: action and target have to be there, an actor who is
/// not named is anonymous, and there are no params unless some are given.
pub open spec fn proposed(req: EvaluateReqView) -> Result<ProposalView, Seq<char>> {
    match (given(req.action), given(req.target)) {
        (None, _) => Err("missing required field: action"@),
        (Some(_), None) => Err("missing required field: target"@),
        (Some(action), Some(target)) => Ok(
            ProposalView {
                actor: match given(req.actor) {
                    Some(actor) => actor,
                    None => "anonymous"@,
                },
                action,
                target,
                params: match req.params {
                    Some(params) => params,
                    None => json::Doc::empty_object(),
                },
            },
        ),
    }
}

/// A field, where a blank one counts as missing.
fn nonblank(field: Option<String>) -> (r: Option<String>)
    ensures
        text_of(r) == given(text_of(field)),
{
    match field {
        Some(s) => if text::is_blank(s.as_str()) {
            None
        } else {
            Some(s)
        },
        None => None,
    }
}

impl EvaluateReq {
    /// What the body proposes; the error is what to tell the caller.
    pub fn proposal(self) -> (r: Result<Proposal, &'static str>)
        ensures
            match r {
                Ok(p) => proposed(self@) == Ok::<ProposalView, Seq<char>>(p@),
                Err(msg) => proposed(self@) == Err::<ProposalView, Seq<char>>(msg@),
            },
    {
        let action = match nonblank(self.action) {
            Some(a) => a,
            None => return Err("missing required field: action"),
        };
        let target = match nonblank(self.target) {
            Some(t) => t,
            None => return Err("missing required field: target"),
        };
        let actor = match nonblank(self.actor) {
            Some(a) => a,
            None => "anonymous".to_owned(),
        };
        let params = match self.params {
            Some(p) => p,
            None => Json::object(),
        };
        Ok(Proposal { actor, action, target, params })
    }
}

// ---------------------------------------------------------------------------
// What is recorded and answered
// ---------------------------------------------------------------------------

/// The word for what a decision comes to.
pub open spec fn effect_text(effect: Effect) -> Seq<char> {
    match effect {
        Effect::Allow => "allow"@,
        Effect::Refuse => "refuse"@,
    }
}

/// The word for what a decision comes to.
pub fn effect_word(effect: Effect) -> (s: &'static str)
    ensures
        s@ == effect_text(effect),
{
    match effect {
        Effect::Allow => "allow",
        Effect::Refuse => "refuse",
    }
}

/// The ledger entry of a decision.
pub open spec fn decision_entry(
    p: ProposalView,
    authenticated: bool,
    d: policy::DecisionView,
) -> ledger::NewEntryView {
    ledger::NewEntryView {
        kind: "decision"@,
        actor: p.actor,
        action: p.action,
        target: p.target,
        decision: effect_text(d.effect),
        reason: d.reason,
        policy: d.policy,
        params: p.params,
        authenticated,
    }
}

/// The reply that carries a decision and the entry that recorded it.
pub open spec fn decision_reply(
    d: policy::DecisionView,
    e: ledger::EntryView,
) -> http::ReplyView {
    let entry = json::Doc::empty_object().with(
        "id"@,
        json::Doc::Number(text::int_text(e.id)),
    ).with("ts"@, json::Doc::String(e.ts)).with("hmac"@, json::Doc::String(e.hmac)).with(
        "prev_hmac"@,
        json::Doc::String(e.prev_hmac),
    );
    http::ReplyView {
        status: 200,
        body: json::Doc::empty_object().with(
            "decision"@,
            json::Doc::String(effect_text(d.effect)),
        ).with("reason"@, json::Doc::String(d.reason)).with(
            "policy"@,
            json::Doc::String(d.policy),
        ).with("entry"@, entry),
    }
}

/// What a caller is told when a decision could not be recorded.
pub open spec fn unrecorded_text() -> Seq<char> {
    "ledger write failed — decision not recorded, the "@ + GATE@ + " fails closed"@
}

/// The reply when a decision could not be recorded.
fn unrecorded() -> (r: Reply)
    ensures
        r@ == http::error_reply(503, unrecorded_text()),
{
    let mut msg = String::new();
    msg.append("ledger write failed — decision not recorded, the ");
    msg.append(GATE);
    msg.append(" fails closed");
    assert(msg@ =~= unrecorded_text());
    err(503, msg.as_str())
}

/// The reply that carries a decision and the entry that recorded it.
fn answer(d: &Decision, e: &Entry) -> (r: Reply)
    ensures
        r@ == decision_reply(d@, e@),
{
    let entry = Json::object().with("id", Json::integer(e.id)).with(
        "ts",
        Json::text(e.ts.as_str()),
    ).with("hmac", Json::text(e.hmac.as_str())).with(
        "prev_hmac",
        Json::text(e.prev_hmac.as_str()),
    );
    Reply {
        status: 200,
        body: Json::object().with("decision", Json::text(effect_word(d.effect))).with(
            "reason",
            Json::text(d.reason.as_str()),
        ).with("policy", Json::text(d.policy)).with("entry", entry),
    }
}

// ---------------------------------------------------------------------------
// The course of a request
// ---------------------------------------------------------------------------

/// Where a request has got to.
pub enum Evaluation {
    /// The body is to be read.
    Body { authenticated: bool },
    /// The ledger database is to be reached.
    Connect { proposal: Proposal, authenticated: bool },
    /// The topology model is to be read.
    Topology { proposal: Proposal, authenticated: bool },
    /// The switches of the policies are to be read.
    Policies { proposal: Proposal, authenticated: bool, topo: Vec<TopoView> },
    /// The decision is to be recorded.
    Record { proposal: Proposal, authenticated: bool, decision: Decision },
    /// The reply is to be sent.
    Finished { reply: Reply },
}

/// What has to be done for a request.
pub enum EvalAction {
    ReadBody,
    Connect,
    ReadTopology,
    ReadPolicies,
    Append(NewEntry),
    Send(Reply),
}

/// How it went.
pub enum EvalEvent {
    /// The body, unless it was malformed.
    Body(Option<EvaluateReq>),
    /// Whether the ledger database could be reached.
    Connected(bool),
    /// The topology model, unless reading it failed.
    Topology(Option<Vec<TopoView>>),
    /// The switches of the policies, unless reading them failed.
    Policies(Option<PolicyFlags>),
    /// The entry that was stored, unless storing it failed.
    Appended(Option<Entry>),
}

/// What an [`Evaluation`] is about.
pub enum EvaluationView {
    Body { authenticated: bool },
    Connect { proposal: ProposalView, authenticated: bool },
    Topology { proposal: ProposalView, authenticated: bool },
    Policies { proposal: ProposalView, authenticated: bool, topo: Seq<TopoView> },
    Record { proposal: ProposalView, authenticated: bool, decision: policy::DecisionView },
    Finished { reply: http::ReplyView },
}

/// What an [`EvalAction`] says.
pub enum EvalActionView {
    ReadBody,
    Connect,
    ReadTopology,
    ReadPolicies,
    Append(ledger::NewEntryView),
    Send(http::ReplyView),
}

/// What an [`EvalEvent`] says.
pub enum EvalEventView {
    Body(Option<EvaluateReqView>),
    Connected(bool),
    Topology(Option<Seq<TopoView>>),
    Policies(Option<Map<Seq<char>, bool>>),
    Appended(Option<ledger::EntryView>),
}

impl View for Evaluation {
    type V = EvaluationView;

    open spec fn view(&self) -> EvaluationView {
        match *self {
            Evaluation::Body { authenticated } => EvaluationView::Body { authenticated },
            Evaluation::Connect { proposal, authenticated } => EvaluationView::Connect {
                proposal: proposal@,
                authenticated,
            },
            Evaluation::Topology { proposal, authenticated } => EvaluationView::Topology {
                proposal: proposal@,
                authenticated,
            },
            Evaluation::Policies { proposal, authenticated, topo } => EvaluationView::Policies {
                proposal: proposal@,
                authenticated,
                topo: topo@,
            },
            Evaluation::Record { proposal, authenticated, decision } => EvaluationView::Record {
                proposal: proposal@,
                authenticated,
                decision: decision@,
            },
            Evaluation::Finished { reply } => EvaluationView::Finished { reply: reply@ },
        }
    }
}

impl View for EvalAction {
    type V = EvalActionView;

    open spec fn view(&self) -> EvalActionView {
        match *self {
            EvalAction::ReadBody => EvalActionView::ReadBody,
            EvalAction::Connect => EvalActionView::Connect,
            EvalAction::ReadTopology => EvalActionView::ReadTopology,
            EvalAction::ReadPolicies => EvalActionView::ReadPolicies,
            EvalAction::Append(e) => EvalActionView::Append(e@),
            EvalAction::Send(r) => EvalActionView::Send(r@),
        }
    }
}

impl View for EvalEvent {
    type V = EvalEventView;

    open spec fn view(&self) -> EvalEventView {
        match *self {
            EvalEvent::Body(Some(req)) => EvalEventView::Body(Some(req@)),
            EvalEvent::Body(None) => EvalEventView::Body(None),
            EvalEvent::Connected(ok) => EvalEventView::Connected(ok),
            EvalEvent::Topology(Some(topo)) => EvalEventView::Topology(Some(topo@)),
            EvalEvent::Topology(None) => EvalEventView::Topology(None),
            EvalEvent::Policies(Some(flags)) => EvalEventView::Policies(Some(flags@)),
            EvalEvent::Policies(None) => EvalEventView::Policies(None),
            EvalEvent::Appended(Some(e)) => EvalEventView::Appended(Some(e@)),
            EvalEvent::Appended(None) => EvalEventView::Appended(None),
        }
    }
}

impl EvaluationView {
    /// How a request starts: one that is over the rate limit is not looked at.
    pub open spec fn begun(within_limit: bool, authenticated: bool) -> EvaluationView {
        if within_limit {
            EvaluationView::Body { authenticated }
        } else {
            EvaluationView::Finished {
                reply: http::error_reply(429, "rate limit exceeded (30 req/min per client)"@),
            }
        }
    }

    /// What has to be done next.
    pub open spec fn action(self) -> EvalActionView {
        match self {
            EvaluationView::Body { .. } => EvalActionView::ReadBody,
            EvaluationView::Connect { .. } => EvalActionView::Connect,
            EvaluationView::Topology { .. } => EvalActionView::ReadTopology,
            EvaluationView::Policies { .. } => EvalActionView::ReadPolicies,
            EvaluationView::Record { proposal, authenticated, decision } => EvalActionView::Append(
                decision_entry(proposal, authenticated, decision),
            ),
            EvaluationView::Finished { reply } => EvalActionView::Send(reply),
        }
    }

    /// Where a request gets to. Whatever goes wrong, and whatever does not
    /// answer what was asked for, ends it without a decision.
    pub open spec fn next(self, event: EvalEventView) -> EvaluationView {
        match (self, event) {
            (EvaluationView::Finished { .. }, _) => self,
            (EvaluationView::Body { authenticated }, EvalEventView::Body(Some(req))) => match proposed(
                req,
            ) {
                Ok(proposal) => EvaluationView::Connect { proposal, authenticated },
                Err(msg) => EvaluationView::Finished { reply: http::error_reply(400, msg) },
            },
            (EvaluationView::Body { .. }, EvalEventView::Body(None)) => EvaluationView::Finished {
                reply: http::error_reply(400, "malformed JSON body"@),
            },
            (
                EvaluationView::Connect { proposal, authenticated },
                EvalEventView::Connected(true),
            ) => EvaluationView::Topology { proposal, authenticated },
            (
                EvaluationView::Topology { proposal, authenticated },
                EvalEventView::Topology(Some(topo)),
            ) => EvaluationView::Policies { proposal, authenticated, topo },
            (
                EvaluationView::Policies { proposal, authenticated, topo },
                EvalEventView::Policies(Some(enabled)),
            ) => EvaluationView::Record {
                proposal,
                authenticated,
                decision: policy::decided(
                    policy::Query {
                        action: proposal.action,
                        target: proposal.target,
                        params: proposal.params,
                        topo,
                        enabled,
                    },
                ),
            },
            (
                EvaluationView::Record { decision, .. },
                EvalEventView::Appended(Some(entry)),
            ) => EvaluationView::Finished { reply: decision_reply(decision, entry) },
            (
                EvaluationView::Record { .. },
                EvalEventView::Appended(None),
            ) => EvaluationView::Finished {
                reply: http::error_reply(503, unrecorded_text()),
            },
            _ => EvaluationView::Finished { reply: http::unavailable_reply() },
        }
    }

    /// Where a request gets to over several events.
    pub open spec fn after(self, events: Seq<EvalEventView>) -> EvaluationView
        decreases events.len(),
    {
        if events.len() == 0 {
            self
        } else {
            self.after(events.drop_last()).next(events.last())
        }
    }
}

impl Evaluation {
    /// Takes up a request. `within_limit` is what the rate limit says of it,
    /// `authenticated` whether it carries the operator token.
    pub fn begin(within_limit: bool, authenticated: bool) -> (r: Evaluation)
        ensures
            r@ == EvaluationView::begun(within_limit, authenticated),
    {
        if within_limit {
            Evaluation::Body { authenticated }
        } else {
            Evaluation::Finished { reply: err(429, "rate limit exceeded (30 req/min per client)") }
        }
    }

    /// What has to be done next.
    pub fn action(&self) -> (r: EvalAction)
        ensures
            r@ == self@.action(),
            *self matches Evaluation::Record { proposal, authenticated, decision } ==> {
                &&& r matches EvalAction::Append(e)
                &&& e.kind@ == "decision"@
                &&& e.actor@ == proposal.actor@
                &&& e.action@ == proposal.action@
                &&& e.target@ == proposal.target@
                &&& e.params@ == proposal.params@
                &&& e.authenticated == authenticated
                &&& e.reason@ == decision.reason@
                &&& e.policy@ == decision.policy@
                &&& decision.effect == Effect::Allow ==> e.decision@ == "allow"@
                &&& decision.effect == Effect::Refuse ==> e.decision@ == "refuse"@
            },
    {
        match self {
            Evaluation::Body { .. } => EvalAction::ReadBody,
            Evaluation::Connect { .. } => EvalAction::Connect,
            Evaluation::Topology { .. } => EvalAction::ReadTopology,
            Evaluation::Policies { .. } => EvalAction::ReadPolicies,
            Evaluation::Record { proposal, authenticated, decision } => EvalAction::Append(
                NewEntry {
                    kind: "decision".to_owned(),
                    actor: proposal.actor.clone(),
                    action: proposal.action.clone(),
                    target: proposal.target.clone(),
                    decision: effect_word(decision.effect).to_owned(),
                    reason: decision.reason.clone(),
                    policy: decision.policy.to_owned(),
                    params: proposal.params.clone(),
                    authenticated: *authenticated,
                },
            ),
            Evaluation::Finished { reply } => EvalAction::Send(reply.clone()),
        }
    }

    /// Goes on with how the last action went.
    pub fn step(self, event: EvalEvent) -> (r: Evaluation)
        ensures
            r@ == self@.next(event@),
    {
        match (self, event) {
            (Evaluation::Finished { reply }, _) => Evaluation::Finished { reply },
            (Evaluation::Body { authenticated }, EvalEvent::Body(Some(req))) => match req.proposal() {
                Ok(proposal) => Evaluation::Connect { proposal, authenticated },
                Err(msg) => Evaluation::Finished { reply: err(400, msg) },
            },
            (Evaluation::Body { .. }, EvalEvent::Body(None)) => Evaluation::Finished {
                reply: err(400, "malformed JSON body"),
            },
            (
                Evaluation::Connect { proposal, authenticated },
                EvalEvent::Connected(true),
            ) => Evaluation::Topology { proposal, authenticated },
            (
                Evaluation::Topology { proposal, authenticated },
                EvalEvent::Topology(Some(topo)),
            ) => Evaluation::Policies { proposal, authenticated, topo },
            (
                Evaluation::Policies { proposal, authenticated, topo },
                EvalEvent::Policies(Some(enabled)),
            ) => {
                let decision = policy::evaluate(
                    proposal.action.as_str(),
                    proposal.target.as_str(),
                    &proposal.params,
                    topo.as_slice(),
                    &enabled,
                );
                Evaluation::Record { proposal, authenticated, decision }
            },
            (
                Evaluation::Record { decision, .. },
                EvalEvent::Appended(Some(entry)),
            ) => Evaluation::Finished { reply: answer(&decision, &entry) },
            (Evaluation::Record { .. }, EvalEvent::Appended(None)) => Evaluation::Finished {
                reply: unrecorded(),
            },
            _ => Evaluation::Finished { reply: unavailable() },
        }
    }
}

// ---------------------------------------------------------------------------
// Laws
// ---------------------------------------------------------------------------

/// A decision is only ever answered (status 200) after the ledger has stored an
/// entry for exactly that decision: whatever happens on the way, there is no
/// course of events that gives an allow or a refuse without a recorded entry
/// behind it.
pub proof fn law_no_decision_without_a_record(
    within_limit: bool,
    authenticated: bool,
    events: Seq<EvalEventView>,
)
    requires
        EvaluationView::begun(within_limit, authenticated).after(events) is Finished,
        EvaluationView::begun(within_limit, authenticated).after(events)->reply.status == 200,
    ensures
        exists|k: int, entry: ledger::EntryView|
            recorded_at(
                EvaluationView::begun(within_limit, authenticated),
                events,
                k,
                entry,
                EvaluationView::begun(within_limit, authenticated).after(events)->reply,
            ),
    decreases events.len(),
{
    let start = EvaluationView::begun(within_limit, authenticated);
    if events.len() > 0 {
        let n = events.len() - 1;
        let before = start.after(events.drop_last());
        assert(events.take(n) =~= events.drop_last());
        if before is Finished {
            law_no_decision_without_a_record(within_limit, authenticated, events.drop_last());
            let (k, entry) = choose|k: int, entry: ledger::EntryView|
                recorded_at(start, events.drop_last(), k, entry, before->reply);
            assert(events.drop_last().take(k) =~= events.take(k));
            assert(recorded_at(start, events, k, entry, start.after(events)->reply));
        } else {
            assert(before is Record);
            let entry = (events.last()->Appended_0)->0;
            assert(recorded_at(start, events, n, entry, start.after(events)->reply));
        }
    }
}

/// Event `k` says that the ledger stored `entry` for the decision of the time,
/// and `reply` answers just that.
pub open spec fn recorded_at(
    start: EvaluationView,
    events: Seq<EvalEventView>,
    k: int,
    entry: ledger::EntryView,
    reply: http::ReplyView,
) -> bool {
    &&& 0 <= k < events.len()
    &&& events[k] == EvalEventView::Appended(Some(entry))
    &&& start.after(events.take(k)) matches EvaluationView::Record { decision, .. } && reply
        == decision_reply(decision, entry)
}

/// The reply tells the caller what went into the ledger: the decision, the
/// reason and the policy of the entry that was handed over to be stored.
pub proof fn law_the_reply_is_what_was_recorded(v: EvaluationView, stored: ledger::EntryView)
    requires
        v is Record,
    ensures
        v.action() matches EvalActionView::Append(entry) && {
            let body = v.next(EvalEventView::Appended(Some(stored)))->reply.body;
            &&& body.member("decision"@) == Some(json::Doc::String(entry.decision))
            &&& body.member("reason"@) == Some(json::Doc::String(entry.reason))
            &&& body.member("policy"@) == Some(json::Doc::String(entry.policy))
        },
{
    reveal_strlit("decision");
    reveal_strlit("reason");
    reveal_strlit("policy");
    reveal_strlit("entry");
    assert("decision"@.len() == 8 && "reason"@.len() == 6 && "entry"@.len() == 5);
    assert("reason"@[0] != "policy"@[0]);
}

/// Without the ledger there is no decision: wherever the database fails, the
/// request ends with 503.
pub proof fn law_without_the_ledger_there_is_no_decision(v: EvaluationView)
    ensures
        v is Connect ==> v.next(EvalEventView::Connected(false)) == (EvaluationView::Finished {
            reply: http::unavailable_reply(),
        }),
        v is Topology ==> v.next(EvalEventView::Topology(None)) == (EvaluationView::Finished {
            reply: http::unavailable_reply(),
        }),
        v is Policies ==> v.next(EvalEventView::Policies(None)) == (EvaluationView::Finished {
            reply: http::unavailable_reply(),
        }),
        v is Record ==> {
            let end = v.next(EvalEventView::Appended(None));
            end is Finished && end->reply.status == 503
        },
        http::unavailable_reply().status == 503,
{
}

/// A well-formed request within the limit is decided by the policies, as long as
/// the ledger works.
pub proof fn law_a_request_is_decided_by_the_policies(
    authenticated: bool,
    req: EvaluateReqView,
    p: ProposalView,
    topo: Seq<TopoView>,
    enabled: Map<Seq<char>, bool>,
    entry: ledger::EntryView,
)
    requires
        proposed(req) == Ok::<ProposalView, Seq<char>>(p),
    ensures
        EvaluationView::begun(true, authenticated).after(
            seq![
                EvalEventView::Body(Some(req)),
                EvalEventView::Connected(true),
                EvalEventView::Topology(Some(topo)),
                EvalEventView::Policies(Some(enabled)),
                EvalEventView::Appended(Some(entry)),
            ],
        ) == (EvaluationView::Finished {
            reply: decision_reply(
                policy::decided(
                    policy::Query {
                        action: p.action,
                        target: p.target,
                        params: p.params,
                        topo,
                        enabled,
                    },
                ),
                entry,
            ),
        }),
{
    let events = seq![
        EvalEventView::Body(Some(req)),
        EvalEventView::Connected(true),
        EvalEventView::Topology(Some(topo)),
        EvalEventView::Policies(Some(enabled)),
        EvalEventView::Appended(Some(entry)),
    ];
    let start = EvaluationView::begun(true, authenticated);
    assert(events.take(5) =~= events);
    assert(start.after(events.take(0)) == start);
    assert(events.take(1).drop_last() =~= events.take(0));
    assert(events.take(2).drop_last() =~= events.take(1));
    assert(events.take(3).drop_last() =~= events.take(2));
    assert(events.take(4).drop_last() =~= events.take(3));
    assert(events.take(5).drop_last() =~= events.take(4));
    assert(start.after(events.take(1)) is Connect);
    assert(start.after(events.take(2)) is Topology);
    assert(start.after(events.take(3)) is Policies);
    assert(start.after(events.take(4)) is Record);
}

impl EvaluationView {
    /// How many actions are left at most.
    pub open spec fn remaining(self) -> nat {
        match self {
            EvaluationView::Body { .. } => 5,
            EvaluationView::Connect { .. } => 4,
            EvaluationView::Topology { .. } => 3,
            EvaluationView::Policies { .. } => 2,
            EvaluationView::Record { .. } => 1,
            EvaluationView::Finished { .. } => 0,
        }
    }
}

/// Every request comes to its reply: each event brings it closer, whatever it
/// says.
pub proof fn law_every_request_is_answered(v: EvaluationView, events: Seq<EvalEventView>)
    requires
        events.len() >= v.remaining(),
    ensures
        v.after(events) is Finished,
{
    lemma_remaining(v, events);
}

/// Every event leaves fewer actions to do.
proof fn lemma_remaining(v: EvaluationView, events: Seq<EvalEventView>)
    ensures
        v.after(events) is Finished || v.after(events).remaining() + events.len() <= v.remaining(),
    decreases events.len(),
{
    if events.len() > 0 {
        lemma_remaining(v, events.drop_last());
    }
}

/// An allow of stopping or deleting a service, once recorded, authorizes its
/// removal for 30 minutes, unless an audit has spent it.
pub proof fn law_a_recorded_allow_authorizes_the_removal(
    rows: Seq<ledger::LedgerRow>,
    p: ProposalView,
    authenticated: bool,
    d: policy::DecisionView,
    i: int,
    now: int,
)
    requires
        0 <= i < rows.len(),
        rows[i].records(decision_entry(p, authenticated, d)),
        d.effect == Effect::Allow,
        p.action == "service.stop"@ || p.action == "service.delete"@,
        now < rows[i].at + ledger::ALLOW_WINDOW_MICROS,
        rows[i].at > 0,
        forall|j: int|
            0 <= j < rows.len() && (#[trigger] rows[j]).audits(p.target) ==> rows[j].at
                < rows[i].at,
    ensures
        exists|k: int| ledger::unspent_allow(rows, p.target, now, k),
{
    assert(ledger::unspent_allow(rows, p.target, now, i));
}

/// A refusal, even of the very same action, authorizes nothing.
pub proof fn law_a_recorded_refusal_authorizes_nothing(
    row: ledger::LedgerRow,
    p: ProposalView,
    authenticated: bool,
    d: policy::DecisionView,
)
    requires
        row.records(decision_entry(p, authenticated, d)),
        d.effect == Effect::Refuse,
    ensures
        !row.allows_removal(p.target),
{
    reveal_strlit("allow");
    reveal_strlit("refuse");
    assert("allow"@.len() != "refuse"@.len());
}

// ---------------------------------------------------------------------------
// The course of a request, event by event
// ---------------------------------------------------------------------------

/// What has happened on the way to each stage, from the start: nothing but the
/// answers to what was asked, in their order.
proof fn lemma_course(within_limit: bool, authenticated: bool, events: Seq<EvalEventView>)
    ensures
        match EvaluationView::begun(within_limit, authenticated).after(events) {
            EvaluationView::Body { authenticated: a } => {
                &&& events.len() == 0
                &&& within_limit
                &&& a == authenticated
            },
            EvaluationView::Connect { proposal, authenticated: a } => {
                &&& events.len() == 1
                &&& within_limit
                &&& a == authenticated
                &&& events[0] matches EvalEventView::Body(Some(req)) && proposed(req) == Ok::<
                    ProposalView,
                    Seq<char>,
                >(proposal)
            },
            EvaluationView::Topology { proposal, authenticated: a } => {
                &&& events.len() == 2
                &&& within_limit
                &&& a == authenticated
                &&& events[0] matches EvalEventView::Body(Some(req)) && proposed(req) == Ok::<
                    ProposalView,
                    Seq<char>,
                >(proposal)
                &&& events[1] == EvalEventView::Connected(true)
            },
            EvaluationView::Policies { proposal, authenticated: a, topo } => {
                &&& events.len() == 3
                &&& within_limit
                &&& a == authenticated
                &&& events[0] matches EvalEventView::Body(Some(req)) && proposed(req) == Ok::<
                    ProposalView,
                    Seq<char>,
                >(proposal)
                &&& events[1] == EvalEventView::Connected(true)
                &&& events[2] == EvalEventView::Topology(Some(topo))
            },
            EvaluationView::Record { proposal, authenticated: a, decision } => {
                &&& events.len() == 4
                &&& within_limit
                &&& a == authenticated
                &&& events[0] matches EvalEventView::Body(Some(req)) && proposed(req) == Ok::<
                    ProposalView,
                    Seq<char>,
                >(proposal)
                &&& events[1] == EvalEventView::Connected(true)
                &&& events[2] matches EvalEventView::Topology(Some(topo))
                &&& events[3] matches EvalEventView::Policies(Some(enabled))
                &&& decision == policy::decided(
                    policy::Query {
                        action: proposal.action,
                        target: proposal.target,
                        params: proposal.params,
                        topo,
                        enabled,
                    },
                )
            },
            EvaluationView::Finished { .. } => true,
        },
    decreases events.len(),
{
    if events.len() > 0 {
        let n = events.len() - 1;
        lemma_course(within_limit, authenticated, events.drop_last());
        assert(forall|i: int| 0 <= i < n ==> events.drop_last()[i] == #[trigger] events[i]);
        assert(events.last() == events[n]);
    }
}

/// An entry that is handed over to be stored says what the request said: whoever
/// asked for what, with which params, and whether with the token. It is handed
/// over only when the body was read, the ledger was reached, and the model and
/// the switches were read, and it says what the policies decided from those.
pub proof fn law_an_entry_records_the_request(
    within_limit: bool,
    authenticated: bool,
    events: Seq<EvalEventView>,
)
    requires
        EvaluationView::begun(within_limit, authenticated).after(events).action() is Append,
    ensures
        within_limit,
        events.len() == 4,
        events[0] is Body && events[0]->Body_0 is Some,
        events[1] == EvalEventView::Connected(true),
        events[2] is Topology && events[2]->Topology_0 is Some,
        events[3] is Policies && events[3]->Policies_0 is Some,
        ({
            let entry = EvaluationView::begun(within_limit, authenticated).after(
                events,
            ).action()->Append_0;
            let req = events[0]->Body_0->0;
            let decision = policy::decided(
                policy::Query {
                    action: entry.action,
                    target: entry.target,
                    params: entry.params,
                    topo: events[2]->Topology_0->0,
                    enabled: events[3]->Policies_0->0,
                },
            );
            &&& entry.authenticated == authenticated
            &&& entry.kind == "decision"@
            &&& req.action == Some(entry.action)
            &&& req.target == Some(entry.target)
            &&& req.actor == Some(entry.actor) || entry.actor == "anonymous"@
            &&& req.actor is Some && (exists|i: int|
                0 <= i < (req.actor->0).len() && !text::is_white_space(
                    #[trigger] (req.actor->0)[i],
                )) ==> entry.actor == req.actor->0
            &&& req.params matches Some(params) ==> entry.params == params
            &&& req.params is None ==> entry.params is Object && forall|name: Seq<char>|
                (#[trigger] entry.params.member(name)) is None
            &&& entry.decision == "allow"@ <==> decision.effect == Effect::Allow
            &&& entry.decision == "refuse"@ <==> decision.effect == Effect::Refuse
            &&& entry.reason == decision.reason
            &&& entry.policy == decision.policy
        }),
{
    reveal_strlit("allow");
    reveal_strlit("refuse");
    assert("allow"@.len() != "refuse"@.len());
    lemma_course(within_limit, authenticated, events);
}

/// Two requests with the same body, judged by the same model and switches, are
/// recorded alike but for the token, whichever of them carried it.
pub proof fn law_the_token_does_not_change_the_decision(
    with: bool,
    without: bool,
    events: Seq<EvalEventView>,
)
    requires
        EvaluationView::begun(true, with).after(events).action() is Append,
    ensures
        EvaluationView::begun(true, without).after(events).action() is Append,
        EvaluationView::begun(true, without).after(events).action()->Append_0 == (
        ledger::NewEntryView {
            authenticated: without,
            ..EvaluationView::begun(true, with).after(events).action()->Append_0
        }),
{
    lemma_same_but_for_the_token(with, without, events);
    lemma_course(true, with, events);
    lemma_course(true, without, events);
}

/// The token is the only difference that it makes, at every stage.
proof fn lemma_same_but_for_the_token(a: bool, b: bool, events: Seq<EvalEventView>)
    ensures
        match EvaluationView::begun(true, a).after(events) {
            EvaluationView::Body { .. } => EvaluationView::begun(true, b).after(events) is Body,
            EvaluationView::Connect { proposal, .. } => EvaluationView::begun(true, b).after(events)
                matches EvaluationView::Connect { proposal: p, .. } && p == proposal,
            EvaluationView::Topology { proposal, .. } => EvaluationView::begun(true, b).after(
                events,
            ) matches EvaluationView::Topology { proposal: p, .. } && p == proposal,
            EvaluationView::Policies { proposal, topo, .. } => EvaluationView::begun(true, b).after(
                events,
            ) matches EvaluationView::Policies { proposal: p, topo: t, .. } && p == proposal && t
                == topo,
            EvaluationView::Record { proposal, decision, .. } => EvaluationView::begun(
                true,
                b,
            ).after(events) matches EvaluationView::Record { proposal: p, decision: d, .. } && p
                == proposal && d == decision,
            EvaluationView::Finished { reply } => EvaluationView::begun(true, b).after(events)
                matches EvaluationView::Finished { reply: r } && r == reply,
        },
    decreases events.len(),
{
    if events.len() > 0 {
        lemma_same_but_for_the_token(a, b, events.drop_last());
    }
}

/// A request over the limit is answered 429 whatever happens, and does nothing.
pub proof fn law_a_request_over_the_limit_is_not_looked_at(
    authenticated: bool,
    events: Seq<EvalEventView>,
)
    ensures
        EvaluationView::begun(false, authenticated).after(events).action() matches
            EvalActionView::Send(reply) && reply.status == 429 && reply.body.member("error"@)
            == Some(json::Doc::String("rate limit exceeded (30 req/min per client)"@)),
    decreases events.len(),
{
    if events.len() > 0 {
        law_a_request_over_the_limit_is_not_looked_at(authenticated, events.drop_last());
        assert(EvaluationView::begun(false, authenticated).after(events.drop_last()) is Finished);
    }
}

/// A request within the limit asks in turn for the body, the ledger database, the
/// model and the switches, and carries on with what it was given.
pub proof fn law_a_request_asks_in_turn(
    authenticated: bool,
    proposal: ProposalView,
    topo: Seq<TopoView>,
    reply: http::ReplyView,
)
    ensures
        EvaluationView::begun(true, authenticated) == (EvaluationView::Body { authenticated }),
        (EvaluationView::Body { authenticated }).action() == EvalActionView::ReadBody,
        (EvaluationView::Connect { proposal, authenticated }).action() == EvalActionView::Connect,
        (EvaluationView::Topology { proposal, authenticated }).action()
            == EvalActionView::ReadTopology,
        (EvaluationView::Policies { proposal, authenticated, topo }).action()
            == EvalActionView::ReadPolicies,
        (EvaluationView::Finished { reply }).action() == EvalActionView::Send(reply),
        (EvaluationView::Connect { proposal, authenticated }).next(EvalEventView::Connected(true))
            == (EvaluationView::Topology { proposal, authenticated }),
        (EvaluationView::Topology { proposal, authenticated }).next(
            EvalEventView::Topology(Some(topo)),
        ) == (EvaluationView::Policies { proposal, authenticated, topo }),
{
}

/// A body without an action or a target, or that is none, is answered 400 and says
/// which field is missing; one that has both proposes them as they are.
pub proof fn law_what_a_body_has_to_say(authenticated: bool, req: EvaluateReqView)
    ensures
        ({
            let shows = |s: Option<Seq<char>>|
                s is Some && exists|i: int|
                    0 <= i < (s->0).len() && !text::is_white_space(#[trigger] (s->0)[i]);
            let next = (EvaluationView::Body { authenticated }).next(
                EvalEventView::Body(Some(req)),
            );
            &&& !shows(req.action) ==> next is Finished && next->reply.status == 400
                && next->reply.body.member("error"@) == Some(
                json::Doc::String("missing required field: action"@),
            )
            &&& shows(req.action) && !shows(req.target) ==> next is Finished && next->reply.status
                == 400 && next->reply.body.member("error"@) == Some(
                json::Doc::String("missing required field: target"@),
            )
            &&& shows(req.action) && shows(req.target) ==> {
                &&& next is Connect
                &&& next->Connect_authenticated == authenticated
                &&& next->Connect_proposal.action == req.action->0
                &&& next->Connect_proposal.target == req.target->0
                &&& shows(req.actor) ==> next->Connect_proposal.actor == req.actor->0
                &&& !shows(req.actor) ==> next->Connect_proposal.actor == "anonymous"@
                &&& req.params is Some ==> next->Connect_proposal.params == req.params->0
                &&& req.params is None ==> next->Connect_proposal.params
                    == json::Doc::empty_object()
            }
        }),
        (EvaluationView::Body { authenticated }).next(EvalEventView::Body(None)) matches
            EvaluationView::Finished { reply } && reply.status == 400 && reply.body.member(
            "error"@,
        ) == Some(json::Doc::String("malformed JSON body"@)),
{
}

/// What fails on the way, and what does not answer what was asked for, ends a
/// request with 503. A decision that could not be recorded is not answered.
pub proof fn law_what_fails_is_answered_503(v: EvaluationView, event: EvalEventView)
    requires
        v is Connect && event != EvalEventView::Connected(true) || v is Topology && !(
        event is Topology && event->Topology_0 is Some) || v is Policies && !(event is Policies
            && event->Policies_0 is Some) || v is Record && !(event is Appended
            && event->Appended_0 is Some) || v is Body && !(event is Body),
    ensures
        v.next(event) is Finished,
        v.next(event)->reply.status == 503,
        v is Record && event is Appended ==> v.next(event)->reply.body.member("error"@) == Some(
            json::Doc::String(
                "ledger write failed — decision not recorded, the "@ + "gate"@ + " fails closed"@,
            ),
        ),
        !(v is Record && event is Appended) ==> v.next(event)->reply.body.member("error"@) == Some(
            json::Doc::String("ledger unavailable — the "@ + "gate"@ + " fails closed"@),
        ),
{
}

/// A reply that is found stays: nothing that happens afterwards changes it.
pub proof fn law_a_reply_is_final(reply: http::ReplyView, event: EvalEventView)
    ensures
        (EvaluationView::Finished { reply }).next(event) == (EvaluationView::Finished { reply }),
{
}

/// The reply to a decision carries the decision, the reason and the policy, and of
/// the entry that recorded it the number, the time and both signatures.
pub proof fn law_the_reply_shows_decision_and_entry(
    d: policy::DecisionView,
    e: ledger::EntryView,
    other: Seq<char>,
)
    ensures
        decision_reply(d, e).status == 200,
        decision_reply(d, e).body is Object,
        d.effect == Effect::Allow ==> decision_reply(d, e).body.member("decision"@) == Some(
            json::Doc::String("allow"@),
        ),
        d.effect == Effect::Refuse ==> decision_reply(d, e).body.member("decision"@) == Some(
            json::Doc::String("refuse"@),
        ),
        decision_reply(d, e).body.member("reason"@) == Some(json::Doc::String(d.reason)),
        decision_reply(d, e).body.member("policy"@) == Some(json::Doc::String(d.policy)),
        decision_reply(d, e).body.member("entry"@) is Some,
        ({
            let entry = decision_reply(d, e).body.member("entry"@)->0;
            &&& entry is Object
            &&& entry.member("id"@) == Some(json::Doc::Number(text::int_text(e.id)))
            &&& entry.member("ts"@) == Some(json::Doc::String(e.ts))
            &&& entry.member("hmac"@) == Some(json::Doc::String(e.hmac))
            &&& entry.member("prev_hmac"@) == Some(json::Doc::String(e.prev_hmac))
            &&& other != "id"@ && other != "ts"@ && other != "hmac"@ && other != "prev_hmac"@
                ==> entry.member(other) is None
        }),
        other != "decision"@ && other != "reason"@ && other != "policy"@ && other != "entry"@
            ==> decision_reply(d, e).body.member(other) is None,
{
    reveal_strlit("decision");
    reveal_strlit("reason");
    reveal_strlit("policy");
    reveal_strlit("entry");
    reveal_strlit("id");
    reveal_strlit("ts");
    reveal_strlit("hmac");
    reveal_strlit("prev_hmac");
    assert("decision"@.len() == 8 && "reason"@.len() == 6 && "policy"@.len() == 6 && "entry"@.len()
        == 5);
    assert("id"@.len() == 2 && "ts"@.len() == 2 && "hmac"@.len() == 4 && "prev_hmac"@.len() == 9);
    assert("reason"@[0] != "policy"@[0]);
    assert("id"@[0] != "ts"@[0]);
}

/// A request is answered 200 only with the entry that the ledger stored for it: the
/// fifth event reported that entry, and the reply shows it beside what the entry
/// that was handed over says.
pub proof fn law_a_decision_is_answered_from_its_record(
    authenticated: bool,
    events: Seq<EvalEventView>,
    stored: ledger::EntryView,
)
    requires
        EvaluationView::begun(true, authenticated).after(events).action() is Append,
    ensures
        ({
            let entry = EvaluationView::begun(true, authenticated).after(
                events,
            ).action()->Append_0;
            let end = EvaluationView::begun(true, authenticated).after(
                events.push(EvalEventView::Appended(Some(stored))),
            );
            &&& end.action() is Send
            &&& end.action()->Send_0.status == 200
            &&& end.action()->Send_0.body.member("decision"@) == Some(
                json::Doc::String(entry.decision),
            )
            &&& end.action()->Send_0.body.member("reason"@) == Some(
                json::Doc::String(entry.reason),
            )
            &&& end.action()->Send_0.body.member("policy"@) == Some(
                json::Doc::String(entry.policy),
            )
            &&& end.action()->Send_0.body.member("entry"@) is Some
            &&& (end.action()->Send_0.body.member("entry"@)->0).member("hmac"@) == Some(
                json::Doc::String(stored.hmac),
            )
        }),
{
    let start = EvaluationView::begun(true, authenticated);
    let more = events.push(EvalEventView::Appended(Some(stored)));
    assert(more.drop_last() =~= events);
    assert(more.last() == EvalEventView::Appended(Some(stored)));
    lemma_course(true, authenticated, events);
    let v = start.after(events);
    assert(v is Record);
    law_the_reply_shows_decision_and_entry(v->Record_decision, stored, "hmac"@);
}

/// What a request and a proposal say is what they hold, each field in its place.
pub proof fn law_requests_are_their_fields(req: EvaluateReq, p: Proposal)
    ensures
        req.actor matches Some(s) ==> req@.actor == Some(s@),
        req.actor is None ==> req@.actor is None,
        req.action matches Some(s) ==> req@.action == Some(s@),
        req.action is None ==> req@.action is None,
        req.target matches Some(s) ==> req@.target == Some(s@),
        req.target is None ==> req@.target is None,
        req.params matches Some(d) ==> req@.params == Some(d@),
        req.params is None ==> req@.params is None,
        p@.actor == p.actor@ && p@.action == p.action@ && p@.target == p.target@ && p@.params
            == p.params@,
{
}

/// Where a request stands, what it asks for and what it is told are what they
/// hold.
pub proof fn law_stages_are_their_fields(
    authenticated: bool,
    proposal: Proposal,
    topo: Vec<TopoView>,
    decision: Decision,
    reply: Reply,
    entry: NewEntry,
)
    ensures
        (Evaluation::Body { authenticated })@ == (EvaluationView::Body { authenticated }),
        (Evaluation::Connect { proposal, authenticated })@ == (EvaluationView::Connect {
            proposal: proposal@,
            authenticated,
        }),
        (Evaluation::Topology { proposal, authenticated })@ == (EvaluationView::Topology {
            proposal: proposal@,
            authenticated,
        }),
        (Evaluation::Policies { proposal, authenticated, topo })@ == (EvaluationView::Policies {
            proposal: proposal@,
            authenticated,
            topo: topo@,
        }),
        (Evaluation::Record { proposal, authenticated, decision })@ == (EvaluationView::Record {
            proposal: proposal@,
            authenticated,
            decision: decision@,
        }),
        (Evaluation::Finished { reply })@ == (EvaluationView::Finished { reply: reply@ }),
        EvalAction::ReadBody@ == EvalActionView::ReadBody,
        EvalAction::Connect@ == EvalActionView::Connect,
        EvalAction::ReadTopology@ == EvalActionView::ReadTopology,
        EvalAction::ReadPolicies@ == EvalActionView::ReadPolicies,
        EvalAction::Append(entry)@ == EvalActionView::Append(entry@),
        EvalAction::Send(reply)@ == EvalActionView::Send(reply@),
{
}

/// What a request is told is what happened.
pub proof fn law_events_are_what_happened(
    req: EvaluateReq,
    ok: bool,
    topo: Vec<TopoView>,
    flags: PolicyFlags,
    entry: Entry,
)
    ensures
        EvalEvent::Body(Some(req))@ == EvalEventView::Body(Some(req@)),
        EvalEvent::Body(None)@ == EvalEventView::Body(None),
        EvalEvent::Connected(ok)@ == EvalEventView::Connected(ok),
        EvalEvent::Topology(Some(topo))@ == EvalEventView::Topology(Some(topo@)),
        EvalEvent::Topology(None)@ == EvalEventView::Topology(None),
        EvalEvent::Policies(Some(flags))@ == EvalEventView::Policies(Some(flags@)),
        EvalEvent::Policies(None)@ == EvalEventView::Policies(None),
        EvalEvent::Appended(Some(entry))@ == EvalEventView::Appended(Some(entry@)),
        EvalEvent::Appended(None)@ == EvalEventView::Appended(None),
{
}

} // verus!
