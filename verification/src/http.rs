//! Requests and replies. Decisions are data (200 for allow and refuse alike);
//! infrastructure trouble is status codes (503 fail-closed, 401, 429, 400).

use vstd::prelude::*;
use vstd::string::*;

use crate::json;
use crate::json::Json;
use crate::state::GATE;
use crate::text;

verus! {

// ---------------------------------------------------------------------------
// Replies
// ---------------------------------------------------------------------------

/// What is sent back for a request.
#[derive(Debug)]
pub struct Reply {
    pub status: u16,
    pub body: Json,
}

/// What a [`Reply`] says.
pub struct ReplyView {
    pub status: int,
    pub body: json::Doc,
}

impl View for Reply {
    type V = ReplyView;

    open spec fn view(&self) -> ReplyView {
        ReplyView { status: self.status as int, body: self.body@ }
    }
}

impl Clone for Reply {
    /// A copy that says the same.
    fn clone(&self) -> (r: Reply)
        ensures
            r@ == self@,
    {
        Reply { status: self.status, body: self.body.clone() }
    }
}

/// A reply that reports an error.
pub open spec fn error_reply(status: int, msg: Seq<char>) -> ReplyView {
    ReplyView {
        status,
        body: json::Doc::empty_object().with("error"@, json::Doc::String(msg)),
    }
}

/// What a caller is told when the ledger cannot be reached.
pub open spec fn unavailable_text() -> Seq<char> {
    "ledger unavailable — the "@ + GATE@ + " fails closed"@
}

/// The reply when the ledger cannot be reached: no ledger, no decision.
pub open spec fn unavailable_reply() -> ReplyView {
    error_reply(503, unavailable_text())
}

/// A reply that reports an error.
pub fn err(status: u16, msg: &str) -> (r: Reply)
    ensures
        r@ == error_reply(status as int, msg@),
        r.status == status,
        r.body@.member("error"@) == Some(json::Doc::String(msg@)),
{
    Reply { status, body: Json::object().with("error", Json::text(msg)) }
}

/// The reply when the ledger cannot be reached: no ledger, no decision.
pub fn unavailable() -> (r: Reply)
    ensures
        r@ == unavailable_reply(),
        r.status == 503,
{
    let mut msg = String::new();
    msg.append("ledger unavailable — the ");
    msg.append(GATE);
    msg.append(" fails closed");
    assert(msg@ =~= unavailable_text());
    err(503, msg.as_str())
}

// ---------------------------------------------------------------------------
// Requests
// ---------------------------------------------------------------------------

/// The address that a request counts for: the first one that the load balancer
/// forwarded, unless that is empty, else the peer's.
pub open spec fn counted_address(forwarded: Option<Seq<char>>, peer: Seq<char>) -> Seq<char> {
    match forwarded {
        Some(list) => {
            let first = text::trim(text::before_first(list, ','));
            if first.len() > 0 {
                first
            } else {
                peer
            }
        },
        None => peer,
    }
}

/// The first address of `X-Forwarded-For`, else that of the peer.
pub fn client_ip(forwarded: Option<&str>, peer: &str) -> (r: String)
    ensures
        r@ == counted_address(
            match forwarded {
                Some(list) => Some(list@),
                None => None,
            },
            peer@,
        ),
{
    match forwarded {
        Some(list) => {
            let first = text::first_listed(list);
            if first.as_str().is_empty() {
                peer.to_owned()
            } else {
                first
            }
        },
        None => peer.to_owned(),
    }
}

/// Which part of a listing is asked for.
#[derive(Debug, Clone, Copy)]
pub struct Page {
    pub limit: Option<i64>,
    pub offset: Option<i64>,
}

impl Page {
    /// How many entries to list: 100 unless asked otherwise, from 1 to 500.
    pub fn limit(&self) -> (r: i64)
        ensures
            1 <= r <= 500,
            match self.limit {
                None => r == 100,
                Some(n) => {
                    &&& n < 1 ==> r == 1
                    &&& 1 <= n <= 500 ==> r == n
                    &&& n > 500 ==> r == 500
                },
            },
    {
        match self.limit {
            None => 100,
            Some(n) => if n < 1 {
                1
            } else if n > 500 {
                500
            } else {
                n
            },
        }
    }

    /// How many entries to skip: none unless asked otherwise.
    pub fn offset(&self) -> (r: i64)
        ensures
            0 <= r,
            match self.offset {
                None => r == 0,
                Some(n) => r == if n < 0 {
                    0
                } else {
                    n
                },
            },
    {
        match self.offset {
            None => 0,
            Some(n) => if n < 0 {
                0
            } else {
                n
            },
        }
    }
}

// ---------------------------------------------------------------------------
// Health
// ---------------------------------------------------------------------------

/// Seconds after which the probe loop counts as stuck.
pub const PROBE_STALE_SECS: u64 = 60;

/// How the parts of the service are doing.
#[derive(Debug, Clone, Copy)]
pub struct Health {
    pub ok: bool,
    pub db: bool,
    pub cache: bool,
    pub probes: bool,
}

/// How the service is doing, from how its parts are. `last_cycle` is when the probe
/// loop last came round, both times in seconds since the Unix epoch.
///
/// Without its cache the service falls back to in-process rate limiting, so it
/// is well without one.
pub fn healthz(db: bool, cache: bool, now: u64, last_cycle: u64) -> (h: Health)
    ensures
        h.db == db,
        h.cache == cache,
        h.probes == (now - last_cycle < PROBE_STALE_SECS),
        h.probes == (now - last_cycle < 60),
        h.ok == (db && h.probes),
{
    let probes = now < last_cycle || now - last_cycle < PROBE_STALE_SECS;
    Health { ok: db && probes, db, cache, probes }
}

impl Health {
    /// The document that `/healthz` answers.
    pub open spec fn doc(self) -> json::Doc {
        json::Doc::empty_object().with("ok"@, json::Doc::Bool(self.ok)).with(
            "db"@,
            json::Doc::Bool(self.db),
        ).with("cache"@, json::Doc::Bool(self.cache)).with("probes"@, json::Doc::Bool(self.probes))
    }

    /// The document that `/healthz` answers.
    pub fn body(&self) -> (r: Json)
        ensures
            r@ == self.doc(),
    {
        Json::object().with("ok", Json::Bool(self.ok)).with("db", Json::Bool(self.db)).with(
            "cache",
            Json::Bool(self.cache),
        ).with("probes", Json::Bool(self.probes))
    }
}

// ---------------------------------------------------------------------------
// Service info
// ---------------------------------------------------------------------------

/// What `/` says of one endpoint.
pub open spec fn endpoint_doc(
    method: Seq<char>,
    path: Seq<char>,
    auth: Seq<char>,
    purpose: Seq<char>,
) -> json::Doc {
    json::Doc::empty_object().with("method"@, json::Doc::String(method)).with(
        "path"@,
        json::Doc::String(path),
    ).with("auth"@, json::Doc::String(auth)).with("purpose"@, json::Doc::String(purpose))
}

/// What `/` says of one endpoint.
fn endpoint(method: &str, path: &str, auth: &str, purpose: &str) -> (r: Json)
    ensures
        r@ == endpoint_doc(method@, path@, auth@, purpose@),
{
    Json::object().with("method", Json::text(method)).with("path", Json::text(path)).with(
        "auth",
        Json::text(auth),
    ).with("purpose", Json::text(purpose))
}

/// The endpoints, and who may call them for what.
pub open spec fn endpoint_docs() -> Seq<json::Doc> {
    seq![
        endpoint_doc(
            "GET"@,
            "/"@,
            "none"@,
            "service info"@,
        ),
        endpoint_doc(
            "GET"@,
            "/ready"@,
            "none"@,
            "process readiness (no db dependency)"@,
        ),
        endpoint_doc(
            "GET"@,
            "/healthz"@,
            "none"@,
            "subsystem health booleans"@,
        ),
        endpoint_doc(
            "POST"@,
            "/v1/evaluate"@,
            "optional X-Gate-Token"@,
            "evaluate a proposed action; decision is recorded in the ledger"@,
        ),
        endpoint_doc(
            "GET"@,
            "/v1/ledger"@,
            "none"@,
            "ledger entries, newest first (?limit&offset)"@,
        ),
        endpoint_doc(
            "GET"@,
            "/v1/ledger/verify"@,
            "none"@,
            "recompute the full HMAC chain"@,
        ),
        endpoint_doc(
            "GET"@,
            "/v1/policies"@,
            "none"@,
            "policy list"@,
        ),
        endpoint_doc(
            "GET"@,
            "/v1/topology"@,
            "none"@,
            "topology model and live probe state"@,
        ),
        endpoint_doc(
            "GET"@,
            "/v1/drift"@,
            "none"@,
            "drift/audit ledger entries, newest first"@,
        ),
        endpoint_doc(
            "POST"@,
            "/v1/topology/sync"@,
            "X-Gate-Token required"@,
            "replace probe set from a fresh snapshot; flag unexplained removals"@,
        ),
        endpoint_doc(
            "POST"@,
            "/v1/demo/decommission"@,
            "none"@,
            "take the decommission target offline, with or without asking first"@,
        ),
    ]
}

/// What `/` answers.
pub open spec fn root_doc(version: Seq<char>) -> json::Doc {
    json::Doc::empty_object().with("name"@, json::Doc::String("esclusa-gate"@)).with(
        "version"@,
        json::Doc::String(version),
    ).with(
        "description"@,
        json::Doc::String(
            "Esclusa — policy gate and tamper-evident audit ledger for agent-driven infrastructure on Zerops"@,
        ),
    ).with("endpoints"@, json::Doc::Array(endpoint_docs()))
}

/// What `/` answers, for a version of the service.
pub fn root(version: &str) -> (r: Json)
    ensures
        r@ == root_doc(version@),
{
    let mut list: Vec<Json> = Vec::new();
    list.push(
        endpoint(
            "GET",
            "/",
            "none",
            "service info",
        ),
    );
    list.push(
        endpoint(
            "GET",
            "/ready",
            "none",
            "process readiness (no db dependency)",
        ),
    );
    list.push(
        endpoint(
            "GET",
            "/healthz",
            "none",
            "subsystem health booleans",
        ),
    );
    list.push(
        endpoint(
            "POST",
            "/v1/evaluate",
            "optional X-Gate-Token",
            "evaluate a proposed action; decision is recorded in the ledger",
        ),
    );
    list.push(
        endpoint(
            "GET",
            "/v1/ledger",
            "none",
            "ledger entries, newest first (?limit&offset)",
        ),
    );
    list.push(
        endpoint(
            "GET",
            "/v1/ledger/verify",
            "none",
            "recompute the full HMAC chain",
        ),
    );
    list.push(
        endpoint(
            "GET",
            "/v1/policies",
            "none",
            "policy list",
        ),
    );
    list.push(
        endpoint(
            "GET",
            "/v1/topology",
            "none",
            "topology model and live probe state",
        ),
    );
    list.push(
        endpoint(
            "GET",
            "/v1/drift",
            "none",
            "drift/audit ledger entries, newest first",
        ),
    );
    list.push(
        endpoint(
            "POST",
            "/v1/topology/sync",
            "X-Gate-Token required",
            "replace probe set from a fresh snapshot; flag unexplained removals",
        ),
    );
    list.push(
        endpoint(
            "POST",
            "/v1/demo/decommission",
            "none",
            "take the decommission target offline, with or without asking first",
        ),
    );
    let endpoints = Json::list(list);
    assert(endpoints@->Array_0 =~= endpoint_docs());
    Json::object().with("name", Json::text("esclusa-gate")).with(
        "version",
        Json::text(version),
    ).with(
        "description",
        Json::text(
            "Esclusa — policy gate and tamper-evident audit ledger for agent-driven infrastructure on Zerops",
        ),
    ).with("endpoints", endpoints)
}

// ---------------------------------------------------------------------------
// Laws
// ---------------------------------------------------------------------------

/// A reply is its status and its body.
pub proof fn law_a_reply_is_its_status_and_body(r: Reply)
    ensures
        r@.status == r.status,
        r@.body == r.body@,
{
}

/// A reply that reports an error has the status it was given, and a body with the
/// message as its only member.
pub proof fn law_an_error_is_told_in_words(status: int, msg: Seq<char>, other: Seq<char>)
    ensures
        error_reply(status, msg).status == status,
        error_reply(status, msg).body is Object,
        error_reply(status, msg).body.member("error"@) == Some(json::Doc::String(msg)),
        other != "error"@ ==> error_reply(status, msg).body.member(other) is None,
{
}

/// Without its ledger the service answers 503 and says that it fails closed.
pub proof fn law_without_its_ledger_the_service_fails_closed()
    ensures
        unavailable_reply().status == 503,
        unavailable_reply().body.member("error"@) == Some(
            json::Doc::String("ledger unavailable — the "@ + "gate"@ + " fails closed"@),
        ),
{
}

/// A request that nobody forwarded counts for its peer. One that was forwarded
/// counts for what stands before the first comma, without the white space around
/// it, and for its peer where nothing else stands there.
pub proof fn law_a_request_counts_for_its_first_address(list: Seq<char>, peer: Seq<char>, n: int)
    requires
        0 <= n <= list.len(),
        forall|i: int| 0 <= i < n ==> #[trigger] list[i] != ',',
        n < list.len() ==> list[n] == ',',
    ensures
        counted_address(None, peer) == peer,
        (forall|i: int| 0 <= i < n ==> text::is_white_space(#[trigger] list[i]))
            ==> counted_address(Some(list), peer) == peer,
        (exists|i: int| 0 <= i < n && !text::is_white_space(#[trigger] list[i]))
            ==> counted_address(Some(list), peer) == text::trim(list.take(n)),
{
    let b = text::before_first(list, ',');
    text::law_before_the_first_stop(list, ',');
    assert(b =~= list.subrange(0, b.len() as int));
    if b.len() > n {
        assert(b[n] == list[n]);
        assert(b.contains(','));
    }
    assert(b.len() == n);
    assert(b =~= list.take(n));
    text::law_trimming_takes_the_white_space_around(b);
    if forall|i: int| 0 <= i < n ==> text::is_white_space(#[trigger] list[i]) {
        assert(text::blank(b));
    }
    if exists|i: int| 0 <= i < n && !text::is_white_space(#[trigger] list[i]) {
        let i = choose|i: int| 0 <= i < n && !text::is_white_space(#[trigger] list[i]);
        assert(!text::is_white_space(b[i]));
    }
}

/// The health document shows each part under its name, and nothing else.
pub proof fn law_health_shows_each_part(h: Health, other: Seq<char>)
    ensures
        h.doc() is Object,
        h.doc().member("ok"@) == Some(json::Doc::Bool(h.ok)),
        h.doc().member("db"@) == Some(json::Doc::Bool(h.db)),
        h.doc().member("cache"@) == Some(json::Doc::Bool(h.cache)),
        h.doc().member("probes"@) == Some(json::Doc::Bool(h.probes)),
        other != "ok"@ && other != "db"@ && other != "cache"@ && other != "probes"@
            ==> h.doc().member(other) is None,
{
    reveal_strlit("ok");
    reveal_strlit("db");
    reveal_strlit("cache");
    reveal_strlit("probes");
    assert("ok"@.len() == 2 && "db"@.len() == 2 && "cache"@.len() == 5 && "probes"@.len() == 6);
    assert("ok"@[0] != "db"@[0]);
}

/// What is said of an endpoint stands under four names, each in its place.
pub proof fn law_an_endpoint_is_told_in_four_members(
    method: Seq<char>,
    path: Seq<char>,
    auth: Seq<char>,
    purpose: Seq<char>,
    other: Seq<char>,
)
    ensures
        ({
            let d = endpoint_doc(method, path, auth, purpose);
            &&& d is Object
            &&& d.member("method"@) == Some(json::Doc::String(method))
            &&& d.member("path"@) == Some(json::Doc::String(path))
            &&& d.member("auth"@) == Some(json::Doc::String(auth))
            &&& d.member("purpose"@) == Some(json::Doc::String(purpose))
            &&& other != "method"@ && other != "path"@ && other != "auth"@ && other != "purpose"@
                ==> d.member(other) is None
        }),
{
    reveal_strlit("method");
    reveal_strlit("path");
    reveal_strlit("auth");
    reveal_strlit("purpose");
    assert("method"@.len() == 6 && "path"@.len() == 4 && "auth"@.len() == 4 && "purpose"@.len()
        == 7);
    assert("path"@[0] != "auth"@[0]);
}

/// What `/` says of each endpoint: its path and its purpose, that three of them are
/// posted to and the others are read, and that only a sync requires the token.
pub proof fn law_the_endpoints(i: int)
    requires
        0 <= i < endpoint_docs().len(),
    ensures
        endpoint_docs().len() == 11,
        endpoint_docs()[i].member("method"@) == Some(
            json::Doc::String(
                if i == 3 || i == 9 || i == 10 {
                    "POST"@
                } else {
                    "GET"@
                },
            ),
        ),
        endpoint_docs()[i].member("auth"@) == Some(
            json::Doc::String(
                if i == 3 {
                    "optional X-Gate-Token"@
                } else if i == 9 {
                    "X-Gate-Token required"@
                } else {
                    "none"@
                },
            ),
        ),
        i == 0 ==> endpoint_docs()[i].member("path"@) == Some(json::Doc::String("/"@)),
        i == 0 ==> endpoint_docs()[i].member("purpose"@) == Some(
            json::Doc::String("service info"@),
        ),
        i == 1 ==> endpoint_docs()[i].member("path"@) == Some(json::Doc::String("/ready"@)),
        i == 1 ==> endpoint_docs()[i].member("purpose"@) == Some(
            json::Doc::String("process readiness (no db dependency)"@),
        ),
        i == 2 ==> endpoint_docs()[i].member("path"@) == Some(json::Doc::String("/healthz"@)),
        i == 2 ==> endpoint_docs()[i].member("purpose"@) == Some(
            json::Doc::String("subsystem health booleans"@),
        ),
        i == 3 ==> endpoint_docs()[i].member("path"@) == Some(json::Doc::String("/v1/evaluate"@)),
        i == 3 ==> endpoint_docs()[i].member("purpose"@) == Some(
            json::Doc::String("evaluate a proposed action; decision is recorded in the ledger"@),
        ),
        i == 4 ==> endpoint_docs()[i].member("path"@) == Some(json::Doc::String("/v1/ledger"@)),
        i == 4 ==> endpoint_docs()[i].member("purpose"@) == Some(
            json::Doc::String("ledger entries, newest first (?limit&offset)"@),
        ),
        i == 5 ==> endpoint_docs()[i].member("path"@) == Some(json::Doc::String("/v1/ledger/verify"@)),
        i == 5 ==> endpoint_docs()[i].member("purpose"@) == Some(
            json::Doc::String("recompute the full HMAC chain"@),
        ),
        i == 6 ==> endpoint_docs()[i].member("path"@) == Some(json::Doc::String("/v1/policies"@)),
        i == 6 ==> endpoint_docs()[i].member("purpose"@) == Some(
            json::Doc::String("policy list"@),
        ),
        i == 7 ==> endpoint_docs()[i].member("path"@) == Some(json::Doc::String("/v1/topology"@)),
        i == 7 ==> endpoint_docs()[i].member("purpose"@) == Some(
            json::Doc::String("topology model and live probe state"@),
        ),
        i == 8 ==> endpoint_docs()[i].member("path"@) == Some(json::Doc::String("/v1/drift"@)),
        i == 8 ==> endpoint_docs()[i].member("purpose"@) == Some(
            json::Doc::String("drift/audit ledger entries, newest first"@),
        ),
        i == 9 ==> endpoint_docs()[i].member("path"@) == Some(json::Doc::String("/v1/topology/sync"@)),
        i == 9 ==> endpoint_docs()[i].member("purpose"@) == Some(
            json::Doc::String("replace probe set from a fresh snapshot; flag unexplained removals"@),
        ),
        i == 10 ==> endpoint_docs()[i].member("path"@) == Some(json::Doc::String("/v1/demo/decommission"@)),
        i == 10 ==> endpoint_docs()[i].member("purpose"@) == Some(
            json::Doc::String("take the decommission target offline, with or without asking first"@),
        ),
{
    reveal_strlit("method");
    reveal_strlit("path");
    reveal_strlit("auth");
    reveal_strlit("purpose");
    assert("method"@.len() == 6 && "path"@.len() == 4 && "auth"@.len() == 4 && "purpose"@.len()
        == 7);
    assert("path"@[0] != "auth"@[0]);
}

/// What `/` answers: the name, the version it was given, the description and the
/// endpoints, and nothing else.
pub proof fn law_the_root_tells_what_the_service_is(version: Seq<char>, other: Seq<char>)
    ensures
        root_doc(version) is Object,
        root_doc(version).member("name"@) == Some(json::Doc::String("esclusa-gate"@)),
        root_doc(version).member("version"@) == Some(json::Doc::String(version)),
        root_doc(version).member("description"@) == Some(
            json::Doc::String(
                "Esclusa — policy gate and tamper-evident audit ledger for agent-driven infrastructure on Zerops"@,
            ),
        ),
        root_doc(version).member("endpoints"@) == Some(json::Doc::Array(endpoint_docs())),
        other != "name"@ && other != "version"@ && other != "description"@ && other != "endpoints"@
            ==> root_doc(version).member(other) is None,
{
    reveal_strlit("name");
    reveal_strlit("version");
    reveal_strlit("description");
    reveal_strlit("endpoints");
    assert("name"@.len() == 4 && "version"@.len() == 7 && "description"@.len() == 11
        && "endpoints"@.len() == 9);
}

} // verus!
